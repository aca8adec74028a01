use diffus::edit::{self, string};
use diffus::Diffable;

fn sides(script: &[string::Edit]) -> (String, String) {
    let mut left = String::new();
    let mut right = String::new();
    for e in script {
        match *e {
            string::Edit::Copy(c) => {
                left.push(c);
                right.push(c);
            }
            string::Edit::Remove(c) => left.push(c),
            string::Edit::Insert(c) => right.push(c),
        }
    }
    (left, right)
}

#[test]
fn vis_check() {
    // A record `Inside { p }` with one field.
    if let edit::Edit::Change((edit::Edit::Change(diff),)) = (0u32,).diff(&(1u32,)) {
        assert_eq!(diff, (&0, &1));
    } else {
        unreachable!()
    }
}

#[test]
fn lib_nested() {
    // `Outer { inner: Inner { x, y }, lit }`.
    let left = (("x".to_owned(), 13u32), 3i32);
    let right = (("x".to_owned(), 37u32), 3i32);

    let diff = left.diff(&right);

    assert_eq!(
        diff.change().unwrap().0.change().unwrap().1.change().unwrap(),
        &(&13, &37)
    );
}

#[test]
fn simple() {
    // `Foo { x, y }`.
    let foo = ("Frodo".to_owned(), "Baggins".to_owned());
    let bar = ("Bilbo".to_owned(), "Baggins".to_owned());

    let diff = foo.diff(&bar);

    if let edit::Edit::Change(diff) = diff {
        match (diff.0, diff.1) {
            (edit::Edit::Change(script), edit::Edit::Copy(_)) => {
                let (left, right) = sides(&script);
                assert_eq!(left, "Frodo");
                assert_eq!(right, "Bilbo");
            }
            _ => unreachable!(),
        }
    } else {
        unreachable!()
    }
}

#[test]
fn struct_containing_str() {
    // `A { a }` with a string slice field.
    let a = ("a",);
    let ap = ("a'",);

    let diff = a.diff(&ap);
    let actual = diff.change().unwrap().0.change().unwrap();

    assert_eq!(actual, &vec![string::Edit::Copy('a'), string::Edit::Insert('\'')]);
}

#[test]
fn nested_records_report_the_inner_change() {
    // `Bar { x: Foo { x, y }, y }`.
    let foo = (("Frodo".to_owned(), "Baggins".to_owned()), "Shire".to_owned());
    let bar = (("Bilbo".to_owned(), "Baggins".to_owned()), "Shire".to_owned());

    let diff = foo.diff(&bar);
    let outer = diff.change().unwrap();
    assert!(outer.1.is_copy());
    let inner = outer.0.change().unwrap();
    assert!(inner.1.is_copy());
    let (left, right) = sides(inner.0.change().unwrap());
    assert_eq!(left, "Frodo");
    assert_eq!(right, "Bilbo");
}

#[test]
fn product_with_no_changed_component_is_copy() {
    let left = (1u8, 'c', true);
    let right = (1u8, 'c', true);
    assert!(left.diff(&right).is_copy());
}

#[test]
fn product_change_keeps_unchanged_components() {
    // `{ x: "x", y: 13 }` against `{ x: "x", y: 37 }`.
    let left = ("x".to_owned(), 13u32);
    let right = ("x".to_owned(), 37u32);
    let diff = left.diff(&right);
    let (x, y) = diff.change().unwrap();
    assert!(x.is_copy());
    assert_eq!(x.copy(), Some(&"x".to_owned()));
    assert_eq!(y.change(), Some(&(&13, &37)));
}

#[test]
fn triple_reports_each_component() {
    let left = (1i8, 2i16, 3i64);
    let right = (1i8, 5i16, 3i64);
    let diff = left.diff(&right);
    let (a, b, c) = diff.change().unwrap();
    assert!(a.is_copy());
    assert_eq!(b.change(), Some(&(&2i16, &5i16)));
    assert!(c.is_copy());
}
