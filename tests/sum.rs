use diffus::edit::{self, enm};
use diffus::Diffable;

// A sum of four shapes: `C { x }`, `Cd { x, y }`, `B(s)` and `Bd(s, n)`.
type Test = Result<Result<u32, (u32, String)>, Result<String, (String, u32)>>;

fn c(x: u32) -> Test {
    Ok(Ok(x))
}

fn cd(x: u32, y: &str) -> Test {
    Ok(Err((x, y.to_owned())))
}

fn b(s: &str) -> Test {
    Err(Ok(s.to_owned()))
}

fn bd(s: &str, n: u32) -> Test {
    Err(Err((s.to_owned(), n)))
}

#[test]
fn is_copy() {
    assert!((None as Option<u32>).diff(&None).is_copy());
    assert!(Some(3).diff(&Some(3)).is_copy());
}

#[test]
fn variant_changed() {
    if let Some(enm::Edit::VariantChanged(&None, &Some(3))) = None.diff(&Some(3)).change() {
    } else {
        unreachable!();
    }
}

#[test]
fn associate_change() {
    if let Some(enm::Edit::AssociatedChanged((&1, &2))) = Some(1).diff(&Some(2)).change() {
    } else {
        unreachable!();
    }
}

#[test]
fn enm_nested_test() {
    // A single-variant wrapper `T { test }` around a `Test`.
    let left = Some(c(32));
    let right = Some(c(43));

    let diff = left.diff(&right);

    if let enm::Edit::AssociatedChanged(test) = diff.change().unwrap() {
        if let enm::Edit::AssociatedChanged(Ok(enm::Edit::AssociatedChanged(Ok(x)))) = test {
            assert_eq!(x, &(&32, &43));
        } else {
            unreachable!();
        }
    } else {
        unreachable!();
    }
}

#[test]
fn enm_associated_not_change_tuple_variant() {
    let left = bd("Bilbo Baggins", 42);
    let right = bd("Bilbo Baggins", 42);

    assert!(left.diff(&right).is_copy());
}

#[test]
fn enm_associated_not_change() {
    let left = cd(42, "Bilbo Baggins");
    let right = cd(42, "Bilbo Baggins");

    assert!(left.diff(&right).is_copy());
}

#[test]
fn enm_associated_change() {
    let left = cd(42, "Bilbo Baggins");
    let right = cd(42, "Frodo Baggins");
    if let edit::Edit::Change(enm::Edit::AssociatedChanged(Ok(enm::Edit::AssociatedChanged(Err((
        x,
        y,
    )))))) = left.diff(&right)
    {
        assert!(x.is_copy());
        assert!(y.is_change());
    } else {
        unreachable!()
    }
}

#[test]
fn enm_variant_change() {
    let left = cd(42, "Bilbo Baggins");
    let right = b("Frodo Baggins");
    if let edit::Edit::Change(enm::Edit::VariantChanged(l, r)) = left.diff(&right) {
        assert_eq!(&left, l);
        assert_eq!(&right, r);
    } else {
        unreachable!()
    }
}

#[test]
fn variant_change_inside_an_equal_outer_variant() {
    let left = c(1);
    let right = cd(1, "a");
    let diff = left.diff(&right);
    if let edit::Edit::Change(enm::Edit::AssociatedChanged(Ok(inner))) = diff {
        assert!(inner.is_variant_changed());
        assert_eq!(inner.variant_changed(), Some((&Ok(1), &Err((1, "a".to_owned())))));
        assert!(!inner.is_associated_changed());
        assert!(inner.associated_change().is_none());
    } else {
        unreachable!()
    }
}

#[test]
fn error_payloads_are_diffed() {
    let left: Result<u8, i16> = Err(-1);
    let right: Result<u8, i16> = Err(1);
    let diff = left.diff(&right);
    let change = diff.change().unwrap();
    assert!(change.is_associated_changed());
    if let Some(Err(d)) = change.associated_change() {
        assert_eq!(d, &(&-1i16, &1i16));
    } else {
        unreachable!()
    }
}

#[test]
fn sum_enum_copy_accessors() {
    let left: Option<bool> = Some(true);
    let right: Option<bool> = Some(true);
    let diff = left.diff(&right);
    assert!(diff.is_copy());
    assert!(!diff.is_change());
    assert!(diff.change().is_none());
}
