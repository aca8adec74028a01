use diffus::edit;
use diffus::Diffable;
use std::rc::Rc;
use std::sync::Arc;

#[test]
fn box_example() {
    let left = 13;
    let right = 37;

    if let edit::Edit::Change(diff) = Box::new(left).diff(&Box::new(right)) {
        assert_eq!(*diff, (&13, &37));
    } else {
        unreachable!()
    }
}

#[test]
fn rc_example() {
    let left = 13;
    let right = 37;

    if let edit::Edit::Change(diff) = Rc::new(left).diff(&Rc::new(right)) {
        assert_eq!(*diff, (&13, &37));
    } else {
        unreachable!()
    }
}

#[test]
fn arc_example() {
    let left = 13;
    let right = 37;

    if let edit::Edit::Change(diff) = Arc::new(left).diff(&Arc::new(right)) {
        assert_eq!(*diff, (&13, &37));
    } else {
        unreachable!()
    }
}

#[test]
fn reference_example() {
    let left = 13;
    let right = 37;

    if let edit::Edit::Change(diff) = (&left).diff(&(&right)) {
        assert_eq!(diff, (&13, &37));
    } else {
        unreachable!()
    }
}

#[test]
fn box_copy_keeps_the_left_handle() {
    let left = Box::new(5u8);
    let right = Box::new(5u8);
    let diff = left.diff(&right);
    let kept = diff.copy().unwrap();
    assert!(std::ptr::eq(kept, &left));
}

#[test]
fn reference_copy_keeps_the_left_reference() {
    let a = 7i64;
    let b = 7i64;
    let left = &a;
    let right = &b;
    assert!(left.diff(&right).is_copy());
}
