use diffus::Diffable;
use snake_case::SnakeCase;
use uuid::Uuid;

#[test]
fn equal_uuids_show_no_difference() {
    let a = Uuid::from_u128(0x1234);
    let b = Uuid::from_u128(0x1234);
    assert!(a.diff(&b).is_copy());
}

#[test]
fn different_uuids_are_a_change() {
    let a = Uuid::from_u128(1);
    let b = Uuid::from_u128(2);
    assert_eq!(a.diff(&b).change(), Some(&(&a, &b)));
}

#[test]
fn uuids_align_in_sequences() {
    let a = Uuid::from_u128(1);
    let b = Uuid::from_u128(2);
    let c = Uuid::from_u128(3);
    let left = vec![a, b];
    let right = vec![b, c];
    let diff = left.diff(&right);
    let entries = diff.change().unwrap();
    assert_eq!(entries.len(), 3);
    assert_eq!(entries[0].remove(), Some(&a));
    assert_eq!(entries[1].copy(), Some(&b));
    assert_eq!(entries[2].insert(), Some(&c));
}

#[test]
fn snake_case_names_diff_as_leaves() {
    let a = SnakeCase::try_from_str("first_name").unwrap();
    let b = SnakeCase::try_from_str("first_name").unwrap();
    let c = SnakeCase::try_from_str("last_name").unwrap();
    assert!(a.diff(&b).is_copy());
    let diff = a.diff(&c);
    let (l, r) = diff.change().unwrap();
    assert_eq!(l.as_str(), "first_name");
    assert_eq!(r.as_str(), "last_name");
}
