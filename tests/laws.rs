use diffus::edit::{collection, enm, string};
use diffus::identified::{EditedIdentified, Identified};
use diffus::Diffable;
use std::collections::{HashMap, HashSet};

#[test]
fn diff_with_itself_shows_no_difference() {
    let v = vec![Some(1u8), None, Some(3)];
    assert!(v.diff(&v).is_copy());
    let s = "reflexive".to_owned();
    assert!(s.diff(&s).is_copy());
    let m: HashMap<i64, Vec<u8>> = [(1i64, vec![1u8]), (2, vec![])].into_iter().collect();
    assert!(m.diff(&m).is_copy());
    let set: HashSet<i8> = [1i8, -1].into_iter().collect();
    assert!(set.diff(&set).is_copy());
    let r: Result<(u8, String), char> = Ok((1, "x".to_owned()));
    assert!(r.diff(&r).is_copy());
    let rec = Identified::new(3u32, "v".to_owned());
    assert!(rec.diff(&rec).is_copy());
}

#[test]
fn letters_are_aligned_by_longest_common_subsequence() {
    let left: Vec<char> = "XMJYAUZ".chars().collect();
    let right: Vec<char> = "MZJAWXU".chars().collect();
    let diff = left.diff(&right);
    let entries = diff.change().unwrap();
    let copies = entries.iter().filter(|e| e.is_copy()).count();
    assert_eq!(copies, 4);
    assert_eq!(entries[0], collection::Edit::Remove(&'X'));
    assert_eq!(entries[9], collection::Edit::Remove(&'Z'));
}

#[test]
fn same_variant_reports_payload_change() {
    let left: Option<(u32,)> = Some((32,));
    let right: Option<(u32,)> = Some((43,));
    let diff = left.diff(&right);
    if let Some(enm::Edit::AssociatedChanged((x,))) = diff.change() {
        assert_eq!(x.change(), Some(&(&32, &43)));
    } else {
        unreachable!()
    }
}

#[test]
fn different_variants_keep_both_values() {
    let left: Result<(u32, String), String> = Ok((42, "a".to_owned()));
    let right: Result<(u32, String), String> = Err("b".to_owned());
    let diff = left.diff(&right);
    assert_eq!(
        diff.change().unwrap().variant_changed(),
        Some((&left, &right))
    );
}

#[test]
fn records_with_ids_track_changes() {
    let left = vec![
        Identified::new(1u32, 0u32),
        Identified::new(2, 0),
        Identified::new(3, 0),
    ];
    let right = vec![Identified::new(1u32, 0u32), Identified::new(2, 1)];
    let diff = left.diff(&right);
    let entries = diff.change().unwrap();
    assert!(entries[0].is_copy());
    if let collection::Edit::Change(EditedIdentified { id, value }) = &entries[1] {
        assert!(id.is_copy());
        assert_eq!(value.change(), Some(&(&0, &1)));
    } else {
        unreachable!()
    }
    assert!(entries[2].is_remove());
}

#[test]
fn products_show_no_difference_exactly_when_components_do() {
    let left = (1u8, "a".to_owned());
    let same = (1u8, "a".to_owned());
    assert!(left.0.diff(&same.0).is_copy() && left.1.diff(&same.1).is_copy());
    assert!(left.diff(&same).is_copy());
    let other = (1u8, "b".to_owned());
    assert!(!left.1.diff(&other.1).is_copy());
    assert!(!left.diff(&other).is_copy());
}

#[test]
fn string_scripts_are_repeatable() {
    let left = "kitten".to_owned();
    let right = "sitting".to_owned();
    let first = left.diff(&right);
    let second = left.diff(&right);
    assert_eq!(first.change(), second.change());
    let script = first.change().unwrap();
    assert_eq!(
        script,
        &vec![
            string::Edit::Remove('k'),
            string::Edit::Insert('s'),
            string::Edit::Copy('i'),
            string::Edit::Copy('t'),
            string::Edit::Copy('t'),
            string::Edit::Remove('e'),
            string::Edit::Insert('i'),
            string::Edit::Copy('n'),
            string::Edit::Insert('g'),
        ]
    );
}
