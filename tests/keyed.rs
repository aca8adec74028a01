use diffus::edit;
use diffus::Diffable;
use std::collections::{BTreeMap, BTreeSet, HashMap, HashSet};

fn unity_maps() -> (HashMap<i32, i32>, HashMap<i32, i32>) {
    let unity: HashMap<_, _> = [(1, 1), (2, 2), (3, 3)].iter().cloned().collect();
    let not_unity: HashMap<_, _> = [(1, 1), (2, 3), (4, 4)].iter().cloned().collect();
    (unity, not_unity)
}

#[test]
fn hashmap_example() {
    let (unity, not_unity) = unity_maps();

    if let edit::Edit::Change(diff) = unity.diff(&not_unity) {
        assert!(diff.get(&1).unwrap().is_copy());
        assert_eq!(diff.get(&2).unwrap().change().unwrap(), &(&2, &3));
        assert!(diff.get(&3).unwrap().is_remove());
        assert_eq!(diff.get(&4).unwrap().insert().unwrap(), &4);
    } else {
        unreachable!()
    }
}

#[test]
fn map_example() {
    let unity: HashMap<_, _> = [(1, 1), (2, 2), (3, 3)].iter().cloned().collect();
    let not_unity: HashMap<_, _> = [(1, 1), (2, 3), (4, 4)].iter().cloned().collect();

    if let edit::Edit::Change(diff) = unity.diff(&not_unity) {
        assert!(diff[&1].is_copy());
        assert_eq!(diff[&2].change().unwrap(), &(&2, &3));
        assert!(diff[&3].is_remove());
        assert_eq!(diff[&4].insert().unwrap(), &4);
    } else {
        unreachable!()
    }
}

#[test]
fn diffable_impls_hashmap_simple() {
    let (unity, not_unity) = unity_maps();

    if let edit::Edit::Change(diff) = unity.diff(&not_unity) {
        assert!(diff.get(&1).unwrap().is_copy());
        assert_eq!(diff.get(&2).unwrap().change().unwrap(), &(&2, &3));
        assert!(diff.get(&3).unwrap().is_remove());
        assert_eq!(diff.get(&4).unwrap().insert().unwrap(), &4);
    } else {
        unreachable!()
    }
}

#[test]
fn lib_hashmap_simple() {
    let unity: HashMap<_, _> = [(1, 1), (2, 2), (3, 3)].iter().cloned().collect();
    let not_unity: HashMap<_, _> = [(1, 1), (2, 3), (4, 4)].iter().cloned().collect();

    if let edit::Edit::Change(diff) = unity.diff(&not_unity) {
        assert!(diff.get(&1).unwrap().is_copy());
        assert_eq!(diff.get(&2).unwrap().change().unwrap(), &(&2, &3));
        assert!(diff.get(&3).unwrap().is_remove());
        assert_eq!(diff.get(&4).unwrap().insert().unwrap(), &4);
    } else {
        unreachable!()
    }
}

#[test]
fn set_example() {
    let unity: HashSet<_> = [1, 2, 3].iter().cloned().collect();
    let not_unity: HashSet<_> = [1, 2, 4].iter().cloned().collect();

    if let edit::Edit::Change(diff) = unity.diff(&not_unity) {
        assert!(diff[&1].is_copy());
        assert!(diff[&2].is_copy());
        assert!(diff[&3].is_remove());
        assert_eq!(diff[&4].insert().unwrap(), &4);
    } else {
        unreachable!()
    }
}

#[test]
fn keyed_diff_covers_the_union_of_keys() {
    let (unity, not_unity) = unity_maps();
    let diff = unity.diff(&not_unity);
    let entries = diff.change().unwrap();
    let mut keys: Vec<i32> = entries.keys().cloned().collect();
    keys.sort();
    assert_eq!(keys, vec![1, 2, 3, 4]);
}

#[test]
fn equal_maps_show_no_difference() {
    let left: HashMap<u8, String> = [(1u8, "a".to_owned()), (2, "b".to_owned())].into_iter().collect();
    let right = left.clone();
    assert!(left.diff(&right).is_copy());
    let empty: HashMap<u8, String> = HashMap::new();
    assert!(empty.diff(&HashMap::new()).is_copy());
}

#[test]
fn map_values_are_diffed_recursively() {
    let left: HashMap<u8, String> = [(1u8, "ab".to_owned())].into_iter().collect();
    let right: HashMap<u8, String> = [(1u8, "b".to_owned())].into_iter().collect();
    let diff = left.diff(&right);
    let entries = diff.change().unwrap();
    let script = entries[&1].change().unwrap();
    assert_eq!(
        script,
        &vec![
            edit::string::Edit::Remove('a'),
            edit::string::Edit::Copy('b')
        ]
    );
}

#[test]
fn equal_sets_show_no_difference() {
    let left: HashSet<u64> = [5u64, 6].into_iter().collect();
    let right: HashSet<u64> = [6u64, 5].into_iter().collect();
    assert!(left.diff(&right).is_copy());
}

#[test]
fn set_entries_name_their_element() {
    let left: HashSet<u16> = [1u16].into_iter().collect();
    let right: HashSet<u16> = [2u16].into_iter().collect();
    let diff = left.diff(&right);
    let entries = diff.change().unwrap();
    assert_eq!(entries.len(), 2);
    assert_eq!(entries[&1].remove(), Some(&1));
    assert_eq!(entries[&2].insert(), Some(&2));
    assert_eq!(entries[&2].copy(), None);
}

#[test]
fn ordered_map_example() {
    let unity: BTreeMap<u64, u8> = [(1u64, 1u8), (2, 2), (3, 3)].into_iter().collect();
    let not_unity: BTreeMap<u64, u8> = [(1u64, 1u8), (2, 3), (4, 4)].into_iter().collect();

    let diff = unity.diff(&not_unity);
    let entries = diff.change().unwrap();
    assert_eq!(entries.keys().cloned().collect::<Vec<_>>(), vec![1, 2, 3, 4]);
    assert!(entries[&1].is_copy());
    assert_eq!(entries[&2].change().unwrap(), &(&2u8, &3u8));
    assert!(entries[&3].is_remove());
    assert_eq!(entries[&4].insert().unwrap(), &4u8);
    assert!(unity.diff(&unity.clone()).is_copy());
}

#[test]
fn ordered_set_example() {
    let unity: BTreeSet<i32> = [1, 2, 3].into_iter().collect();
    let not_unity: BTreeSet<i32> = [1, 2, 4].into_iter().collect();

    let diff = unity.diff(&not_unity);
    let entries = diff.change().unwrap();
    assert!(entries[&1].is_copy());
    assert!(entries[&2].is_copy());
    assert!(entries[&3].is_remove());
    assert_eq!(entries[&4].insert().unwrap(), &4);
    assert!(unity.diff(&unity.clone()).is_copy());
}
