use diffus::diffable_impls::collection::{diff_slice, lcs_post_change};
use diffus::edit::{self, collection, string};
use diffus::identified::{EditedIdentified, Identified};
use diffus::lcs;
use diffus::Diffable;
use std::collections::VecDeque;

fn resolve<T: Copy>(x: &[T], y: &[T], steps: Vec<lcs::Edit<usize>>) -> Vec<lcs::Edit<T>> {
    steps
        .into_iter()
        .map(|e| match e {
            lcs::Edit::Same(i, j) => lcs::Edit::Same(x[i], y[j]),
            lcs::Edit::Insert(j) => lcs::Edit::Insert(y[j]),
            lcs::Edit::Remove(i) => lcs::Edit::Remove(x[i]),
        })
        .collect()
}

#[test]
fn characters() {
    let left: Vec<char> = "XMJYAUZ".chars().collect();
    let right: Vec<char> = "MZJAWXU".chars().collect();

    let s = resolve(&left, &right, lcs::lcs(&left, &right));

    assert_eq!(
        s,
        vec![
            lcs::Edit::Remove('X'),
            lcs::Edit::Same('M', 'M'),
            lcs::Edit::Insert('Z'),
            lcs::Edit::Same('J', 'J'),
            lcs::Edit::Remove('Y'),
            lcs::Edit::Same('A', 'A'),
            lcs::Edit::Insert('W'),
            lcs::Edit::Insert('X'),
            lcs::Edit::Same('U', 'U'),
            lcs::Edit::Remove('Z')
        ]
    );
}

#[test]
fn words() {
    let left = "The quick brown fox jumps over the lazy dog";
    let right = "The quick brown dog leaps over the lazy cat";
    let x: Vec<String> = left.split_whitespace().map(|w| w.to_owned()).collect();
    let y: Vec<String> = right.split_whitespace().map(|w| w.to_owned()).collect();
    let xs: Vec<&str> = left.split_whitespace().collect();
    let ys: Vec<&str> = right.split_whitespace().collect();

    let s = resolve(&xs, &ys, lcs::lcs(&x, &y));

    assert_eq!(
        s,
        vec![
            lcs::Edit::Same("The", "The"),
            lcs::Edit::Same("quick", "quick"),
            lcs::Edit::Same("brown", "brown"),
            lcs::Edit::Remove("fox"),
            lcs::Edit::Remove("jumps"),
            lcs::Edit::Insert("dog"),
            lcs::Edit::Insert("leaps"),
            lcs::Edit::Same("over", "over"),
            lcs::Edit::Same("the", "the"),
            lcs::Edit::Same("lazy", "lazy"),
            lcs::Edit::Remove("dog"),
            lcs::Edit::Insert("cat")
        ]
    );
}

#[test]
fn collection_diff() {
    let left = b"XMJYAUZ".to_vec();
    let right = b"MZJAWXU".to_vec();

    let diff = left.diff(&right);
    if let edit::Edit::Change(diff) = diff {
        assert_eq!(
            diff.into_iter().collect::<Vec<_>>(),
            vec![
                collection::Edit::Remove(&b'X'),
                collection::Edit::Copy(&b'M'),
                collection::Edit::Insert(&b'Z'),
                collection::Edit::Copy(&b'J'),
                collection::Edit::Remove(&b'Y'),
                collection::Edit::Copy(&b'A'),
                collection::Edit::Insert(&b'W'),
                collection::Edit::Insert(&b'X'),
                collection::Edit::Copy(&b'U'),
                collection::Edit::Remove(&b'Z')
            ]
        );
    } else {
        unreachable!()
    }
}

#[test]
fn vec_diff() {
    let left = b"XMJYAUZ".to_vec();
    let right = b"MZJAWXU".to_vec();

    let diff = left.diff(&right);
    if let edit::Edit::Change(diff) = diff {
        assert_eq!(
            diff,
            vec![
                collection::Edit::Remove(&b'X'),
                collection::Edit::Copy(&b'M'),
                collection::Edit::Insert(&b'Z'),
                collection::Edit::Copy(&b'J'),
                collection::Edit::Remove(&b'Y'),
                collection::Edit::Copy(&b'A'),
                collection::Edit::Insert(&b'W'),
                collection::Edit::Insert(&b'X'),
                collection::Edit::Copy(&b'U'),
                collection::Edit::Remove(&b'Z')
            ]
        );
    } else {
        unreachable!()
    }
}

#[test]
fn string() {
    let left = "XMJYAUZ".to_owned();
    let right = "MZJAWXU".to_owned();

    let diff = left.diff(&right);
    if let edit::Edit::Change(diff) = diff {
        assert_eq!(
            diff.into_iter().collect::<Vec<_>>(),
            vec![
                string::Edit::Remove('X'),
                string::Edit::Copy('M'),
                string::Edit::Insert('Z'),
                string::Edit::Copy('J'),
                string::Edit::Remove('Y'),
                string::Edit::Copy('A'),
                string::Edit::Insert('W'),
                string::Edit::Insert('X'),
                string::Edit::Copy('U'),
                string::Edit::Remove('Z')
            ]
        );
    } else {
        unreachable!()
    }
}

#[test]
fn str() {
    let left = "XMJYAUZ";
    let right = "MZJAWXU";

    let diff = left.diff(&right);
    if let edit::Edit::Change(diff) = diff {
        assert_eq!(
            diff.into_iter().collect::<Vec<_>>(),
            vec![
                string::Edit::Remove('X'),
                string::Edit::Copy('M'),
                string::Edit::Insert('Z'),
                string::Edit::Copy('J'),
                string::Edit::Remove('Y'),
                string::Edit::Copy('A'),
                string::Edit::Insert('W'),
                string::Edit::Insert('X'),
                string::Edit::Copy('U'),
                string::Edit::Remove('Z')
            ]
        );
    } else {
        unreachable!()
    }
}

#[test]
fn non_trivial_same_collection() {
    let left = vec![
        Identified { id: 1u32, value: 0u32 },
        Identified { id: 2, value: 0 },
        Identified { id: 3, value: 0 },
        Identified { id: 4, value: 0 },
        Identified { id: 5, value: 0 },
        Identified { id: 6, value: 0 },
        Identified { id: 7, value: 0 },
    ];
    let right = vec![
        Identified { id: 1u32, value: 0u32 },
        Identified { id: 2, value: 1 },
        Identified { id: 4, value: 0 },
        Identified { id: 3, value: 0 },
        Identified { id: 5, value: 0 },
        Identified { id: 6, value: 0 },
    ];

    let diff = left.diff(&right);

    if let edit::Edit::Change(diff) = diff {
        let diff = diff.into_iter().collect::<Vec<_>>();

        if let (
            &collection::Edit::Change(EditedIdentified {
                id: edit::Edit::Copy(&2),
                value: edit::Edit::Change((&0, &1)),
            }),
            &collection::Edit::Remove(&Identified { id: 3, value: 0 }),
            &collection::Edit::Copy(&Identified { id: 4, value: 0 }),
            &collection::Edit::Insert(&Identified { id: 3, value: 0 }),
        ) = (&diff[1], &diff[2], &diff[3], &diff[4])
        {
        } else {
            unreachable!()
        }
    } else {
        unreachable!()
    }
}

#[test]
fn identified_records_are_matched_by_id() {
    let left = vec![
        Identified::new(1u32, 0u32),
        Identified::new(2, 0),
        Identified::new(3, 0),
    ];
    let right = vec![Identified::new(1u32, 0u32), Identified::new(2, 1)];

    let diff = left.diff(&right);
    let entries = diff.change().unwrap();
    assert_eq!(entries.len(), 3);
    assert_eq!(entries[0].copy(), Some(&Identified::new(1, 0)));
    let changed = entries[1].change().unwrap();
    assert!(changed.id.is_copy());
    assert_eq!(changed.value.change(), Some(&(&0, &1)));
    assert_eq!(entries[2].remove(), Some(&Identified::new(3, 0)));
}

#[test]
fn equal_vectors_show_no_difference() {
    let left = vec![1i32, 2, 3];
    let right = vec![1i32, 2, 3];
    let diff = left.diff(&right);
    assert!(diff.is_copy());
    assert!(std::ptr::eq(diff.copy().unwrap(), &left));
}

#[test]
fn empty_vectors_show_no_difference() {
    let left: Vec<u8> = Vec::new();
    let right: Vec<u8> = Vec::new();
    assert!(left.diff(&right).is_copy());
}

#[test]
fn empty_against_full_inserts_everything() {
    let left: Vec<u8> = Vec::new();
    let right = vec![4u8, 5];
    let diff = left.diff(&right);
    let entries = diff.change().unwrap();
    assert_eq!(entries, &vec![collection::Edit::Insert(&4u8), collection::Edit::Insert(&5u8)]);
}

#[test]
fn full_against_empty_removes_everything() {
    let left = vec![4u8, 5];
    let right: Vec<u8> = Vec::new();
    let diff = left.diff(&right);
    let entries = diff.change().unwrap();
    assert_eq!(entries, &vec![collection::Edit::Remove(&4u8), collection::Edit::Remove(&5u8)]);
}

#[test]
fn common_prefix_and_suffix_are_matched() {
    let left = vec![1u8, 2, 3, 9, 4, 5];
    let right = vec![1u8, 2, 3, 8, 4, 5];
    let steps = lcs::lcs(&left, &right);
    assert_eq!(
        steps,
        vec![
            lcs::Edit::Same(0, 0),
            lcs::Edit::Same(1, 1),
            lcs::Edit::Same(2, 2),
            lcs::Edit::Remove(3),
            lcs::Edit::Insert(3),
            lcs::Edit::Same(4, 4),
            lcs::Edit::Same(5, 5),
        ]
    );
    assert!(steps[0].is_same());
    assert!(!steps[3].is_same());
}

#[test]
fn repeated_alignment_gives_the_same_script() {
    let left: Vec<char> = "abcabba".chars().collect();
    let right: Vec<char> = "cbabac".chars().collect();
    let first = lcs::lcs(&left, &right);
    let second = lcs::lcs(&left, &right);
    assert_eq!(first, second);
}

#[test]
fn alignment_matches_a_longest_common_subsequence() {
    let left: Vec<char> = "abcabba".chars().collect();
    let right: Vec<char> = "cbabac".chars().collect();
    let steps = lcs::lcs(&left, &right);
    let matched = steps.iter().filter(|e| e.is_same()).count();
    assert_eq!(matched, 4);
    let lefts: Vec<usize> = steps
        .iter()
        .filter_map(|e| match e {
            lcs::Edit::Same(i, _) | lcs::Edit::Remove(i) => Some(*i),
            lcs::Edit::Insert(_) => None,
        })
        .collect();
    let rights: Vec<usize> = steps
        .iter()
        .filter_map(|e| match e {
            lcs::Edit::Same(_, j) | lcs::Edit::Insert(j) => Some(*j),
            lcs::Edit::Remove(_) => None,
        })
        .collect();
    assert_eq!(lefts, (0..left.len()).collect::<Vec<_>>());
    assert_eq!(rights, (0..right.len()).collect::<Vec<_>>());
}

#[test]
fn slice_script_matches_vector_script() {
    let left = vec![1u8, 2, 3];
    let right = vec![2u8, 3, 4];
    let script = diff_slice(&left, &right);
    assert_eq!(
        script,
        vec![
            collection::Edit::Remove(&1u8),
            collection::Edit::Copy(&2u8),
            collection::Edit::Copy(&3u8),
            collection::Edit::Insert(&4u8),
        ]
    );
}

#[test]
fn equal_strings_show_no_difference() {
    let left = "Bilbo".to_owned();
    let right = "Bilbo".to_owned();
    assert!(left.diff(&right).is_copy());
    let empty = String::new();
    assert!(empty.diff(&String::new()).is_copy());
}

#[test]
fn post_change_follows_any_steps_in_range() {
    let left: Vec<u8> = Vec::new();
    let right = vec![7u8, 8];
    let steps = vec![lcs::Edit::Insert(0)];
    let script = lcs_post_change(&left, &right, &steps);
    assert_eq!(script, vec![collection::Edit::Insert(&7u8)]);

    let left = vec![1u8, 2];
    let right = vec![2u8, 1];
    let steps = vec![lcs::Edit::Same(0, 1), lcs::Edit::Same(1, 1), lcs::Edit::Remove(1)];
    let script = lcs_post_change(&left, &right, &steps);
    assert_eq!(
        script,
        vec![
            collection::Edit::Copy(&1u8),
            collection::Edit::Change((&2u8, &1u8)),
            collection::Edit::Remove(&2u8),
        ]
    );
}

#[test]
fn deque_diff_matches_vector_diff() {
    let left: VecDeque<u8> = b"XMJYAUZ".iter().cloned().collect();
    let right: VecDeque<u8> = b"MZJAWXU".iter().cloned().collect();
    let diff = left.diff(&right);
    assert_eq!(
        diff.change().unwrap(),
        &vec![
            collection::Edit::Remove(&b'X'),
            collection::Edit::Copy(&b'M'),
            collection::Edit::Insert(&b'Z'),
            collection::Edit::Copy(&b'J'),
            collection::Edit::Remove(&b'Y'),
            collection::Edit::Copy(&b'A'),
            collection::Edit::Insert(&b'W'),
            collection::Edit::Insert(&b'X'),
            collection::Edit::Copy(&b'U'),
            collection::Edit::Remove(&b'Z')
        ]
    );
    assert!(left.diff(&left.clone()).is_copy());
}

#[test]
fn deque_pairs_are_diffed() {
    let left: VecDeque<Identified<u32, i8>> =
        vec![Identified::new(1u32, 5i8), Identified::new(2, 6)].into_iter().collect();
    let right: VecDeque<Identified<u32, i8>> =
        vec![Identified::new(2u32, 7i8)].into_iter().collect();
    let diff = left.diff(&right);
    let entries = diff.change().unwrap();
    assert_eq!(entries.len(), 2);
    assert!(entries[0].is_remove());
    let changed = entries[1].change().unwrap();
    assert!(changed.id.is_copy());
    assert_eq!(changed.value.change(), Some(&(&6i8, &7i8)));
}
