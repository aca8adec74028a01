//! Sets (`HashSet`, `BTreeSet`): every element is its own key. An element of both sets is `Copy`, of the right set only
//! `Insert`, of the left set only `Remove`.
use crate::diffable_impls::map::{MapKey, OrdKey};
use crate::edit;
use crate::edit::set::Edit as SetEdit;
use crate::Diffable;
use std::collections::{BTreeMap, BTreeSet, HashMap, HashSet};
use vstd::prelude::*;
use vstd::std_specs::btree::key_obeys_cmp_spec;
use vstd::std_specs::hash::{builds_valid_hashers, obeys_key_model};

verus! {

broadcast use vstd::std_specs::hash::group_hash_axioms, vstd::std_specs::btree::group_btree_axioms;

/// The entry for element `k` of the diff of the set `l` against `r`.
pub open spec fn set_entry_follows<'a, K>(l: Set<K>, r: Set<K>, k: K, e: SetEdit<'a, K>) -> bool {
    match e {
        SetEdit::Copy(v) => *v == k && l.contains(k) && r.contains(k),
        SetEdit::Insert(v) => *v == k && !l.contains(k) && r.contains(k),
        SetEdit::Remove(v) => *v == k && l.contains(k) && !r.contains(k),
    }
}

/// `d` is the diff of the set `l` against `r`: one entry for each element of either set.
pub open spec fn is_set_diff_of<'a, K>(l: Set<K>, r: Set<K>, d: Map<K, SetEdit<'a, K>>) -> bool {
    &&& d.dom() == l.union(r)
    &&& forall|k: K| #[trigger] d.contains_key(k) ==> set_entry_follows(l, r, k, d[k])
}

/// The diff of the set `left` against `right`, and whether the two sets are equal.
pub fn diff_sets<'a, K: MapKey>(left: &'a HashSet<K>, right: &'a HashSet<K>) -> (r: (
    HashMap<K, SetEdit<'a, K>>,
    bool,
))
    ensures
        is_set_diff_of(left@, right@, r.0@),
        r.1 <==> left@ == right@,
{
    proof {
        K::lemma_obeys_key_model();
    }
    let mut out: HashMap<K, SetEdit<'a, K>> = HashMap::new();
    let mut unchanged = true;
    for k in it: right.iter()
        invariant
            obeys_key_model::<K>(),
            builds_valid_hashers::<std::hash::RandomState>(),
            right@ == it.seq().unref().to_set(),
            forall|t: int| 0 <= t < it.index() ==> right@.contains(*(#[trigger] it.seq()[t])),
            forall|key: K| #[trigger]
                right@.contains(key) ==> exists|t: int|
                    0 <= t < it.seq().len() && *(#[trigger] it.seq()[t]) == key,
            forall|key: K| #[trigger]
                out@.contains_key(key) ==> !left@.contains(key) && right@.contains(key)
                    && set_entry_follows(left@, right@, key, out@[key]),
            forall|t: int|
                0 <= t < it.index() ==> (!left@.contains(*(#[trigger] it.seq()[t]))
                    ==> out@.contains_key(*it.seq()[t])),
            unchanged <==> forall|key: K| #[trigger] out@.contains_key(key) ==> out@[key] is Copy,
    {
        proof {
            assert(it.seq().unref()[it.index() as int] == *k);
            assert(it.seq().unref().contains(*k));
        }
        if !left.contains(k) {
            out.insert(*k, SetEdit::Insert(k));
            unchanged = false;
            assert(out@.contains_key(*k) && out@[*k] is Insert);
        }
    }
    assert forall|key: K| right@.contains(key) && !left@.contains(key) implies #[trigger]
        out@.contains_key(key) by {
    }
    for k in it: left.iter()
        invariant
            obeys_key_model::<K>(),
            builds_valid_hashers::<std::hash::RandomState>(),
            left@ == it.seq().unref().to_set(),
            forall|t: int| 0 <= t < it.index() ==> left@.contains(*(#[trigger] it.seq()[t])),
            forall|key: K| #[trigger]
                left@.contains(key) ==> exists|t: int|
                    0 <= t < it.seq().len() && *(#[trigger] it.seq()[t]) == key,
            it.seq().no_duplicates(),
            forall|key: K| #[trigger]
                out@.contains_key(key) ==> (left@.contains(key) || right@.contains(key))
                    && set_entry_follows(left@, right@, key, out@[key]),
            forall|key: K|
                right@.contains(key) && !left@.contains(key) ==> #[trigger] out@.contains_key(key),
            forall|t: int| 0 <= t < it.index() ==> out@.contains_key(*(#[trigger] it.seq()[t])),
            forall|key: K| #[trigger]
                out@.contains_key(key) && left@.contains(key) ==> exists|t: int|
                    0 <= t < it.index() && *(#[trigger] it.seq()[t]) == key,
            unchanged <==> forall|key: K| #[trigger] out@.contains_key(key) ==> out@[key] is Copy,
    {
        proof {
            assert(it.seq().unref()[it.index() as int] == *k);
            assert(it.seq().unref().contains(*k));
            if out@.contains_key(*k) {
                let t = choose|t: int| 0 <= t < it.index() && *(#[trigger] it.seq()[t]) == *k;
                assert(it.seq()[t] == it.seq()[it.index() as int]);
            }
            assert(!out@.contains_key(*k));
        }
        let ghost old_out = out@;
        let ghost was_unchanged = unchanged;
        if right.contains(k) {
            out.insert(*k, SetEdit::Copy(k));
        } else {
            out.insert(*k, SetEdit::Remove(k));
            unchanged = false;
            assert(out@.contains_key(*k) && out@[*k] is Remove);
        }
        proof {
            if was_unchanged && unchanged {
                assert forall|key: K| #[trigger] out@.contains_key(key) implies out@[key] is Copy by {
                    if key != *k {
                        assert(old_out.contains_key(key));
                    }
                }
            }
            if !was_unchanged {
                let w = choose|key: K| #[trigger] old_out.contains_key(key) && !(old_out[key] is Copy);
                assert(out@.contains_key(w) && !(out@[w] is Copy));
            }
        }
    }
    assert forall|key: K| left@.contains(key) implies #[trigger] out@.contains_key(key) by {
    }
    assert(out@.dom() =~= left@.union(right@));
    proof {
        if unchanged {
            assert forall|key: K| right@.contains(key) implies #[trigger] left@.contains(key) by {
                assert(out@.contains_key(key));
            }
            assert forall|key: K| left@.contains(key) implies #[trigger] right@.contains(key) by {
                assert(out@.contains_key(key));
            }
            assert(left@ =~= right@);
        }
        if left@ == right@ {
            assert forall|key: K| #[trigger] out@.contains_key(key) implies out@[key] is Copy by {
                assert(left@.contains(key));
            }
        }
    }
    (out, unchanged)
}

impl<'a, K: MapKey + 'a> Diffable<'a> for HashSet<K> {
    type Diff = HashMap<K, SetEdit<'a, K>>;

    open spec fn unchanged(&self, other: &Self) -> bool {
        self@ == other@
    }

    open spec fn is_change_of(&self, other: &Self, d: Self::Diff) -> bool {
        is_set_diff_of(self@, other@, d@)
    }

    proof fn lemma_unchanged_reflexive(x: &Self) {
    }

    fn diff(&'a self, other: &'a Self) -> (r: edit::Edit<'a, Self>) {
        let (d, unchanged) = diff_sets(self, other);
        if unchanged {
            edit::Edit::Copy(self)
        } else {
            edit::Edit::Change(d)
        }
    }
}

/// The diff of the ordered set `left` against `right`, and whether the two sets are equal.
pub fn diff_btree_sets<'a, K: OrdKey>(left: &'a BTreeSet<K>, right: &'a BTreeSet<K>) -> (r: (
    BTreeMap<K, SetEdit<'a, K>>,
    bool,
))
    ensures
        is_set_diff_of(left@, right@, r.0@),
        r.1 <==> left@ == right@,
{
    proof {
        K::lemma_key_obeys_cmp_spec();
    }
    let mut out: BTreeMap<K, SetEdit<'a, K>> = BTreeMap::new();
    let mut unchanged = true;
    for k in it: right.iter()
        invariant
            key_obeys_cmp_spec::<K>(),
            right@ == it.seq().unref().to_set(),
            forall|t: int| 0 <= t < it.index() ==> right@.contains(*(#[trigger] it.seq()[t])),
            forall|key: K| #[trigger]
                right@.contains(key) ==> exists|t: int|
                    0 <= t < it.seq().len() && *(#[trigger] it.seq()[t]) == key,
            forall|key: K| #[trigger]
                out@.contains_key(key) ==> !left@.contains(key) && right@.contains(key)
                    && set_entry_follows(left@, right@, key, out@[key]),
            forall|t: int|
                0 <= t < it.index() ==> (!left@.contains(*(#[trigger] it.seq()[t]))
                    ==> out@.contains_key(*it.seq()[t])),
            unchanged <==> forall|key: K| #[trigger] out@.contains_key(key) ==> out@[key] is Copy,
    {
        proof {
            assert(it.seq().unref()[it.index() as int] == *k);
            assert(it.seq().unref().contains(*k));
        }
        if !left.contains(k) {
            out.insert(*k, SetEdit::Insert(k));
            unchanged = false;
            assert(out@.contains_key(*k) && out@[*k] is Insert);
        }
    }
    assert forall|key: K| right@.contains(key) && !left@.contains(key) implies #[trigger]
        out@.contains_key(key) by {
    }
    for k in it: left.iter()
        invariant
            key_obeys_cmp_spec::<K>(),
            left@ == it.seq().unref().to_set(),
            forall|t: int| 0 <= t < it.index() ==> left@.contains(*(#[trigger] it.seq()[t])),
            forall|key: K| #[trigger]
                left@.contains(key) ==> exists|t: int|
                    0 <= t < it.seq().len() && *(#[trigger] it.seq()[t]) == key,
            it.seq().no_duplicates(),
            forall|key: K| #[trigger]
                out@.contains_key(key) ==> (left@.contains(key) || right@.contains(key))
                    && set_entry_follows(left@, right@, key, out@[key]),
            forall|key: K|
                right@.contains(key) && !left@.contains(key) ==> #[trigger] out@.contains_key(key),
            forall|t: int| 0 <= t < it.index() ==> out@.contains_key(*(#[trigger] it.seq()[t])),
            forall|key: K| #[trigger]
                out@.contains_key(key) && left@.contains(key) ==> exists|t: int|
                    0 <= t < it.index() && *(#[trigger] it.seq()[t]) == key,
            unchanged <==> forall|key: K| #[trigger] out@.contains_key(key) ==> out@[key] is Copy,
    {
        proof {
            assert(it.seq().unref()[it.index() as int] == *k);
            assert(it.seq().unref().contains(*k));
            if out@.contains_key(*k) {
                let t = choose|t: int| 0 <= t < it.index() && *(#[trigger] it.seq()[t]) == *k;
                assert(it.seq()[t] == it.seq()[it.index() as int]);
            }
            assert(!out@.contains_key(*k));
        }
        let ghost old_out = out@;
        let ghost was_unchanged = unchanged;
        if right.contains(k) {
            out.insert(*k, SetEdit::Copy(k));
        } else {
            out.insert(*k, SetEdit::Remove(k));
            unchanged = false;
            assert(out@.contains_key(*k) && out@[*k] is Remove);
        }
        proof {
            if was_unchanged && unchanged {
                assert forall|key: K| #[trigger] out@.contains_key(key) implies out@[key] is Copy by {
                    if key != *k {
                        assert(old_out.contains_key(key));
                    }
                }
            }
            if !was_unchanged {
                let w = choose|key: K| #[trigger] old_out.contains_key(key) && !(old_out[key] is Copy);
                assert(out@.contains_key(w) && !(out@[w] is Copy));
            }
        }
    }
    assert forall|key: K| left@.contains(key) implies #[trigger] out@.contains_key(key) by {
    }
    assert(out@.dom() =~= left@.union(right@));
    proof {
        if unchanged {
            assert forall|key: K| right@.contains(key) implies #[trigger] left@.contains(key) by {
                assert(out@.contains_key(key));
            }
            assert forall|key: K| left@.contains(key) implies #[trigger] right@.contains(key) by {
                assert(out@.contains_key(key));
            }
            assert(left@ =~= right@);
        }
        if left@ == right@ {
            assert forall|key: K| #[trigger] out@.contains_key(key) implies out@[key] is Copy by {
                assert(left@.contains(key));
            }
        }
    }
    (out, unchanged)
}

impl<'a, K: OrdKey + 'a> Diffable<'a> for BTreeSet<K> {
    type Diff = BTreeMap<K, SetEdit<'a, K>>;

    open spec fn unchanged(&self, other: &Self) -> bool {
        self@ == other@
    }

    open spec fn is_change_of(&self, other: &Self, d: Self::Diff) -> bool {
        is_set_diff_of(self@, other@, d@)
    }

    proof fn lemma_unchanged_reflexive(x: &Self) {
    }

    fn diff(&'a self, other: &'a Self) -> (r: edit::Edit<'a, Self>) {
        let (d, unchanged) = diff_btree_sets(self, other);
        if unchanged {
            edit::Edit::Copy(self)
        } else {
            edit::Edit::Change(d)
        }
    }
}

} // verus!
