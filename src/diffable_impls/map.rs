//! Keyed containers (`HashMap`, `BTreeMap`): matched by key, never by position. A key on one side only is `Insert` or
//! `Remove`; a key on both sides carries the diff of its two values, "no difference" included.
use crate::edit;
use crate::edit::map::Edit as KeyedEdit;
use crate::Diffable;
use std::collections::{BTreeMap, HashMap};
use std::hash::Hash;
use vstd::prelude::*;
use vstd::std_specs::btree::key_obeys_cmp_spec;
use vstd::std_specs::hash::{builds_valid_hashers, obeys_key_model};

verus! {

broadcast use vstd::std_specs::hash::group_hash_axioms, vstd::std_specs::btree::group_btree_axioms,
    vstd::laws_cmp::group_laws_cmp;

/// A key type whose hashing and equality follow its value, so that a `HashMap` keyed by it
/// behaves as a finite map.
pub trait MapKey: Copy + Eq + Hash {
    proof fn lemma_obeys_key_model()
        ensures
            obeys_key_model::<Self>(),
    ;
}

impl MapKey for u8 {
    proof fn lemma_obeys_key_model() {
    }
}

impl MapKey for u16 {
    proof fn lemma_obeys_key_model() {
    }
}

impl MapKey for u32 {
    proof fn lemma_obeys_key_model() {
    }
}

impl MapKey for u64 {
    proof fn lemma_obeys_key_model() {
    }
}

impl MapKey for u128 {
    proof fn lemma_obeys_key_model() {
    }
}

impl MapKey for usize {
    proof fn lemma_obeys_key_model() {
    }
}

impl MapKey for i8 {
    proof fn lemma_obeys_key_model() {
    }
}

impl MapKey for i16 {
    proof fn lemma_obeys_key_model() {
    }
}

impl MapKey for i32 {
    proof fn lemma_obeys_key_model() {
    }
}

impl MapKey for i64 {
    proof fn lemma_obeys_key_model() {
    }
}

impl MapKey for i128 {
    proof fn lemma_obeys_key_model() {
    }
}

impl MapKey for isize {
    proof fn lemma_obeys_key_model() {
    }
}

impl MapKey for bool {
    proof fn lemma_obeys_key_model() {
    }
}

/// A key type whose ordering is a total order on its values, so that a `BTreeMap` keyed by it
/// behaves as a finite map.
pub trait OrdKey: Copy + Ord {
    proof fn lemma_key_obeys_cmp_spec()
        ensures
            key_obeys_cmp_spec::<Self>(),
    ;
}

impl OrdKey for u8 {
    proof fn lemma_key_obeys_cmp_spec() {
    }
}

impl OrdKey for u16 {
    proof fn lemma_key_obeys_cmp_spec() {
    }
}

impl OrdKey for u32 {
    proof fn lemma_key_obeys_cmp_spec() {
    }
}

impl OrdKey for u64 {
    proof fn lemma_key_obeys_cmp_spec() {
    }
}

impl OrdKey for u128 {
    proof fn lemma_key_obeys_cmp_spec() {
    }
}

impl OrdKey for usize {
    proof fn lemma_key_obeys_cmp_spec() {
    }
}

impl OrdKey for i8 {
    proof fn lemma_key_obeys_cmp_spec() {
    }
}

impl OrdKey for i16 {
    proof fn lemma_key_obeys_cmp_spec() {
    }
}

impl OrdKey for i32 {
    proof fn lemma_key_obeys_cmp_spec() {
    }
}

impl OrdKey for i64 {
    proof fn lemma_key_obeys_cmp_spec() {
    }
}

impl OrdKey for i128 {
    proof fn lemma_key_obeys_cmp_spec() {
    }
}

impl OrdKey for isize {
    proof fn lemma_key_obeys_cmp_spec() {
    }
}

/// The entry for key `k` of the diff of `l` against `r`.
pub open spec fn keyed_entry_follows<'a, K, V: Diffable<'a>>(
    l: Map<K, V>,
    r: Map<K, V>,
    k: K,
    e: KeyedEdit<'a, V>,
) -> bool {
    if l.contains_key(k) && r.contains_key(k) {
        &&& (e is Copy || e is Change)
        &&& (e is Copy <==> l[k].unchanged(&r[k]))
        &&& (e matches KeyedEdit::Change(c) ==> l[k].is_change_of(&r[k], c))
    } else if l.contains_key(k) {
        e is Remove
    } else {
        e matches KeyedEdit::Insert(v) && *v == r[k]
    }
}

/// `d` is the diff of `l` against `r`: one entry for each key of either side.
pub open spec fn is_keyed_diff_of<'a, K, V: Diffable<'a>>(
    l: Map<K, V>,
    r: Map<K, V>,
    d: Map<K, KeyedEdit<'a, V>>,
) -> bool {
    &&& d.dom() == l.dom().union(r.dom())
    &&& forall|k: K| #[trigger] d.contains_key(k) ==> keyed_entry_follows(l, r, k, d[k])
}

/// Both sides have the same keys and no value differs.
pub open spec fn map_unchanged<'a, K, V: Diffable<'a>>(l: Map<K, V>, r: Map<K, V>) -> bool {
    &&& l.dom() == r.dom()
    &&& forall|k: K| #[trigger] l.contains_key(k) ==> l[k].unchanged(&r[k])
}

/// The diff of `left` against `right`, and whether it shows no difference.
pub fn diff_maps<'a, K: MapKey, V: Diffable<'a>>(
    left: &'a HashMap<K, V>,
    right: &'a HashMap<K, V>,
) -> (r: (HashMap<K, KeyedEdit<'a, V>>, bool))
    ensures
        is_keyed_diff_of(left@, right@, r.0@),
        r.1 <==> map_unchanged(left@, right@),
{
    proof {
        K::lemma_obeys_key_model();
    }
    let mut out: HashMap<K, KeyedEdit<'a, V>> = HashMap::new();
    let mut unchanged = true;
    for (k, v) in it: right.iter()
        invariant
            obeys_key_model::<K>(),
            builds_valid_hashers::<std::hash::RandomState>(),
            forall|t: int|
                0 <= t < it.seq().len() ==> right@.contains_key(*(#[trigger] it.seq()[t]).0)
                    && right@[*it.seq()[t].0] == *it.seq()[t].1,
            forall|key: K| #[trigger]
                right@.contains_key(key) ==> it.seq().contains((&key, &right@[key])),
            forall|key: K| #[trigger]
                out@.contains_key(key) ==> !left@.contains_key(key) && right@.contains_key(key)
                    && keyed_entry_follows(left@, right@, key, out@[key]),
            forall|t: int|
                0 <= t < it.index() ==> (!left@.contains_key(*(#[trigger] it.seq()[t]).0)
                    ==> out@.contains_key(*it.seq()[t].0)),
            unchanged <==> forall|key: K| #[trigger] out@.contains_key(key) ==> out@[key] is Copy,
    {
        if !left.contains_key(k) {
            out.insert(*k, KeyedEdit::Insert(v));
            unchanged = false;
            assert(out@.contains_key(*k) && out@[*k] is Insert);
        }
    }
    assert forall|key: K| right@.contains_key(key) && !left@.contains_key(key) implies #[trigger]
        out@.contains_key(key) by {
    }
    for (k, v) in it: left.iter()
        invariant
            obeys_key_model::<K>(),
            builds_valid_hashers::<std::hash::RandomState>(),
            forall|t: int|
                0 <= t < it.seq().len() ==> left@.contains_key(*(#[trigger] it.seq()[t]).0)
                    && left@[*it.seq()[t].0] == *it.seq()[t].1,
            forall|key: K| #[trigger]
                left@.contains_key(key) ==> it.seq().contains((&key, &left@[key])),
            it.seq().no_duplicates(),
            forall|key: K| #[trigger]
                out@.contains_key(key) ==> (left@.contains_key(key) || right@.contains_key(key))
                    && keyed_entry_follows(left@, right@, key, out@[key]),
            forall|key: K|
                right@.contains_key(key) && !left@.contains_key(key) ==> #[trigger] out@.contains_key(key),
            forall|t: int| 0 <= t < it.index() ==> out@.contains_key(*(#[trigger] it.seq()[t]).0),
            forall|key: K| #[trigger]
                out@.contains_key(key) && left@.contains_key(key) ==> exists|t: int|
                    0 <= t < it.index() && *(#[trigger] it.seq()[t]).0 == key,
            unchanged <==> forall|key: K| #[trigger] out@.contains_key(key) ==> out@[key] is Copy,
    {
        proof {
            assert(it.seq()[it.index() as int] == (k, v));
            if out@.contains_key(*k) {
                let t = choose|t: int| 0 <= t < it.index() && *(#[trigger] it.seq()[t]).0 == *k;
                assert(it.seq()[t] == it.seq()[it.index() as int]);
            }
            assert(!out@.contains_key(*k));
        }
        let ghost old_out = out@;
        let ghost was_unchanged = unchanged;
        match right.get(k) {
            None => {
                out.insert(*k, KeyedEdit::Remove);
                unchanged = false;
                assert(out@.contains_key(*k) && out@[*k] is Remove);
            },
            Some(w) => {
                let e = v.diff(w).into_map_edit();
                if !e.is_copy() {
                    unchanged = false;
                }
                out.insert(*k, e);
                assert(out@.contains_key(*k) && out@[*k] == e);
            },
        }
        proof {
            if was_unchanged && unchanged {
                assert forall|key: K| #[trigger] out@.contains_key(key) implies out@[key] is Copy by {
                    if key != *k {
                        assert(old_out.contains_key(key));
                    }
                }
            }
            if !was_unchanged {
                let w = choose|key: K| #[trigger] old_out.contains_key(key) && !(old_out[key] is Copy);
                assert(out@.contains_key(w) && !(out@[w] is Copy));
            }
        }
    }
    assert forall|key: K| left@.contains_key(key) implies #[trigger] out@.contains_key(key) by {
    }
    assert(out@.dom() =~= left@.dom().union(right@.dom()));
    proof {
        if unchanged {
            assert forall|key: K| right@.contains_key(key) implies #[trigger] left@.contains_key(key) by {
                assert(out@.contains_key(key));
            }
            assert forall|key: K| #[trigger] left@.contains_key(key) implies right@.contains_key(key)
                && left@[key].unchanged(&right@[key]) by {
                assert(out@.contains_key(key));
            }
            assert(left@.dom() =~= right@.dom());
        }
        if map_unchanged(left@, right@) {
            assert forall|key: K| #[trigger] out@.contains_key(key) implies out@[key] is Copy by {
                assert(left@.contains_key(key));
            }
        }
    }
    (out, unchanged)
}

impl<'a, K: MapKey + 'a, V: Diffable<'a>> Diffable<'a> for HashMap<K, V> {
    type Diff = HashMap<K, KeyedEdit<'a, V>>;

    open spec fn unchanged(&self, other: &Self) -> bool {
        map_unchanged(self@, other@)
    }

    open spec fn is_change_of(&self, other: &Self, d: Self::Diff) -> bool {
        is_keyed_diff_of(self@, other@, d@)
    }

    proof fn lemma_unchanged_reflexive(x: &Self) {
        assert forall|k: K| #[trigger] x@.contains_key(k) implies x@[k].unchanged(&x@[k]) by {
            V::lemma_unchanged_reflexive(&x@[k]);
        }
    }

    fn diff(&'a self, other: &'a Self) -> (r: edit::Edit<'a, Self>) {
        let (d, unchanged) = diff_maps(self, other);
        if unchanged {
            edit::Edit::Copy(self)
        } else {
            edit::Edit::Change(d)
        }
    }
}

/// The diff of the ordered map `left` against `right`, and whether it shows no difference.
pub fn diff_btree_maps<'a, K: OrdKey, V: Diffable<'a>>(
    left: &'a BTreeMap<K, V>,
    right: &'a BTreeMap<K, V>,
) -> (r: (BTreeMap<K, KeyedEdit<'a, V>>, bool))
    ensures
        is_keyed_diff_of(left@, right@, r.0@),
        r.1 <==> map_unchanged(left@, right@),
{
    proof {
        K::lemma_key_obeys_cmp_spec();
    }
    let mut out: BTreeMap<K, KeyedEdit<'a, V>> = BTreeMap::new();
    let mut unchanged = true;
    for (k, v) in it: right.iter()
        invariant
            key_obeys_cmp_spec::<K>(),
            forall|t: int|
                0 <= t < it.seq().len() ==> right@.contains_key(*(#[trigger] it.seq()[t]).0)
                    && right@[*it.seq()[t].0] == *it.seq()[t].1,
            forall|key: K| #[trigger]
                right@.contains_key(key) ==> it.seq().contains((&key, &right@[key])),
            forall|key: K| #[trigger]
                out@.contains_key(key) ==> !left@.contains_key(key) && right@.contains_key(key)
                    && keyed_entry_follows(left@, right@, key, out@[key]),
            forall|t: int|
                0 <= t < it.index() ==> (!left@.contains_key(*(#[trigger] it.seq()[t]).0)
                    ==> out@.contains_key(*it.seq()[t].0)),
            unchanged <==> forall|key: K| #[trigger] out@.contains_key(key) ==> out@[key] is Copy,
    {
        if !left.contains_key(k) {
            out.insert(*k, KeyedEdit::Insert(v));
            unchanged = false;
            assert(out@.contains_key(*k) && out@[*k] is Insert);
        }
    }
    assert forall|key: K| right@.contains_key(key) && !left@.contains_key(key) implies #[trigger]
        out@.contains_key(key) by {
    }
    for (k, v) in it: left.iter()
        invariant
            key_obeys_cmp_spec::<K>(),
            forall|t: int|
                0 <= t < it.seq().len() ==> left@.contains_key(*(#[trigger] it.seq()[t]).0)
                    && left@[*it.seq()[t].0] == *it.seq()[t].1,
            forall|key: K| #[trigger]
                left@.contains_key(key) ==> it.seq().contains((&key, &left@[key])),
            it.seq().no_duplicates(),
            forall|key: K| #[trigger]
                out@.contains_key(key) ==> (left@.contains_key(key) || right@.contains_key(key))
                    && keyed_entry_follows(left@, right@, key, out@[key]),
            forall|key: K|
                right@.contains_key(key) && !left@.contains_key(key) ==> #[trigger] out@.contains_key(key),
            forall|t: int| 0 <= t < it.index() ==> out@.contains_key(*(#[trigger] it.seq()[t]).0),
            forall|key: K| #[trigger]
                out@.contains_key(key) && left@.contains_key(key) ==> exists|t: int|
                    0 <= t < it.index() && *(#[trigger] it.seq()[t]).0 == key,
            unchanged <==> forall|key: K| #[trigger] out@.contains_key(key) ==> out@[key] is Copy,
    {
        proof {
            assert(it.seq()[it.index() as int] == (k, v));
            if out@.contains_key(*k) {
                let t = choose|t: int| 0 <= t < it.index() && *(#[trigger] it.seq()[t]).0 == *k;
                assert(it.seq()[t] == it.seq()[it.index() as int]);
            }
            assert(!out@.contains_key(*k));
        }
        let ghost old_out = out@;
        let ghost was_unchanged = unchanged;
        match right.get(k) {
            None => {
                out.insert(*k, KeyedEdit::Remove);
                unchanged = false;
                assert(out@.contains_key(*k) && out@[*k] is Remove);
            },
            Some(w) => {
                let e = v.diff(w).into_map_edit();
                if !e.is_copy() {
                    unchanged = false;
                }
                out.insert(*k, e);
                assert(out@.contains_key(*k) && out@[*k] == e);
            },
        }
        proof {
            if was_unchanged && unchanged {
                assert forall|key: K| #[trigger] out@.contains_key(key) implies out@[key] is Copy by {
                    if key != *k {
                        assert(old_out.contains_key(key));
                    }
                }
            }
            if !was_unchanged {
                let w = choose|key: K| #[trigger] old_out.contains_key(key) && !(old_out[key] is Copy);
                assert(out@.contains_key(w) && !(out@[w] is Copy));
            }
        }
    }
    assert forall|key: K| left@.contains_key(key) implies #[trigger] out@.contains_key(key) by {
    }
    assert(out@.dom() =~= left@.dom().union(right@.dom()));
    proof {
        if unchanged {
            assert forall|key: K| right@.contains_key(key) implies #[trigger] left@.contains_key(key) by {
                assert(out@.contains_key(key));
            }
            assert forall|key: K| #[trigger] left@.contains_key(key) implies right@.contains_key(key)
                && left@[key].unchanged(&right@[key]) by {
                assert(out@.contains_key(key));
            }
            assert(left@.dom() =~= right@.dom());
        }
        if map_unchanged(left@, right@) {
            assert forall|key: K| #[trigger] out@.contains_key(key) implies out@[key] is Copy by {
                assert(left@.contains_key(key));
            }
        }
    }
    (out, unchanged)
}

impl<'a, K: OrdKey + 'a, V: Diffable<'a>> Diffable<'a> for BTreeMap<K, V> {
    type Diff = BTreeMap<K, KeyedEdit<'a, V>>;

    open spec fn unchanged(&self, other: &Self) -> bool {
        map_unchanged(self@, other@)
    }

    open spec fn is_change_of(&self, other: &Self, d: Self::Diff) -> bool {
        is_keyed_diff_of(self@, other@, d@)
    }

    proof fn lemma_unchanged_reflexive(x: &Self) {
        assert forall|k: K| #[trigger] x@.contains_key(k) implies x@[k].unchanged(&x@[k]) by {
            V::lemma_unchanged_reflexive(&x@[k]);
        }
    }

    fn diff(&'a self, other: &'a Self) -> (r: edit::Edit<'a, Self>) {
        let (d, unchanged) = diff_btree_maps(self, other);
        if unchanged {
            edit::Edit::Copy(self)
        } else {
            edit::Edit::Change(d)
        }
    }
}

/// The keys of a keyed diff are exactly the keys of either side, each once: a key of the left
/// side only is `Remove`, of the right side only `Insert`, and a key of both sides is `Copy` or
/// `Change`.
pub proof fn lemma_keyed_diff_covers_keys<'a, K, V: Diffable<'a>>(
    l: Map<K, V>,
    r: Map<K, V>,
    d: Map<K, KeyedEdit<'a, V>>,
    k: K,
)
    requires
        is_keyed_diff_of(l, r, d),
    ensures
        d.contains_key(k) <==> l.contains_key(k) || r.contains_key(k),
        l.contains_key(k) && !r.contains_key(k) ==> d[k] is Remove,
        !l.contains_key(k) && r.contains_key(k) ==> d[k] is Insert,
        l.contains_key(k) && r.contains_key(k) ==> (d[k] is Copy || d[k] is Change),
{
    assert(d.dom().contains(k) == l.dom().union(r.dom()).contains(k));
}

} // verus!
