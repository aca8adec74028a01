//! Records with an identity: an id that names the logical element and a value that may change.
use crate::edit;
use crate::{edit_matches, Diffable, Same};
use vstd::prelude::*;

verus! {

/// A record whose identity is its `id`: in a sequence it is aligned with the record of the
/// same id on the other side, and the two are then diffed field by field.
#[derive(Debug, PartialEq, Eq)]
pub struct Identified<K, V> {
    pub id: K,
    pub value: V,
}

/// The change between two records: the result for each field.
pub struct EditedIdentified<'a, K: Diffable<'a>, V: Diffable<'a>> {
    pub id: edit::Edit<'a, K>,
    pub value: edit::Edit<'a, V>,
}

impl<K, V> Identified<K, V> {
    pub fn new(id: K, value: V) -> (r: Self)
        ensures
            r.id == id,
            r.value == value,
    {
        Identified { id, value }
    }
}

impl<K: Same, V> Same for Identified<K, V> {
    open spec fn spec_same(&self, other: &Self) -> bool {
        self.id.spec_same(&other.id)
    }

    proof fn lemma_same_reflexive(x: &Self) {
        K::lemma_same_reflexive(&x.id);
    }

    fn same(&self, other: &Self) -> (r: bool) {
        self.id.same(&other.id)
    }
}

impl<'a, K: Diffable<'a>, V: Diffable<'a>> Diffable<'a> for Identified<K, V> {
    type Diff = EditedIdentified<'a, K, V>;

    open spec fn unchanged(&self, other: &Self) -> bool {
        self.id.unchanged(&other.id) && self.value.unchanged(&other.value)
    }

    open spec fn is_change_of(&self, other: &Self, d: Self::Diff) -> bool {
        edit_matches(&self.id, &other.id, d.id) && edit_matches(&self.value, &other.value, d.value)
    }

    proof fn lemma_unchanged_reflexive(x: &Self) {
        K::lemma_unchanged_reflexive(&x.id);
        V::lemma_unchanged_reflexive(&x.value);
    }

    fn diff(&'a self, other: &'a Self) -> (r: edit::Edit<'a, Self>) {
        let id = self.id.diff(&other.id);
        let value = self.value.diff(&other.value);
        if id.is_copy() && value.is_copy() {
            edit::Edit::Copy(self)
        } else {
            edit::Edit::Change(EditedIdentified { id, value })
        }
    }
}

/// A record shows no difference exactly when neither its id nor its value does.
pub proof fn lemma_identified_unchanged<'a, K: Diffable<'a>, V: Diffable<'a>>(
    l: Identified<K, V>,
    r: Identified<K, V>,
)
    ensures
        l.unchanged(&r) <==> l.id.unchanged(&r.id) && l.value.unchanged(&r.value),
{
}

} // verus!
