//! Products: tuples diff every component. The whole shows no difference exactly when no
//! component does; otherwise the change carries every component's result.
use crate::edit;
use crate::{edit_matches, Diffable};
use vstd::prelude::*;

verus! {

impl<'a, A: Diffable<'a>> Diffable<'a> for (A,) {
    type Diff = (edit::Edit<'a, A>,);

    open spec fn unchanged(&self, other: &Self) -> bool {
        self.0.unchanged(&other.0)
    }

    open spec fn is_change_of(&self, other: &Self, d: Self::Diff) -> bool {
        edit_matches(&self.0, &other.0, d.0)
    }

    proof fn lemma_unchanged_reflexive(x: &Self) {
        A::lemma_unchanged_reflexive(&x.0);
    }

    fn diff(&'a self, other: &'a Self) -> (r: edit::Edit<'a, Self>) {
        let a = self.0.diff(&other.0);
        if a.is_copy() {
            edit::Edit::Copy(self)
        } else {
            edit::Edit::Change((a,))
        }
    }
}

impl<'a, A: Diffable<'a>, B: Diffable<'a>> Diffable<'a> for (A, B) {
    type Diff = (edit::Edit<'a, A>, edit::Edit<'a, B>);

    open spec fn unchanged(&self, other: &Self) -> bool {
        self.0.unchanged(&other.0) && self.1.unchanged(&other.1)
    }

    open spec fn is_change_of(&self, other: &Self, d: Self::Diff) -> bool {
        edit_matches(&self.0, &other.0, d.0) && edit_matches(&self.1, &other.1, d.1)
    }

    proof fn lemma_unchanged_reflexive(x: &Self) {
        A::lemma_unchanged_reflexive(&x.0);
        B::lemma_unchanged_reflexive(&x.1);
    }

    fn diff(&'a self, other: &'a Self) -> (r: edit::Edit<'a, Self>) {
        let a = self.0.diff(&other.0);
        let b = self.1.diff(&other.1);
        if a.is_copy() && b.is_copy() {
            edit::Edit::Copy(self)
        } else {
            edit::Edit::Change((a, b))
        }
    }
}

impl<'a, A: Diffable<'a>, B: Diffable<'a>, C: Diffable<'a>> Diffable<'a> for (A, B, C) {
    type Diff = (edit::Edit<'a, A>, edit::Edit<'a, B>, edit::Edit<'a, C>);

    open spec fn unchanged(&self, other: &Self) -> bool {
        self.0.unchanged(&other.0) && self.1.unchanged(&other.1) && self.2.unchanged(&other.2)
    }

    open spec fn is_change_of(&self, other: &Self, d: Self::Diff) -> bool {
        &&& edit_matches(&self.0, &other.0, d.0)
        &&& edit_matches(&self.1, &other.1, d.1)
        &&& edit_matches(&self.2, &other.2, d.2)
    }

    proof fn lemma_unchanged_reflexive(x: &Self) {
        A::lemma_unchanged_reflexive(&x.0);
        B::lemma_unchanged_reflexive(&x.1);
        C::lemma_unchanged_reflexive(&x.2);
    }

    fn diff(&'a self, other: &'a Self) -> (r: edit::Edit<'a, Self>) {
        let a = self.0.diff(&other.0);
        let b = self.1.diff(&other.1);
        let c = self.2.diff(&other.2);
        if a.is_copy() && b.is_copy() && c.is_copy() {
            edit::Edit::Copy(self)
        } else {
            edit::Edit::Change((a, b, c))
        }
    }
}

/// A one-component product shows no difference exactly when its component does not.
pub proof fn lemma_single_unchanged<'a, A: Diffable<'a>>(l: (A,), r: (A,))
    ensures
        l.unchanged(&r) <==> l.0.unchanged(&r.0),
{
}

/// A pair shows no difference exactly when neither of its components does.
pub proof fn lemma_pair_unchanged<'a, A: Diffable<'a>, B: Diffable<'a>>(l: (A, B), r: (A, B))
    ensures
        l.unchanged(&r) <==> l.0.unchanged(&r.0) && l.1.unchanged(&r.1),
{
}

/// A triple shows no difference exactly when none of its components does.
pub proof fn lemma_triple_unchanged<'a, A: Diffable<'a>, B: Diffable<'a>, C: Diffable<'a>>(
    l: (A, B, C),
    r: (A, B, C),
)
    ensures
        l.unchanged(&r) <==> l.0.unchanged(&r.0) && l.1.unchanged(&r.1) && l.2.unchanged(&r.2),
{
}

} // verus!
