//! Structural differences between two values of one shape.
//!
//! A value is diffed against another of the same type through [`Diffable::diff`], which yields
//! either "no difference" ([`edit::Edit::Copy`]) or a typed payload describing what changed.
//! Ordered sequences are aligned by a longest common subsequence under the [`Same`] relation;
//! keyed containers are matched by key.
use vstd::prelude::*;

pub mod diffable_impls;
pub mod edit;
pub mod identified;
pub mod lcs;
pub mod same;
pub mod twodvec;

verus! {

/// A type whose values can be diffed against one another.
///
/// `unchanged` says when `diff` reports no difference; `is_change_of` says exactly which payload
/// it reports otherwise. Every implementation proves that a value is unchanged against itself.
pub trait Diffable<'a>: Sized + 'a {
    /// What `diff` reports when the two values differ.
    type Diff: 'a;

    /// `diff(self, other)` reports no difference.
    spec fn unchanged(&self, other: &Self) -> bool;

    /// `d` is the payload that `diff(self, other)` reports.
    spec fn is_change_of(&self, other: &Self, d: Self::Diff) -> bool;

    /// A value diffed against itself shows no difference.
    proof fn lemma_unchanged_reflexive(x: &Self)
        ensures
            x.unchanged(x),
    ;

    fn diff(&'a self, other: &'a Self) -> (r: edit::Edit<'a, Self>)
        ensures
            r is Copy <==> self.unchanged(other),
            r matches edit::Edit::Copy(v) ==> *v == *self,
            r matches edit::Edit::Change(d) ==> self.is_change_of(other, d),
    ;
}

/// The identity relation used to align ordered sequences: whether two values stand for the same
/// logical element. It is reflexive; it need not agree with equality otherwise.
pub trait Same {
    spec fn spec_same(&self, other: &Self) -> bool;

    proof fn lemma_same_reflexive(x: &Self)
        ensures
            x.spec_same(x),
    ;

    fn same(&self, other: &Self) -> (r: bool)
        ensures
            r == self.spec_same(other),
    ;
}

/// Whether an edit reports no difference between the two values it was computed from.
pub open spec fn edit_matches<'a, T: Diffable<'a>>(left: &T, right: &T, e: edit::Edit<'a, T>) -> bool {
    &&& (e is Copy <==> left.unchanged(right))
    &&& (e matches edit::Edit::Copy(v) ==> *v == *left)
    &&& (e matches edit::Edit::Change(d) ==> left.is_change_of(right, d))
}

} // verus!
