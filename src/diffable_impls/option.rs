//! Sums: `Option` and `Result`. Equal variants diff their payloads; a changed variant keeps both
//! whole values and never diffs payloads across variants.
use crate::edit::{self, enm};
use crate::Diffable;
use vstd::prelude::*;

verus! {

impl<'a, T: Diffable<'a>> Diffable<'a> for Option<T> {
    type Diff = enm::Edit<'a, Self, T::Diff>;

    open spec fn unchanged(&self, other: &Self) -> bool {
        match (self, other) {
            (None, None) => true,
            (Some(a), Some(b)) => a.unchanged(b),
            _ => false,
        }
    }

    open spec fn is_change_of(&self, other: &Self, d: Self::Diff) -> bool {
        match (self, other) {
            (Some(a), Some(b)) => d matches enm::Edit::AssociatedChanged(c) && a.is_change_of(b, c),
            _ => d matches enm::Edit::VariantChanged(l, r) && *l == *self && *r == *other,
        }
    }

    proof fn lemma_unchanged_reflexive(x: &Self) {
        if let Some(a) = x {
            T::lemma_unchanged_reflexive(a);
        }
    }

    fn diff(&'a self, other: &'a Self) -> (r: edit::Edit<'a, Self>) {
        match (self, other) {
            (None, None) => edit::Edit::Copy(self),
            (Some(a), Some(b)) => match a.diff(b) {
                edit::Edit::Copy(_) => edit::Edit::Copy(self),
                edit::Edit::Change(diff) => edit::Edit::Change(enm::Edit::AssociatedChanged(diff)),
            },
            _ => edit::Edit::Change(enm::Edit::VariantChanged(self, other)),
        }
    }
}

impl<'a, T: Diffable<'a>, E: Diffable<'a>> Diffable<'a> for Result<T, E> {
    type Diff = enm::Edit<'a, Self, Result<T::Diff, E::Diff>>;

    open spec fn unchanged(&self, other: &Self) -> bool {
        match (self, other) {
            (Ok(a), Ok(b)) => a.unchanged(b),
            (Err(a), Err(b)) => a.unchanged(b),
            _ => false,
        }
    }

    open spec fn is_change_of(&self, other: &Self, d: Self::Diff) -> bool {
        match (self, other) {
            (Ok(a), Ok(b)) => d matches enm::Edit::AssociatedChanged(Ok(c)) && a.is_change_of(b, c),
            (Err(a), Err(b)) => d matches enm::Edit::AssociatedChanged(Err(c)) && a.is_change_of(
                b,
                c,
            ),
            _ => d matches enm::Edit::VariantChanged(l, r) && *l == *self && *r == *other,
        }
    }

    proof fn lemma_unchanged_reflexive(x: &Self) {
        match x {
            Ok(a) => T::lemma_unchanged_reflexive(a),
            Err(a) => E::lemma_unchanged_reflexive(a),
        }
    }

    fn diff(&'a self, other: &'a Self) -> (r: edit::Edit<'a, Self>) {
        match (self, other) {
            (Ok(a), Ok(b)) => match a.diff(b) {
                edit::Edit::Copy(_) => edit::Edit::Copy(self),
                edit::Edit::Change(diff) => edit::Edit::Change(
                    enm::Edit::AssociatedChanged(Ok(diff)),
                ),
            },
            (Err(a), Err(b)) => match a.diff(b) {
                edit::Edit::Copy(_) => edit::Edit::Copy(self),
                edit::Edit::Change(diff) => edit::Edit::Change(
                    enm::Edit::AssociatedChanged(Err(diff)),
                ),
            },
            _ => edit::Edit::Change(enm::Edit::VariantChanged(self, other)),
        }
    }
}

} // verus!
