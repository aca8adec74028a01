//! Handles diff through to the value they point to. A `Copy` result keeps the handle of the
//! left side; a change is the pointee's change, in a handle of the same kind.
use crate::{edit, Diffable};
use std::rc::Rc;
use std::sync::Arc;
use vstd::prelude::*;

verus! {

/// The change between the two pointees, or `None` when they show no difference.
fn diff_borrowable<'a, T: Diffable<'a>>(left: &'a T, right: &'a T) -> (r: Option<T::Diff>)
    ensures
        r is None <==> left.unchanged(right),
        r matches Some(d) ==> left.is_change_of(right, d),
{
    match left.diff(right) {
        edit::Edit::Copy(_) => None,
        edit::Edit::Change(diff) => Some(diff),
    }
}

impl<'a, T: Diffable<'a>> Diffable<'a> for &'a T {
    type Diff = T::Diff;

    open spec fn unchanged(&self, other: &Self) -> bool {
        (**self).unchanged(*other)
    }

    open spec fn is_change_of(&self, other: &Self, d: Self::Diff) -> bool {
        (**self).is_change_of(*other, d)
    }

    proof fn lemma_unchanged_reflexive(x: &Self) {
        T::lemma_unchanged_reflexive(*x);
    }

    fn diff(&'a self, other: &'a Self) -> (r: edit::Edit<'a, Self>) {
        match diff_borrowable(*self, *other) {
            None => edit::Edit::Copy(self),
            Some(diff) => edit::Edit::Change(diff),
        }
    }
}

impl<'a, T: Diffable<'a>> Diffable<'a> for Box<T> {
    type Diff = Box<T::Diff>;

    open spec fn unchanged(&self, other: &Self) -> bool {
        (**self).unchanged(&**other)
    }

    open spec fn is_change_of(&self, other: &Self, d: Self::Diff) -> bool {
        (**self).is_change_of(&**other, *d)
    }

    proof fn lemma_unchanged_reflexive(x: &Self) {
        T::lemma_unchanged_reflexive(&**x);
    }

    fn diff(&'a self, other: &'a Self) -> (r: edit::Edit<'a, Self>) {
        let left: &'a T = &**self;
        let right: &'a T = &**other;
        match diff_borrowable(left, right) {
            None => edit::Edit::Copy(self),
            Some(diff) => edit::Edit::Change(Box::new(diff)),
        }
    }
}

impl<'a, T: Diffable<'a>> Diffable<'a> for Rc<T> {
    type Diff = Rc<T::Diff>;

    open spec fn unchanged(&self, other: &Self) -> bool {
        (**self).unchanged(&**other)
    }

    open spec fn is_change_of(&self, other: &Self, d: Self::Diff) -> bool {
        (**self).is_change_of(&**other, *d)
    }

    proof fn lemma_unchanged_reflexive(x: &Self) {
        T::lemma_unchanged_reflexive(&**x);
    }

    fn diff(&'a self, other: &'a Self) -> (r: edit::Edit<'a, Self>) {
        let left: &'a T = &**self;
        let right: &'a T = &**other;
        match diff_borrowable(left, right) {
            None => edit::Edit::Copy(self),
            Some(diff) => edit::Edit::Change(Rc::new(diff)),
        }
    }
}

impl<'a, T: Diffable<'a>> Diffable<'a> for Arc<T> {
    type Diff = Arc<T::Diff>;

    open spec fn unchanged(&self, other: &Self) -> bool {
        (**self).unchanged(&**other)
    }

    open spec fn is_change_of(&self, other: &Self, d: Self::Diff) -> bool {
        (**self).is_change_of(&**other, *d)
    }

    proof fn lemma_unchanged_reflexive(x: &Self) {
        T::lemma_unchanged_reflexive(&**x);
    }

    fn diff(&'a self, other: &'a Self) -> (r: edit::Edit<'a, Self>) {
        let left: &'a T = &**self;
        let right: &'a T = &**other;
        match diff_borrowable(left, right) {
            None => edit::Edit::Copy(self),
            Some(diff) => edit::Edit::Change(Arc::new(diff)),
        }
    }
}

} // verus!
