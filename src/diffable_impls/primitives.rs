//! Leaves: values compared by equality, reported as the pair of both values when they differ.
use crate::{edit, Diffable};
use vstd::prelude::*;

verus! {

impl<'a> Diffable<'a> for i64 {
    type Diff = (&'a i64, &'a i64);

    open spec fn unchanged(&self, other: &Self) -> bool {
        *self == *other
    }

    open spec fn is_change_of(&self, other: &Self, d: Self::Diff) -> bool {
        *d.0 == *self && *d.1 == *other
    }

    proof fn lemma_unchanged_reflexive(x: &Self) {
    }

    fn diff(&'a self, other: &'a Self) -> (r: edit::Edit<'a, Self>) {
        if *self == *other {
            edit::Edit::Copy(self)
        } else {
            edit::Edit::Change((self, other))
        }
    }
}

impl<'a> Diffable<'a> for i32 {
    type Diff = (&'a i32, &'a i32);

    open spec fn unchanged(&self, other: &Self) -> bool {
        *self == *other
    }

    open spec fn is_change_of(&self, other: &Self, d: Self::Diff) -> bool {
        *d.0 == *self && *d.1 == *other
    }

    proof fn lemma_unchanged_reflexive(x: &Self) {
    }

    fn diff(&'a self, other: &'a Self) -> (r: edit::Edit<'a, Self>) {
        if *self == *other {
            edit::Edit::Copy(self)
        } else {
            edit::Edit::Change((self, other))
        }
    }
}

impl<'a> Diffable<'a> for i16 {
    type Diff = (&'a i16, &'a i16);

    open spec fn unchanged(&self, other: &Self) -> bool {
        *self == *other
    }

    open spec fn is_change_of(&self, other: &Self, d: Self::Diff) -> bool {
        *d.0 == *self && *d.1 == *other
    }

    proof fn lemma_unchanged_reflexive(x: &Self) {
    }

    fn diff(&'a self, other: &'a Self) -> (r: edit::Edit<'a, Self>) {
        if *self == *other {
            edit::Edit::Copy(self)
        } else {
            edit::Edit::Change((self, other))
        }
    }
}

impl<'a> Diffable<'a> for i8 {
    type Diff = (&'a i8, &'a i8);

    open spec fn unchanged(&self, other: &Self) -> bool {
        *self == *other
    }

    open spec fn is_change_of(&self, other: &Self, d: Self::Diff) -> bool {
        *d.0 == *self && *d.1 == *other
    }

    proof fn lemma_unchanged_reflexive(x: &Self) {
    }

    fn diff(&'a self, other: &'a Self) -> (r: edit::Edit<'a, Self>) {
        if *self == *other {
            edit::Edit::Copy(self)
        } else {
            edit::Edit::Change((self, other))
        }
    }
}

impl<'a> Diffable<'a> for u64 {
    type Diff = (&'a u64, &'a u64);

    open spec fn unchanged(&self, other: &Self) -> bool {
        *self == *other
    }

    open spec fn is_change_of(&self, other: &Self, d: Self::Diff) -> bool {
        *d.0 == *self && *d.1 == *other
    }

    proof fn lemma_unchanged_reflexive(x: &Self) {
    }

    fn diff(&'a self, other: &'a Self) -> (r: edit::Edit<'a, Self>) {
        if *self == *other {
            edit::Edit::Copy(self)
        } else {
            edit::Edit::Change((self, other))
        }
    }
}

impl<'a> Diffable<'a> for u32 {
    type Diff = (&'a u32, &'a u32);

    open spec fn unchanged(&self, other: &Self) -> bool {
        *self == *other
    }

    open spec fn is_change_of(&self, other: &Self, d: Self::Diff) -> bool {
        *d.0 == *self && *d.1 == *other
    }

    proof fn lemma_unchanged_reflexive(x: &Self) {
    }

    fn diff(&'a self, other: &'a Self) -> (r: edit::Edit<'a, Self>) {
        if *self == *other {
            edit::Edit::Copy(self)
        } else {
            edit::Edit::Change((self, other))
        }
    }
}

impl<'a> Diffable<'a> for u16 {
    type Diff = (&'a u16, &'a u16);

    open spec fn unchanged(&self, other: &Self) -> bool {
        *self == *other
    }

    open spec fn is_change_of(&self, other: &Self, d: Self::Diff) -> bool {
        *d.0 == *self && *d.1 == *other
    }

    proof fn lemma_unchanged_reflexive(x: &Self) {
    }

    fn diff(&'a self, other: &'a Self) -> (r: edit::Edit<'a, Self>) {
        if *self == *other {
            edit::Edit::Copy(self)
        } else {
            edit::Edit::Change((self, other))
        }
    }
}

impl<'a> Diffable<'a> for u8 {
    type Diff = (&'a u8, &'a u8);

    open spec fn unchanged(&self, other: &Self) -> bool {
        *self == *other
    }

    open spec fn is_change_of(&self, other: &Self, d: Self::Diff) -> bool {
        *d.0 == *self && *d.1 == *other
    }

    proof fn lemma_unchanged_reflexive(x: &Self) {
    }

    fn diff(&'a self, other: &'a Self) -> (r: edit::Edit<'a, Self>) {
        if *self == *other {
            edit::Edit::Copy(self)
        } else {
            edit::Edit::Change((self, other))
        }
    }
}

impl<'a> Diffable<'a> for char {
    type Diff = (&'a char, &'a char);

    open spec fn unchanged(&self, other: &Self) -> bool {
        *self == *other
    }

    open spec fn is_change_of(&self, other: &Self, d: Self::Diff) -> bool {
        *d.0 == *self && *d.1 == *other
    }

    proof fn lemma_unchanged_reflexive(x: &Self) {
    }

    fn diff(&'a self, other: &'a Self) -> (r: edit::Edit<'a, Self>) {
        if *self == *other {
            edit::Edit::Copy(self)
        } else {
            edit::Edit::Change((self, other))
        }
    }
}

impl<'a> Diffable<'a> for bool {
    type Diff = (&'a bool, &'a bool);

    open spec fn unchanged(&self, other: &Self) -> bool {
        *self == *other
    }

    open spec fn is_change_of(&self, other: &Self, d: Self::Diff) -> bool {
        *d.0 == *self && *d.1 == *other
    }

    proof fn lemma_unchanged_reflexive(x: &Self) {
    }

    fn diff(&'a self, other: &'a Self) -> (r: edit::Edit<'a, Self>) {
        if *self == *other {
            edit::Edit::Copy(self)
        } else {
            edit::Edit::Change((self, other))
        }
    }
}

impl<'a> Diffable<'a> for isize {
    type Diff = (&'a isize, &'a isize);

    open spec fn unchanged(&self, other: &Self) -> bool {
        *self == *other
    }

    open spec fn is_change_of(&self, other: &Self, d: Self::Diff) -> bool {
        *d.0 == *self && *d.1 == *other
    }

    proof fn lemma_unchanged_reflexive(x: &Self) {
    }

    fn diff(&'a self, other: &'a Self) -> (r: edit::Edit<'a, Self>) {
        if *self == *other {
            edit::Edit::Copy(self)
        } else {
            edit::Edit::Change((self, other))
        }
    }
}

impl<'a> Diffable<'a> for usize {
    type Diff = (&'a usize, &'a usize);

    open spec fn unchanged(&self, other: &Self) -> bool {
        *self == *other
    }

    open spec fn is_change_of(&self, other: &Self, d: Self::Diff) -> bool {
        *d.0 == *self && *d.1 == *other
    }

    proof fn lemma_unchanged_reflexive(x: &Self) {
    }

    fn diff(&'a self, other: &'a Self) -> (r: edit::Edit<'a, Self>) {
        if *self == *other {
            edit::Edit::Copy(self)
        } else {
            edit::Edit::Change((self, other))
        }
    }
}

impl<'a> Diffable<'a> for () {
    type Diff = (&'a (), &'a ());

    open spec fn unchanged(&self, other: &Self) -> bool {
        true
    }

    open spec fn is_change_of(&self, other: &Self, d: Self::Diff) -> bool {
        false
    }

    proof fn lemma_unchanged_reflexive(x: &Self) {
    }

    fn diff(&'a self, other: &'a Self) -> (r: edit::Edit<'a, Self>) {
        edit::Edit::Copy(self)
    }
}

} // verus!
