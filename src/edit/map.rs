//! Entries of a keyed container's result.
use crate::Diffable;
use vstd::prelude::*;

verus! {

/// The result for one key: present on the right only (`Insert`, with its value), on the left
/// only (`Remove`), or on both sides with the two values diffed (`Copy` or `Change`).
pub enum Edit<'a, T: Diffable<'a>> {
    Insert(&'a T),
    Remove,
    Copy,
    Change(T::Diff),
}

impl<'a, T: Diffable<'a>> Edit<'a, T> {
    pub fn is_insert(&self) -> (r: bool)
        ensures
            r == self is Insert,
    {
        match self {
            Edit::Insert(_) => true,
            _ => false,
        }
    }

    pub fn is_remove(&self) -> (r: bool)
        ensures
            r == self is Remove,
    {
        match self {
            Edit::Remove => true,
            _ => false,
        }
    }

    pub fn is_copy(&self) -> (r: bool)
        ensures
            r == self is Copy,
    {
        match self {
            Edit::Copy => true,
            _ => false,
        }
    }

    pub fn is_change(&self) -> (r: bool)
        ensures
            r == self is Change,
    {
        match self {
            Edit::Change(_) => true,
            _ => false,
        }
    }

    pub fn insert(&self) -> (r: Option<&'a T>)
        ensures
            r is Some <==> self is Insert,
            r matches Some(v) ==> self matches Edit::Insert(w) && *v == *w,
    {
        match self {
            Edit::Insert(value) => Some(*value),
            _ => None,
        }
    }

    pub fn change(&self) -> (r: Option<&T::Diff>)
        ensures
            r is Some <==> self is Change,
            r matches Some(d) ==> self matches Edit::Change(e) && *d == e,
    {
        match self {
            Edit::Change(value_diff) => Some(value_diff),
            _ => None,
        }
    }
}

} // verus!
