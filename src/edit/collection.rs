//! Entries of an edit script over an ordered sequence.
use vstd::prelude::*;

verus! {

/// One entry of a sequence's edit script.
///
/// A matched pair is `Copy` (left element) when its elements show no difference and `Change`
/// otherwise; an unmatched element of the right side is `Insert`, of the left side `Remove`.
#[derive(Debug, PartialEq, Eq)]
pub enum Edit<'a, T, Diff> {
    Copy(&'a T),
    Insert(&'a T),
    Remove(&'a T),
    Change(Diff),
}

impl<'a, T, Diff> Edit<'a, T, Diff> {
    pub fn is_copy(&self) -> (r: bool)
        ensures
            r == self is Copy,
    {
        match self {
            Edit::Copy(_) => true,
            _ => false,
        }
    }

    pub fn is_insert(&self) -> (r: bool)
        ensures
            r == self is Insert,
    {
        match self {
            Edit::Insert(_) => true,
            _ => false,
        }
    }

    pub fn is_remove(&self) -> (r: bool)
        ensures
            r == self is Remove,
    {
        match self {
            Edit::Remove(_) => true,
            _ => false,
        }
    }

    pub fn is_change(&self) -> (r: bool)
        ensures
            r == self is Change,
    {
        self.change().is_some()
    }

    pub fn copy(&self) -> (r: Option<&'a T>)
        ensures
            r is Some <==> self is Copy,
            r matches Some(v) ==> self matches Edit::Copy(w) && *v == *w,
    {
        match self {
            Edit::Copy(value) => Some(*value),
            _ => None,
        }
    }

    pub fn insert(&self) -> (r: Option<&'a T>)
        ensures
            r is Some <==> self is Insert,
            r matches Some(v) ==> self matches Edit::Insert(w) && *v == *w,
    {
        match self {
            Edit::Insert(value) => Some(*value),
            _ => None,
        }
    }

    pub fn remove(&self) -> (r: Option<&'a T>)
        ensures
            r is Some <==> self is Remove,
            r matches Some(v) ==> self matches Edit::Remove(w) && *v == *w,
    {
        match self {
            Edit::Remove(value) => Some(*value),
            _ => None,
        }
    }

    pub fn change(&self) -> (r: Option<&Diff>)
        ensures
            r is Some <==> self is Change,
            r matches Some(d) ==> self matches Edit::Change(e) && *d == e,
    {
        match self {
            Edit::Change(value) => Some(value),
            _ => None,
        }
    }
}

} // verus!
