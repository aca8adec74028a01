//! Entries of a set's result.
use vstd::prelude::*;

verus! {

/// The result for one element of a set: in both sets, only in the right one, or only in the
/// left one.
#[derive(Debug, PartialEq, Eq)]
pub enum Edit<'a, T> {
    Copy(&'a T),
    Insert(&'a T),
    Remove(&'a T),
}

impl<'a, T> Edit<'a, T> {
    pub fn is_copy(&self) -> (r: bool)
        ensures
            r == self is Copy,
    {
        match self {
            Edit::Copy(_) => true,
            _ => false,
        }
    }

    pub fn is_insert(&self) -> (r: bool)
        ensures
            r == self is Insert,
    {
        match self {
            Edit::Insert(_) => true,
            _ => false,
        }
    }

    pub fn is_remove(&self) -> (r: bool)
        ensures
            r == self is Remove,
    {
        match self {
            Edit::Remove(_) => true,
            _ => false,
        }
    }

    pub fn copy(&self) -> (r: Option<&'a T>)
        ensures
            r is Some <==> self is Copy,
            r matches Some(v) ==> self matches Edit::Copy(w) && *v == *w,
    {
        match self {
            Edit::Copy(value) => Some(*value),
            _ => None,
        }
    }

    pub fn insert(&self) -> (r: Option<&'a T>)
        ensures
            r is Some <==> self is Insert,
            r matches Some(v) ==> self matches Edit::Insert(w) && *v == *w,
    {
        match self {
            Edit::Insert(value) => Some(*value),
            _ => None,
        }
    }

    pub fn remove(&self) -> (r: Option<&'a T>)
        ensures
            r is Some <==> self is Remove,
            r matches Some(v) ==> self matches Edit::Remove(w) && *v == *w,
    {
        match self {
            Edit::Remove(value) => Some(*value),
            _ => None,
        }
    }
}

} // verus!
