//! Entries of a string's edit script, one per character.
use crate::lcs;
use vstd::prelude::*;

verus! {

/// One character of a string's edit script.
#[derive(Clone, Copy, Debug, PartialEq, Eq, Structural)]
pub enum Edit {
    Copy(char),
    Insert(char),
    Remove(char),
}

impl Edit {
    /// The entry for an aligned pair of characters or an unmatched one; a matched pair keeps
    /// its left character.
    pub fn from_lcs(edit: lcs::Edit<char>) -> (r: Edit)
        ensures
            r == char_edit(edit),
    {
        match edit {
            lcs::Edit::Same(left, _) => Edit::Copy(left),
            lcs::Edit::Insert(value) => Edit::Insert(value),
            lcs::Edit::Remove(value) => Edit::Remove(value),
        }
    }

    pub fn is_copy(&self) -> (r: bool)
        ensures
            r == self is Copy,
    {
        match self {
            Edit::Copy(_) => true,
            _ => false,
        }
    }

    pub fn is_insert(&self) -> (r: bool)
        ensures
            r == self is Insert,
    {
        match self {
            Edit::Insert(_) => true,
            _ => false,
        }
    }

    pub fn is_remove(&self) -> (r: bool)
        ensures
            r == self is Remove,
    {
        match self {
            Edit::Remove(_) => true,
            _ => false,
        }
    }

    pub fn copy(self) -> (r: Option<char>)
        ensures
            r is Some <==> self is Copy,
            r matches Some(c) ==> self == Edit::Copy(c),
    {
        match self {
            Edit::Copy(value) => Some(value),
            _ => None,
        }
    }

    pub fn insert(self) -> (r: Option<char>)
        ensures
            r is Some <==> self is Insert,
            r matches Some(c) ==> self == Edit::Insert(c),
    {
        match self {
            Edit::Insert(value) => Some(value),
            _ => None,
        }
    }

    pub fn remove(self) -> (r: Option<char>)
        ensures
            r is Some <==> self is Remove,
            r matches Some(c) ==> self == Edit::Remove(c),
    {
        match self {
            Edit::Remove(value) => Some(value),
            _ => None,
        }
    }
}

/// The string entry for an alignment entry over characters.
pub open spec fn char_edit(edit: lcs::Edit<char>) -> Edit {
    match edit {
        lcs::Edit::Same(left, _) => Edit::Copy(left),
        lcs::Edit::Insert(value) => Edit::Insert(value),
        lcs::Edit::Remove(value) => Edit::Remove(value),
    }
}

} // verus!
