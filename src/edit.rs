//! The results of a diff, one family per structural category.
use crate::Diffable;
use vstd::prelude::*;

pub mod collection;
pub mod enm;
pub mod map;
pub mod set;
pub mod string;

verus! {

/// The result of diffing two values: no difference, or what changed.
pub enum Edit<'a, T: Diffable<'a>> {
    Copy(&'a T),
    Change(T::Diff),
}

impl<'a, T: Diffable<'a>> Edit<'a, T> {
    pub fn is_copy(&self) -> (r: bool)
        ensures
            r == self is Copy,
    {
        match self {
            Edit::Copy(_) => true,
            Edit::Change(_) => false,
        }
    }

    pub fn copy(&self) -> (r: Option<&'a T>)
        ensures
            r is Some <==> self is Copy,
            r matches Some(v) ==> self matches Edit::Copy(w) && *v == *w,
    {
        match self {
            Edit::Copy(value) => Some(*value),
            Edit::Change(_) => None,
        }
    }

    pub fn is_change(&self) -> (r: bool)
        ensures
            r == self is Change,
    {
        match self {
            Edit::Copy(_) => false,
            Edit::Change(_) => true,
        }
    }

    pub fn change(&self) -> (r: Option<&T::Diff>)
        ensures
            r is Some <==> self is Change,
            r matches Some(d) ==> self matches Edit::Change(e) && *d == e,
    {
        match self {
            Edit::Copy(_) => None,
            Edit::Change(value_diff) => Some(value_diff),
        }
    }

    /// The same result as the entry of a record field.
    pub fn into_field(self) -> (r: EditField<'a, T>)
        ensures
            self matches Edit::Copy(v) ==> r matches EditField::Copy(w) && *w == *v,
            self matches Edit::Change(d) ==> r matches EditField::Change(e) && e == d,
    {
        match self {
            Edit::Copy(value) => EditField::Copy(value),
            Edit::Change(diff) => EditField::Change(diff),
        }
    }

    /// The same result as the entry of a keyed container, for a key present on both sides.
    pub fn into_map_edit(self) -> (r: map::Edit<'a, T>)
        ensures
            self is Copy ==> r is Copy,
            self matches Edit::Change(d) ==> r matches map::Edit::Change(e) && e == d,
    {
        match self {
            Edit::Copy(_) => map::Edit::Copy,
            Edit::Change(diff) => map::Edit::Change(diff),
        }
    }
}

/// The result for one field of a record that may be absent on either side.
pub enum EditField<'a, T: Diffable<'a>> {
    Insert(&'a T),
    Remove,
    Copy(&'a T),
    Change(T::Diff),
}

impl<'a, T: Diffable<'a>> EditField<'a, T> {
    pub fn is_insert(&self) -> (r: bool)
        ensures
            r == self is Insert,
    {
        match self {
            EditField::Insert(_) => true,
            _ => false,
        }
    }

    pub fn is_remove(&self) -> (r: bool)
        ensures
            r == self is Remove,
    {
        match self {
            EditField::Remove => true,
            _ => false,
        }
    }

    pub fn is_copy(&self) -> (r: bool)
        ensures
            r == self is Copy,
    {
        match self {
            EditField::Copy(_) => true,
            _ => false,
        }
    }

    pub fn is_change(&self) -> (r: bool)
        ensures
            r == self is Change,
    {
        match self {
            EditField::Change(_) => true,
            _ => false,
        }
    }

    pub fn insert(&self) -> (r: Option<&'a T>)
        ensures
            r is Some <==> self is Insert,
            r matches Some(v) ==> self matches EditField::Insert(w) && *v == *w,
    {
        match self {
            EditField::Insert(value) => Some(*value),
            _ => None,
        }
    }

    pub fn change(&self) -> (r: Option<&T::Diff>)
        ensures
            r is Some <==> self is Change,
            r matches Some(d) ==> self matches EditField::Change(e) && *d == e,
    {
        match self {
            EditField::Change(value_diff) => Some(value_diff),
            _ => None,
        }
    }
}

} // verus!
