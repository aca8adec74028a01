//! Results for values of a sum type.
use vstd::prelude::*;

verus! {

/// The change between two values of a sum type: the variant changed (both whole values are
/// kept), or the variant is the same and its payload changed.
#[derive(Debug, PartialEq, Eq)]
pub enum Edit<'a, T, Diff> {
    Copy(&'a T),
    VariantChanged(&'a T, &'a T),
    AssociatedChanged(Diff),
}

impl<'a, T, Diff> Edit<'a, T, Diff> {
    pub fn is_copy(&self) -> (r: bool)
        ensures
            r == self is Copy,
    {
        match self {
            Edit::Copy(_) => true,
            _ => false,
        }
    }

    pub fn is_variant_changed(&self) -> (r: bool)
        ensures
            r == self is VariantChanged,
    {
        match self {
            Edit::VariantChanged(_, _) => true,
            _ => false,
        }
    }

    pub fn is_associated_changed(&self) -> (r: bool)
        ensures
            r == self is AssociatedChanged,
    {
        match self {
            Edit::AssociatedChanged(_) => true,
            _ => false,
        }
    }

    pub fn variant_changed(&self) -> (r: Option<(&'a T, &'a T)>)
        ensures
            r is Some <==> self is VariantChanged,
            r matches Some((a, b)) ==> self matches Edit::VariantChanged(l, m) && *a == *l && *b
                == *m,
    {
        match self {
            Edit::VariantChanged(left, right) => Some((*left, *right)),
            _ => None,
        }
    }

    pub fn associated_change(&self) -> (r: Option<&Diff>)
        ensures
            r is Some <==> self is AssociatedChanged,
            r matches Some(d) ==> self matches Edit::AssociatedChanged(e) && *d == e,
    {
        match self {
            Edit::AssociatedChanged(value) => Some(value),
            _ => None,
        }
    }
}

} // verus!
