//! Identifier types of other crates (`uuid::Uuid`, `snake_case::SnakeCase`), diffed as leaves:
//! by equality, reported as the pair of both values when they differ.
use crate::edit;
use crate::{Diffable, Same};
use snake_case::SnakeCase;
use uuid::Uuid;
use vstd::prelude::*;

verus! {

#[verifier::external_type_specification]
#[verifier::external_body]
pub struct ExUuid(Uuid);

#[verifier::external_type_specification]
#[verifier::external_body]
pub struct ExSnakeCase(SnakeCase);

/// Relies on `Uuid`'s derived `PartialEq`, which compares the 16 bytes that are the whole value.
#[verifier::external_body]
fn uuid_eq(a: &Uuid, b: &Uuid) -> (r: bool)
    ensures
        r == (*a == *b),
{
    a == b
}

/// Relies on `SnakeCase`'s derived `PartialEq`, which compares the one `String` that is the
/// whole value.
#[verifier::external_body]
fn snake_case_eq(a: &SnakeCase, b: &SnakeCase) -> (r: bool)
    ensures
        r == (*a == *b),
{
    a == b
}

impl Same for Uuid {
    open spec fn spec_same(&self, other: &Self) -> bool {
        *self == *other
    }

    proof fn lemma_same_reflexive(x: &Self) {
    }

    fn same(&self, other: &Self) -> (r: bool) {
        uuid_eq(self, other)
    }
}

impl<'a> Diffable<'a> for Uuid {
    type Diff = (&'a Uuid, &'a Uuid);

    open spec fn unchanged(&self, other: &Self) -> bool {
        *self == *other
    }

    open spec fn is_change_of(&self, other: &Self, d: Self::Diff) -> bool {
        *d.0 == *self && *d.1 == *other
    }

    proof fn lemma_unchanged_reflexive(x: &Self) {
    }

    fn diff(&'a self, other: &'a Self) -> (r: edit::Edit<'a, Self>) {
        if uuid_eq(self, other) {
            edit::Edit::Copy(self)
        } else {
            edit::Edit::Change((self, other))
        }
    }
}

impl Same for SnakeCase {
    open spec fn spec_same(&self, other: &Self) -> bool {
        *self == *other
    }

    proof fn lemma_same_reflexive(x: &Self) {
    }

    fn same(&self, other: &Self) -> (r: bool) {
        snake_case_eq(self, other)
    }
}

impl<'a> Diffable<'a> for SnakeCase {
    type Diff = (&'a SnakeCase, &'a SnakeCase);

    open spec fn unchanged(&self, other: &Self) -> bool {
        *self == *other
    }

    open spec fn is_change_of(&self, other: &Self, d: Self::Diff) -> bool {
        *d.0 == *self && *d.1 == *other
    }

    proof fn lemma_unchanged_reflexive(x: &Self) {
    }

    fn diff(&'a self, other: &'a Self) -> (r: edit::Edit<'a, Self>) {
        if snake_case_eq(self, other) {
            edit::Edit::Copy(self)
        } else {
            edit::Edit::Change((self, other))
        }
    }
}

} // verus!
