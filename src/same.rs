//! The identity relation of the types that have one by default: equality, component-wise for
//! `Option`, through references for `&T`.
use crate::Same;
use vstd::prelude::*;

verus! {

impl<T: Same> Same for Option<T> {
    open spec fn spec_same(&self, other: &Self) -> bool {
        match (self, other) {
            (Some(a), Some(b)) => a.spec_same(b),
            (None, None) => true,
            _ => false,
        }
    }

    proof fn lemma_same_reflexive(x: &Self) {
        if let Some(a) = x {
            T::lemma_same_reflexive(a);
        }
    }

    fn same(&self, other: &Self) -> (r: bool) {
        match (self, other) {
            (Some(a), Some(b)) => a.same(b),
            (None, None) => true,
            _ => false,
        }
    }
}

impl Same for i64 {
    open spec fn spec_same(&self, other: &Self) -> bool {
        *self == *other
    }

    proof fn lemma_same_reflexive(x: &Self) {
    }

    fn same(&self, other: &Self) -> (r: bool) {
        *self == *other
    }
}

impl Same for i32 {
    open spec fn spec_same(&self, other: &Self) -> bool {
        *self == *other
    }

    proof fn lemma_same_reflexive(x: &Self) {
    }

    fn same(&self, other: &Self) -> (r: bool) {
        *self == *other
    }
}

impl Same for i16 {
    open spec fn spec_same(&self, other: &Self) -> bool {
        *self == *other
    }

    proof fn lemma_same_reflexive(x: &Self) {
    }

    fn same(&self, other: &Self) -> (r: bool) {
        *self == *other
    }
}

impl Same for i8 {
    open spec fn spec_same(&self, other: &Self) -> bool {
        *self == *other
    }

    proof fn lemma_same_reflexive(x: &Self) {
    }

    fn same(&self, other: &Self) -> (r: bool) {
        *self == *other
    }
}

impl Same for u64 {
    open spec fn spec_same(&self, other: &Self) -> bool {
        *self == *other
    }

    proof fn lemma_same_reflexive(x: &Self) {
    }

    fn same(&self, other: &Self) -> (r: bool) {
        *self == *other
    }
}

impl Same for u32 {
    open spec fn spec_same(&self, other: &Self) -> bool {
        *self == *other
    }

    proof fn lemma_same_reflexive(x: &Self) {
    }

    fn same(&self, other: &Self) -> (r: bool) {
        *self == *other
    }
}

impl Same for u16 {
    open spec fn spec_same(&self, other: &Self) -> bool {
        *self == *other
    }

    proof fn lemma_same_reflexive(x: &Self) {
    }

    fn same(&self, other: &Self) -> (r: bool) {
        *self == *other
    }
}

impl Same for u8 {
    open spec fn spec_same(&self, other: &Self) -> bool {
        *self == *other
    }

    proof fn lemma_same_reflexive(x: &Self) {
    }

    fn same(&self, other: &Self) -> (r: bool) {
        *self == *other
    }
}

impl Same for char {
    open spec fn spec_same(&self, other: &Self) -> bool {
        *self == *other
    }

    proof fn lemma_same_reflexive(x: &Self) {
    }

    fn same(&self, other: &Self) -> (r: bool) {
        *self == *other
    }
}

impl Same for bool {
    open spec fn spec_same(&self, other: &Self) -> bool {
        *self == *other
    }

    proof fn lemma_same_reflexive(x: &Self) {
    }

    fn same(&self, other: &Self) -> (r: bool) {
        *self == *other
    }
}

impl Same for isize {
    open spec fn spec_same(&self, other: &Self) -> bool {
        *self == *other
    }

    proof fn lemma_same_reflexive(x: &Self) {
    }

    fn same(&self, other: &Self) -> (r: bool) {
        *self == *other
    }
}

impl Same for usize {
    open spec fn spec_same(&self, other: &Self) -> bool {
        *self == *other
    }

    proof fn lemma_same_reflexive(x: &Self) {
    }

    fn same(&self, other: &Self) -> (r: bool) {
        *self == *other
    }
}

impl Same for () {
    open spec fn spec_same(&self, other: &Self) -> bool {
        true
    }

    proof fn lemma_same_reflexive(x: &Self) {
    }

    fn same(&self, other: &Self) -> (r: bool) {
        true
    }
}

impl Same for String {
    open spec fn spec_same(&self, other: &Self) -> bool {
        self@ == other@
    }

    proof fn lemma_same_reflexive(x: &Self) {
    }

    fn same(&self, other: &Self) -> (r: bool) {
        *self == *other
    }
}

impl<'b, T: Same> Same for &'b T {
    open spec fn spec_same(&self, other: &Self) -> bool {
        (**self).spec_same(*other)
    }

    proof fn lemma_same_reflexive(x: &Self) {
        T::lemma_same_reflexive(*x);
    }

    fn same(&self, other: &Self) -> (r: bool) {
        (**self).same(*other)
    }
}

} // verus!
