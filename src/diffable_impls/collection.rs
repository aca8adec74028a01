//! Ordered sequences (`Vec`, `VecDeque`): aligned by [`crate::lcs`] under `Same`, then every matched pair is diffed.
use crate::edit::{self, collection};
use crate::lcs::{self, entry_valid, script, widen, widen_edit};
use crate::{Diffable, Same};
use std::collections::VecDeque;
use vstd::prelude::*;

verus! {

/// The script entry that the diff gives for one alignment entry: a matched pair becomes `Copy`
/// of the left element when the pair shows no difference and `Change` otherwise.
pub open spec fn entry_follows<'a, T: Diffable<'a>>(
    x: Seq<T>,
    y: Seq<T>,
    step: lcs::Edit<int>,
    e: collection::Edit<'a, T, T::Diff>,
) -> bool {
    match step {
        lcs::Edit::Same(i, j) => if x[i].unchanged(&y[j]) {
            e matches collection::Edit::Copy(v) && *v == x[i]
        } else {
            e matches collection::Edit::Change(d) && x[i].is_change_of(&y[j], d)
        },
        lcs::Edit::Insert(j) => e matches collection::Edit::Insert(v) && *v == y[j],
        lcs::Edit::Remove(i) => e matches collection::Edit::Remove(v) && *v == x[i],
    }
}

/// `es` is the edit script of `x` against `y`: one entry for each entry of their alignment, in
/// the same order.
pub open spec fn is_script_of<'a, T: Same + Diffable<'a>>(
    x: Seq<T>,
    y: Seq<T>,
    es: Seq<collection::Edit<'a, T, T::Diff>>,
) -> bool {
    let sc = script(x, y);
    &&& es.len() == sc.len()
    &&& forall|k: int| 0 <= k < sc.len() ==> entry_follows(x, y, sc[k], #[trigger] es[k])
}

/// Every entry of the alignment of `x` with `y` is a matched pair that shows no difference.
pub open spec fn seq_unchanged<'a, T: Same + Diffable<'a>>(x: Seq<T>, y: Seq<T>) -> bool {
    let sc = script(x, y);
    forall|k: int|
        0 <= k < sc.len() ==> (#[trigger] sc[k] matches lcs::Edit::Same(i, j) && x[i].unchanged(
            &y[j],
        ))
}

/// One entry for each of `steps`, in order: a matched pair becomes `Copy` or `Change` from
/// diffing its two elements; an unmatched element is kept as `Insert` or `Remove`.
pub open spec fn follows_steps<'a, T: Diffable<'a>>(
    x: Seq<T>,
    y: Seq<T>,
    steps: Seq<lcs::Edit<int>>,
    es: Seq<collection::Edit<'a, T, T::Diff>>,
) -> bool {
    &&& es.len() == steps.len()
    &&& forall|k: int| 0 <= k < steps.len() ==> entry_follows(x, y, steps[k], #[trigger] es[k])
}

/// The script entries for the alignment entries `steps` of `x` and `y`: every matched pair is
/// diffed, every unmatched element kept.
pub fn lcs_post_change<'a, T: Diffable<'a>>(
    x: &'a [T],
    y: &'a [T],
    steps: &Vec<lcs::Edit<usize>>,
) -> (r: Vec<collection::Edit<'a, T, T::Diff>>)
    requires
        forall|k: int|
            0 <= k < steps@.len() ==> lcs::in_range(
                x@.len() as int,
                y@.len() as int,
                #[trigger] widen(steps@)[k],
            ),
    ensures
        follows_steps(x@, y@, widen(steps@), r@),
{
    let ghost ws = widen(steps@);
    let mut out: Vec<collection::Edit<'a, T, T::Diff>> = Vec::new();
    let n = steps.len();
    for k in 0..n
        invariant
            n == steps@.len(),
            ws == widen(steps@),
            forall|t: int|
                0 <= t < steps@.len() ==> lcs::in_range(x@.len() as int, y@.len() as int, #[trigger] ws[t]),
            out@.len() == k,
            forall|t: int| 0 <= t < k ==> entry_follows(x@, y@, ws[t], #[trigger] out@[t]),
    {
        let step = steps[k];
        assert(ws[k as int] == widen_edit(step));
        assert(lcs::in_range(x@.len() as int, y@.len() as int, ws[k as int]));
        let e = match step {
            lcs::Edit::Same(i, j) => {
                let left: &'a T = &x[i];
                let right: &'a T = &y[j];
                match left.diff(right) {
                    edit::Edit::Copy(v) => collection::Edit::Copy(v),
                    edit::Edit::Change(d) => collection::Edit::Change(d),
                }
            },
            lcs::Edit::Insert(j) => collection::Edit::Insert(&y[j]),
            lcs::Edit::Remove(i) => collection::Edit::Remove(&x[i]),
        };
        out.push(e);
    }
    out
}

/// The edit script of `x` against `y`.
pub fn diff_slice<'a, T: Same + Diffable<'a>>(x: &'a [T], y: &'a [T]) -> (r: Vec<
    collection::Edit<'a, T, T::Diff>,
>)
    ensures
        is_script_of(x@, y@, r@),
{
    let steps = lcs::lcs(x, y);
    proof {
        lcs::lemma_script_is_alignment(x@, y@);
        assert forall|k: int| 0 <= k < steps@.len() implies lcs::in_range(
            x@.len() as int,
            y@.len() as int,
            #[trigger] widen(steps@)[k],
        ) by {
            assert(entry_valid(x@, y@, script(x@, y@)[k]));
        }
    }
    lcs_post_change(x, y, &steps)
}

/// An edit script follows the alignment of its two sequences entry by entry: an entry is `Copy`
/// or `Change` exactly where the alignment matches a pair. The alignment names every element of
/// each side once and in order, and matches as many pairs as a longest common subsequence under
/// `Same` has elements; no alignment matches more.
pub proof fn lemma_script_entries_align<'a, T: Same + Diffable<'a>>(
    x: Seq<T>,
    y: Seq<T>,
    es: Seq<collection::Edit<'a, T, T::Diff>>,
    other: Seq<lcs::Edit<int>>,
)
    requires
        is_script_of(x, y, es),
    ensures
        es.len() == script(x, y).len(),
        forall|k: int|
            0 <= k < es.len() ==> ((#[trigger] es[k] is Copy || es[k] is Change) <==> script(
                x,
                y,
            )[k] is Same),
        lcs::is_alignment(x, y, script(x, y)),
        lcs::matched_count(script(x, y)) == lcs::lcs_len(x, y, 0, x.len() as int, y.len() as int),
        lcs::is_alignment(x, y, other) ==> lcs::matched_count(other) <= lcs::matched_count(
            script(x, y),
        ),
{
    lcs::lemma_script_is_alignment(x, y);
    if lcs::is_alignment(x, y, other) {
        lcs::lemma_lcs_len_is_longest(x, y, other);
    }
    assert forall|k: int| 0 <= k < es.len() implies ((#[trigger] es[k] is Copy || es[k] is Change)
        <==> script(x, y)[k] is Same) by {
        assert(entry_follows(x, y, script(x, y)[k], es[k]));
    }
}

/// Whether every entry of a script is `Copy`.
pub fn all_copy<'a, T, D>(es: &Vec<collection::Edit<'a, T, D>>) -> (r: bool)
    ensures
        r == forall|k: int| 0 <= k < es@.len() ==> (#[trigger] es@[k]) is Copy,
{
    let mut k: usize = 0;
    while k < es.len()
        invariant
            k <= es@.len(),
            forall|t: int| 0 <= t < k ==> (#[trigger] es@[t]) is Copy,
        decreases es@.len() - k,
    {
        if !es[k].is_copy() {
            return false;
        }
        k = k + 1;
    }
    true
}

proof fn lemma_all_copy_iff_unchanged<'a, T: Same + Diffable<'a>>(
    x: Seq<T>,
    y: Seq<T>,
    es: Seq<collection::Edit<'a, T, T::Diff>>,
)
    requires
        is_script_of(x, y, es),
    ensures
        (forall|k: int| 0 <= k < es.len() ==> (#[trigger] es[k]) is Copy) <==> seq_unchanged(x, y),
{
    let sc = script(x, y);
    if forall|k: int| 0 <= k < es.len() ==> (#[trigger] es[k]) is Copy {
        assert forall|k: int| 0 <= k < sc.len() implies (#[trigger] sc[k] matches lcs::Edit::Same(
            i,
            j,
        ) && x[i].unchanged(&y[j])) by {
            assert(entry_follows(x, y, sc[k], es[k]));
            assert(es[k] is Copy);
        }
    }
    if seq_unchanged(x, y) {
        assert forall|k: int| 0 <= k < es.len() implies (#[trigger] es[k]) is Copy by {
            assert(entry_follows(x, y, sc[k], es[k]));
        }
    }
}

/// A sequence diffed against itself shows no difference.
pub proof fn lemma_seq_unchanged_reflexive<'a, T: Same + Diffable<'a>>(x: Seq<T>)
    ensures
        seq_unchanged(x, x),
{
    lcs::lemma_script_reflexive(x);
    let sc = script(x, x);
    assert forall|k: int| 0 <= k < sc.len() implies (#[trigger] sc[k] matches lcs::Edit::Same(
        i,
        j,
    ) && x[i].unchanged(&x[j])) by {
        assert(sc[k] == lcs::Edit::Same(k, k));
        T::lemma_unchanged_reflexive(&x[k]);
    }
}

impl<'a, T: Same + Diffable<'a>> Diffable<'a> for Vec<T> {
    type Diff = Vec<collection::Edit<'a, T, T::Diff>>;

    open spec fn unchanged(&self, other: &Self) -> bool {
        seq_unchanged(self@, other@)
    }

    open spec fn is_change_of(&self, other: &Self, d: Self::Diff) -> bool {
        is_script_of(self@, other@, d@)
    }

    proof fn lemma_unchanged_reflexive(x: &Self) {
        lemma_seq_unchanged_reflexive(x@);
    }

    fn diff(&'a self, other: &'a Self) -> (r: edit::Edit<'a, Self>) {
        let s = diff_slice(self.as_slice(), other.as_slice());
        proof {
            lemma_all_copy_iff_unchanged(self@, other@, s@);
        }
        if all_copy(&s) {
            edit::Edit::Copy(self)
        } else {
            edit::Edit::Change(s)
        }
    }
}

/// References to the elements of `v`, in order.
fn refs_of<'a, T>(v: &'a VecDeque<T>) -> (r: Vec<&'a T>)
    ensures
        r@.len() == v@.len(),
        forall|k: int| 0 <= k < v@.len() ==> *(#[trigger] r@[k]) == v@[k],
{
    let mut r: Vec<&'a T> = Vec::new();
    let n = v.len();
    for k in 0..n
        invariant
            n == v@.len(),
            r@.len() == k,
            forall|t: int| 0 <= t < k ==> *(#[trigger] r@[t]) == v@[t],
    {
        r.push(&v[k]);
    }
    r
}

/// The script entries for the alignment entries `steps` of the deques `x` and `y`: every
/// matched pair is diffed, every unmatched element kept.
fn deque_post_change<'a, T: Diffable<'a>>(
    x: &'a VecDeque<T>,
    y: &'a VecDeque<T>,
    steps: &Vec<lcs::Edit<usize>>,
) -> (r: Vec<collection::Edit<'a, T, T::Diff>>)
    requires
        forall|k: int|
            0 <= k < steps@.len() ==> lcs::in_range(
                x@.len() as int,
                y@.len() as int,
                #[trigger] widen(steps@)[k],
            ),
    ensures
        follows_steps(x@, y@, widen(steps@), r@),
{
    let ghost ws = widen(steps@);
    let mut out: Vec<collection::Edit<'a, T, T::Diff>> = Vec::new();
    let n = steps.len();
    for k in 0..n
        invariant
            n == steps@.len(),
            ws == widen(steps@),
            forall|t: int|
                0 <= t < steps@.len() ==> lcs::in_range(x@.len() as int, y@.len() as int, #[trigger] ws[t]),
            out@.len() == k,
            forall|t: int| 0 <= t < k ==> entry_follows(x@, y@, ws[t], #[trigger] out@[t]),
    {
        let step = steps[k];
        assert(ws[k as int] == widen_edit(step));
        assert(lcs::in_range(x@.len() as int, y@.len() as int, ws[k as int]));
        let e = match step {
            lcs::Edit::Same(i, j) => {
                let left: &'a T = &x[i];
                let right: &'a T = &y[j];
                match left.diff(right) {
                    edit::Edit::Copy(v) => collection::Edit::Copy(v),
                    edit::Edit::Change(d) => collection::Edit::Change(d),
                }
            },
            lcs::Edit::Insert(j) => collection::Edit::Insert(&y[j]),
            lcs::Edit::Remove(i) => collection::Edit::Remove(&x[i]),
        };
        out.push(e);
    }
    out
}

impl<'a, T: Same + Diffable<'a>> Diffable<'a> for VecDeque<T> {
    type Diff = Vec<collection::Edit<'a, T, T::Diff>>;

    open spec fn unchanged(&self, other: &Self) -> bool {
        seq_unchanged(self@, other@)
    }

    open spec fn is_change_of(&self, other: &Self, d: Self::Diff) -> bool {
        is_script_of(self@, other@, d@)
    }

    proof fn lemma_unchanged_reflexive(x: &Self) {
        lemma_seq_unchanged_reflexive(x@);
    }

    fn diff(&'a self, other: &'a Self) -> (r: edit::Edit<'a, Self>) {
        let xr = refs_of(self);
        let yr = refs_of(other);
        let steps = lcs::lcs(xr.as_slice(), yr.as_slice());
        proof {
            assert(lcs::same_agrees(xr@, yr@, self@, other@)) by {
                assert forall|i: int, j: int|
                    0 <= i < xr@.len() && 0 <= j < yr@.len() implies (#[trigger] lcs::same_at(
                    xr@,
                    yr@,
                    i,
                    j,
                ) == lcs::same_at(self@, other@, i, j)) by {
                    assert(*xr@[i] == self@[i]);
                    assert(*yr@[j] == other@[j]);
                }
            }
            lcs::lemma_script_agrees(xr@, yr@, self@, other@);
            lcs::lemma_script_is_alignment(self@, other@);
            assert forall|k: int| 0 <= k < steps@.len() implies lcs::in_range(
                self@.len() as int,
                other@.len() as int,
                #[trigger] widen(steps@)[k],
            ) by {
                assert(entry_valid(self@, other@, script(self@, other@)[k]));
            }
        }
        let s = deque_post_change(self, other, &steps);
        proof {
            lemma_all_copy_iff_unchanged(self@, other@, s@);
        }
        if all_copy(&s) {
            edit::Edit::Copy(self)
        } else {
            edit::Edit::Change(s)
        }
    }
}

} // verus!
