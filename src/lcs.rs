//! Alignment of two ordered sequences by a longest common subsequence under [`Same`].
//!
//! The aligner first matches the common `Same`-prefix and `Same`-suffix of the two sequences,
//! then fills a table of longest-common-subsequence lengths over the region between them and
//! walks it back from its far corner. Where the walk may drop either element (the two
//! neighbouring lengths are equal) it drops the right one first, so `Insert` entries come after
//! `Remove` entries of the same gap. The result lists indices into the two sequences.
//!
//! Matching is one-to-one: each element takes part in at most one pair. Where several elements
//! of one side are the same as one element of the other, the walk above decides which of them
//! is matched; the others are inserted or removed.
//!
//! The table has one cell for each pair of elements between prefix and suffix, and is filled in
//! full. A caller that must bound that work caps the lengths of the sequences before diffing.
use crate::twodvec::TwoDVec;
use crate::Same;
use vstd::prelude::*;

verus! {

/// One entry of an alignment: a matched pair, an element of the right sequence only, or an
/// element of the left sequence only.
#[derive(Clone, Copy, Debug, PartialEq, Eq)]
pub enum Edit<T> {
    Same(T, T),
    Insert(T),
    Remove(T),
}

impl<T> Edit<T> {
    pub fn is_same(&self) -> (r: bool)
        ensures
            r == self is Same,
    {
        match self {
            Edit::Same(_, _) => true,
            _ => false,
        }
    }
}

/// Whether the `i`-th element of `x` and the `j`-th element of `y` are the same element.
pub open spec fn same_at<T: Same>(x: Seq<T>, y: Seq<T>, i: int, j: int) -> bool {
    x[i].spec_same(&y[j])
}

/// Whether the elements `t` places from the end of `x` and of `y` are the same element.
pub open spec fn same_from_end<T: Same>(x: Seq<T>, y: Seq<T>, t: int) -> bool {
    same_at(x, y, x.len() - 1 - t, y.len() - 1 - t)
}

/// The length of a longest common subsequence, under `Same`, of `x[lo..i]` and `y[lo..j]`.
pub open spec fn lcs_len<T: Same>(x: Seq<T>, y: Seq<T>, lo: int, i: int, j: int) -> nat
    decreases (i - lo) + (j - lo),
{
    if i <= lo || j <= lo {
        0
    } else if same_at(x, y, i - 1, j - 1) {
        lcs_len(x, y, lo, i - 1, j - 1) + 1
    } else {
        let a = lcs_len(x, y, lo, i - 1, j);
        let b = lcs_len(x, y, lo, i, j - 1);
        if a >= b {
            a
        } else {
            b
        }
    }
}

/// The alignment of `x[lo..i]` with `y[lo..j]` read off the table of `lcs_len`, walking back
/// from `(i, j)`: a `Same` pair when the last elements are the same, else the right element
/// when dropping it keeps at least as long a common subsequence, else the left element.
pub open spec fn backtrack<T: Same>(x: Seq<T>, y: Seq<T>, lo: int, i: int, j: int) -> Seq<Edit<int>>
    decreases (if i > lo {
        i - lo
    } else {
        0
    }) + (if j > lo {
        j - lo
    } else {
        0
    }),
{
    if i > lo && j > lo && same_at(x, y, i - 1, j - 1) {
        backtrack(x, y, lo, i - 1, j - 1).push(Edit::Same(i - 1, j - 1))
    } else if j > lo && (i <= lo || lcs_len(x, y, lo, i, j - 1) >= lcs_len(x, y, lo, i - 1, j)) {
        backtrack(x, y, lo, i, j - 1).push(Edit::Insert(j - 1))
    } else if i > lo {
        backtrack(x, y, lo, i - 1, j).push(Edit::Remove(i - 1))
    } else {
        Seq::empty()
    }
}

/// The end of the common `Same`-prefix of `x` and `y`, looking from position `k` on.
pub open spec fn prefix_from<T: Same>(x: Seq<T>, y: Seq<T>, k: int) -> int
    decreases x.len() - k,
{
    if 0 <= k < x.len() && k < y.len() && same_at(x, y, k, k) {
        prefix_from(x, y, k + 1)
    } else {
        k
    }
}

/// The length of the common `Same`-prefix of `x` and `y`.
pub open spec fn prefix_len<T: Same>(x: Seq<T>, y: Seq<T>) -> int {
    prefix_from(x, y, 0)
}

/// The length of the common `Same`-suffix of `x[p + 1..]` and `y[p + 1..]`, counted on from `k`.
pub open spec fn suffix_from<T: Same>(x: Seq<T>, y: Seq<T>, p: int, k: int) -> int
    decreases x.len() - k,
{
    if 0 <= p && 0 <= k && k < x.len() - p - 1 && k < y.len() - p - 1 && same_at(
        x,
        y,
        x.len() - 1 - k,
        y.len() - 1 - k,
    ) {
        suffix_from(x, y, p, k + 1)
    } else {
        k
    }
}

/// The length of the common `Same`-suffix that is matched directly. It is looked for only when
/// the prefix stops at a mismatch, and never reaches that mismatch.
pub open spec fn suffix_len<T: Same>(x: Seq<T>, y: Seq<T>) -> int {
    let p = prefix_len(x, y);
    if p < x.len() && p < y.len() {
        suffix_from(x, y, p, 0)
    } else {
        0
    }
}

/// `len` matched pairs `(a, b)`, `(a + 1, b + 1)`, ...
pub open spec fn matched_run(a: int, b: int, len: int) -> Seq<Edit<int>> {
    Seq::new(len as nat, |k: int| Edit::Same(a + k, b + k))
}

/// The alignment that [`lcs`] returns: the common prefix, the table walk over the region
/// between prefix and suffix, and the common suffix.
pub open spec fn script<T: Same>(x: Seq<T>, y: Seq<T>) -> Seq<Edit<int>> {
    let p = prefix_len(x, y);
    let s = suffix_len(x, y);
    let m = x.len() as int;
    let n = y.len() as int;
    matched_run(0, 0, p) + backtrack(x, y, p, m - s, n - s) + matched_run(m - s, n - s, s)
}

pub open spec fn widen_edit(e: Edit<usize>) -> Edit<int> {
    match e {
        Edit::Same(a, b) => Edit::Same(a as int, b as int),
        Edit::Insert(b) => Edit::Insert(b as int),
        Edit::Remove(a) => Edit::Remove(a as int),
    }
}

/// An alignment of indices as mathematical integers.
pub open spec fn widen(s: Seq<Edit<usize>>) -> Seq<Edit<int>> {
    s.map_values(|e: Edit<usize>| widen_edit(e))
}

/// The indices of the left sequence that an alignment names, in order.
pub open spec fn left_side(s: Seq<Edit<int>>) -> Seq<int>
    decreases s.len(),
{
    if s.len() == 0 {
        Seq::empty()
    } else {
        let rest = left_side(s.drop_last());
        match s.last() {
            Edit::Same(a, _) => rest.push(a),
            Edit::Remove(a) => rest.push(a),
            Edit::Insert(_) => rest,
        }
    }
}

/// The indices of the right sequence that an alignment names, in order.
pub open spec fn right_side(s: Seq<Edit<int>>) -> Seq<int>
    decreases s.len(),
{
    if s.len() == 0 {
        Seq::empty()
    } else {
        let rest = right_side(s.drop_last());
        match s.last() {
            Edit::Same(_, b) => rest.push(b),
            Edit::Insert(b) => rest.push(b),
            Edit::Remove(_) => rest,
        }
    }
}

/// The number of matched pairs of an alignment.
pub open spec fn matched_count(s: Seq<Edit<int>>) -> nat
    decreases s.len(),
{
    if s.len() == 0 {
        0
    } else {
        matched_count(s.drop_last()) + if s.last() is Same {
            1nat
        } else {
            0nat
        }
    }
}

/// `a`, `a + 1`, ..., `b - 1`.
pub open spec fn index_range(a: int, b: int) -> Seq<int> {
    Seq::new((b - a) as nat, |k: int| a + k)
}

/// `e` names indices below `m` on the left and below `n` on the right.
pub open spec fn in_range(m: int, n: int, e: Edit<int>) -> bool {
    match e {
        Edit::Same(a, b) => 0 <= a < m && 0 <= b < n,
        Edit::Insert(b) => 0 <= b < n,
        Edit::Remove(a) => 0 <= a < m,
    }
}

/// `e` names indices inside `x` and `y`, and a matched pair names elements that are the same.
pub open spec fn entry_valid<T: Same>(x: Seq<T>, y: Seq<T>, e: Edit<int>) -> bool {
    match e {
        Edit::Same(a, b) => 0 <= a < x.len() && 0 <= b < y.len() && same_at(x, y, a, b),
        Edit::Insert(b) => 0 <= b < y.len(),
        Edit::Remove(a) => 0 <= a < x.len(),
    }
}

/// Every entry of `s` is valid for `x` and `y`.
pub open spec fn entries_valid<T: Same>(x: Seq<T>, y: Seq<T>, s: Seq<Edit<int>>) -> bool {
    forall|k: int| 0 <= k < s.len() ==> entry_valid(x, y, #[trigger] s[k])
}

/// `s` aligns `x` with `y`: it names every index of each sequence once and in order, and
/// matches only elements that are the same.
pub open spec fn is_alignment<T: Same>(x: Seq<T>, y: Seq<T>, s: Seq<Edit<int>>) -> bool {
    &&& left_side(s) == index_range(0, x.len() as int)
    &&& right_side(s) == index_range(0, y.len() as int)
    &&& entries_valid(x, y, s)
}

proof fn lemma_sides_push(s: Seq<Edit<int>>, e: Edit<int>)
    ensures
        left_side(s.push(e)) == match e {
            Edit::Same(a, _) => left_side(s).push(a),
            Edit::Remove(a) => left_side(s).push(a),
            Edit::Insert(_) => left_side(s),
        },
        right_side(s.push(e)) == match e {
            Edit::Same(_, b) => right_side(s).push(b),
            Edit::Insert(b) => right_side(s).push(b),
            Edit::Remove(_) => right_side(s),
        },
        matched_count(s.push(e)) == matched_count(s) + if e is Same {
            1nat
        } else {
            0nat
        },
{
    assert(s.push(e).drop_last() =~= s);
}

proof fn lemma_sides_append(s: Seq<Edit<int>>, t: Seq<Edit<int>>)
    ensures
        left_side(s + t) == left_side(s) + left_side(t),
        right_side(s + t) == right_side(s) + right_side(t),
        matched_count(s + t) == matched_count(s) + matched_count(t),
    decreases t.len(),
{
    if t.len() == 0 {
        assert(s + t =~= s);
        assert(left_side(s) + left_side(t) =~= left_side(s));
        assert(right_side(s) + right_side(t) =~= right_side(s));
    } else {
        let u = t.drop_last();
        lemma_sides_append(s, u);
        assert(s + t =~= (s + u).push(t.last()));
        assert(t =~= u.push(t.last()));
        lemma_sides_push(s + u, t.last());
        lemma_sides_push(u, t.last());
        assert(left_side(s + t) =~= left_side(s) + left_side(t));
        assert(right_side(s + t) =~= right_side(s) + right_side(t));
    }
}

proof fn lemma_matched_run(a: int, b: int, len: int)
    requires
        0 <= len,
    ensures
        left_side(matched_run(a, b, len)) == index_range(a, a + len),
        right_side(matched_run(a, b, len)) == index_range(b, b + len),
        matched_count(matched_run(a, b, len)) == len,
    decreases len,
{
    if len > 0 {
        lemma_matched_run(a, b, len - 1);
        assert(matched_run(a, b, len) =~= matched_run(a, b, len - 1).push(
            Edit::Same(a + len - 1, b + len - 1),
        ));
        lemma_sides_push(matched_run(a, b, len - 1), Edit::Same(a + len - 1, b + len - 1));
        assert(left_side(matched_run(a, b, len)) =~= index_range(a, a + len));
        assert(right_side(matched_run(a, b, len)) =~= index_range(b, b + len));
    } else {
        assert(matched_run(a, b, len) =~= Seq::<Edit<int>>::empty());
        assert(index_range(a, a + len) =~= Seq::<int>::empty());
        assert(index_range(b, b + len) =~= Seq::<int>::empty());
    }
}

proof fn lemma_lcs_len_steps<T: Same>(x: Seq<T>, y: Seq<T>, lo: int, i: int, j: int)
    requires
        lo <= i,
        lo <= j,
    ensures
        i > lo ==> lcs_len(x, y, lo, i - 1, j) <= lcs_len(x, y, lo, i, j) <= lcs_len(
            x,
            y,
            lo,
            i - 1,
            j,
        ) + 1,
        j > lo ==> lcs_len(x, y, lo, i, j - 1) <= lcs_len(x, y, lo, i, j) <= lcs_len(
            x,
            y,
            lo,
            i,
            j - 1,
        ) + 1,
    decreases (i - lo) + (j - lo),
{
    if i > lo && j > lo {
        lemma_lcs_len_steps(x, y, lo, i - 1, j);
        lemma_lcs_len_steps(x, y, lo, i, j - 1);
        lemma_lcs_len_steps(x, y, lo, i - 1, j - 1);
    } else if i > lo {
        assert(lcs_len(x, y, lo, i - 1, j) == 0);
    } else if j > lo {
        assert(lcs_len(x, y, lo, i, j - 1) == 0);
    }
}

proof fn lemma_backtrack_alignment<T: Same>(x: Seq<T>, y: Seq<T>, lo: int, i: int, j: int)
    requires
        0 <= lo <= i <= x.len(),
        lo <= j <= y.len(),
    ensures
        left_side(backtrack(x, y, lo, i, j)) == index_range(lo, i),
        right_side(backtrack(x, y, lo, i, j)) == index_range(lo, j),
        entries_valid(x, y, backtrack(x, y, lo, i, j)),
        matched_count(backtrack(x, y, lo, i, j)) == lcs_len(x, y, lo, i, j),
    decreases (i - lo) + (j - lo),
{
    let b = backtrack(x, y, lo, i, j);
    if i > lo && j > lo && same_at(x, y, i - 1, j - 1) {
        let e = Edit::Same(i - 1, j - 1);
        lemma_backtrack_alignment(x, y, lo, i - 1, j - 1);
        lemma_sides_push(backtrack(x, y, lo, i - 1, j - 1), e);
        assert(index_range(lo, i) =~= index_range(lo, i - 1).push(i - 1));
        assert(index_range(lo, j) =~= index_range(lo, j - 1).push(j - 1));
    } else if j > lo && (i <= lo || lcs_len(x, y, lo, i, j - 1) >= lcs_len(x, y, lo, i - 1, j)) {
        let e = Edit::Insert(j - 1);
        lemma_backtrack_alignment(x, y, lo, i, j - 1);
        lemma_sides_push(backtrack(x, y, lo, i, j - 1), e);
        assert(index_range(lo, j) =~= index_range(lo, j - 1).push(j - 1));
    } else if i > lo {
        let e = Edit::Remove(i - 1);
        lemma_backtrack_alignment(x, y, lo, i - 1, j);
        lemma_sides_push(backtrack(x, y, lo, i - 1, j), e);
        assert(index_range(lo, i) =~= index_range(lo, i - 1).push(i - 1));
    } else {
        assert(index_range(lo, i) =~= Seq::<int>::empty());
        assert(index_range(lo, j) =~= Seq::<int>::empty());
    }
}

proof fn lemma_prefix_from<T: Same>(x: Seq<T>, y: Seq<T>, k: int)
    requires
        0 <= k <= x.len(),
        k <= y.len(),
    ensures
        k <= prefix_from(x, y, k) <= x.len(),
        prefix_from(x, y, k) <= y.len(),
        forall|t: int| k <= t < prefix_from(x, y, k) ==> same_at(x, y, t, t),
        prefix_from(x, y, k) < x.len() && prefix_from(x, y, k) < y.len() ==> !same_at(
            x,
            y,
            prefix_from(x, y, k),
            prefix_from(x, y, k),
        ),
    decreases x.len() - k,
{
    if k < x.len() && k < y.len() && same_at(x, y, k, k) {
        lemma_prefix_from(x, y, k + 1);
    }
}

proof fn lemma_suffix_from<T: Same>(x: Seq<T>, y: Seq<T>, p: int, k: int)
    requires
        0 <= p < x.len(),
        p < y.len(),
        0 <= k <= x.len() - p - 1,
        k <= y.len() - p - 1,
    ensures
        k <= suffix_from(x, y, p, k) <= x.len() - p - 1,
        suffix_from(x, y, p, k) <= y.len() - p - 1,
        forall|t: int|
            k <= t < suffix_from(x, y, p, k) ==> same_from_end(x, y, t),
    decreases x.len() - k,
{
    if k < x.len() - p - 1 && k < y.len() - p - 1 && same_at(
        x,
        y,
        x.len() - 1 - k,
        y.len() - 1 - k,
    ) {
        lemma_suffix_from(x, y, p, k + 1);
    }
}

/// What the prefix and suffix lengths guarantee: they do not overlap, and they cover pairs of
/// elements that are the same.
proof fn lemma_trim<T: Same>(x: Seq<T>, y: Seq<T>)
    ensures
        0 <= prefix_len(x, y),
        0 <= suffix_len(x, y),
        prefix_len(x, y) + suffix_len(x, y) <= x.len(),
        prefix_len(x, y) + suffix_len(x, y) <= y.len(),
        prefix_len(x, y) < x.len() && prefix_len(x, y) < y.len() ==> prefix_len(x, y)
            + suffix_len(x, y) < x.len() && prefix_len(x, y) + suffix_len(x, y) < y.len(),
        forall|t: int| 0 <= t < prefix_len(x, y) ==> same_at(x, y, t, t),
        forall|t: int|
            0 <= t < suffix_len(x, y) ==> same_from_end(x, y, t),
{
    lemma_prefix_from(x, y, 0);
    let p = prefix_len(x, y);
    if p < x.len() && p < y.len() {
        lemma_suffix_from(x, y, p, 0);
    }
}

/// Matching one more common leading pair adds one to the longest common subsequence.
proof fn lemma_lcs_len_leading_pair<T: Same>(x: Seq<T>, y: Seq<T>, lo: int, i: int, j: int)
    requires
        0 <= lo < i <= x.len(),
        lo < j <= y.len(),
        same_at(x, y, lo, lo),
    ensures
        lcs_len(x, y, lo, i, j) == lcs_len(x, y, lo + 1, i, j) + 1,
    decreases (i - lo) + (j - lo),
{
    if i == lo + 1 && j == lo + 1 {
        assert(lcs_len(x, y, lo, lo, lo) == 0);
    } else if i == lo + 1 {
        assert(lcs_len(x, y, lo, lo, j - 1) == 0);
        assert(lcs_len(x, y, lo, lo, j) == 0);
        assert(lcs_len(x, y, lo + 1, i, j - 1) == 0);
        assert(lcs_len(x, y, lo + 1, i, j) == 0);
        if !same_at(x, y, i - 1, j - 1) {
            lemma_lcs_len_leading_pair(x, y, lo, i, j - 1);
        }
    } else if j == lo + 1 {
        assert(lcs_len(x, y, lo, i - 1, lo) == 0);
        assert(lcs_len(x, y, lo, i, lo) == 0);
        assert(lcs_len(x, y, lo + 1, i - 1, j) == 0);
        assert(lcs_len(x, y, lo + 1, i, j) == 0);
        if !same_at(x, y, i - 1, j - 1) {
            lemma_lcs_len_leading_pair(x, y, lo, i - 1, j);
        }
    } else if same_at(x, y, i - 1, j - 1) {
        lemma_lcs_len_leading_pair(x, y, lo, i - 1, j - 1);
    } else {
        lemma_lcs_len_leading_pair(x, y, lo, i - 1, j);
        lemma_lcs_len_leading_pair(x, y, lo, i, j - 1);
    }
}

proof fn lemma_lcs_len_prefix<T: Same>(x: Seq<T>, y: Seq<T>, p: int, i: int, j: int)
    requires
        0 <= p <= i <= x.len(),
        p <= j <= y.len(),
        forall|t: int| 0 <= t < p ==> same_at(x, y, t, t),
    ensures
        lcs_len(x, y, 0, i, j) == lcs_len(x, y, p, i, j) + p,
    decreases p,
{
    if p > 0 {
        lemma_lcs_len_leading_pair(x, y, p - 1, i, j);
        if p - 1 > 0 {
            lemma_lcs_len_prefix(x, y, p - 1, i, j);
        }
    }
}

proof fn lemma_lcs_len_suffix<T: Same>(x: Seq<T>, y: Seq<T>, p: int, s: int)
    requires
        0 <= s,
        0 <= p,
        p + s <= x.len(),
        p + s <= y.len(),
        forall|t: int| 0 <= t < s ==> same_from_end(x, y, t),
    ensures
        lcs_len(x, y, p, x.len() as int, y.len() as int) == lcs_len(
            x,
            y,
            p,
            x.len() - s,
            y.len() - s,
        ) + s,
    decreases s,
{
    if s > 0 {
        lemma_lcs_len_suffix(x, y, p, s - 1);
        assert(same_from_end(x, y, s - 1));
    }
}

/// The alignment returned by [`lcs`] is an alignment of `x` with `y`, and it matches as many
/// pairs as a longest common subsequence under `Same` has elements.
pub proof fn lemma_script_is_alignment<T: Same>(x: Seq<T>, y: Seq<T>)
    ensures
        is_alignment(x, y, script(x, y)),
        matched_count(script(x, y)) == lcs_len(x, y, 0, x.len() as int, y.len() as int),
{
    lemma_trim(x, y);
    let p = prefix_len(x, y);
    let s = suffix_len(x, y);
    let m = x.len() as int;
    let n = y.len() as int;
    let pre = matched_run(0, 0, p);
    let mid = backtrack(x, y, p, m - s, n - s);
    let suf = matched_run(m - s, n - s, s);
    lemma_matched_run(0, 0, p);
    lemma_matched_run(m - s, n - s, s);
    lemma_backtrack_alignment(x, y, p, m - s, n - s);
    lemma_sides_append(pre, mid);
    lemma_sides_append(pre + mid, suf);
    assert(index_range(0, p) + index_range(p, m - s) + index_range(m - s, m - s + s) =~= index_range(0, m));
    assert(index_range(0, p) + index_range(p, n - s) + index_range(n - s, n - s + s) =~= index_range(0, n));
    let sc = script(x, y);
    assert forall|k: int| 0 <= k < sc.len() implies entry_valid(x, y, #[trigger] sc[k]) by {
        if k < p {
            assert(sc[k] == pre[k]);
        } else if k < p + mid.len() {
            assert(sc[k] == mid[k - p]);
        } else {
            let t = k - p - mid.len();
            assert(sc[k] == suf[t]);
            assert(same_from_end(x, y, s - 1 - t));
        }
    }
    lemma_lcs_len_suffix(x, y, p, s);
    lemma_lcs_len_prefix(x, y, p, m, n);
}

/// No alignment of `x` with `y` matches more pairs than `lcs_len` counts.
pub proof fn lemma_lcs_len_is_longest<T: Same>(x: Seq<T>, y: Seq<T>, a: Seq<Edit<int>>)
    requires
        is_alignment(x, y, a),
    ensures
        matched_count(a) <= lcs_len(x, y, 0, x.len() as int, y.len() as int),
{
    lemma_longest_prefix(x, y, a, x.len() as int, y.len() as int);
}

proof fn lemma_longest_prefix<T: Same>(x: Seq<T>, y: Seq<T>, a: Seq<Edit<int>>, i: int, j: int)
    requires
        0 <= i <= x.len(),
        0 <= j <= y.len(),
        left_side(a) == index_range(0, i),
        right_side(a) == index_range(0, j),
        entries_valid(x, y, a),
    ensures
        matched_count(a) <= lcs_len(x, y, 0, i, j),
    decreases a.len(),
{
    if a.len() > 0 {
        let rest = a.drop_last();
        let e = a.last();
        assert(a =~= rest.push(e));
        lemma_sides_push(rest, e);
        assert(entries_valid(x, y, rest)) by {
            assert forall|k: int| 0 <= k < rest.len() implies entry_valid(x, y, #[trigger] rest[k]) by {
                assert(rest[k] == a[k]);
            }
        }
        lemma_lcs_len_steps(x, y, 0, i, j);
        match e {
            Edit::Same(u, v) => {
                assert(a[a.len() - 1] == e);
                assert(left_side(a).last() == u);
                assert(right_side(a).last() == v);
                assert(index_range(0, i - 1) =~= index_range(0, i).drop_last());
                assert(index_range(0, j - 1) =~= index_range(0, j).drop_last());
                assert(left_side(rest) =~= left_side(a).drop_last());
                assert(right_side(rest) =~= right_side(a).drop_last());
                lemma_longest_prefix(x, y, rest, i - 1, j - 1);
            },
            Edit::Insert(v) => {
                assert(right_side(a).last() == v);
                assert(index_range(0, j - 1) =~= index_range(0, j).drop_last());
                assert(right_side(rest) =~= right_side(a).drop_last());
                lemma_longest_prefix(x, y, rest, i, j - 1);
            },
            Edit::Remove(u) => {
                assert(left_side(a).last() == u);
                assert(index_range(0, i - 1) =~= index_range(0, i).drop_last());
                assert(left_side(rest) =~= left_side(a).drop_last());
                lemma_longest_prefix(x, y, rest, i - 1, j);
            },
        }
    } else {
        assert(index_range(0, i).len() == 0);
        assert(index_range(0, j).len() == 0);
    }
}

/// `same_at` agrees on `x1`, `y1` and on `x2`, `y2`, which have the same lengths.
pub open spec fn same_agrees<A: Same, B: Same>(x1: Seq<A>, y1: Seq<A>, x2: Seq<B>, y2: Seq<B>) -> bool {
    &&& x1.len() == x2.len()
    &&& y1.len() == y2.len()
    &&& forall|i: int, j: int|
        0 <= i < x1.len() && 0 <= j < y1.len() ==> (#[trigger] same_at(x1, y1, i, j) == same_at(
            x2,
            y2,
            i,
            j,
        ))
}

proof fn lemma_lcs_len_agrees<A: Same, B: Same>(
    x1: Seq<A>,
    y1: Seq<A>,
    x2: Seq<B>,
    y2: Seq<B>,
    lo: int,
    i: int,
    j: int,
)
    requires
        same_agrees(x1, y1, x2, y2),
        0 <= lo,
        i <= x1.len(),
        j <= y1.len(),
    ensures
        lcs_len(x1, y1, lo, i, j) == lcs_len(x2, y2, lo, i, j),
    decreases (i - lo) + (j - lo),
{
    if i > lo && j > lo {
        assert(same_at(x1, y1, i - 1, j - 1) == same_at(x2, y2, i - 1, j - 1));
        lemma_lcs_len_agrees(x1, y1, x2, y2, lo, i - 1, j - 1);
        lemma_lcs_len_agrees(x1, y1, x2, y2, lo, i - 1, j);
        lemma_lcs_len_agrees(x1, y1, x2, y2, lo, i, j - 1);
    }
}

proof fn lemma_backtrack_agrees<A: Same, B: Same>(
    x1: Seq<A>,
    y1: Seq<A>,
    x2: Seq<B>,
    y2: Seq<B>,
    lo: int,
    i: int,
    j: int,
)
    requires
        same_agrees(x1, y1, x2, y2),
        0 <= lo,
        i <= x1.len(),
        j <= y1.len(),
    ensures
        backtrack(x1, y1, lo, i, j) == backtrack(x2, y2, lo, i, j),
    decreases (if i > lo {
        i - lo
    } else {
        0
    }) + (if j > lo {
        j - lo
    } else {
        0
    }),
{
    if i > lo && j > lo {
        assert(same_at(x1, y1, i - 1, j - 1) == same_at(x2, y2, i - 1, j - 1));
        lemma_lcs_len_agrees(x1, y1, x2, y2, lo, i, j - 1);
        lemma_lcs_len_agrees(x1, y1, x2, y2, lo, i - 1, j);
        lemma_backtrack_agrees(x1, y1, x2, y2, lo, i - 1, j - 1);
        lemma_backtrack_agrees(x1, y1, x2, y2, lo, i - 1, j);
        lemma_backtrack_agrees(x1, y1, x2, y2, lo, i, j - 1);
    } else if j > lo {
        lemma_backtrack_agrees(x1, y1, x2, y2, lo, i, j - 1);
    } else if i > lo {
        lemma_backtrack_agrees(x1, y1, x2, y2, lo, i - 1, j);
    }
}

proof fn lemma_prefix_agrees<A: Same, B: Same>(x1: Seq<A>, y1: Seq<A>, x2: Seq<B>, y2: Seq<B>, k: int)
    requires
        same_agrees(x1, y1, x2, y2),
    ensures
        prefix_from(x1, y1, k) == prefix_from(x2, y2, k),
    decreases x1.len() - k,
{
    if 0 <= k < x1.len() && k < y1.len() {
        assert(same_at(x1, y1, k, k) == same_at(x2, y2, k, k));
        lemma_prefix_agrees(x1, y1, x2, y2, k + 1);
    }
}

proof fn lemma_suffix_agrees<A: Same, B: Same>(
    x1: Seq<A>,
    y1: Seq<A>,
    x2: Seq<B>,
    y2: Seq<B>,
    p: int,
    k: int,
)
    requires
        same_agrees(x1, y1, x2, y2),
    ensures
        suffix_from(x1, y1, p, k) == suffix_from(x2, y2, p, k),
    decreases x1.len() - k,
{
    if 0 <= p && 0 <= k && k < x1.len() - p - 1 && k < y1.len() - p - 1 {
        assert(same_at(x1, y1, x1.len() - 1 - k, y1.len() - 1 - k) == same_at(
            x2,
            y2,
            x2.len() - 1 - k,
            y2.len() - 1 - k,
        ));
        lemma_suffix_agrees(x1, y1, x2, y2, p, k + 1);
    }
}

/// The alignment depends on the two sequences only through their lengths and which pairs of
/// elements are the same.
pub proof fn lemma_script_agrees<A: Same, B: Same>(x1: Seq<A>, y1: Seq<A>, x2: Seq<B>, y2: Seq<B>)
    requires
        same_agrees(x1, y1, x2, y2),
    ensures
        script(x1, y1) == script(x2, y2),
{
    lemma_prefix_agrees(x1, y1, x2, y2, 0);
    let p = prefix_len(x1, y1);
    lemma_suffix_agrees(x1, y1, x2, y2, p, 0);
    lemma_trim(x1, y1);
    let s = suffix_len(x1, y1);
    lemma_backtrack_agrees(x1, y1, x2, y2, p, x1.len() - s, y1.len() - s);
}

/// Two results that meet the contract of [`lcs`] for the same inputs are equal: the alignment
/// depends on the two sequences alone.
pub proof fn lemma_lcs_deterministic<T: Same>(
    x: Seq<T>,
    y: Seq<T>,
    r1: Seq<Edit<usize>>,
    r2: Seq<Edit<usize>>,
)
    requires
        widen(r1) == script(x, y),
        widen(r2) == script(x, y),
    ensures
        r1 == r2,
{
    assert(r1.len() == widen(r1).len());
    assert forall|k: int| 0 <= k < r1.len() implies r1[k] == r2[k] by {
        assert(widen(r1)[k] == widen_edit(r1[k]));
        assert(widen(r2)[k] == widen_edit(r2[k]));
        match r1[k] {
            Edit::Same(_, _) => assert(r2[k] is Same),
            Edit::Insert(_) => assert(r2[k] is Insert),
            Edit::Remove(_) => assert(r2[k] is Remove),
        }
    }
    assert(r1 =~= r2);
}

/// A sequence aligned with itself matches every element with itself.
pub proof fn lemma_script_reflexive<T: Same>(x: Seq<T>)
    ensures
        script(x, x) == matched_run(0, 0, x.len() as int),
{
    assert forall|t: int| 0 <= t < x.len() implies same_at(x, x, t, t) by {
        T::lemma_same_reflexive(&x[t]);
    }
    lemma_prefix_all(x, 0);
    let m = x.len() as int;
    assert(backtrack(x, x, m, m, m) =~= Seq::<Edit<int>>::empty());
    assert(matched_run(m, m, 0) =~= Seq::<Edit<int>>::empty());
    assert(script(x, x) =~= matched_run(0, 0, m));
}

proof fn lemma_prefix_all<T: Same>(x: Seq<T>, k: int)
    requires
        0 <= k <= x.len(),
        forall|t: int| 0 <= t < x.len() ==> same_at(x, x, t, t),
    ensures
        prefix_from(x, x, k) == x.len(),
    decreases x.len() - k,
{
    if k < x.len() {
        lemma_prefix_all(x, k + 1);
    }
}

proof fn lemma_lcs_len_bounded<T: Same>(x: Seq<T>, y: Seq<T>, lo: int, i: int, j: int)
    requires
        lo <= i,
        lo <= j,
    ensures
        lcs_len(x, y, lo, i, j) <= i - lo,
        lcs_len(x, y, lo, i, j) <= j - lo,
    decreases (i - lo) + (j - lo),
{
    if i > lo && j > lo {
        lemma_lcs_len_bounded(x, y, lo, i - 1, j - 1);
        lemma_lcs_len_bounded(x, y, lo, i - 1, j);
        lemma_lcs_len_bounded(x, y, lo, i, j - 1);
    }
}

/// The table cell for the interior prefixes of lengths `ii` and `jj`; row or column zero holds
/// zero and is not stored.
fn cell(c: &TwoDVec<usize>, ii: usize, jj: usize) -> (r: usize)
    requires
        c.well_formed(),
        ii <= c.spec_width(),
        jj <= c.view_rows().len(),
    ensures
        r == (if ii == 0 || jj == 0 {
            0
        } else {
            c.view_rows()[jj - 1][ii - 1]
        }),
{
    if ii == 0 || jj == 0 {
        0
    } else {
        c.get(jj - 1, ii - 1)
    }
}

/// The common prefix length, the table of `lcs_len` over the region between prefix and suffix
/// (the cell in row `jj`, column `ii` holds the length for `ii + 1` left and `jj + 1` right
/// elements of the region), and the common suffix length.
fn c_matrix<T: Same>(x: &[T], y: &[T]) -> (r: (usize, TwoDVec<usize>, usize))
    ensures
        r.0 == prefix_len(x@, y@),
        r.2 == suffix_len(x@, y@),
        r.0 + r.2 <= x@.len(),
        r.0 + r.2 <= y@.len(),
        r.1.well_formed(),
        r.1.spec_width() == x@.len() - r.0 - r.2,
        r.1.view_rows().len() == y@.len() - r.0 - r.2,
        forall|ii: int, jj: int|
            0 <= ii < r.1.spec_width() && 0 <= jj < r.1.view_rows().len() ==> #[trigger] r.1.view_rows()[jj][ii]
                == lcs_len(x@, y@, r.0 as int, r.0 + ii + 1, r.0 + jj + 1),
{
    let m = x.len();
    let n = y.len();
    let mut prefix_eq: usize = 0;
    while prefix_eq < m && prefix_eq < n && x[prefix_eq].same(&y[prefix_eq])
        invariant
            m == x@.len(),
            n == y@.len(),
            prefix_eq <= m,
            prefix_eq <= n,
            prefix_from(x@, y@, 0) == prefix_from(x@, y@, prefix_eq as int),
        decreases m - prefix_eq,
    {
        prefix_eq = prefix_eq + 1;
    }
    let p = prefix_eq;
    let mut suffix_eq: usize = 0;
    // The suffix is looked for only past a mismatch, so that it cannot overlap the prefix.
    if p < m && p < n {
        while suffix_eq < m - p - 1 && suffix_eq < n - p - 1 && x[m - 1 - suffix_eq].same(
            &y[n - 1 - suffix_eq],
        )
            invariant
                m == x@.len(),
                n == y@.len(),
                p < m,
                p < n,
                suffix_eq <= m - p - 1,
                suffix_eq <= n - p - 1,
                suffix_from(x@, y@, p as int, 0) == suffix_from(x@, y@, p as int, suffix_eq as int),
            decreases m - suffix_eq,
        {
            suffix_eq = suffix_eq + 1;
        }
    }
    let s = suffix_eq;
    let width = m - p - s;
    let height = n - p - s;
    let mut c = TwoDVec::new(0usize, width, height);
    for ii in 0..width
        invariant
            m == x@.len(),
            n == y@.len(),
            p + s <= m,
            p + s <= n,
            width == m - p - s,
            height == n - p - s,
            c.well_formed(),
            c.spec_width() == width,
            c.view_rows().len() == height,
            forall|i2: int, j2: int|
                0 <= i2 < ii && 0 <= j2 < height ==> #[trigger] c.view_rows()[j2][i2] == lcs_len(
                    x@,
                    y@,
                    p as int,
                    p + i2 + 1,
                    p + j2 + 1,
                ),
    {
        for jj in 0..height
            invariant
                m == x@.len(),
                n == y@.len(),
                p + s <= m,
                p + s <= n,
                width == m - p - s,
                height == n - p - s,
                ii < width,
                c.well_formed(),
                c.spec_width() == width,
                c.view_rows().len() == height,
                forall|i2: int, j2: int|
                    0 <= i2 < ii && 0 <= j2 < height ==> #[trigger] c.view_rows()[j2][i2] == lcs_len(
                        x@,
                        y@,
                        p as int,
                        p + i2 + 1,
                        p + j2 + 1,
                    ),
                forall|j2: int|
                    0 <= j2 < jj ==> #[trigger] c.view_rows()[j2][ii as int] == lcs_len(
                        x@,
                        y@,
                        p as int,
                        p + ii + 1,
                        p + j2 + 1,
                    ),
        {
            let diag = cell(&c, ii, jj);
            assert(diag == lcs_len(x@, y@, p as int, p + ii, p + jj));
            let value = if x[p + ii].same(&y[p + jj]) {
                proof {
                    lemma_lcs_len_bounded(x@, y@, p as int, p + ii, p + jj);
                }
                diag + 1
            } else {
                let up = cell(&c, ii, jj + 1);
                let left = cell(&c, ii + 1, jj);
                assert(up == lcs_len(x@, y@, p as int, p + ii, p + jj + 1));
                assert(left == lcs_len(x@, y@, p as int, p + ii + 1, p + jj));
                if up >= left {
                    up
                } else {
                    left
                }
            };
            assert(value == lcs_len(x@, y@, p as int, p + ii + 1, p + jj + 1));
            c.set(jj, ii, value);
        }
    }
    (p, c, s)
}

/// The alignment of the region between the common prefix (of length `p`) and the common suffix,
/// read off the table `c` that [`c_matrix`] filled, in order.
fn lcs_base<T: Same>(x: &[T], y: &[T], p: usize, c: &TwoDVec<usize>) -> (r: Vec<Edit<usize>>)
    requires
        c.well_formed(),
        p + c.spec_width() <= x@.len(),
        p + c.view_rows().len() <= y@.len(),
        forall|ii: int, jj: int|
            0 <= ii < c.spec_width() && 0 <= jj < c.view_rows().len() ==> #[trigger] c.view_rows()[jj][ii]
                == lcs_len(x@, y@, p as int, p + ii + 1, p + jj + 1),
    ensures
        widen(r@) == backtrack(x@, y@, p as int, p + c.spec_width(), p + c.view_rows().len()),
{
    let m = x.len();
    let n = y.len();
    let w = c.width();
    let h = c.height();
    let ghost whole = backtrack(x@, y@, p as int, p + w, p + h);
    let mut rev: Vec<Edit<usize>> = Vec::new();
    let mut i: usize = w;
    let mut j: usize = h;
    while i > 0 || j > 0
        invariant
            m == x@.len(),
            n == y@.len(),
            w == c.spec_width(),
            h == c.view_rows().len(),
            p + w <= m,
            p + h <= n,
            i <= w,
            j <= h,
            c.well_formed(),
            forall|ii: int, jj: int|
                0 <= ii < w && 0 <= jj < h ==> #[trigger] c.view_rows()[jj][ii] == lcs_len(
                    x@,
                    y@,
                    p as int,
                    p + ii + 1,
                    p + jj + 1,
                ),
            whole == backtrack(x@, y@, p as int, p + i, p + j) + widen(rev@).reverse(),
        decreases i + j,
    {
        let ghost old_rev = rev@;
        let ghost e: Edit<usize>;
        if i > 0 && j > 0 && x[p + i - 1].same(&y[p + j - 1]) {
            rev.push(Edit::Same(p + i - 1, p + j - 1));
            proof {
                e = Edit::Same((p + i - 1) as usize, (p + j - 1) as usize);
            }
            i = i - 1;
            j = j - 1;
        } else if j > 0 && (i == 0 || cell(c, i, j - 1) >= cell(c, i - 1, j)) {
            // On a tie the right element is dropped first.
            rev.push(Edit::Insert(p + j - 1));
            proof {
                e = Edit::Insert((p + j - 1) as usize);
            }
            j = j - 1;
        } else {
            rev.push(Edit::Remove(p + i - 1));
            proof {
                e = Edit::Remove((p + i - 1) as usize);
            }
            i = i - 1;
        }
        assert(widen(rev@) =~= widen(old_rev).push(widen_edit(e)));
        assert(widen(rev@).reverse() =~= seq![widen_edit(e)] + widen(old_rev).reverse());
        assert(whole =~= backtrack(x@, y@, p as int, p + i, p + j) + widen(rev@).reverse());
    }
    let mut r: Vec<Edit<usize>> = Vec::new();
    let len = rev.len();
    for t in 0..len
        invariant
            len == rev@.len(),
            widen(r@) == widen(rev@).reverse().subrange(0, t as int),
    {
        let ghost old_r = r@;
        let e = rev[len - 1 - t];
        r.push(e);
        assert(widen(r@) =~= widen(old_r).push(widen_edit(e)));
        assert(widen(rev@).reverse()[t as int] == widen_edit(e));
        assert(widen(r@) =~= widen(rev@).reverse().subrange(0, t + 1));
    }
    assert(widen(rev@).reverse().subrange(0, len as int) =~= widen(rev@).reverse());
    r
}

/// Aligns `x` with `y` under `Same`: the entries name, in order, every index of `x` once (as
/// `Same` or `Remove`) and every index of `y` once (as `Same` or `Insert`), and match as many
/// pairs as a longest common subsequence has elements (see [`lemma_script_is_alignment`] and
/// [`lemma_lcs_len_is_longest`]).
pub fn lcs<T: Same>(x: &[T], y: &[T]) -> (r: Vec<Edit<usize>>)
    ensures
        widen(r@) == script(x@, y@),
{
    let (p, c, s) = c_matrix(x, y);
    let m = x.len();
    let n = y.len();
    let middle = lcs_base(x, y, p, &c);
    let ghost whole = backtrack(x@, y@, p as int, (m - s) as int, (n - s) as int);
    let mut r: Vec<Edit<usize>> = Vec::new();
    for k in 0..p
        invariant
            widen(r@) == matched_run(0, 0, k as int),
    {
        let ghost old_r = r@;
        r.push(Edit::Same(k, k));
        assert(r@ == old_r.push(Edit::Same(k, k)));
        assert(widen(r@) =~= widen(old_r).push(Edit::Same(k as int, k as int)));
        assert(widen(r@) =~= matched_run(0, 0, k + 1));
    }
    let len = middle.len();
    for t in 0..len
        invariant
            len == middle@.len(),
            widen(middle@) == whole,
            widen(r@) == matched_run(0, 0, p as int) + whole.subrange(0, t as int),
    {
        let ghost old_r = r@;
        let e = middle[t];
        r.push(e);
        assert(widen(r@) =~= widen(old_r).push(widen_edit(e)));
        assert(widen(r@) =~= matched_run(0, 0, p as int) + whole.subrange(0, t + 1));
    }
    assert(whole.subrange(0, len as int) =~= whole);
    for k in 0..s
        invariant
            m == x@.len(),
            n == y@.len(),
            p + s <= m,
            p + s <= n,
            widen(r@) == matched_run(0, 0, p as int) + whole + matched_run(
                m - s,
                n - s,
                k as int,
            ),
    {
        let ghost old_r = r@;
        r.push(Edit::Same(m - s + k, n - s + k));
        assert(widen(r@) =~= widen(old_r).push(Edit::Same(m - s + k, n - s + k)));
        assert(matched_run(m - s, n - s, k + 1) =~= matched_run(m - s, n - s, k as int).push(
            Edit::Same(m - s + k, n - s + k),
        ));
        assert(widen(r@) =~= matched_run(0, 0, p as int) + whole + matched_run(
            m - s,
            n - s,
            k + 1,
        ));
    }
    r
}

} // verus!
