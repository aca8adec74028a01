//! Strings: aligned character by character under equality.
use crate::edit::{self, string};
use crate::lcs::{self, entries_valid, entry_valid, script, widen, widen_edit};
use crate::Diffable;
use vstd::prelude::*;

verus! {

/// The string entry for one alignment entry of `x` with `y`.
pub open spec fn char_entry(x: Seq<char>, y: Seq<char>, step: lcs::Edit<int>) -> string::Edit {
    match step {
        lcs::Edit::Same(i, _) => string::Edit::Copy(x[i]),
        lcs::Edit::Insert(j) => string::Edit::Insert(y[j]),
        lcs::Edit::Remove(i) => string::Edit::Remove(x[i]),
    }
}

/// The edit script of the string `x` against `y`, one entry per character.
pub open spec fn string_script(x: Seq<char>, y: Seq<char>) -> Seq<string::Edit> {
    script(x, y).map_values(|step: lcs::Edit<int>| char_entry(x, y, step))
}

/// Every character of the alignment of `x` with `y` is matched.
pub open spec fn chars_unchanged(x: Seq<char>, y: Seq<char>) -> bool {
    forall|k: int| 0 <= k < script(x, y).len() ==> (#[trigger] script(x, y)[k]) is Same
}

/// The characters of `s`, in order.
pub fn chars_of(s: &str) -> (r: Vec<char>)
    ensures
        r@ == s@,
{
    let mut v: Vec<char> = Vec::new();
    for c in it: s.chars()
        invariant
            it.seq() == s@,
            v@ == s@.take(it.index() as int),
    {
        v.push(c);
        assert(v@ =~= s@.take(it.index() + 1));
    }
    assert(v@ =~= s@);
    v
}

/// The edit script of the characters `x` against `y`.
pub fn diff_chars(x: &[char], y: &[char]) -> (r: Vec<string::Edit>)
    ensures
        r@ == string_script(x@, y@),
{
    let steps = lcs::lcs(x, y);
    proof {
        lcs::lemma_script_is_alignment(x@, y@);
    }
    let ghost sc = script(x@, y@);
    let mut out: Vec<string::Edit> = Vec::new();
    let n = steps.len();
    for k in 0..n
        invariant
            n == steps@.len(),
            widen(steps@) == sc,
            sc == script(x@, y@),
            entries_valid(x@, y@, sc),
            out@ == sc.take(k as int).map_values(|step: lcs::Edit<int>| char_entry(x@, y@, step)),
    {
        let step = steps[k];
        assert(sc[k as int] == widen_edit(step));
        assert(entry_valid(x@, y@, sc[k as int]));
        let e = match step {
            lcs::Edit::Same(i, _) => string::Edit::Copy(x[i]),
            lcs::Edit::Insert(j) => string::Edit::Insert(y[j]),
            lcs::Edit::Remove(i) => string::Edit::Remove(x[i]),
        };
        assert(e == char_entry(x@, y@, sc[k as int]));
        let ghost old_out = out@;
        out.push(e);
        assert(sc.take(k + 1) =~= sc.take(k as int).push(sc[k as int]));
        assert(out@ =~= sc.take(k + 1).map_values(|step: lcs::Edit<int>| char_entry(x@, y@, step)));
    }
    assert(sc.take(n as int) =~= sc);
    out
}

/// Whether every entry of a string script is `Copy`.
pub fn all_chars_copied(es: &Vec<string::Edit>) -> (r: bool)
    ensures
        r == forall|k: int| 0 <= k < es@.len() ==> (#[trigger] es@[k]) is Copy,
{
    let mut k: usize = 0;
    while k < es.len()
        invariant
            k <= es@.len(),
            forall|t: int| 0 <= t < k ==> (#[trigger] es@[t]) is Copy,
        decreases es@.len() - k,
    {
        if !es[k].is_copy() {
            return false;
        }
        k = k + 1;
    }
    true
}

/// Diffs the strings with characters `x` and `y`: `None` when every character is matched,
/// otherwise their script.
fn diff_str_chars(x: &[char], y: &[char]) -> (r: Option<Vec<string::Edit>>)
    ensures
        r is None <==> chars_unchanged(x@, y@),
        r matches Some(d) ==> d@ == string_script(x@, y@),
{
    let s = diff_chars(x, y);
    let all = all_chars_copied(&s);
    proof {
        let sc = script(x@, y@);
        assert forall|k: int| 0 <= k < sc.len() implies ((#[trigger] sc[k]) is Same <==> s@[k] is Copy) by {
            assert(s@[k] == char_entry(x@, y@, sc[k]));
        }
        if all {
            assert forall|k: int| 0 <= k < sc.len() implies (#[trigger] sc[k]) is Same by {
                assert(s@[k] is Copy);
            }
        }
    }
    if all {
        None
    } else {
        Some(s)
    }
}

proof fn lemma_chars_unchanged_reflexive(x: Seq<char>)
    ensures
        chars_unchanged(x, x),
{
    lcs::lemma_script_reflexive(x);
    assert forall|k: int| 0 <= k < script(x, x).len() implies (#[trigger] script(x, x)[k]) is Same by {
        assert(script(x, x)[k] == lcs::Edit::Same(k, k));
    }
}

impl<'a> Diffable<'a> for String {
    type Diff = Vec<string::Edit>;

    open spec fn unchanged(&self, other: &Self) -> bool {
        chars_unchanged(self@, other@)
    }

    open spec fn is_change_of(&self, other: &Self, d: Self::Diff) -> bool {
        d@ == string_script(self@, other@)
    }

    proof fn lemma_unchanged_reflexive(x: &Self) {
        lemma_chars_unchanged_reflexive(x@);
    }

    fn diff(&'a self, other: &'a Self) -> (r: edit::Edit<'a, Self>) {
        let x = chars_of(self.as_str());
        let y = chars_of(other.as_str());
        match diff_str_chars(x.as_slice(), y.as_slice()) {
            None => edit::Edit::Copy(self),
            Some(s) => edit::Edit::Change(s),
        }
    }
}

impl<'a, 'b: 'a> Diffable<'a> for &'b str {
    type Diff = Vec<string::Edit>;

    open spec fn unchanged(&self, other: &Self) -> bool {
        chars_unchanged((*self)@, (*other)@)
    }

    open spec fn is_change_of(&self, other: &Self, d: Self::Diff) -> bool {
        d@ == string_script((*self)@, (*other)@)
    }

    proof fn lemma_unchanged_reflexive(x: &Self) {
        lemma_chars_unchanged_reflexive((*x)@);
    }

    fn diff(&'a self, other: &'a Self) -> (r: edit::Edit<'a, Self>) {
        let x = chars_of(*self);
        let y = chars_of(*other);
        match diff_str_chars(x.as_slice(), y.as_slice()) {
            None => edit::Edit::Copy(self),
            Some(s) => edit::Edit::Change(s),
        }
    }
}

} // verus!
