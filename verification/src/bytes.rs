//! Byte sequences: where one sequence occurs inside another, and the few
//! exact comparisons the codec makes on raw bytes.

use vstd::prelude::*;
use vstd::slice::slice_subrange;

verus! {

/// Carriage return.
pub const CR: u8 = 13;

/// Line feed.
pub const LF: u8 = 10;

/// The hyphen that boundary delimiters are built from.
pub const DASH: u8 = 45;

/// `needle` stands in `hay` at offset `at`.
pub open spec fn occurs_at(hay: Seq<u8>, needle: Seq<u8>, at: int) -> bool {
    0 <= at && at + needle.len() <= hay.len() && hay.subrange(at, at + needle.len()) == needle
}

/// `needle` stands in `hay` at offset `at` and at no smaller offset.
pub open spec fn first_at(hay: Seq<u8>, needle: Seq<u8>, at: int) -> bool {
    occurs_at(hay, needle, at) && forall|j: int| 0 <= j < at ==> !occurs_at(hay, needle, j)
}

/// `needle` stands nowhere in `hay`.
pub open spec fn absent(hay: Seq<u8>, needle: Seq<u8>) -> bool {
    forall|j: int| !occurs_at(hay, needle, j)
}

/// Offset of the first occurrence of `needle` in `hay`, if there is one.
pub open spec fn position(hay: Seq<u8>, needle: Seq<u8>) -> Option<int> {
    if exists|i: int| first_at(hay, needle, i) {
        Some(choose|i: int| first_at(hay, needle, i))
    } else {
        None
    }
}

/// `prefix` is an initial segment of `s`.
pub open spec fn starts_with(s: Seq<u8>, prefix: Seq<u8>) -> bool {
    prefix.len() <= s.len() && s.subrange(0, prefix.len() as int) == prefix
}

/// A first occurrence is the position.
pub proof fn lemma_position_some(hay: Seq<u8>, needle: Seq<u8>, at: int)
    requires
        first_at(hay, needle, at),
    ensures
        position(hay, needle) == Some(at),
{
    let c = choose|i: int| first_at(hay, needle, i);
    assert(first_at(hay, needle, c));
    if c < at {
        assert(!occurs_at(hay, needle, c));
    }
    if at < c {
        assert(!occurs_at(hay, needle, at));
    }
}

/// Where nothing occurs there is no position.
pub proof fn lemma_position_none(hay: Seq<u8>, needle: Seq<u8>)
    requires
        absent(hay, needle),
    ensures
        position(hay, needle) == None::<int>,
{
    if exists|i: int| first_at(hay, needle, i) {
        let c = choose|i: int| first_at(hay, needle, i);
        assert(occurs_at(hay, needle, c));
    }
}

/// An occurrence at `at` has a first occurrence at or before it.
pub proof fn lemma_least_occurrence(hay: Seq<u8>, needle: Seq<u8>, at: int)
    requires
        occurs_at(hay, needle, at),
    ensures
        exists|i: int| 0 <= i <= at && first_at(hay, needle, i),
    decreases at,
{
    if forall|j: int| 0 <= j < at ==> !occurs_at(hay, needle, j) {
        assert(first_at(hay, needle, at));
    } else {
        let j = choose|j: int| 0 <= j < at && occurs_at(hay, needle, j);
        lemma_least_occurrence(hay, needle, j);
    }
}

/// What `position` returns, read back as facts about `hay`.
pub proof fn lemma_position(hay: Seq<u8>, needle: Seq<u8>)
    ensures
        match position(hay, needle) {
            Some(i) => first_at(hay, needle, i),
            None => absent(hay, needle),
        },
{
    if exists|i: int| first_at(hay, needle, i) {
    } else {
        assert forall|j: int| !occurs_at(hay, needle, j) by {
            if occurs_at(hay, needle, j) {
                lemma_least_occurrence(hay, needle, j);
            }
        }
    }
}

/// An occurrence in `hay` is an occurrence in `hay + more`, and one in
/// `hay + more` that ends inside `hay` is one in `hay`.
pub proof fn lemma_occurs_extend(hay: Seq<u8>, more: Seq<u8>, needle: Seq<u8>, at: int)
    requires
        0 <= at,
        at + needle.len() <= hay.len(),
    ensures
        occurs_at(hay, needle, at) == occurs_at(hay + more, needle, at),
{
    assert((hay + more).subrange(at, at + needle.len()) =~= hay.subrange(at, at + needle.len()));
}

/// A first occurrence stays the first when bytes are appended.
pub proof fn lemma_first_extend(hay: Seq<u8>, more: Seq<u8>, needle: Seq<u8>, at: int)
    requires
        first_at(hay, needle, at),
    ensures
        first_at(hay + more, needle, at),
{
    lemma_occurs_extend(hay, more, needle, at);
    assert forall|j: int| 0 <= j < at implies !occurs_at(hay + more, needle, j) by {
        lemma_occurs_extend(hay, more, needle, j);
    }
}

/// Dropping `k` bytes in front of the first occurrence moves it by `k`.
pub proof fn lemma_first_skip(hay: Seq<u8>, needle: Seq<u8>, at: int, k: int)
    requires
        first_at(hay, needle, at),
        0 <= k <= at,
    ensures
        first_at(hay.subrange(k, hay.len() as int), needle, at - k),
{
    let tail = hay.subrange(k, hay.len() as int);
    assert(tail.subrange(at - k, at - k + needle.len()) =~= hay.subrange(at, at + needle.len()));
    assert forall|j: int| 0 <= j < at - k implies !occurs_at(tail, needle, j) by {
        assert(tail.subrange(j, j + needle.len()) =~= hay.subrange(j + k, j + k + needle.len()))
            by {
            if j + needle.len() <= tail.len() {
            }
        }
        assert(!occurs_at(hay, needle, j + k));
    }
}

/// Without an occurrence in `hay`, every occurrence in `hay + more` starts
/// within the last `needle.len() - 1` bytes of `hay` or later.
pub proof fn lemma_absent_extend(hay: Seq<u8>, more: Seq<u8>, needle: Seq<u8>, at: int)
    requires
        absent(hay, needle),
        occurs_at(hay + more, needle, at),
    ensures
        at + needle.len() > hay.len(),
{
    if at + needle.len() <= hay.len() {
        lemma_occurs_extend(hay, more, needle, at);
        assert(!occurs_at(hay, needle, at));
    }
}

/// Whether two byte strings are the same.
pub fn bytes_eq(a: &[u8], b: &[u8]) -> (r: bool)
    ensures
        r == (a@ == b@),
{
    if a.len() != b.len() {
        return false;
    }
    let mut i: usize = 0;
    while i < a.len()
        invariant
            a@.len() == b@.len(),
            i <= a@.len(),
            forall|j: int| 0 <= j < i ==> a@[j] == b@[j],
        decreases a@.len() - i,
    {
        if a[i] != b[i] {
            return false;
        }
        i += 1;
    }
    assert(a@ =~= b@);
    true
}

/// Whether `s` begins with `prefix`.
pub fn has_prefix(s: &[u8], prefix: &[u8]) -> (r: bool)
    ensures
        r == starts_with(s@, prefix@),
{
    if prefix.len() > s.len() {
        return false;
    }
    bytes_eq(slice_subrange(s, 0, prefix.len()), prefix)
}

/// Appends `tail` to `out`.
pub fn push_all(out: &mut Vec<u8>, tail: &[u8])
    ensures
        final(out)@ == old(out)@ + tail@,
{
    let ghost before = out@;
    out.extend_from_slice(tail);
    assert(out@ =~= before + tail@);
}

/// Splits `buf` in two: returns its first `n` bytes and leaves the rest.
pub fn take_front(buf: &mut Vec<u8>, n: usize) -> (head: Vec<u8>)
    requires
        n <= old(buf)@.len(),
    ensures
        head@ == old(buf)@.subrange(0, n as int),
        final(buf)@ == old(buf)@.subrange(n as int, old(buf)@.len() as int),
{
    let mut rest = buf.split_off(n);
    core::mem::swap(buf, &mut rest);
    rest
}

} // verus!
