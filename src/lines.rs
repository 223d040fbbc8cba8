//! Reassembly of CR LF terminated lines from byte buffers.

use vstd::prelude::*;

verus! {

/// The two-byte line terminator.
pub open spec fn crlf() -> Seq<u8> {
    seq![13u8, 10u8]
}

/// Whether a CR LF pair starts at position `i` of `b`.
pub open spec fn crlf_at(b: Seq<u8>, i: int) -> bool {
    0 <= i && i + 1 < b.len() && b[i] == 13u8 && b[i + 1] == 10u8
}

/// The end (exclusive) of the line that begins at or before `i`: the
/// position just past the first CR LF found at or after `i`, if any.
pub open spec fn line_end_from(b: Seq<u8>, i: int) -> Option<int>
    decreases b.len() - i,
{
    if i < 0 || i + 1 >= b.len() {
        None
    } else if crlf_at(b, i) {
        Some(i + 2)
    } else {
        line_end_from(b, i + 1)
    }
}

/// The length of the first complete line of `b`, terminator included.
pub open spec fn first_line_len(b: Seq<u8>) -> Option<int> {
    line_end_from(b, 0)
}

/// A line end found from `i` lies past `i + 1` and inside the buffer, and
/// the line it closes ends with CR LF.
pub proof fn lemma_line_end_bounds(b: Seq<u8>, i: int)
    ensures
        line_end_from(b, i) matches Some(e) ==> 0 <= i && i + 2 <= e <= b.len() && crlf_at(b, e - 2),
    decreases b.len() - i,
{
    if 0 <= i && i + 1 < b.len() && !crlf_at(b, i) {
        lemma_line_end_bounds(b, i + 1);
    }
}

/// Bytes appended after a complete line do not move its end.
pub proof fn lemma_line_end_extend(b: Seq<u8>, x: Seq<u8>, i: int)
    requires
        line_end_from(b, i) is Some,
    ensures
        line_end_from(b + x, i) == line_end_from(b, i),
    decreases b.len() - i,
{
    if !crlf_at(b, i) {
        lemma_line_end_extend(b, x, i + 1);
    }
}

/// Searching from `p + i` in `b` is searching from `i` in the suffix of `b`
/// that starts at `p`.
pub proof fn lemma_line_end_shift(b: Seq<u8>, p: int, i: int)
    requires
        0 <= p <= b.len(),
        0 <= i,
    ensures
        line_end_from(b, p + i) == (match line_end_from(b.subrange(p, b.len() as int), i) {
            Some(e) => Some(e + p),
            None => None,
        }),
    decreases b.len() - p - i,
{
    let s = b.subrange(p, b.len() as int);
    if p + i + 1 < b.len() && !crlf_at(b, p + i) {
        lemma_line_end_shift(b, p, i + 1);
    }
}

/// Finds the end (exclusive) of the first line that starts at `start`:
/// the position just past the first CR LF at or after `start`.
pub fn find_line_end(b: &[u8], start: usize) -> (r: Option<usize>)
    requires
        start <= b@.len(),
    ensures
        match r {
            Some(e) => line_end_from(b@, start as int) == Some(e as int),
            None => line_end_from(b@, start as int) is None,
        },
{
    let mut i: usize = start;
    while i < b.len() && b.len() - i >= 2
        invariant
            start <= i <= b@.len(),
            line_end_from(b@, start as int) == line_end_from(b@, i as int),
        decreases b@.len() - i,
    {
        if b[i] == 13u8 && b[i + 1] == 10u8 {
            return Some(i + 2);
        }
        i = i + 1;
    }
    None
}

/// Whether `b[start..end]` holds exactly the bytes of `expected`.
pub fn range_equals(b: &[u8], start: usize, end: usize, expected: &[u8]) -> (r: bool)
    requires
        start <= end <= b@.len(),
    ensures
        r == (b@.subrange(start as int, end as int) == expected@),
{
    if end - start != expected.len() {
        return false;
    }
    let mut k: usize = 0;
    while k < expected.len()
        invariant
            end - start == expected@.len(),
            start <= end <= b@.len(),
            k <= expected@.len(),
            forall|j: int| 0 <= j < k ==> b@[start + j] == expected@[j],
        decreases expected@.len() - k,
    {
        if b[start + k] != expected[k] {
            assert(b@.subrange(start as int, end as int)[k as int] != expected@[k as int]);
            return false;
        }
        k = k + 1;
    }
    assert(b@.subrange(start as int, end as int) =~= expected@);
    true
}

} // verus!
