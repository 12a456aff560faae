//! Lines and columns as functions of a byte offset.

use vstd::prelude::*;
use crate::bytes::LF;

verus! {

/// The 1-based line of offset `p`: one more than the line feeds before it.
pub open spec fn line_at(src: Seq<u8>, p: int) -> int
    decreases p,
{
    if p <= 0 {
        1
    } else if src[p - 1] == LF {
        line_at(src, p - 1) + 1
    } else {
        line_at(src, p - 1)
    }
}

/// The offset at which the line of offset `p` begins: just after the last
/// line feed before `p`, or 0.
pub open spec fn line_start_at(src: Seq<u8>, p: int) -> int
    decreases p,
{
    if p <= 0 {
        0
    } else if src[p - 1] == LF {
        p
    } else {
        line_start_at(src, p - 1)
    }
}

/// The column of offset `p`: the bytes between the start of its line and `p`.
pub open spec fn column_at(src: Seq<u8>, p: int) -> int {
    p - line_start_at(src, p)
}

/// Whether no line feed lies in `[from, to)`.
pub open spec fn no_line_feed(src: Seq<u8>, from: int, to: int) -> bool {
    forall|i: int| from <= i < to ==> src[i] != LF
}

/// Lines are counted from 1 and cannot outnumber the bytes read; a line
/// starts at or before any offset on it.
pub proof fn lemma_line_bounds(src: Seq<u8>, p: int)
    requires
        0 <= p,
    ensures
        1 <= line_at(src, p) <= p + 1,
        0 <= line_start_at(src, p) <= p,
    decreases p,
{
    if p > 0 {
        lemma_line_bounds(src, p - 1);
    }
}

/// Offsets with no line feed between them share line and line start.
pub proof fn lemma_same_line(src: Seq<u8>, from: int, to: int)
    requires
        0 <= from <= to,
        no_line_feed(src, from, to),
    ensures
        line_at(src, to) == line_at(src, from),
        line_start_at(src, to) == line_start_at(src, from),
    decreases to - from,
{
    if from < to {
        lemma_same_line(src, from, to - 1);
    }
}

} // verus!
