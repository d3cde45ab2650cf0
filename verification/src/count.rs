//! Counting the living cells of a part of the world.

use vstd::prelude::*;

verus! {

/// The number of living cells of one column in the rows from `lo` up to `hi`.
pub open spec fn live_in_span(col: Seq<u8>, lo: int, hi: int) -> int
    decreases hi - lo,
{
    if hi <= lo {
        0
    } else {
        live_in_span(col, lo, hi - 1) + if col[hi - 1] != 0 { 1int } else { 0int }
    }
}

/// The number of living cells in the columns from `x0` up to `x1`, rows from
/// `y0` up to `y1`.
pub open spec fn live_in_rect(g: Seq<Seq<u8>>, x0: int, x1: int, y0: int, y1: int) -> int
    decreases x1 - x0,
{
    if x1 <= x0 {
        0
    } else {
        live_in_rect(g, x0, x1 - 1, y0, y1) + live_in_span(g[x1 - 1], y0, y1)
    }
}

/// A count of living cells is not negative, and a living cell in the span
/// makes it positive.
pub proof fn lemma_span_counts(col: Seq<u8>, lo: int, hi: int, y: int)
    ensures
        live_in_span(col, lo, hi) >= 0,
        lo <= y < hi && col[y] != 0 ==> live_in_span(col, lo, hi) >= 1,
    decreases hi - lo,
{
    if hi > lo {
        lemma_span_counts(col, lo, hi - 1, y);
    }
}

/// A count of living cells is not negative, and a living cell in the
/// rectangle makes it positive.
pub proof fn lemma_rect_counts(g: Seq<Seq<u8>>, x0: int, x1: int, y0: int, y1: int, x: int, y: int)
    ensures
        live_in_rect(g, x0, x1, y0, y1) >= 0,
        x0 <= x < x1 && y0 <= y < y1 && g[x][y] != 0 ==> live_in_rect(g, x0, x1, y0, y1) >= 1,
    decreases x1 - x0,
{
    if x1 > x0 {
        lemma_rect_counts(g, x0, x1 - 1, y0, y1, x, y);
        lemma_span_counts(g[x1 - 1], y0, y1, y);
    }
}

/// No living cell is counted in a span in which none lives.
pub proof fn lemma_dead_span_counts_nothing(col: Seq<u8>, lo: int, hi: int)
    requires
        forall|y: int| lo <= y < hi ==> col[y] == 0,
    ensures
        live_in_span(col, lo, hi) == 0,
    decreases hi - lo,
{
    if hi > lo {
        lemma_dead_span_counts_nothing(col, lo, hi - 1);
    }
}

/// No living cell is counted in a rectangle in which none lives.
pub proof fn lemma_dead_rect_counts_nothing(g: Seq<Seq<u8>>, x0: int, x1: int, y0: int, y1: int)
    requires
        forall|x: int, y: int| x0 <= x < x1 && y0 <= y < y1 ==> #[trigger] g[x][y] == 0,
    ensures
        live_in_rect(g, x0, x1, y0, y1) == 0,
    decreases x1 - x0,
{
    if x1 > x0 {
        lemma_dead_rect_counts_nothing(g, x0, x1 - 1, y0, y1);
        lemma_dead_span_counts_nothing(g[x1 - 1], y0, y1);
    }
}

} // verus!
