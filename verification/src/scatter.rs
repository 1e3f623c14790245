//! Counting neighbours by scattering.
//!
//! The board counts neighbours by walking over its cells in row-major order
//! and letting every live cell add one to each position that a step in one of
//! the eight directions leads to. This module states what such a walk has
//! counted when it stands before a given cell, and proves that it has counted
//! the live neighbours of the model once it has passed the last one.

use vstd::prelude::*;
use crate::grid::{before, height, is_rectangular, live_neighbors, width, wrap};
use crate::grid::lemma_wrap_near;

verus! {

/// 1 if the step `(dr, dc)` from `(r0, c0)` ends on `(r, c)` on a torus of
/// `h` rows and `w` columns, else 0.
pub open spec fn lands_on(
    r0: int,
    c0: int,
    dr: int,
    dc: int,
    r: int,
    c: int,
    h: int,
    w: int,
) -> int {
    if wrap(r0 + dr, h) == r && wrap(c0 + dc, w) == c {
        1
    } else {
        0
    }
}

/// What the `k`-th place of the 3 × 3 window around `(r0, c0)` adds to the
/// count at `(r, c)`. The places are numbered row by row from 0 to 8; place 4
/// is the centre, the cell itself, and adds nothing.
pub open spec fn hit(k: int, r0: int, c0: int, r: int, c: int, h: int, w: int) -> int {
    if k == 4 {
        0
    } else {
        lands_on(r0, c0, k / 3 - 1, k % 3 - 1, r, c, h, w)
    }
}

/// What the first `n` places of the window around `(r0, c0)` add to the count
/// at `(r, c)`.
pub open spec fn hits_below(n: int, r0: int, c0: int, r: int, c: int, h: int, w: int) -> int
    decreases n,
{
    if n <= 0 {
        0
    } else {
        hits_below(n - 1, r0, c0, r, c, h, w) + hit(n - 1, r0, c0, r, c, h, w)
    }
}

/// What a live cell at `(r0, c0)` adds to the count at `(r, c)`: the number
/// of directions, out of eight, in which one step from the cell ends there.
pub open spec fn hits(r0: int, c0: int, r: int, c: int, h: int, w: int) -> int {
    hits_below(9, r0, c0, r, c, h, w)
}

/// 1 if the cell at the torus position `(r, c)` is live and comes before
/// `(i, j)`, else 0.
pub open spec fn seen_at(g: Seq<Seq<bool>>, r: int, c: int, i: int, j: int) -> int {
    let wr = wrap(r, height(g));
    let wc = wrap(c, width(g));
    if g[wr][wc] && before(wr, wc, i, j) {
        1
    } else {
        0
    }
}

/// The live neighbours of `(r, c)` among the cells that come before `(i, j)`.
pub open spec fn seen_neighbors(g: Seq<Seq<bool>>, r: int, c: int, i: int, j: int) -> int {
    seen_at(g, r - 1, c - 1, i, j) + seen_at(g, r - 1, c, i, j) + seen_at(g, r - 1, c + 1, i, j)
        + seen_at(g, r, c - 1, i, j) + seen_at(g, r, c + 1, i, j)
        + seen_at(g, r + 1, c - 1, i, j) + seen_at(g, r + 1, c, i, j)
        + seen_at(g, r + 1, c + 1, i, j)
}

/// `m` has `h` rows of `w` counts each.
pub open spec fn is_matrix(m: Seq<Vec<u32>>, h: int, w: int) -> bool {
    &&& m.len() == h
    &&& forall|r: int| 0 <= r < h ==> (#[trigger] m[r])@.len() == w
}

/// `(row, col)` lies in the matrix `m`, and adding what a live cell there
/// scatters overflows no count.
pub open spec fn window_fits(m: Seq<Vec<u32>>, row: int, col: int) -> bool {
    let h = m.len() as int;
    let w = m[0]@.len() as int;
    &&& 0 <= row < h
    &&& 0 <= col < w
    &&& is_matrix(m, h, w)
    &&& forall|r: int, c: int|
        0 <= r < h && 0 <= c < w ==> #[trigger] m[r]@[c] + hits(row, col, r, c, h, w) <= u32::MAX
}

/// `after` has the shape of `start`, and each of its counts is the one of
/// `start` plus what the first `n` places of the window around `(row, col)`
/// add to it.
pub open spec fn window_added(
    start: Seq<Vec<u32>>,
    after: Seq<Vec<u32>>,
    n: int,
    row: int,
    col: int,
) -> bool {
    let h = start.len() as int;
    let w = start[0]@.len() as int;
    &&& is_matrix(after, h, w)
    &&& forall|r: int, c: int|
        0 <= r < h && 0 <= c < w ==> #[trigger] after[r]@[c] == start[r]@[c] + hits_below(
            n,
            row,
            col,
            r,
            c,
            h,
            w,
        )
}

/// `m` holds, for every position of the grid `g`, the live neighbours among
/// the cells that come before `(i, j)`.
pub open spec fn counted_before(m: Seq<Vec<u32>>, g: Seq<Seq<bool>>, i: int, j: int) -> bool {
    &&& is_matrix(m, height(g), width(g))
    &&& forall|r: int, c: int|
        0 <= r < height(g) && 0 <= c < width(g) ==> #[trigger] m[r]@[c] == seen_neighbors(
            g,
            r,
            c,
            i,
            j,
        )
}

/// The eight directions of a window, written out; no part of a window adds
/// more than the whole, and the whole adds at most eight.
pub proof fn lemma_hits_unfold(r0: int, c0: int, r: int, c: int, h: int, w: int)
    ensures
        hits(r0, c0, r, c, h, w) == lands_on(r0, c0, -1, -1, r, c, h, w)
            + lands_on(r0, c0, -1, 0, r, c, h, w) + lands_on(r0, c0, -1, 1, r, c, h, w)
            + lands_on(r0, c0, 0, -1, r, c, h, w) + lands_on(r0, c0, 0, 1, r, c, h, w)
            + lands_on(r0, c0, 1, -1, r, c, h, w) + lands_on(r0, c0, 1, 0, r, c, h, w)
            + lands_on(r0, c0, 1, 1, r, c, h, w),
        forall|n: int|
            0 <= n <= 9 ==> 0 <= #[trigger] hits_below(n, r0, c0, r, c, h, w) <= hits(
                r0,
                c0,
                r,
                c,
                h,
                w,
            ),
        0 <= hits(r0, c0, r, c, h, w) <= 8,
{
    reveal_with_fuel(hits_below, 10);
}

/// Before place `k` of a window is added, the count that it leads to has room
/// for one more.
pub proof fn lemma_window_room(
    start: Seq<Vec<u32>>,
    now: Seq<Vec<u32>>,
    k: int,
    row: int,
    col: int,
    r: int,
    c: int,
)
    requires
        window_fits(start, row, col),
        window_added(start, now, k, row, col),
        0 <= k < 9,
        k != 4,
        r == wrap(row + k / 3 - 1, start.len() as int),
        c == wrap(col + k % 3 - 1, start[0]@.len() as int),
    ensures
        0 <= r < now.len(),
        0 <= c < now[r]@.len(),
        now[r]@[c] < u32::MAX,
{
    let h = start.len() as int;
    let w = start[0]@.len() as int;
    lemma_wrap_near(row + k / 3 - 1, h);
    lemma_wrap_near(col + k % 3 - 1, w);
    lemma_hits_unfold(row, col, r, c, h, w);
    reveal_with_fuel(hits_below, 1);
    assert(hits_below(k + 1, row, col, r, c, h, w) == hits_below(k, row, col, r, c, h, w) + 1);
    assert(start[r]@[c] + hits(row, col, r, c, h, w) <= u32::MAX);
}

/// Adding one at the position that place `k` of a window leads to, or nothing
/// for the centre, carries the count from `k` places to `k + 1`.
pub proof fn lemma_window_next(
    start: Seq<Vec<u32>>,
    prev: Seq<Vec<u32>>,
    now: Seq<Vec<u32>>,
    k: int,
    row: int,
    col: int,
)
    requires
        window_fits(start, row, col),
        window_added(start, prev, k, row, col),
        0 <= k < 9,
        is_matrix(now, start.len() as int, start[0]@.len() as int),
        forall|r: int, c: int|
            0 <= r < start.len() && 0 <= c < start[0]@.len() ==> #[trigger] now[r]@[c]
                == prev[r]@[c] + hit(k, row, col, r, c, start.len() as int, start[0]@.len() as int),
    ensures
        window_added(start, now, k + 1, row, col),
{
    reveal_with_fuel(hits_below, 1);
    let h = start.len() as int;
    let w = start[0]@.len() as int;
    assert forall|r: int, c: int| 0 <= r < h && 0 <= c < w implies #[trigger] now[r]@[c]
        == start[r]@[c] + hits_below(k + 1, row, col, r, c, h, w) by {
        assert(prev[r]@[c] == start[r]@[c] + hits_below(k, row, col, r, c, h, w));
    }
}

/// Passing the cell `(i, j)` adds to what has been seen from `(r - dr, c - dc)`
/// exactly if the cell is live and the step `(dr, dc)` leads from it to
/// `(r, c)`.
proof fn lemma_seen_one_more(g: Seq<Seq<bool>>, r: int, c: int, dr: int, dc: int, i: int, j: int)
    requires
        is_rectangular(g),
        0 <= i < height(g),
        0 <= j < width(g),
        0 <= r < height(g),
        0 <= c < width(g),
        -1 <= dr <= 1,
        -1 <= dc <= 1,
    ensures
        seen_at(g, r - dr, c - dc, i, j + 1) == seen_at(g, r - dr, c - dc, i, j) + (if g[i][j] {
            lands_on(i, j, dr, dc, r, c, height(g), width(g))
        } else {
            0
        }),
{
    let h = height(g);
    let w = width(g);
    lemma_wrap_near(r - dr, h);
    lemma_wrap_near(c - dc, w);
    lemma_wrap_near(i + dr, h);
    lemma_wrap_near(j + dc, w);
}

/// Passing the cell `(i, j)` raises what has been seen of the neighbours of
/// `(r, c)` by what that cell scatters there.
pub proof fn lemma_seen_step(g: Seq<Seq<bool>>, r: int, c: int, i: int, j: int)
    requires
        is_rectangular(g),
        0 <= i < height(g),
        0 <= j < width(g),
        0 <= r < height(g),
        0 <= c < width(g),
    ensures
        seen_neighbors(g, r, c, i, j + 1) == seen_neighbors(g, r, c, i, j) + (if g[i][j] {
            hits(i, j, r, c, height(g), width(g))
        } else {
            0
        }),
{
    lemma_hits_unfold(i, j, r, c, height(g), width(g));
    lemma_seen_one_more(g, r, c, 1, 1, i, j);
    lemma_seen_one_more(g, r, c, 1, 0, i, j);
    lemma_seen_one_more(g, r, c, 1, -1, i, j);
    lemma_seen_one_more(g, r, c, 0, 1, i, j);
    lemma_seen_one_more(g, r, c, 0, -1, i, j);
    lemma_seen_one_more(g, r, c, -1, 1, i, j);
    lemma_seen_one_more(g, r, c, -1, 0, i, j);
    lemma_seen_one_more(g, r, c, -1, -1, i, j);
}

/// Nothing has been seen before the first cell, the end of a row is the start
/// of the next, after the last row everything has been seen, and at no time
/// more than eight.
pub proof fn lemma_seen_ends(g: Seq<Seq<bool>>, r: int, c: int, i: int)
    requires
        is_rectangular(g),
        0 <= r < height(g),
        0 <= c < width(g),
    ensures
        seen_neighbors(g, r, c, 0, 0) == 0,
        seen_neighbors(g, r, c, i, width(g)) == seen_neighbors(g, r, c, i + 1, 0),
        seen_neighbors(g, r, c, height(g), 0) == live_neighbors(g, r, c),
        forall|j: int| 0 <= #[trigger] seen_neighbors(g, r, c, i, j) <= 8,
{
    let h = height(g);
    let w = width(g);
    lemma_wrap_near(r - 1, h);
    lemma_wrap_near(r, h);
    lemma_wrap_near(r + 1, h);
    lemma_wrap_near(c - 1, w);
    lemma_wrap_near(c, w);
    lemma_wrap_near(c + 1, w);
}

/// A matrix of zeros is what has been counted before the first cell.
pub proof fn lemma_counted_start(m: Seq<Vec<u32>>, g: Seq<Seq<bool>>)
    requires
        is_rectangular(g),
        is_matrix(m, height(g), width(g)),
        forall|r: int, c: int|
            0 <= r < height(g) && 0 <= c < width(g) ==> #[trigger] m[r]@[c] == 0,
    ensures
        counted_before(m, g, 0, 0),
{
    let h = height(g);
    let w = width(g);
    assert forall|r: int, c: int| 0 <= r < h && 0 <= c < w implies #[trigger] m[r]@[c]
        == seen_neighbors(g, r, c, 0, 0) by {
        lemma_seen_ends(g, r, c, 0);
    }
}

/// A dead cell is passed without a change to the counts.
pub proof fn lemma_counted_skip(m: Seq<Vec<u32>>, g: Seq<Seq<bool>>, i: int, j: int)
    requires
        is_rectangular(g),
        0 <= i < height(g),
        0 <= j < width(g),
        counted_before(m, g, i, j),
        !g[i][j],
    ensures
        counted_before(m, g, i, j + 1),
{
    let h = height(g);
    let w = width(g);
    assert forall|r: int, c: int| 0 <= r < h && 0 <= c < w implies #[trigger] m[r]@[c]
        == seen_neighbors(g, r, c, i, j + 1) by {
        lemma_seen_step(g, r, c, i, j);
    }
}

/// The window of a live cell fits into the counts made before it.
pub proof fn lemma_counted_fits(m: Seq<Vec<u32>>, g: Seq<Seq<bool>>, i: int, j: int)
    requires
        is_rectangular(g),
        0 <= i < height(g),
        0 <= j < width(g),
        counted_before(m, g, i, j),
        g[i][j],
    ensures
        window_fits(m, i, j),
{
    let h = height(g);
    let w = width(g);
    assert(m[0]@.len() == w);
    assert forall|r: int, c: int| 0 <= r < h && 0 <= c < w implies #[trigger] m[r]@[c] + hits(
        i,
        j,
        r,
        c,
        h,
        w,
    ) <= u32::MAX by {
        lemma_seen_step(g, r, c, i, j);
        lemma_seen_ends(g, r, c, i);
    }
}

/// Adding the window of a live cell to the counts made before it gives the
/// counts made before the next cell.
pub proof fn lemma_counted_add(
    m: Seq<Vec<u32>>,
    after: Seq<Vec<u32>>,
    g: Seq<Seq<bool>>,
    i: int,
    j: int,
)
    requires
        is_rectangular(g),
        0 <= i < height(g),
        0 <= j < width(g),
        counted_before(m, g, i, j),
        g[i][j],
        window_added(m, after, 9, i, j),
    ensures
        counted_before(after, g, i, j + 1),
{
    let h = height(g);
    let w = width(g);
    assert(m[0]@.len() == w);
    assert forall|r: int, c: int| 0 <= r < h && 0 <= c < w implies #[trigger] after[r]@[c]
        == seen_neighbors(g, r, c, i, j + 1) by {
        lemma_seen_step(g, r, c, i, j);
        assert(m[r]@[c] == seen_neighbors(g, r, c, i, j));
    }
}

/// What has been counted at the end of a row has been counted before the
/// next row.
pub proof fn lemma_counted_row_end(m: Seq<Vec<u32>>, g: Seq<Seq<bool>>, i: int)
    requires
        is_rectangular(g),
        counted_before(m, g, i, width(g)),
    ensures
        counted_before(m, g, i + 1, 0),
{
    let h = height(g);
    let w = width(g);
    assert forall|r: int, c: int| 0 <= r < h && 0 <= c < w implies #[trigger] m[r]@[c]
        == seen_neighbors(g, r, c, i + 1, 0) by {
        lemma_seen_ends(g, r, c, i);
    }
}

/// After the last row the counts are the live neighbours.
pub proof fn lemma_counted_all(m: Seq<Vec<u32>>, g: Seq<Seq<bool>>)
    requires
        is_rectangular(g),
        counted_before(m, g, height(g), 0),
    ensures
        m.len() == g.len(),
        forall|r: int| 0 <= r < g.len() ==> (#[trigger] m[r])@.len() == g[r].len(),
        forall|r: int, c: int|
            0 <= r < g.len() && 0 <= c < g[r].len() ==> #[trigger] m[r]@[c] == live_neighbors(
                g,
                r,
                c,
            ),
{
    let h = height(g);
    assert forall|r: int, c: int| 0 <= r < h && 0 <= c < g[r].len() implies #[trigger] m[r]@[c]
        == live_neighbors(g, r, c) by {
        lemma_seen_ends(g, r, c, 0);
    }
}

} // verus!
