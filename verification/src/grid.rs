//! The mathematical model: grids as sequences of rows, toroidal adjacency and
//! the rule that yields the next generation.

use vstd::prelude::*;

verus! {

/// Every row is as long as the first one.
pub open spec fn is_rectangular(g: Seq<Seq<bool>>) -> bool {
    forall|i: int| 0 <= i < g.len() ==> (#[trigger] g[i]).len() == g[0].len()
}

/// Number of rows.
pub open spec fn height(g: Seq<Seq<bool>>) -> int {
    g.len() as int
}

/// Number of columns; zero for a grid without rows.
pub open spec fn width(g: Seq<Seq<bool>>) -> int {
    if g.len() == 0 {
        0
    } else {
        g[0].len() as int
    }
}

/// Position `x` folded onto a ring of `n` places (the non-negative remainder).
pub open spec fn wrap(x: int, n: int) -> int {
    x % n
}

/// 1 if the cell at row `r`, column `c` is live, else 0. Both coordinates are
/// taken on the torus, so they may lie outside the grid.
pub open spec fn live_at(g: Seq<Seq<bool>>, r: int, c: int) -> int {
    if g[wrap(r, height(g))][wrap(c, width(g))] {
        1
    } else {
        0
    }
}

/// Number of live cells among the eight toroidal neighbours of `(r, c)`. Each
/// of the eight directions counts once, also where several of them wrap onto
/// the same cell; the cell itself, reached by no step at all, does not count.
pub open spec fn live_neighbors(g: Seq<Seq<bool>>, r: int, c: int) -> int {
    live_at(g, r - 1, c - 1) + live_at(g, r - 1, c) + live_at(g, r - 1, c + 1)
        + live_at(g, r, c - 1) + live_at(g, r, c + 1)
        + live_at(g, r + 1, c - 1) + live_at(g, r + 1, c) + live_at(g, r + 1, c + 1)
}

/// The classic rule: a live cell survives with two or three live neighbours,
/// a dead cell comes to life with exactly three.
pub open spec fn next_state(alive: bool, neighbors: int) -> bool {
    if alive {
        neighbors == 2 || neighbors == 3
    } else {
        neighbors == 3
    }
}

/// The next generation of `g`: the rule applied to every cell at once.
pub open spec fn step(g: Seq<Seq<bool>>) -> Seq<Seq<bool>> {
    Seq::new(
        g.len(),
        |i: int| Seq::new(g[i].len(), |j: int| next_state(g[i][j], live_neighbors(g, i, j))),
    )
}

/// `(r, c)` comes before `(i, j)` in row-major order.
pub open spec fn before(r: int, c: int, i: int, j: int) -> bool {
    r < i || (r == i && c < j)
}

/// Folding a position that lies at most one ring length outside `0..n` takes
/// one addition or subtraction of `n`.
pub proof fn lemma_wrap_near(x: int, n: int)
    requires
        n > 0,
        -n <= x < 2 * n,
    ensures
        wrap(x, n) == if x < 0 {
            x + n
        } else if x >= n {
            x - n
        } else {
            x
        },
        0 <= wrap(x, n) < n,
{
    if x < 0 {
        vstd::arithmetic::div_mod::lemma_fundamental_div_mod_converse(x, n, -1, x + n);
    } else if x >= n {
        vstd::arithmetic::div_mod::lemma_fundamental_div_mod_converse(x, n, 1, x - n);
    } else {
        vstd::arithmetic::div_mod::lemma_fundamental_div_mod_converse(x, n, 0, x);
    }
}

} // verus!
