//! The executable board: construction, neighbour counting and the update
//! step, each proved against the model in [`crate::grid`].

use vstd::prelude::*;
use crate::grid::{before, height, is_rectangular, live_neighbors, next_state, step, width, wrap};
use crate::grid::lemma_wrap_near;
use crate::scatter::{counted_before, window_added, window_fits};
use crate::scatter::{lemma_counted_add, lemma_counted_all, lemma_counted_fits};
use crate::scatter::{lemma_counted_row_end, lemma_counted_skip, lemma_counted_start};
use crate::scatter::{lemma_window_next, lemma_window_room};

verus! {

/// Number of rows of a grid held as a vector of rows.
pub fn rows<T>(grid: &Vec<Vec<T>>) -> (n: usize)
    ensures
        n == grid@.len(),
{
    grid.len()
}

/// Number of columns of a grid, read off its first row.
pub fn cols<T>(grid: &Vec<Vec<T>>) -> (n: usize)
    requires
        grid@.len() > 0,
    ensures
        n == grid@[0]@.len(),
{
    grid[0].len()
}

/// A grid of cells, `true` for live, addressed as `cells[row][column]`.
pub struct Board {
    pub cells: Vec<Vec<bool>>,
}

impl View for Board {
    type V = Seq<Seq<bool>>;

    /// The grid as a sequence of rows.
    open spec fn view(&self) -> Seq<Seq<bool>> {
        Seq::new(self.cells@.len(), |i: int| self.cells@[i]@)
    }
}

impl Board {
    /// All rows have the same length. A board without rows is well formed: it
    /// is the cleared state.
    pub open spec fn well_formed(&self) -> bool {
        is_rectangular(self@)
    }

    /// Wraps a grid as it is. Nothing is checked: the board is well formed
    /// exactly if the grid is rectangular.
    pub fn new(cells: Vec<Vec<bool>>) -> (board: Board)
        ensures
            board.cells == cells,
    {
        Board { cells }
    }

    /// Empties the board.
    pub fn clear(&mut self)
        ensures
            final(self)@ == Seq::<Seq<bool>>::empty(),
    {
        self.cells = Vec::new();
        assert(self@ =~= Seq::<Seq<bool>>::empty());
    }

    /// Whether the board is well formed.
    pub fn is_rectangular(&self) -> (ok: bool)
        ensures
            ok == self.well_formed(),
    {
        let h = rows(&self.cells);
        if h == 0 {
            return true;
        }
        let w = cols(&self.cells);
        for i in 0..h
            invariant
                h == self@.len(),
                w == self@[0].len(),
                forall|r: int| 0 <= r < i ==> (#[trigger] self@[r]).len() == w,
        {
            if self.cells[i].len() != w {
                assert(self@[i as int].len() != self@[0].len());
                return false;
            }
        }
        true
    }
}

impl Default for Board {
    /// The cleared board.
    fn default() -> (board: Board)
        ensures
            board@ == Seq::<Seq<bool>>::empty(),
    {
        let board = Board { cells: Vec::new() };
        assert(board@ =~= Seq::<Seq<bool>>::empty());
        board
    }
}

impl Clone for Board {
    /// A board that holds the same grid.
    fn clone(&self) -> (copy: Board)
        ensures
            copy@ == self@,
    {
        let copy = Board { cells: self.cells.clone() };
        assert(copy@ =~= self@) by {
            assert forall|r: int| 0 <= r < self@.len() implies #[trigger] copy@[r] =~= self@[r] by {
                assert(cloned(self.cells@[r], copy.cells@[r]));
            }
        }
        copy
    }
}

/// The place one before (`offset` 0), at (`offset` 1) or one after
/// (`offset` 2) the place `x` on a ring of `n` places.
fn ring_step(x: usize, offset: usize, n: usize) -> (y: usize)
    requires
        x < n,
        offset <= 2,
    ensures
        y == wrap(x + offset - 1, n as int),
        y < n,
{
    proof {
        lemma_wrap_near(x + offset - 1, n as int);
    }
    if offset == 0 {
        if x == 0 {
            n - 1
        } else {
            x - 1
        }
    } else if offset == 1 {
        x
    } else {
        if x == n - 1 {
            0
        } else {
            x + 1
        }
    }
}

/// Counts the cell at `(row, col)` as a neighbour: adds one to the count of
/// each position that a step in one of the eight directions leads to, once
/// for every direction that leads there.
fn add_neighbors(row: usize, col: usize, count: &mut Vec<Vec<u32>>)
    requires
        window_fits(old(count)@, row as int, col as int),
    ensures
        window_added(old(count)@, final(count)@, 9, row as int, col as int),
{
    let h = rows(count);
    let w = cols(count);
    let ghost start = count@;
    let window_width: usize = 3;
    for i in 0..window_width
        invariant
            window_width == 3,
            h == start.len(),
            w == start[0]@.len(),
            window_fits(start, row as int, col as int),
            window_added(start, count@, 3 * i, row as int, col as int),
    {
        for j in 0..window_width
            invariant
                window_width == 3,
                i < 3,
                h == start.len(),
                w == start[0]@.len(),
                window_fits(start, row as int, col as int),
                window_added(start, count@, 3 * i + j, row as int, col as int),
        {
            let ghost k = 3 * i + j;
            let ghost prev = count@;
            // the centre of the window is the cell itself
            if !(i == 1 && j == 1) {
                let r = ring_step(row, i, h);
                let c = ring_step(col, j, w);
                proof {
                    lemma_window_room(start, prev, k, row as int, col as int, r as int, c as int);
                }
                count[r][c] += 1;
            }
            proof {
                lemma_window_next(start, prev, count@, k, row as int, col as int);
            }
        }
    }
}

/// `m` has the shape of the grid `g` and holds, for every cell, the number of
/// its live neighbours.
pub open spec fn counts_neighbors(m: Seq<Vec<u32>>, g: Seq<Seq<bool>>) -> bool {
    &&& m.len() == g.len()
    &&& forall|i: int| 0 <= i < g.len() ==> (#[trigger] m[i])@.len() == g[i].len()
    &&& forall|i: int, j: int|
        0 <= i < g.len() && 0 <= j < g[i].len() ==> #[trigger] m[i]@[j] == live_neighbors(g, i, j)
}

/// `cells` has the shape of the grid `g` and holds its next generation in
/// the cells that come before `(i, j)`; the others are dead.
spec fn stepped_before(cells: Seq<Vec<bool>>, g: Seq<Seq<bool>>, i: int, j: int) -> bool {
    &&& cells.len() == height(g)
    &&& forall|r: int| 0 <= r < height(g) ==> (#[trigger] cells[r])@.len() == width(g)
    &&& forall|r: int, c: int|
        0 <= r < height(g) && 0 <= c < width(g) ==> #[trigger] cells[r]@[c] == (before(r, c, i, j)
            && next_state(g[r][c], live_neighbors(g, r, c)))
}

impl Board {
    /// The matrix of live-neighbour counts: entry `(i, j)` is the number of
    /// live cells among the eight toroidal neighbours of the cell `(i, j)`.
    pub fn get_neighbor_count(&self) -> (count: Vec<Vec<u32>>)
        requires
            self.well_formed(),
            self@.len() > 0,
        ensures
            counts_neighbors(count@, self@),
    {
        let h = rows(&self.cells);
        let w = cols(&self.cells);
        let mut count: Vec<Vec<u32>> = vec![vec![0; w]; h];
        proof {
            lemma_counted_start(count@, self@);
        }
        for i in 0..h
            invariant
                self.well_formed(),
                h == height(self@),
                w == width(self@),
                counted_before(count@, self@, i as int, 0),
        {
            for j in 0..w
                invariant
                    self.well_formed(),
                    h == height(self@),
                    w == width(self@),
                    i < h,
                    counted_before(count@, self@, i as int, j as int),
            {
                let ghost prev = count@;
                assert(self@[i as int].len() == w);
                if self.cells[i][j] {
                    proof {
                        lemma_counted_fits(prev, self@, i as int, j as int);
                    }
                    add_neighbors(i, j, &mut count);
                    proof {
                        lemma_counted_add(prev, count@, self@, i as int, j as int);
                    }
                } else {
                    proof {
                        lemma_counted_skip(prev, self@, i as int, j as int);
                    }
                }
            }
            proof {
                lemma_counted_row_end(count@, self@, i as int);
            }
        }
        proof {
            lemma_counted_all(count@, self@);
        }
        count
    }

    /// The next generation, as a new board; this one is left as it is. The
    /// new board has the shape of this one, and a board without rows yields a
    /// board without rows.
    pub fn update(&self) -> (next: Board)
        requires
            self.well_formed(),
        ensures
            next@ == step(self@),
            next.well_formed(),
            next@.len() == self@.len(),
            forall|i: int| 0 <= i < self@.len() ==> (#[trigger] next@[i]).len() == self@[i].len(),
            self@.len() == 0 ==> next@ == self@,
    {
        if self.cells.is_empty() {
            let next = self.clone();
            assert(next@ =~= step(self@));
            return next;
        }
        let neighbor_count = self.get_neighbor_count();
        let h = rows(&self.cells);
        let w = cols(&self.cells);
        let mut cells: Vec<Vec<bool>> = vec![vec![false; w]; h];
        for i in 0..h
            invariant
                self.well_formed(),
                h == height(self@),
                w == width(self@),
                counts_neighbors(neighbor_count@, self@),
                stepped_before(cells@, self@, i as int, 0),
        {
            for j in 0..w
                invariant
                    self.well_formed(),
                    h == height(self@),
                    w == width(self@),
                    i < h,
                    counts_neighbors(neighbor_count@, self@),
                    stepped_before(cells@, self@, i as int, j as int),
            {
                assert(self@[i as int].len() == w);
                let neighbors = neighbor_count[i][j];
                // a live cell stays with two or three live neighbours
                if self.cells[i][j] && neighbors >= 2 && neighbors <= 3 {
                    cells[i][j] = true;
                }
                // a dead cell comes to life with exactly three
                if !self.cells[i][j] && neighbors == 3 {
                    cells[i][j] = true;
                }
            }
        }
        let next = Board { cells };
        assert(next@ =~= step(self@)) by {
            assert forall|r: int| 0 <= r < h implies #[trigger] next@[r] =~= step(self@)[r] by {
                assert(self@[r].len() == w);
            }
        }
        next
    }
}

/// Updating is a function of the grid alone: two updates of boards that hold
/// the same grid yield boards that hold the same grid.
pub proof fn lemma_update_deterministic(a: Board, b: Board, next_a: Board, next_b: Board)
    requires
        a.well_formed(),
        a@ == b@,
        call_ensures(Board::update, (&a,), next_a),
        call_ensures(Board::update, (&b,), next_b),
    ensures
        next_a@ == next_b@,
{
}

} // verus!
