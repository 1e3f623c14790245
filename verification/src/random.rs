//! Random boards.
//!
//! A density is a probability in fixed point: the number of 53-bit samples,
//! out of 2^53, for which a cell comes out live.

use vstd::prelude::*;
use crate::board::Board;
use crate::grid::before;

verus! {

/// The density at which every sample makes a live cell: 2^53, probability one.
pub const FULL_DENSITY: u64 = 0x20_0000_0000_0000;

/// `rand`'s handle to the generator of the current thread, carried about as
/// an opaque value.
#[verifier::external_type_specification]
#[verifier::external_body]
pub struct ExThreadRng(rand::rngs::ThreadRng);

/// `rand::thread_rng` returns a handle to the generator of the current
/// thread. Nothing is claimed of the handle. The call panics only where the
/// operating system gives the generator no seed; no argument decides that.
pub assume_specification[ rand::thread_rng ]() -> (rng: rand::rngs::ThreadRng);

/// Sixty-four bits drawn from the generator by `rand::Rng::gen`. They are
/// random: nothing is claimed of them, nor of the generator afterwards. The
/// draw panics only where the generator is due for fresh entropy and the
/// operating system gives it none.
#[verifier::external_body]
fn next_bits(rng: &mut rand::rngs::ThreadRng) -> (bits: u64) {
    rand::Rng::gen::<u64>(rng)
}

/// The sample that sixty-four random bits stand for: their upper 53 bits, a
/// number from 0 up to, but not including, 2^53.
pub open spec fn sample(bits: u64) -> int {
    bits as int / 2048
}

/// Whether a cell drawn with `bits` comes out live at `density`: it does if
/// its sample is strictly below the density. At density zero no cell is live,
/// from the full density on every cell is.
pub fn is_live_draw(bits: u64, density: u64) -> (live: bool)
    ensures
        live == (sample(bits) < density),
        density == 0 ==> !live,
        density >= FULL_DENSITY ==> live,
{
    bits / 2048 < density
}

/// What holds of the cells of a board of `rows` by `cols` that a draw at
/// `density` has filled before `(i, j)`: the cells before `(i, j)`, but for
/// the last row and the last column, have been drawn, the others are dead.
spec fn drawn_before(
    cells: Seq<Vec<bool>>,
    rows: int,
    cols: int,
    density: u64,
    i: int,
    j: int,
) -> bool {
    &&& cells.len() == rows
    &&& forall|r: int| 0 <= r < rows ==> (#[trigger] cells[r])@.len() == cols
    &&& forall|r: int, c: int|
        0 <= r < rows && 0 <= c < cols && (r == rows - 1 || c == cols - 1 || !before(r, c, i, j))
            ==> !(#[trigger] cells[r]@[c])
    &&& density == 0 ==> forall|r: int, c: int|
        0 <= r < rows && 0 <= c < cols ==> !(#[trigger] cells[r]@[c])
    &&& density >= FULL_DENSITY ==> forall|r: int, c: int|
        0 <= r < rows - 1 && 0 <= c < cols - 1 && before(r, c, i, j) ==> #[trigger] cells[r]@[c]
}

impl Board {
    /// A board of `rows` by `cols` cells. Each cell, but for those of the
    /// last row and the last column, is drawn from the thread's random
    /// generator and is live with probability `density` / 2^53,
    /// independently of the others. The last row and the last column are not
    /// drawn and stay dead. So at density zero every cell is dead, and from
    /// the full density on every drawn cell is live.
    pub fn rand_init(rows: usize, cols: usize, density: u64) -> (board: Board)
        ensures
            board.well_formed(),
            board@.len() == rows,
            forall|i: int| 0 <= i < rows ==> (#[trigger] board@[i]).len() == cols,
            forall|i: int, j: int|
                0 <= i < rows && 0 <= j < cols && (i == rows - 1 || j == cols - 1) ==> !(
                #[trigger] board@[i][j]),
            density == 0 ==> forall|i: int, j: int|
                0 <= i < rows && 0 <= j < cols ==> !(#[trigger] board@[i][j]),
            density >= FULL_DENSITY ==> forall|i: int, j: int|
                0 <= i < rows - 1 && 0 <= j < cols - 1 ==> #[trigger] board@[i][j],
    {
        let mut cells: Vec<Vec<bool>> = vec![vec![false; cols]; rows];
        let drawn_rows: usize = if rows == 0 {
            0
        } else {
            rows - 1
        };
        let drawn_cols: usize = if cols == 0 {
            0
        } else {
            cols - 1
        };
        let mut rng = rand::thread_rng();
        for i in 0..drawn_rows
            invariant
                drawn_rows == if rows == 0 { 0 } else { rows - 1 },
                drawn_cols == if cols == 0 { 0 } else { cols - 1 },
                drawn_before(cells@, rows as int, cols as int, density, i as int, 0),
        {
            for j in 0..drawn_cols
                invariant
                    drawn_rows == if rows == 0 { 0 } else { rows - 1 },
                    drawn_cols == if cols == 0 { 0 } else { cols - 1 },
                    i < drawn_rows,
                    drawn_before(cells@, rows as int, cols as int, density, i as int, j as int),
            {
                let bits: u64 = next_bits(&mut rng);
                cells[i][j] = is_live_draw(bits, density);
            }
        }
        let ghost drawn = cells@;
        let board = Board::new(cells);
        assert(forall|r: int| 0 <= r < rows ==> (#[trigger] board@[r]) == drawn[r]@);
        board
    }
}

} // verus!
