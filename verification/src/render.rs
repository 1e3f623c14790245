//! Boards as text.

use vstd::prelude::*;
use vstd::string::StringExecFns;
use crate::board::Board;

verus! {

/// The character that shows a cell: a filled square for a live one, a space
/// for a dead one.
pub open spec fn glyph(alive: bool) -> char {
    if alive {
        '■'
    } else {
        ' '
    }
}

/// The glyphs of the cells of a row, in order.
pub open spec fn row_glyphs(row: Seq<bool>) -> Seq<char> {
    Seq::new(row.len(), |j: int| glyph(row[j]))
}

/// A grid as text: for each row its glyphs and a line break.
pub open spec fn grid_text(g: Seq<Seq<bool>>) -> Seq<char>
    decreases g.len(),
{
    if g.len() == 0 {
        Seq::empty()
    } else {
        grid_text(g.drop_last()) + row_glyphs(g.last()).push('\n')
    }
}

impl Board {
    /// The board as text, one line per row.
    pub fn to_text(&self) -> (text: String)
        ensures
            text@ == grid_text(self@),
    {
        let mut text = String::new();
        let n = self.cells.len();
        for i in 0..n
            invariant
                n == self.cells@.len(),
                text@ == grid_text(self@.take(i as int)),
        {
            let row = &self.cells[i];
            let ghost done = text@;
            for j in 0..row.len()
                invariant
                    text@ == done + row_glyphs(row@.take(j as int)),
            {
                proof {
                    reveal_strlit("■");
                    reveal_strlit(" ");
                    assert(row@.take(j + 1) =~= row@.take(j as int).push(row@[j as int]));
                    assert(row_glyphs(row@.take(j + 1)) =~= row_glyphs(row@.take(j as int)).push(
                        glyph(row@[j as int]),
                    ));
                }
                if row[j] {
                    text.append("■");
                } else {
                    text.append(" ");
                }
                assert(text@ =~= done + row_glyphs(row@.take(j + 1)));
            }
            proof {
                reveal_strlit("\n");
                assert(row@.take(row@.len() as int) =~= row@);
                assert(self@.take(i + 1).drop_last() =~= self@.take(i as int));
                assert(self@.take(i + 1).last() == row@);
            }
            text.append("\n");
            assert(text@ =~= done + row_glyphs(row@).push('\n'));
        }
        assert(self@.take(n as int) =~= self@);
        text
    }
}

} // verus!
