//! Laws of the rule of life on the torus.

use vstd::prelude::*;
use crate::torus::{all_dead, is_torus, lemma_wrap, life_step, neighbors, wrap};

verus! {

/// Where nothing lives, nothing is born: the empty grid is its own next
/// generation.
pub proof fn lemma_all_dead_stays_dead(rows: nat, width: nat)
    ensures
        life_step(all_dead(rows as int, width as int)) == all_dead(rows as int, width as int),
{
    let g = all_dead(rows as int, width as int);
    assert forall|r: int| 0 <= r < rows implies #[trigger] life_step(g)[r] == g[r] by {
        lemma_wrap(r - 1, rows as int);
        lemma_wrap(r + 1, rows as int);
        assert forall|c: int| 0 <= c < width implies life_step(g)[r][c] == false by {
            lemma_wrap(c - 1, width as int);
            lemma_wrap(c, width as int);
            lemma_wrap(c + 1, width as int);
        }
        assert(life_step(g)[r] =~= g[r]);
    }
    assert(life_step(g) =~= g);
}

/// A cell all of whose eight neighbours are alive is dead in the next
/// generation.
pub proof fn lemma_crowded_cell_dies(g: Seq<Seq<bool>>, rows: int, width: int, r: int, c: int)
    requires
        is_torus(g, rows, width),
        0 <= r < rows,
        0 <= c < width,
        neighbors(g, r, c) == 8,
    ensures
        !life_step(g)[r][c],
{
}

/// The top and bottom rows are neighbours: a live cell in either is counted
/// by the cell of the same column in the other.
pub proof fn lemma_rows_wrap_around(g: Seq<Seq<bool>>, rows: int, width: int, c: int)
    requires
        is_torus(g, rows, width),
        0 < rows,
        0 <= c < width,
    ensures
        g[0][c] ==> neighbors(g, rows - 1, c) >= 1,
        g[rows - 1][c] ==> neighbors(g, 0, c) >= 1,
{
    lemma_wrap(rows, rows);
    lemma_wrap(-1, rows);
    lemma_wrap(c, width);
}

/// The leftmost and rightmost columns are neighbours: a live cell in either
/// is counted by the cell of the same row in the other.
pub proof fn lemma_columns_wrap_around(g: Seq<Seq<bool>>, rows: int, width: int, r: int)
    requires
        is_torus(g, rows, width),
        0 <= r < rows,
        0 < width,
    ensures
        g[r][0] ==> neighbors(g, r, width - 1) >= 1,
        g[r][width - 1] ==> neighbors(g, r, 0) >= 1,
{
    lemma_wrap(width, width);
    lemma_wrap(-1, width);
}

/// Nothing lives in `g` but a block of two by two cells whose upper left
/// cell is in row `r0`, column `c0`.
pub open spec fn is_block(g: Seq<Seq<bool>>, rows: int, width: int, r0: int, c0: int) -> bool {
    &&& is_torus(g, rows, width)
    &&& forall|r: int, c: int|
        0 <= r < rows && 0 <= c < width ==> #[trigger] g[r][c] == (r0 <= r <= r0 + 1 && c0 <= c
            <= c0 + 1)
}

/// Nothing lives in `g` but three cells side by side in row `r0`: the one
/// in column `c0` and its two neighbours in the row, round the edge of the
/// torus where `c0` is the first or the last column.
pub open spec fn is_row_blinker(g: Seq<Seq<bool>>, rows: int, width: int, r0: int, c0: int) -> bool {
    &&& is_torus(g, rows, width)
    &&& forall|r: int, c: int|
        0 <= r < rows && 0 <= c < width ==> #[trigger] g[r][c] == (r == r0 && (c == wrap(
            c0 - 1,
            width,
        ) || c == c0 || c == wrap(c0 + 1, width)))
}

/// Nothing lives in `g` but three cells one above the other in column `c0`:
/// the one in row `r0` and its two neighbours in the column, round the edge
/// of the torus where `r0` is the first or the last row.
pub open spec fn is_column_blinker(
    g: Seq<Seq<bool>>,
    rows: int,
    width: int,
    r0: int,
    c0: int,
) -> bool {
    &&& is_torus(g, rows, width)
    &&& forall|r: int, c: int|
        0 <= r < rows && 0 <= c < width ==> #[trigger] g[r][c] == (c == c0 && (r == wrap(
            r0 - 1,
            rows,
        ) || r == r0 || r == wrap(r0 + 1, rows)))
}

/// A block that does not touch the edges of the grid is a still life.
pub proof fn lemma_block_is_still(g: Seq<Seq<bool>>, rows: int, width: int, r0: int, c0: int)
    requires
        is_block(g, rows, width, r0, c0),
        0 < r0,
        r0 + 2 < rows,
        0 < c0,
        c0 + 2 < width,
    ensures
        life_step(g) == g,
{
    assert forall|r: int| 0 <= r < rows implies #[trigger] life_step(g)[r] == g[r] by {
        lemma_wrap(r - 1, rows);
        lemma_wrap(r + 1, rows);
        assert forall|c: int| 0 <= c < width implies life_step(g)[r][c] == g[r][c] by {
            lemma_wrap(c - 1, width);
            lemma_wrap(c, width);
            lemma_wrap(c + 1, width);
        }
        assert(life_step(g)[r] =~= g[r]);
    }
    assert(life_step(g) =~= g);
}

/// Three cells in a row become three cells in a column about the same
/// middle cell, wherever on the torus they lie, if the torus has at least
/// four rows and four columns.
pub proof fn lemma_row_blinker_turns(g: Seq<Seq<bool>>, rows: int, width: int, r0: int, c0: int)
    requires
        is_row_blinker(g, rows, width, r0, c0),
        4 <= rows,
        4 <= width,
        0 <= r0 < rows,
        0 <= c0 < width,
    ensures
        is_column_blinker(life_step(g), rows, width, r0, c0),
{
    let next = life_step(g);
    lemma_wrap(r0 - 1, rows);
    lemma_wrap(r0 + 1, rows);
    lemma_wrap(c0 - 1, width);
    lemma_wrap(c0 + 1, width);
    assert forall|r: int, c: int| 0 <= r < rows && 0 <= c < width implies #[trigger] next[r][c]
        == (c == c0 && (r == wrap(r0 - 1, rows) || r == r0 || r == wrap(r0 + 1, rows))) by {
        lemma_wrap(r - 1, rows);
        lemma_wrap(r + 1, rows);
        lemma_wrap(c - 1, width);
        lemma_wrap(c, width);
        lemma_wrap(c + 1, width);
    }
}

/// Three cells in a column become three cells in a row about the same middle
/// cell, wherever on the torus they lie, if the torus has at least four rows
/// and four columns.
pub proof fn lemma_column_blinker_turns(
    g: Seq<Seq<bool>>,
    rows: int,
    width: int,
    r0: int,
    c0: int,
)
    requires
        is_column_blinker(g, rows, width, r0, c0),
        4 <= rows,
        4 <= width,
        0 <= r0 < rows,
        0 <= c0 < width,
    ensures
        is_row_blinker(life_step(g), rows, width, r0, c0),
{
    let next = life_step(g);
    lemma_wrap(r0 - 1, rows);
    lemma_wrap(r0 + 1, rows);
    lemma_wrap(c0 - 1, width);
    lemma_wrap(c0 + 1, width);
    assert forall|r: int, c: int| 0 <= r < rows && 0 <= c < width implies #[trigger] next[r][c]
        == (r == r0 && (c == wrap(c0 - 1, width) || c == c0 || c == wrap(c0 + 1, width))) by {
        lemma_wrap(r - 1, rows);
        lemma_wrap(r + 1, rows);
        lemma_wrap(c - 1, width);
        lemma_wrap(c, width);
        lemma_wrap(c + 1, width);
    }
}

/// A blinker has period two wherever on the torus it lies, if the torus has
/// at least four rows and four columns: one generation changes it, two give
/// it back.
pub proof fn lemma_blinker_has_period_two(
    g: Seq<Seq<bool>>,
    rows: int,
    width: int,
    r0: int,
    c0: int,
)
    requires
        is_row_blinker(g, rows, width, r0, c0),
        4 <= rows,
        4 <= width,
        0 <= r0 < rows,
        0 <= c0 < width,
    ensures
        life_step(g) != g,
        life_step(life_step(g)) == g,
{
    let once = life_step(g);
    let twice = life_step(once);
    lemma_row_blinker_turns(g, rows, width, r0, c0);
    lemma_column_blinker_turns(once, rows, width, r0, c0);
    lemma_wrap(r0 - 1, rows);
    let above = wrap(r0 - 1, rows);
    assert(once[above][c0] && !g[above][c0]);
    assert forall|r: int| 0 <= r < rows implies #[trigger] twice[r] == g[r] by {
        assert forall|c: int| 0 <= c < width implies twice[r][c] == g[r][c] by {}
        assert(twice[r] =~= g[r]);
    }
    assert(twice =~= g);
}

} // verus!
