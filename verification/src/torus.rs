//! The mathematical model: a torus of cells and the rule of life on it.
//!
//! A grid is a sequence of rows, a row a sequence of cells, a cell a `bool`
//! (`true` is alive). Row and column indices wrap at the edges, so every cell
//! has eight neighbours, counted with multiplicity where the torus is so
//! small that two offsets meet in one cell.

use vstd::prelude::*;
use vstd::arithmetic::div_mod::lemma_fundamental_div_mod_converse;

verus! {

/// Index `i` taken on a ring of `n` places.
pub open spec fn wrap(i: int, n: int) -> int {
    (i + n) % n
}

/// One step beyond either end of the ring leads to the other end.
pub proof fn lemma_wrap(i: int, n: int)
    requires
        0 < n,
        -1 <= i <= n,
    ensures
        wrap(i, n) == if i < 0 {
            n - 1
        } else if i == n {
            0
        } else {
            i
        },
        0 <= wrap(i, n) < n,
{
    if i < 0 {
        lemma_fundamental_div_mod_converse(i + n, n, 0, n - 1);
    } else if i == n {
        lemma_fundamental_div_mod_converse(i + n, n, 2, 0);
    } else {
        lemma_fundamental_div_mod_converse(i + n, n, 1, i);
    }
}

/// 1 if the cell of `row` in column `c` (wrapped) is alive, else 0.
pub open spec fn alive(row: Seq<bool>, c: int) -> int {
    if row[wrap(c, row.len() as int)] {
        1
    } else {
        0
    }
}

/// Number of live cells among the eight neighbours of column `c` of `mid`,
/// where `up` and `down` are the rows above and below.
pub open spec fn neighbor_count(up: Seq<bool>, mid: Seq<bool>, down: Seq<bool>, c: int) -> int {
    alive(up, c - 1) + alive(up, c) + alive(up, c + 1) + alive(mid, c - 1) + alive(mid, c + 1)
        + alive(down, c - 1) + alive(down, c) + alive(down, c + 1)
}

/// The rule: a cell is alive in the next generation when it has exactly three
/// live neighbours, or is alive and has exactly two.
pub open spec fn survives(cell: bool, neighbors: int) -> bool {
    neighbors == 3 || (cell && neighbors == 2)
}

/// Next state of the cell in column `c` of `mid`.
pub open spec fn next_cell(up: Seq<bool>, mid: Seq<bool>, down: Seq<bool>, c: int) -> bool {
    survives(mid[c], neighbor_count(up, mid, down, c))
}

/// Next generation of the row `mid`.
pub open spec fn next_row(up: Seq<bool>, mid: Seq<bool>, down: Seq<bool>) -> Seq<bool> {
    Seq::new(mid.len(), |c: int| next_cell(up, mid, down, c))
}

/// `g` has `rows` rows of `width` cells each.
pub open spec fn is_torus(g: Seq<Seq<bool>>, rows: int, width: int) -> bool {
    &&& g.len() == rows
    &&& forall|r: int| 0 <= r < rows ==> (#[trigger] g[r]).len() == width
}

/// Number of live neighbours of the cell in row `r`, column `c` of `g`.
pub open spec fn neighbors(g: Seq<Seq<bool>>, r: int, c: int) -> int {
    neighbor_count(g[wrap(r - 1, g.len() as int)], g[r], g[wrap(r + 1, g.len() as int)], c)
}

/// One generation: every cell of `g` updated at once.
pub open spec fn life_step(g: Seq<Seq<bool>>) -> Seq<Seq<bool>> {
    Seq::new(
        g.len(),
        |r: int| next_row(g[wrap(r - 1, g.len() as int)], g[r], g[wrap(r + 1, g.len() as int)]),
    )
}

/// `n` generations.
pub open spec fn life_steps(g: Seq<Seq<bool>>, n: nat) -> Seq<Seq<bool>>
    decreases n,
{
    if n == 0 {
        g
    } else {
        life_step(life_steps(g, (n - 1) as nat))
    }
}

/// The grid of `rows` by `width` cells in which nothing lives.
pub open spec fn all_dead(rows: int, width: int) -> Seq<Seq<bool>> {
    Seq::new(rows as nat, |r: int| Seq::new(width as nat, |c: int| false))
}

/// A generation keeps the shape of the grid, and each cell follows the rule.
pub proof fn lemma_life_step_cells(g: Seq<Seq<bool>>, rows: int, width: int)
    requires
        is_torus(g, rows, width),
    ensures
        is_torus(life_step(g), rows, width),
        forall|r: int, c: int|
            0 <= r < rows && 0 <= c < width ==> #[trigger] life_step(g)[r][c] == survives(
                g[r][c],
                neighbors(g, r, c),
            ),
{
}

} // verus!
