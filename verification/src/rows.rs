//! Packed rows: one row of the grid as a vector of words.
//!
//! Lane 127 of a word is its leftmost cell, so the cell in column `c` of a row
//! is lane `127 - c % 128` of word `c / 128`. Reading the neighbours one
//! column to the left or right of a word's span takes a shift by one lane and
//! one boundary bit carried in from the adjacent word; where the row is a
//! single word, that adjacent word is the word itself.

use vstd::prelude::*;
use crate::counter::NeighborCounter;
use crate::lanes::{lane, lemma_lane_put, lemma_lane_shift_down, lemma_lane_shift_up, WORD_BITS};
use crate::torus::{alive, lemma_wrap, neighbor_count, next_cell, next_row, wrap};

verus! {

/// Which neighbour of an index is meant: the one before it, the index
/// itself, or the one after it.
#[derive(Clone, Copy, Debug, PartialEq, Eq)]
pub enum Direction {
    /// One place to the left (or up).
    Before,
    /// The same place.
    Here,
    /// One place to the right (or down).
    After,
}

impl Direction {
    /// The offset that the direction stands for.
    pub open spec fn delta(self) -> int {
        match self {
            Direction::Before => -1,
            Direction::Here => 0,
            Direction::After => 1,
        }
    }
}

/// The cells of a packed row, leftmost first.
pub open spec fn row_cells(words: Seq<u128>) -> Seq<bool> {
    Seq::new((128 * words.len()) as nat, |c: int| lane(words[c / 128], (127 - c % 128) as u128))
}

/// The column of the row that lane `i` of word `wordcol` holds.
pub open spec fn column_of(wordcol: int, i: u128) -> int {
    128 * wordcol + 127 - i
}

/// The neighbour of index `i` on a ring of `n` places.
pub fn wrap_step(i: usize, direction: Direction, n: usize) -> (j: usize)
    requires
        i < n,
    ensures
        j == wrap(i + direction.delta(), n as int),
        j < n,
{
    proof {
        lemma_wrap(i + direction.delta(), n as int);
    }
    match direction {
        Direction::Before => if i == 0 {
            n - 1
        } else {
            i - 1
        },
        Direction::Here => i,
        Direction::After => if i + 1 == n {
            0
        } else {
            i + 1
        },
    }
}

/// Words that lie side by side hold columns that lie side by side: to the
/// right of lane 0 of a word comes lane 127 of the next word, and to the left
/// of lane 127 comes lane 0 of the word before, where the word after the last
/// is the first.
pub proof fn lemma_word_boundary(cols: int, wordcol: int)
    requires
        0 <= wordcol < cols,
    ensures
        wrap(column_of(wordcol, 0) + 1, 128 * cols) == column_of(wrap(wordcol + 1, cols), 127),
        wrap(column_of(wordcol, 127) - 1, 128 * cols) == column_of(wrap(wordcol - 1, cols), 0),
{
    lemma_wrap(wordcol + 1, cols);
    lemma_wrap(wordcol - 1, cols);
    lemma_wrap(column_of(wordcol, 0) + 1, 128 * cols);
    lemma_wrap(column_of(wordcol, 127) - 1, 128 * cols);
}

/// The word whose lanes hold, for each lane of word `wordcol`, the cell one
/// column in `direction` from it: the word shifted by one lane, with the
/// boundary bit of the adjacent word carried into the vacated lane.
pub fn shifted_row_mask(row: &Vec<u128>, wordcol: usize, direction: Direction) -> (m: u128)
    requires
        wordcol < row.len(),
    ensures
        forall|i: u128|
            i < 128 ==> #[trigger] lane(m, i) == row_cells(row@)[wrap(
                column_of(wordcol as int, i) + direction.delta(),
                128 * row.len(),
            )],
{
    let word: u128 = row[wordcol];
    let beside: u128 = row[wrap_step(wordcol, direction, row.len())];
    let m: u128 = match direction {
        Direction::Before => (word >> 1) | (beside << 127),
        Direction::Here => word,
        Direction::After => (word << 1) | (beside >> 127),
    };
    proof {
        let width = 128 * row.len();
        assert forall|i: u128| i < 128 implies #[trigger] lane(m, i) == row_cells(row@)[wrap(
            column_of(wordcol as int, i) + direction.delta(),
            width,
        )] by {
            let c = column_of(wordcol as int, i) + direction.delta();
            lemma_wrap(c, width);
            lemma_wrap(wordcol + direction.delta(), row.len() as int);
            match direction {
                Direction::Before => {
                    if i < 127 {
                        lemma_lane_shift_down(word, beside, i, (i + 1) as u128);
                    } else {
                        lemma_lane_shift_down(word, beside, 0, 1);
                    }
                },
                Direction::Here => {},
                Direction::After => {
                    if i > 0 {
                        lemma_lane_shift_up(word, beside, i, (i - 1) as u128);
                    } else {
                        lemma_lane_shift_up(word, beside, 1, 0);
                    }
                },
            }
        }
    }
    m
}

/// Number of live cells of `row` in the columns beside `c`, and in `c`
/// itself where `with_center` says so.
pub open spec fn row_count(row: Seq<bool>, c: int, with_center: bool) -> int {
    alive(row, c - 1) + (if with_center {
        alive(row, c)
    } else {
        0
    }) + alive(row, c + 1)
}

/// Counts, for each lane of word `wordcol`, the live cells of `row` in the
/// columns beside the lane's column, and in that column too where
/// `with_center` is set.
pub fn count_row(counter: &mut NeighborCounter, row: &Vec<u128>, wordcol: usize, with_center: bool)
    requires
        wordcol < row.len(),
    ensures
        forall|i: u128, n: int|
            i < 128 && 0 <= n && #[trigger] old(counter).tallies(i, n) ==> final(counter).tallies(
                i,
                n + row_count(row_cells(row@), column_of(wordcol as int, i), with_center),
            ),
{
    let ghost c0 = *counter;
    let left: u128 = shifted_row_mask(row, wordcol, Direction::Before);
    counter.add(left);
    let ghost c1 = *counter;
    let middle: u128 = if with_center {
        shifted_row_mask(row, wordcol, Direction::Here)
    } else {
        0
    };
    counter.add(middle);
    let ghost c2 = *counter;
    let right: u128 = shifted_row_mask(row, wordcol, Direction::After);
    counter.add(right);
    proof {
        let cells = row_cells(row@);
        assert forall|i: u128, n: int| i < 128 && 0 <= n && #[trigger] c0.tallies(i, n) implies (
        *counter).tallies(i, n + row_count(cells, column_of(wordcol as int, i), with_center)) by {
            let c = column_of(wordcol as int, i);
            let n1 = n + alive(cells, c - 1);
            assert(c1.tallies(i, n1));
            if !with_center {
                crate::lanes::lemma_lane_ops(0, 0, i);
            }
            let n2 = n1 + if with_center {
                alive(cells, c)
            } else {
                0
            };
            assert(c2.tallies(i, n2));
        }
    }
}

/// The next generation of word `wordcol` of the row `mid`, which lies between
/// the rows `up` and `down`.
pub fn evolve_word(up: &Vec<u128>, mid: &Vec<u128>, down: &Vec<u128>, wordcol: usize) -> (w: u128)
    requires
        up.len() == mid.len(),
        down.len() == mid.len(),
        wordcol < mid.len(),
    ensures
        forall|i: u128|
            i < 128 ==> #[trigger] lane(w, i) == next_cell(
                row_cells(up@),
                row_cells(mid@),
                row_cells(down@),
                column_of(wordcol as int, i),
            ),
{
    let mut counter = NeighborCounter::new();
    let ghost c0 = counter;
    count_row(&mut counter, up, wordcol, true);
    let ghost c1 = counter;
    count_row(&mut counter, mid, wordcol, false);
    let ghost c2 = counter;
    count_row(&mut counter, down, wordcol, true);
    let w = counter.resolve(mid[wordcol]);
    proof {
        assert forall|i: u128| i < 128 implies #[trigger] lane(w, i) == next_cell(
            row_cells(up@),
            row_cells(mid@),
            row_cells(down@),
            column_of(wordcol as int, i),
        ) by {
            let c = column_of(wordcol as int, i);
            let n1 = row_count(row_cells(up@), c, true);
            let n2 = n1 + row_count(row_cells(mid@), c, false);
            let n3 = n2 + row_count(row_cells(down@), c, true);
            assert(c0.tallies(i, 0));
            assert(c1.tallies(i, n1));
            assert(c2.tallies(i, n2));
            assert(counter.tallies(i, n3));
            assert(n3 == neighbor_count(row_cells(up@), row_cells(mid@), row_cells(down@), c));
            assert(row_cells(mid@)[c] == lane(mid@[wordcol as int], i));
        }
    }
    w
}

/// Writes the next generation of the row `mid` into `out`.
pub fn evolve_row(up: &Vec<u128>, mid: &Vec<u128>, down: &Vec<u128>, out: &mut Vec<u128>)
    requires
        up.len() == mid.len(),
        down.len() == mid.len(),
        old(out).len() == mid.len(),
    ensures
        final(out).len() == mid.len(),
        row_cells(final(out)@) == next_row(row_cells(up@), row_cells(mid@), row_cells(down@)),
{
    let cols = mid.len();
    let mut x: usize = 0;
    while x < cols
        invariant
            x <= cols,
            cols == mid.len(),
            up.len() == cols,
            down.len() == cols,
            out.len() == cols,
            forall|k: int, i: u128|
                0 <= k < x && i < 128 ==> #[trigger] lane(out@[k], i) == next_cell(
                    row_cells(up@),
                    row_cells(mid@),
                    row_cells(down@),
                    column_of(k, i),
                ),
        decreases cols - x,
    {
        let w = evolve_word(up, mid, down, x);
        out[x] = w;
        x += 1;
    }
    proof {
        let want = next_row(row_cells(up@), row_cells(mid@), row_cells(down@));
        assert forall|c: int| 0 <= c < 128 * cols implies row_cells(out@)[c] == want[c] by {
            let i = (127 - c % 128) as u128;
            assert(column_of(c / 128, i) == c);
            assert(lane(out@[c / 128], i) == want[c]);
        }
        assert(row_cells(out@) =~= want);
    }
}

/// The cells of a row after the 128 cells that word `wordcol` holds are
/// replaced by the lanes of `value`.
pub open spec fn put_word(row: Seq<bool>, wordcol: int, value: u128) -> Seq<bool> {
    Seq::new(
        row.len(),
        |c: int|
            if c / 128 == wordcol {
                lane(value, (127 - c % 128) as u128)
            } else {
                row[c]
            },
    )
}

/// Replacing a word of a packed row replaces the cells that it holds.
pub proof fn lemma_put_word(words: Seq<u128>, wordcol: int, value: u128)
    requires
        0 <= wordcol < words.len(),
    ensures
        row_cells(words.update(wordcol, value)) == put_word(row_cells(words), wordcol, value),
{
    assert(row_cells(words.update(wordcol, value)) =~= put_word(row_cells(words), wordcol, value));
}

/// Whether the cell in column `c` of a packed row is alive.
pub fn row_get(row: &Vec<u128>, c: usize) -> (cell: bool)
    requires
        c < 128 * row.len(),
    ensures
        cell == row_cells(row@)[c as int],
{
    let k: usize = WORD_BITS - 1 - c % WORD_BITS;
    let word: u128 = row[c / WORD_BITS];
    (word >> k) & 1 == 1
}

/// Sets the cell in column `c` of a packed row to `cell`.
pub fn row_put(row: &mut Vec<u128>, c: usize, cell: bool)
    requires
        c < 128 * old(row).len(),
    ensures
        final(row).len() == old(row).len(),
        row_cells(final(row)@) == row_cells(old(row)@).update(c as int, cell),
{
    let k: usize = WORD_BITS - 1 - c % WORD_BITS;
    let x: usize = c / WORD_BITS;
    let word: u128 = row[x];
    let bit: u128 = 1u128 << k;
    let ghost before = row@;
    row[x] = if cell {
        word | bit
    } else {
        word & !bit
    };
    proof {
        let want = row_cells(before).update(c as int, cell);
        assert forall|d: int| 0 <= d < 128 * row.len() implies row_cells(row@)[d] == want[d] by {
            let i = (127 - d % 128) as u128;
            lemma_lane_put(word, k as u128, i);
        }
        assert(row_cells(row@) =~= want);
    }
}

} // verus!
