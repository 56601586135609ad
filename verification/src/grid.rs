//! The grid: rows of packed words, toroidal in both directions.

use vstd::prelude::*;
use crate::bands::{join_bands, lemma_band_index, lemma_band_split};
use crate::lanes::{lane, WORD_BITS};
use crate::rows::{
    column_of, evolve_row, lemma_put_word, put_word, row_cells, row_get, row_put,
    shifted_row_mask, Direction,
};
use crate::torus::{all_dead, is_torus, next_row, wrap};

verus! {

/// Why a grid cannot be set up.
#[derive(Clone, Copy, Debug, PartialEq, Eq)]
pub enum ConfigurationError {
    /// The worker count is zero or does not divide the height.
    WorkerCount,
    /// The width is not a multiple of the word width.
    WordWidth,
}

/// A toroidal grid of cells, 128 to a word.
#[derive(Clone, Debug, PartialEq, Eq)]
pub struct Grid {
    cols: usize,
    words: Vec<Vec<u128>>,
}

impl View for Grid {
    type V = Seq<Seq<bool>>;

    /// The cells, row by row, each row from its leftmost cell.
    closed spec fn view(&self) -> Seq<Seq<bool>> {
        Seq::new(self.words@.len(), |r: int| row_cells(self.words@[r]@))
    }
}

/// The grids `chunks` are well formed and share one shape: `band` rows of
/// `cols` words.
pub open spec fn uniform(chunks: Seq<Grid>, band: nat, cols: nat) -> bool {
    forall|i: int|
        0 <= i < chunks.len() ==> {
            &&& (#[trigger] chunks[i]).wf()
            &&& chunks[i].spec_rows() == band
            &&& chunks[i].spec_cols() == cols
        }
}

/// The cells of each of `chunks`.
pub open spec fn chunk_views(chunks: Seq<Grid>) -> Seq<Seq<Seq<bool>>> {
    Seq::new(chunks.len(), |i: int| chunks[i]@)
}

impl Grid {
    /// Every row has the grid's width, and the width fits the machine's
    /// index type.
    pub closed spec fn wf(&self) -> bool {
        &&& 128 * self.cols <= usize::MAX
        &&& forall|r: int| 0 <= r < self.words@.len() ==> (#[trigger] self.words@[r]).len() == self.cols
    }

    /// Number of rows.
    pub closed spec fn spec_rows(&self) -> nat {
        self.words@.len()
    }

    /// Number of words in a row.
    pub closed spec fn spec_cols(&self) -> nat {
        self.cols as nat
    }

    /// Number of cells in a row.
    pub open spec fn spec_width(&self) -> nat {
        128 * self.spec_cols()
    }

    /// The view of a grid has the grid's shape.
    pub proof fn lemma_shape(&self)
        requires
            self.wf(),
        ensures
            is_torus(self@, self.spec_rows() as int, self.spec_width() as int),
            self.spec_width() <= usize::MAX,
    {
        assert forall|r: int| 0 <= r < self.spec_rows() implies (#[trigger] self@[r]).len()
            == self.spec_width() by {
            assert(self.words@[r].len() == self.cols);
        }
    }

    /// A grid of `rows` rows and `cols` words per row in which nothing lives.
    pub fn new(rows: usize, cols: usize) -> (g: Grid)
        requires
            128 * cols <= usize::MAX,
        ensures
            g.wf(),
            g.spec_rows() == rows,
            g.spec_cols() == cols,
            g@ == all_dead(rows as int, 128 * cols),
    {
        let mut words: Vec<Vec<u128>> = Vec::new();
        let mut r: usize = 0;
        while r < rows
            invariant
                r <= rows,
                words@.len() == r,
                forall|k: int| 0 <= k < r ==> (#[trigger] words@[k]).len() == cols,
                forall|k: int, x: int| 0 <= k < r && 0 <= x < cols ==> (#[trigger] words@[k]@[x]) == 0,
            decreases rows - r,
        {
            let mut row: Vec<u128> = Vec::new();
            let mut x: usize = 0;
            while x < cols
                invariant
                    x <= cols,
                    row@.len() == x,
                    forall|k: int| 0 <= k < x ==> (#[trigger] row@[k]) == 0,
                decreases cols - x,
            {
                row.push(0);
                x += 1;
            }
            words.push(row);
            r += 1;
        }
        let g = Grid { cols, words };
        proof {
            let dead = all_dead(rows as int, 128 * cols);
            assert forall|k: int| 0 <= k < rows implies #[trigger] g@[k] == dead[k] by {
                assert forall|c: int| 0 <= c < 128 * cols implies g@[k][c] == false by {
                    let i = (127 - c % 128) as u128;
                    assert(g.words@[k]@[c / 128] == 0);
                    crate::lanes::lemma_lane_ops(0, 0, i);
                }
                assert(g@[k] =~= dead[k]);
            }
            assert(g@ =~= dead);
        }
        g
    }

    /// Sets up an empty grid of `width` by `height` cells for `worker_count`
    /// workers, or says why that cannot be done.
    pub fn initialize(width: usize, height: usize, worker_count: usize) -> (res: Result<
        Grid,
        ConfigurationError,
    >)
        ensures
            match res {
                Ok(g) => {
                    &&& worker_count > 0
                    &&& height % worker_count == 0
                    &&& width % 128 == 0
                    &&& g.wf()
                    &&& g.spec_rows() == height
                    &&& g.spec_width() == width
                    &&& g@ == all_dead(height as int, width as int)
                },
                Err(ConfigurationError::WorkerCount) => worker_count == 0 || height
                    % worker_count != 0,
                Err(ConfigurationError::WordWidth) => {
                    &&& worker_count > 0
                    &&& height % worker_count == 0
                    &&& width % 128 != 0
                },
            },
    {
        if worker_count == 0 || height % worker_count != 0 {
            return Err(ConfigurationError::WorkerCount);
        }
        if width % WORD_BITS != 0 {
            return Err(ConfigurationError::WordWidth);
        }
        Ok(Grid::new(height, width / WORD_BITS))
    }

    /// Number of rows.
    pub fn rows(&self) -> (n: usize)
        ensures
            n == self.spec_rows(),
    {
        self.words.len()
    }

    /// Number of words in a row.
    pub fn cols(&self) -> (n: usize)
        ensures
            n == self.spec_cols(),
    {
        self.cols
    }

    /// Number of cells in a row.
    pub fn width(&self) -> (n: usize)
        requires
            self.wf(),
        ensures
            n == self.spec_width(),
    {
        WORD_BITS * self.cols
    }

    /// The packed row `row`.
    pub fn row(&self, row: usize) -> (words: &Vec<u128>)
        requires
            self.wf(),
            row < self.spec_rows(),
        ensures
            words.len() == self.spec_cols(),
            row_cells(words@) == self@[row as int],
    {
        &self.words[row]
    }

    /// The word in row `row` at word column `wordcol`.
    pub fn get_word(&self, row: usize, wordcol: usize) -> (w: u128)
        requires
            self.wf(),
            row < self.spec_rows(),
            wordcol < self.spec_cols(),
        ensures
            forall|i: u128|
                i < 128 ==> #[trigger] lane(w, i) == self@[row as int][column_of(wordcol as int, i)],
    {
        self.words[row][wordcol]
    }

    /// Replaces the word in row `row` at word column `wordcol`.
    pub fn set_word(&mut self, row: usize, wordcol: usize, value: u128)
        requires
            old(self).wf(),
            row < old(self).spec_rows(),
            wordcol < old(self).spec_cols(),
        ensures
            final(self).wf(),
            final(self).spec_rows() == old(self).spec_rows(),
            final(self).spec_cols() == old(self).spec_cols(),
            final(self)@ == old(self)@.update(
                row as int,
                put_word(old(self)@[row as int], wordcol as int, value),
            ),
    {
        let ghost before = self.words@[row as int]@;
        self.words[row][wordcol] = value;
        proof {
            lemma_put_word(before, wordcol as int, value);
            assert(self@ =~= old(self)@.update(
                row as int,
                put_word(old(self)@[row as int], wordcol as int, value),
            ));
        }
    }

    /// For each lane of the word in row `row` at `wordcol`, the cell one
    /// column in `direction` from it, with the boundary bit carried in from
    /// the adjacent word of the row.
    pub fn shifted_row_mask(&self, row: usize, wordcol: usize, direction: Direction) -> (m: u128)
        requires
            self.wf(),
            row < self.spec_rows(),
            wordcol < self.spec_cols(),
        ensures
            forall|i: u128|
                i < 128 ==> #[trigger] lane(m, i) == self@[row as int][wrap(
                    column_of(wordcol as int, i) + direction.delta(),
                    self.spec_width() as int,
                )],
    {
        shifted_row_mask(&self.words[row], wordcol, direction)
    }

    /// Whether the cell in row `row`, column `col` is alive.
    pub fn get_cell(&self, row: usize, col: usize) -> (cell: bool)
        requires
            self.wf(),
            row < self.spec_rows(),
            col < self.spec_width(),
        ensures
            cell == self@[row as int][col as int],
    {
        row_get(&self.words[row], col)
    }

    /// Sets the cell in row `row`, column `col`.
    pub fn set_cell(&mut self, row: usize, col: usize, cell: bool)
        requires
            old(self).wf(),
            row < old(self).spec_rows(),
            col < old(self).spec_width(),
        ensures
            final(self).wf(),
            final(self).spec_rows() == old(self).spec_rows(),
            final(self).spec_cols() == old(self).spec_cols(),
            final(self)@ == old(self)@.update(
                row as int,
                old(self)@[row as int].update(col as int, cell),
            ),
    {
        row_put(&mut self.words[row], col, cell);
        proof {
            assert(self@ =~= old(self)@.update(
                row as int,
                old(self)@[row as int].update(col as int, cell),
            ));
        }
    }

    /// Writes into row `row` the next generation of the packed row `mid`,
    /// which lies between `up` and `down`.
    pub fn store_next_row(&mut self, row: usize, up: &Vec<u128>, mid: &Vec<u128>, down: &Vec<u128>)
        requires
            old(self).wf(),
            row < old(self).spec_rows(),
            up.len() == old(self).spec_cols(),
            mid.len() == old(self).spec_cols(),
            down.len() == old(self).spec_cols(),
        ensures
            final(self).wf(),
            final(self).spec_rows() == old(self).spec_rows(),
            final(self).spec_cols() == old(self).spec_cols(),
            final(self)@ == old(self)@.update(
                row as int,
                next_row(row_cells(up@), row_cells(mid@), row_cells(down@)),
            ),
    {
        evolve_row(up, mid, down, &mut self.words[row]);
        proof {
            assert(self@ =~= old(self)@.update(
                row as int,
                next_row(row_cells(up@), row_cells(mid@), row_cells(down@)),
            ));
        }
    }

    /// Cuts the grid into `parts` chunks of equally many rows, the first
    /// chunk holding the topmost rows. The rows are moved, not copied.
    pub fn split(self, parts: usize) -> (chunks: Vec<Grid>)
        requires
            self.wf(),
            parts > 0,
            self.spec_rows() % (parts as nat) == 0,
        ensures
            chunks.len() == parts,
            uniform(chunks@, self.spec_rows() / (parts as nat), self.spec_cols()),
            join_bands(chunk_views(chunks@), (self.spec_rows() / (parts as nat)) as int) == self@,
    {
        let cols = self.cols;
        let rows = self.words.len();
        let band = rows / parts;
        let ghost orig = self.words@;
        assert(rows == band * parts) by (nonlinear_arith)
            requires
                parts > 0,
                rows % parts == 0,
                band == rows / parts,
        ;
        let mut rest = self.words;
        let mut chunks: Vec<Grid> = Vec::new();
        let mut g: usize = 0;
        let mut i: usize = 0;
        while i < parts
            invariant
                i <= parts,
                rows == band * parts,
                g == band * i,
                rest@.len() == rows,
                orig.len() == rows,
                forall|k: int| g <= k < rows ==> (#[trigger] rest@[k])@ == orig[k]@,
                chunks@.len() == i,
                forall|j: int|
                    0 <= j < i ==> {
                        &&& (#[trigger] chunks@[j]).cols == cols
                        &&& chunks@[j].words@.len() == band
                    },
                forall|j: int, y: int|
                    0 <= j < i && 0 <= y < band ==> (#[trigger] chunks@[j].words@[y])@ == orig[band
                        * j + y]@,
            decreases parts - i,
        {
            let mut words: Vec<Vec<u128>> = Vec::new();
            let mut y: usize = 0;
            while y < band
                invariant
                    y <= band,
                    i < parts,
                    rows == band * parts,
                    g == band * i + y,
                    rest@.len() == rows,
                    orig.len() == rows,
                    forall|k: int| g <= k < rows ==> (#[trigger] rest@[k])@ == orig[k]@,
                    words@.len() == y,
                    forall|k: int| 0 <= k < y ==> (#[trigger] words@[k])@ == orig[band * i + k]@,
                decreases band - y,
            {
                proof {
                    lemma_band_index(band as int, parts as int, i as int, y as int);
                }
                let mut row: Vec<u128> = Vec::new();
                std::mem::swap(&mut row, &mut rest[g]);
                words.push(row);
                y += 1;
                g += 1;
            }
            proof {
                if band > 0 {
                    lemma_band_index(band as int, parts as int, i as int, 0);
                } else {
                    assert(band * (i + 1) == band * i) by (nonlinear_arith)
                        requires
                            band == 0,
                    ;
                }
            }
            chunks.push(Grid { cols, words });
            i += 1;
        }
        proof {
            assert forall|j: int| 0 <= j < parts implies {
                &&& (#[trigger] chunks@[j]).wf()
                &&& chunks@[j].spec_rows() == band
                &&& chunks@[j].spec_cols() == cols
            } by {
                assert forall|y: int| 0 <= y < band implies (#[trigger] chunks@[j].words@[y]).len()
                    == cols by {
                    lemma_band_index(band as int, parts as int, j, y);
                    assert(chunks@[j].words@[y]@ == orig[band * j + y]@);
                }
            }
            let joined = join_bands(chunk_views(chunks@), band as int);
            assert forall|r: int| 0 <= r < rows implies joined[r] == self@[r] by {
                lemma_band_split(r, band as int, parts as int);
                let j = r / (band as int);
                let y = r % (band as int);
                assert(chunks@[j].words@[y]@ == orig[band * j + y]@);
            }
            assert(joined =~= self@);
        }
        chunks
    }

    /// Puts chunks of one shape together into one grid, the first chunk
    /// topmost. The rows are moved, not copied.
    pub fn join(chunks: Vec<Grid>) -> (g: Grid)
        requires
            chunks.len() > 0,
            uniform(chunks@, chunks@[0].spec_rows(), chunks@[0].spec_cols()),
        ensures
            g.wf(),
            g.spec_rows() == chunks@[0].spec_rows() * chunks.len(),
            g.spec_cols() == chunks@[0].spec_cols(),
            g@ == join_bands(chunk_views(chunks@), chunks@[0].spec_rows() as int),
    {
        let ghost before = chunks@;
        let mut chunks = chunks;
        let parts = chunks.len();
        let cols = chunks[0].cols;
        let band = chunks[0].words.len();
        let mut words: Vec<Vec<u128>> = Vec::new();
        let mut i: usize = 0;
        while i < parts
            invariant
                i <= parts,
                parts == before.len(),
                chunks@.len() == parts,
                uniform(before, band as nat, cols as nat),
                128 * cols <= usize::MAX,
                forall|j: int| 0 <= j < parts ==> (#[trigger] chunks@[j]).words@.len() == band,
                forall|j: int, y: int|
                    i <= j < parts && 0 <= y < band ==> (#[trigger] chunks@[j].words@[y])@
                        == before[j].words@[y]@,
                words@.len() == band * i,
                forall|j: int, y: int|
                    0 <= j < i && 0 <= y < band ==> (#[trigger] words@[band * j + y])@
                        == before[j].words@[y]@,
            decreases parts - i,
        {
            let mut y: usize = 0;
            while y < band
                invariant
                    y <= band,
                    i < parts,
                    parts == before.len(),
                    chunks@.len() == parts,
                    forall|j: int| 0 <= j < parts ==> (#[trigger] chunks@[j]).words@.len() == band,
                    forall|j: int, k: int|
                        i < j < parts && 0 <= k < band ==> (#[trigger] chunks@[j].words@[k])@
                            == before[j].words@[k]@,
                    forall|k: int|
                        y <= k < band ==> (#[trigger] chunks@[i as int].words@[k])@
                            == before[i as int].words@[k]@,
                    words@.len() == band * i + y,
                    forall|j: int, k: int|
                        0 <= j < i && 0 <= k < band ==> (#[trigger] words@[band * j + k])@
                            == before[j].words@[k]@,
                    forall|k: int|
                        0 <= k < y ==> (#[trigger] words@[band * i + k])@ == before[i as int].words@[k]@,
                decreases band - y,
            {
                let ghost grown = words@;
                let mut row: Vec<u128> = Vec::new();
                std::mem::swap(&mut row, &mut chunks[i].words[y]);
                words.push(row);
                proof {
                    assert forall|j: int, k: int| 0 <= j < i && 0 <= k < band implies (
                    #[trigger] words@[band * j + k])@ == before[j].words@[k]@ by {
                        lemma_band_index(band as int, i as int, j, k);
                        assert(words@[band * j + k] == grown[band * j + k]);
                    }
                    assert forall|k: int| 0 <= k < y + 1 implies (#[trigger] words@[band * i + k])@
                        == before[i as int].words@[k]@ by {
                        if k < y {
                            assert(words@[band * i + k] == grown[band * i + k]);
                        }
                    }
                }
                y += 1;
            }
            proof {
                assert(band * (i + 1) == band * i + band) by (nonlinear_arith);
            }
            i += 1;
        }
        let g = Grid { cols, words };
        proof {
            assert(g.words@.len() == band * parts);
            assert forall|r: int| 0 <= r < band * parts implies (#[trigger] g.words@[r])@
                == before[r / (band as int)].words@[r % (band as int)]@ by {
                lemma_band_split(r, band as int, parts as int);
                let j = r / (band as int);
                let k = r % (band as int);
                assert(g.words@[band * j + k]@ == before[j].words@[k]@);
            }
            assert forall|r: int| 0 <= r < g.words@.len() implies (#[trigger] g.words@[r]).len()
                == g.cols by {
                lemma_band_split(r, band as int, parts as int);
                assert(before[r / (band as int)].wf());
            }
            let joined = join_bands(chunk_views(before), band as int);
            assert forall|r: int| 0 <= r < band * parts implies g@[r] == joined[r] by {
                lemma_band_split(r, band as int, parts as int);
            }
            assert(g@ =~= joined);
        }
        g
    }
}

/// The grid of `rows` rows that `words` make up when they are laid out row by
/// row, `cols` words to a row: word number `y * cols + x` is word `x` of row
/// `y`.
pub open spec fn grid_of_words(words: Seq<u128>, rows: int, cols: int) -> Seq<Seq<bool>> {
    Seq::new(rows as nat, |y: int| row_cells(words.subrange(y * cols, (y + 1) * cols)))
}

/// Where the rows of a grid of `rows` rows of `cols` words begin and end in
/// the words laid out row by row.
pub proof fn lemma_row_of_words(y: int, rows: int, cols: int)
    requires
        0 <= y < rows,
        0 <= cols,
    ensures
        0 <= y * cols,
        (y + 1) * cols == y * cols + cols,
        (y + 1) * cols <= rows * cols,
{
    assert(0 <= y * cols) by (nonlinear_arith)
        requires
            0 <= y,
            0 <= cols,
    ;
    assert((y + 1) * cols == y * cols + cols) by (nonlinear_arith);
    assert((y + 1) * cols <= rows * cols) by (nonlinear_arith)
        requires
            y + 1 <= rows,
            0 <= cols,
    ;
}

/// Overwrites every word of `cells`, row by row, with the words of `words`
/// from number `start` on, and returns the number of the first word that it
/// did not take.
fn fill_from(cells: &mut Grid, words: &Vec<u128>, start: usize) -> (end: usize)
    requires
        old(cells).wf(),
        start + old(cells).spec_rows() * old(cells).spec_cols() <= words.len(),
    ensures
        final(cells).wf(),
        final(cells).spec_rows() == old(cells).spec_rows(),
        final(cells).spec_cols() == old(cells).spec_cols(),
        end == start + old(cells).spec_rows() * old(cells).spec_cols(),
        final(cells)@ == grid_of_words(
            words@.subrange(start as int, end as int),
            old(cells).spec_rows() as int,
            old(cells).spec_cols() as int,
        ),
{
    let rows = cells.words.len();
    let cols = cells.cols;
    let mut k: usize = start;
    let mut y: usize = 0;
    proof {
        assert(0 * cols == 0) by (nonlinear_arith);
    }
    while y < rows
        invariant
            y <= rows,
            rows == cells.words@.len(),
            cols == cells.cols,
            128 * cols <= usize::MAX,
            forall|r: int| 0 <= r < rows ==> (#[trigger] cells.words@[r]).len() == cols,
            k == start + y * cols,
            start + rows * cols <= words.len(),
            forall|r: int|
                0 <= r < y ==> (#[trigger] cells.words@[r])@ == words@.subrange(
                    start + r * cols,
                    start + (r + 1) * cols,
                ),
        decreases rows - y,
    {
        proof {
            lemma_row_of_words(y as int, rows as int, cols as int);
        }
        let mut x: usize = 0;
        while x < cols
            invariant
                x <= cols,
                y < rows,
                rows == cells.words@.len(),
                cols == cells.cols,
                forall|r: int| 0 <= r < rows ==> (#[trigger] cells.words@[r]).len() == cols,
                k == start + y * cols + x,
                start + (y + 1) * cols <= words.len(),
                (y + 1) * cols == y * cols + cols,
                0 <= y * cols,
                forall|r: int|
                    0 <= r < y ==> (#[trigger] cells.words@[r])@ == words@.subrange(
                        start + r * cols,
                        start + (r + 1) * cols,
                    ),
                forall|j: int|
                    0 <= j < x ==> (#[trigger] cells.words@[y as int]@[j]) == words@[start + y
                        * cols + j],
            decreases cols - x,
        {
            cells.words[y][x] = words[k];
            x += 1;
            k += 1;
        }
        proof {
            assert(cells.words@[y as int]@ =~= words@.subrange(
                start + y * cols,
                start + (y + 1) * cols,
            ));
        }
        y += 1;
    }
    proof {
        let taken = words@.subrange(start as int, k as int);
        let want = grid_of_words(taken, rows as int, cols as int);
        assert forall|r: int| 0 <= r < rows implies #[trigger] cells@[r] == want[r] by {
            lemma_row_of_words(r, rows as int, cols as int);
            assert(taken.subrange(r * cols, (r + 1) * cols) =~= words@.subrange(
                start + r * cols,
                start + (r + 1) * cols,
            ));
        }
        assert(cells@ =~= want);
    }
    k
}

/// Overwrites every word of `cells` with the words of `words`, row by row:
/// word `x` of row `y` becomes word number `y * cols + x` of `words`.
pub fn fill_words(cells: &mut Grid, words: &Vec<u128>)
    requires
        old(cells).wf(),
        words.len() == old(cells).spec_rows() * old(cells).spec_cols(),
    ensures
        final(cells).wf(),
        final(cells).spec_rows() == old(cells).spec_rows(),
        final(cells).spec_cols() == old(cells).spec_cols(),
        final(cells)@ == grid_of_words(
            words@,
            old(cells).spec_rows() as int,
            old(cells).spec_cols() as int,
        ),
        forall|y: int|
            0 <= y < old(cells).spec_rows() ==> #[trigger] final(cells)@[y] == row_cells(
                words@.subrange(
                    y * (old(cells).spec_cols() as int),
                    (y + 1) * (old(cells).spec_cols() as int),
                ),
            ),
{
    let end: usize = fill_from(cells, words, 0);
    proof {
        assert(words@.subrange(0, end as int) =~= words@);
    }
}

/// Overwrites every word of every chunk with the words of `words`, chunk by
/// chunk and in each chunk row by row, so that the chunks laid end to end
/// are the grid that [`fill_words`] makes of the same words: word `x` of row
/// `y` of chunk `z` becomes word number `(z * band + y) * cols + x`.
pub fn fill_chunks(chunks: &mut Vec<Grid>, words: &Vec<u128>)
    requires
        old(chunks).len() > 0,
        uniform(old(chunks)@, old(chunks)@[0].spec_rows(), old(chunks)@[0].spec_cols()),
        words.len() == old(chunks).len() * old(chunks)@[0].spec_rows() * old(chunks)@[0].spec_cols(),
    ensures
        final(chunks).len() == old(chunks).len(),
        uniform(final(chunks)@, old(chunks)@[0].spec_rows(), old(chunks)@[0].spec_cols()),
        forall|z: int, y: int|
            0 <= z < old(chunks).len() && 0 <= y < old(chunks)@[0].spec_rows() ==> (
            #[trigger] final(chunks)@[z]@[y]) == row_cells(
                words@.subrange(
                    (z * (old(chunks)@[0].spec_rows() as int) + y) * (old(chunks)@[0].spec_cols() as int),
                    (z * (old(chunks)@[0].spec_rows() as int) + y + 1) * (old(chunks)@[0].spec_cols() as int),
                ),
            ),
        join_bands(chunk_views(final(chunks)@), old(chunks)@[0].spec_rows() as int)
            == grid_of_words(
            words@,
            old(chunks).len() * old(chunks)@[0].spec_rows(),
            old(chunks)@[0].spec_cols() as int,
        ),
{
    let parts = chunks.len();
    let ghost band = chunks@[0].spec_rows() as int;
    let ghost cols = chunks@[0].spec_cols() as int;
    let ghost each = band * cols;
    proof {
        assert(parts * band * cols == parts * each) by (nonlinear_arith)
            requires
                each == band * cols,
        ;
        assert(0 * each == 0) by (nonlinear_arith);
    }
    let mut start: usize = 0;
    let mut z: usize = 0;
    while z < parts
        invariant
            z <= parts,
            chunks.len() == parts,
            each == band * cols,
            0 <= band,
            0 <= cols,
            uniform(chunks@, band as nat, cols as nat),
            words.len() == parts * each,
            start == z * each,
            forall|i: int|
                0 <= i < z ==> (#[trigger] chunks@[i])@ == grid_of_words(
                    words@.subrange(i * each, (i + 1) * each),
                    band,
                    cols,
                ),
        decreases parts - z,
    {
        proof {
            assert((z + 1) * each == z * each + each) by (nonlinear_arith);
            assert((z + 1) * each <= parts * each) by (nonlinear_arith)
                requires
                    z + 1 <= parts,
                    0 <= each,
            ;
        }
        start = fill_from(&mut chunks[z], words, start);
        z += 1;
    }
    proof {
        assert forall|i: int, y: int| 0 <= i < parts && 0 <= y < band implies (
        #[trigger] chunks@[i]@[y]) == row_cells(
            words@.subrange((i * band + y) * cols, (i * band + y + 1) * cols),
        ) by {
            lemma_chunk_row_of_words(i, y, parts as int, band, cols);
            lemma_row_of_words(y, band, cols);
            let part = words@.subrange(i * each, (i + 1) * each);
            assert(part.subrange(y * cols, (y + 1) * cols) =~= words@.subrange(
                (i * band + y) * cols,
                (i * band + y + 1) * cols,
            ));
        }
        let joined = join_bands(chunk_views(chunks@), band);
        let want = grid_of_words(words@, parts * band, cols);
        assert(band * parts == parts * band) by (nonlinear_arith);
        assert forall|r: int| 0 <= r < parts * band implies joined[r] == want[r] by {
            lemma_band_split(r, band, parts as int);
            let i = r / band;
            let y = r % band;
            assert(i * band == band * i) by (nonlinear_arith);
            assert(chunks@[i]@[y] == row_cells(
                words@.subrange((i * band + y) * cols, (i * band + y + 1) * cols),
            ));
        }
        assert(joined =~= want);
    }
}

/// Where row `y` of chunk `i` begins and ends in the words laid out chunk by
/// chunk, each chunk of `band` rows of `cols` words.
pub proof fn lemma_chunk_row_of_words(i: int, y: int, parts: int, band: int, cols: int)
    requires
        0 <= i < parts,
        0 <= y < band,
        0 <= cols,
    ensures
        0 <= i * (band * cols),
        (i + 1) * (band * cols) <= parts * (band * cols),
        (i * band + y) * cols == i * (band * cols) + y * cols,
        (i * band + y + 1) * cols == i * (band * cols) + (y + 1) * cols,
        (i + 1) * (band * cols) == i * (band * cols) + band * cols,
{
    assert(0 <= band * cols) by (nonlinear_arith)
        requires
            0 <= band,
            0 <= cols,
    ;
    assert(0 <= i * (band * cols)) by (nonlinear_arith)
        requires
            0 <= i,
            0 <= band * cols,
    ;
    assert((i + 1) * (band * cols) <= parts * (band * cols)) by (nonlinear_arith)
        requires
            i + 1 <= parts,
            0 <= band * cols,
    ;
    assert((i * band + y) * cols == i * (band * cols) + y * cols) by (nonlinear_arith);
    assert((i * band + y + 1) * cols == i * (band * cols) + (y + 1) * cols) by (nonlinear_arith);
    assert((i + 1) * (band * cols) == i * (band * cols) + band * cols) by (nonlinear_arith);
}

} // verus!
