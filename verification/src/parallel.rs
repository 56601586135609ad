//! The partitioned stepper: the grid cut into chunks of equally many rows,
//! one worker to a chunk.
//!
//! A generation has two phases. In the compute phase each worker reads the
//! whole current grid, its neighbours' rows at the chunk's edges included,
//! and writes the next generation of its own chunk into a buffer that no
//! other worker touches. In the swap phase each chunk changes places with its
//! buffer. The phases never overlap, so a worker never reads a grid that
//! mixes two generations.

use vstd::prelude::*;
use crate::bands::{
    band_of, join_bands, lemma_band_index, lemma_band_split, lemma_join_split, split_bands,
};
use crate::grid::{chunk_views, uniform, Grid};
use crate::rows::{wrap_step, Direction};
use crate::torus::{all_dead, life_step, life_steps};

verus! {

/// The chunks are of one shape, and the rows of all of them can be counted.
pub open spec fn chunks_fit(chunks: Seq<Grid>, band: nat, cols: nat) -> bool {
    &&& uniform(chunks, band, cols)
    &&& band * chunks.len() <= usize::MAX
}

/// Computes into `buf_chunk` the next generation of chunk `chunk_i` of the
/// grid that `chunks` make up.
pub fn next_generation(chunks: &Vec<Grid>, buf_chunk: &mut Grid, chunk_i: usize)
    requires
        chunk_i < chunks.len(),
        old(buf_chunk).wf(),
        chunks_fit(chunks@, old(buf_chunk).spec_rows(), old(buf_chunk).spec_cols()),
    ensures
        final(buf_chunk).wf(),
        final(buf_chunk).spec_rows() == old(buf_chunk).spec_rows(),
        final(buf_chunk).spec_cols() == old(buf_chunk).spec_cols(),
        final(buf_chunk)@ == band_of(
            life_step(join_bands(chunk_views(chunks@), old(buf_chunk).spec_rows() as int)),
            old(buf_chunk).spec_rows() as int,
            chunk_i as int,
        ),
{
    let worker_rows = buf_chunk.rows();
    let parts = chunks.len();
    let ghost whole = join_bands(chunk_views(chunks@), worker_rows as int);
    proof {
        buffer_shape(buf_chunk);
        assert(worker_rows * parts == parts * worker_rows) by (nonlinear_arith);
    }
    let rows = worker_rows * parts;
    let mut y: usize = 0;
    while y < worker_rows
        invariant
            y <= worker_rows,
            chunk_i < parts,
            parts == chunks.len(),
            rows == worker_rows * parts,
            chunks_fit(chunks@, worker_rows as nat, buf_chunk.spec_cols()),
            buf_chunk.wf(),
            buf_chunk.spec_rows() == worker_rows,
            buf_chunk.spec_cols() == old(buf_chunk).spec_cols(),
            buf_chunk@.len() == worker_rows,
            whole == join_bands(chunk_views(chunks@), worker_rows as int),
            forall|k: int|
                0 <= k < y ==> #[trigger] buf_chunk@[k] == life_step(whole)[worker_rows * chunk_i
                    + k],
        decreases worker_rows - y,
    {
        proof {
            lemma_band_index(worker_rows as int, parts as int, chunk_i as int, y as int);
        }
        let glob_y = worker_rows * chunk_i + y;
        let up = wrap_step(glob_y, Direction::Before, rows);
        let down = wrap_step(glob_y, Direction::After, rows);
        proof {
            lemma_band_split(up as int, worker_rows as int, parts as int);
            lemma_band_split(down as int, worker_rows as int, parts as int);
        }
        buf_chunk.store_next_row(
            y,
            chunks[up / worker_rows].row(up % worker_rows),
            chunks[chunk_i].row(y),
            chunks[down / worker_rows].row(down % worker_rows),
        );
        y += 1;
    }
    proof {
        if worker_rows > 0 {
            lemma_band_index(worker_rows as int, parts as int, chunk_i as int, 0);
        } else {
            assert(worker_rows * chunk_i == 0 && worker_rows * (chunk_i + 1) == 0
                && worker_rows * parts == 0) by (nonlinear_arith)
                requires
                    worker_rows == 0,
            ;
        }
        assert(buf_chunk@ =~= band_of(life_step(whole), worker_rows as int, chunk_i as int));
    }
}

/// The view of a well-formed grid has as many rows as the grid.
proof fn buffer_shape(g: &Grid)
    requires
        g.wf(),
    ensures
        g@.len() == g.spec_rows(),
{
    g.lemma_shape();
}

/// What one generation of the partitioned stepper leaves: each of `parts`
/// workers computes its band of the next generation of the grid that the
/// bands of `g` make up, and the results are joined.
pub open spec fn partitioned_step(g: Seq<Seq<bool>>, band: int, parts: int) -> Seq<Seq<bool>> {
    join_bands(
        Seq::new(
            parts as nat,
            |i: int| band_of(life_step(join_bands(split_bands(g, band, parts), band)), band, i),
        ),
        band,
    )
}

/// `n` generations of the partitioned stepper.
pub open spec fn partitioned_steps(g: Seq<Seq<bool>>, band: int, parts: int, n: nat) -> Seq<
    Seq<bool>,
>
    decreases n,
{
    if n == 0 {
        g
    } else {
        partitioned_step(partitioned_steps(g, band, parts, (n - 1) as nat), band, parts)
    }
}

/// However the rows are shared out among workers, a generation of the
/// partitioned stepper is a generation of the sequential one.
pub proof fn lemma_partitioned_step(g: Seq<Seq<bool>>, band: int, parts: int)
    requires
        0 <= band,
        0 <= parts,
        g.len() == band * parts,
    ensures
        partitioned_step(g, band, parts) == life_step(g),
{
    lemma_join_split(g, band, parts);
    let next = life_step(g);
    assert(Seq::new(
        parts as nat,
        |i: int| band_of(life_step(join_bands(split_bands(g, band, parts), band)), band, i),
    ) =~= split_bands(next, band, parts));
    lemma_join_split(next, band, parts);
}

/// For every number of workers that divides the rows, and every number of
/// generations, the partitioned stepper and the sequential one arrive at the
/// same grid.
pub proof fn lemma_partitioned_steps(g: Seq<Seq<bool>>, band: int, parts: int, n: nat)
    requires
        0 <= band,
        0 <= parts,
        g.len() == band * parts,
    ensures
        partitioned_steps(g, band, parts, n) == life_steps(g, n),
        life_steps(g, n).len() == g.len(),
    decreases n,
{
    if n > 0 {
        lemma_partitioned_steps(g, band, parts, (n - 1) as nat);
        lemma_partitioned_step(life_steps(g, (n - 1) as nat), band, parts);
    }
}

/// A grid cut into chunks for a pool of workers, each chunk with a buffer of
/// its own for the next generation.
#[derive(Debug)]
pub struct ChunkedGrid {
    chunks: Vec<Grid>,
    buffers: Vec<Grid>,
}

impl View for ChunkedGrid {
    type V = Seq<Seq<bool>>;

    /// The cells of the current generation, all chunks together.
    closed spec fn view(&self) -> Seq<Seq<bool>> {
        join_bands(chunk_views(self.chunks@), self.spec_band() as int)
    }
}

impl ChunkedGrid {
    /// There is at least one chunk, each chunk has a buffer, and all chunks
    /// and buffers are of one shape.
    pub closed spec fn wf(&self) -> bool {
        &&& self.chunks@.len() > 0
        &&& self.buffers@.len() == self.chunks@.len()
        &&& chunks_fit(self.chunks@, self.spec_band(), self.spec_cols())
        &&& uniform(self.buffers@, self.spec_band(), self.spec_cols())
    }

    /// Number of workers, which is the number of chunks.
    pub closed spec fn spec_workers(&self) -> nat {
        self.chunks@.len()
    }

    /// Number of rows in each chunk.
    pub closed spec fn spec_band(&self) -> nat {
        self.chunks@[0].spec_rows()
    }

    /// Number of words in a row.
    pub closed spec fn spec_cols(&self) -> nat {
        self.chunks@[0].spec_cols()
    }

    /// The cells of chunk `i`.
    pub closed spec fn chunk_view(&self, i: int) -> Seq<Seq<bool>> {
        self.chunks@[i]@
    }

    /// The cells of the buffer of chunk `i`.
    pub closed spec fn buffer_view(&self, i: int) -> Seq<Seq<bool>> {
        self.buffers@[i]@
    }

    /// The current generation is made up of the chunks, in order.
    pub proof fn lemma_view(&self)
        requires
            self.wf(),
        ensures
            self@ == join_bands(
                Seq::new(self.spec_workers(), |i: int| self.chunk_view(i)),
                self.spec_band() as int,
            ),
            self@.len() == self.spec_band() * self.spec_workers(),
    {
        assert(Seq::new(self.spec_workers(), |i: int| self.chunk_view(i)) =~= chunk_views(
            self.chunks@,
        ));
    }

    /// Cuts `grid` into `workers` chunks and gives each a buffer in which
    /// nothing lives.
    pub fn partition(grid: Grid, workers: usize) -> (c: ChunkedGrid)
        requires
            grid.wf(),
            workers > 0,
            grid.spec_rows() % (workers as nat) == 0,
        ensures
            c.wf(),
            c@ == grid@,
            c.spec_workers() == workers,
            c.spec_band() == grid.spec_rows() / (workers as nat),
            c.spec_cols() == grid.spec_cols(),
            forall|i: int|
                0 <= i < workers ==> #[trigger] c.buffer_view(i) == all_dead(
                    c.spec_band() as int,
                    128 * (c.spec_cols() as int),
                ),
    {
        proof {
            grid.lemma_shape();
        }
        let rows = grid.rows();
        let cols = grid.cols();
        let band = rows / workers;
        assert(band * workers == rows) by (nonlinear_arith)
            requires
                workers > 0,
                rows % workers == 0,
                band == rows / workers,
        ;
        let chunks = grid.split(workers);
        let mut buffers: Vec<Grid> = Vec::new();
        let mut i: usize = 0;
        while i < workers
            invariant
                i <= workers,
                128 * cols <= usize::MAX,
                buffers@.len() == i,
                uniform(buffers@, band as nat, cols as nat),
                forall|k: int|
                    0 <= k < i ==> (#[trigger] buffers@[k])@ == all_dead(band as int, 128 * cols),
            decreases workers - i,
        {
            buffers.push(Grid::new(band, cols));
            i += 1;
        }
        ChunkedGrid { chunks, buffers }
    }

    /// Number of workers.
    pub fn workers(&self) -> (n: usize)
        ensures
            n == self.spec_workers(),
    {
        self.chunks.len()
    }

    /// The compute phase of worker `worker`: the next generation of its
    /// chunk goes into the chunk's buffer. Nothing else changes.
    pub fn compute(&mut self, worker: usize)
        requires
            old(self).wf(),
            worker < old(self).spec_workers(),
        ensures
            final(self).wf(),
            final(self).spec_workers() == old(self).spec_workers(),
            final(self).spec_band() == old(self).spec_band(),
            final(self).spec_cols() == old(self).spec_cols(),
            final(self)@ == old(self)@,
            forall|i: int|
                0 <= i < old(self).spec_workers() ==> #[trigger] final(self).chunk_view(i) == old(self).chunk_view(i),
            final(self).buffer_view(worker as int) == band_of(
                life_step(old(self)@),
                old(self).spec_band() as int,
                worker as int,
            ),
            forall|i: int|
                0 <= i < old(self).spec_workers() && i != worker ==> #[trigger] final(self).buffer_view(i) == old(self).buffer_view(i),
    {
        next_generation(&self.chunks, &mut self.buffers[worker], worker);
    }

    /// The swap phase: every chunk changes places with its buffer.
    pub fn swap(&mut self)
        requires
            old(self).wf(),
        ensures
            final(self).wf(),
            final(self).spec_workers() == old(self).spec_workers(),
            final(self).spec_band() == old(self).spec_band(),
            final(self).spec_cols() == old(self).spec_cols(),
            forall|i: int|
                0 <= i < old(self).spec_workers() ==> #[trigger] final(self).chunk_view(i) == old(self).buffer_view(i),
            forall|i: int|
                0 <= i < old(self).spec_workers() ==> #[trigger] final(self).buffer_view(i) == old(self).chunk_view(i),
    {
        let parts = self.chunks.len();
        let ghost band = self.spec_band();
        let ghost cols = self.spec_cols();
        let mut i: usize = 0;
        while i < parts
            invariant
                i <= parts,
                parts > 0,
                self.chunks@.len() == parts,
                self.buffers@.len() == parts,
                old(self).chunks@.len() == parts,
                old(self).buffers@.len() == parts,
                uniform(self.chunks@, band, cols),
                uniform(self.buffers@, band, cols),
                band * parts <= usize::MAX,
                forall|k: int| 0 <= k < i ==> #[trigger] self.chunks@[k] == old(self).buffers@[k],
                forall|k: int| 0 <= k < i ==> #[trigger] self.buffers@[k] == old(self).chunks@[k],
                forall|k: int|
                    i <= k < parts ==> #[trigger] self.chunks@[k] == old(self).chunks@[k],
                forall|k: int|
                    i <= k < parts ==> #[trigger] self.buffers@[k] == old(self).buffers@[k],
            decreases parts - i,
        {
            std::mem::swap(&mut self.chunks[i], &mut self.buffers[i]);
            i += 1;
        }
    }

    /// One generation: every worker's compute phase, one after the other on
    /// the calling thread, then the swap phase. What comes out is what the
    /// sequential stepper computes.
    pub fn advance(&mut self)
        requires
            old(self).wf(),
        ensures
            final(self).wf(),
            final(self).spec_workers() == old(self).spec_workers(),
            final(self).spec_band() == old(self).spec_band(),
            final(self).spec_cols() == old(self).spec_cols(),
            final(self)@ == partitioned_step(
                old(self)@,
                old(self).spec_band() as int,
                old(self).spec_workers() as int,
            ),
            final(self)@ == life_step(old(self)@),
    {
        let parts = self.chunks.len();
        let ghost band = self.spec_band() as int;
        let ghost next = life_step(self@);
        let mut i: usize = 0;
        while i < parts
            invariant
                i <= parts,
                self.wf(),
                self.spec_workers() == parts,
                self.spec_band() == band,
                self.spec_cols() == old(self).spec_cols(),
                old(self).spec_workers() == parts,
                self@ == old(self)@,
                next == life_step(old(self)@),
                forall|k: int| 0 <= k < i ==> #[trigger] self.buffer_view(k) == band_of(next, band, k),
            decreases parts - i,
        {
            self.compute(i);
            i += 1;
        }
        proof {
            self.lemma_view();
            lemma_partitioned_step(old(self)@, band, parts as int);
        }
        self.swap();
        proof {
            self.lemma_view();
            assert(Seq::new(parts as nat, |k: int| self.chunk_view(k)) =~= split_bands(
                next,
                band,
                parts as int,
            ));
            lemma_join_split(next, band, parts as int);
        }
    }

    /// `generations` generations.
    pub fn run(&mut self, generations: u64)
        requires
            old(self).wf(),
        ensures
            final(self).wf(),
            final(self).spec_workers() == old(self).spec_workers(),
            final(self).spec_band() == old(self).spec_band(),
            final(self).spec_cols() == old(self).spec_cols(),
            final(self)@ == life_steps(old(self)@, generations as nat),
    {
        let mut done: u64 = 0;
        while done < generations
            invariant
                done <= generations,
                self.wf(),
                self.spec_workers() == old(self).spec_workers(),
                self.spec_band() == old(self).spec_band(),
                self.spec_cols() == old(self).spec_cols(),
                self@ == life_steps(old(self)@, done as nat),
            decreases generations - done,
        {
            self.advance();
            done += 1;
        }
    }

    /// Puts the chunks of the current generation together into one grid.
    pub fn join(self) -> (g: Grid)
        requires
            self.wf(),
        ensures
            g.wf(),
            g@ == self@,
            g.spec_rows() == self.spec_band() * self.spec_workers(),
            g.spec_cols() == self.spec_cols(),
    {
        Grid::join(self.chunks)
    }
}

/// The generation after `grid`, computed chunk by chunk as `worker_count`
/// workers would: the grid is cut into `worker_count` chunks of equally many
/// rows, each chunk's next generation is computed from the whole current
/// grid, and the chunks are put together again. The chunks are computed one
/// after the other on the calling thread; to compute them at the same time,
/// give each thread one call of [`next_generation`].
pub fn parallel_step(grid: Grid, worker_count: usize) -> (next: Grid)
    requires
        grid.wf(),
        worker_count > 0,
        grid.spec_rows() % (worker_count as nat) == 0,
    ensures
        next.wf(),
        next.spec_rows() == grid.spec_rows(),
        next.spec_cols() == grid.spec_cols(),
        next@ == life_step(grid@),
{
    proof {
        assert(life_steps(grid@, 0) == grid@);
    }
    parallel_run(grid, worker_count, 1)
}

/// The grid `generations` generations after `grid`, computed chunk by chunk
/// as `worker_count` workers would, on the calling thread.
pub fn parallel_run(grid: Grid, worker_count: usize, generations: u64) -> (last: Grid)
    requires
        grid.wf(),
        worker_count > 0,
        grid.spec_rows() % (worker_count as nat) == 0,
    ensures
        last.wf(),
        last.spec_rows() == grid.spec_rows(),
        last.spec_cols() == grid.spec_cols(),
        last@ == life_steps(grid@, generations as nat),
{
    let ghost rows = grid.spec_rows();
    assert((rows / (worker_count as nat)) * worker_count == rows) by (nonlinear_arith)
        requires
            worker_count > 0,
            rows % (worker_count as nat) == 0,
    ;
    let mut pool = ChunkedGrid::partition(grid, worker_count);
    pool.run(generations);
    pool.join()
}

} // verus!
