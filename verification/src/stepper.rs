//! The sequential stepper: one pass over the grid per generation, from the
//! current grid into a second one, and the two exchanged afterwards.

use vstd::prelude::*;
use crate::grid::Grid;
use crate::rows::{wrap_step, Direction};
use crate::torus::{life_step, life_steps};

verus! {

/// Computes the next generation of `cells` into `buffer`.
pub fn next_generation(cells: &Grid, buffer: &mut Grid)
    requires
        cells.wf(),
        old(buffer).wf(),
        old(buffer).spec_rows() == cells.spec_rows(),
        old(buffer).spec_cols() == cells.spec_cols(),
    ensures
        final(buffer).wf(),
        final(buffer).spec_rows() == cells.spec_rows(),
        final(buffer).spec_cols() == cells.spec_cols(),
        final(buffer)@ == life_step(cells@),
{
    let rows = cells.rows();
    proof {
        cells.lemma_shape();
        buffer.lemma_shape();
    }
    let mut y: usize = 0;
    while y < rows
        invariant
            y <= rows,
            rows == cells.spec_rows(),
            cells.wf(),
            buffer.wf(),
            buffer.spec_rows() == rows,
            buffer.spec_cols() == cells.spec_cols(),
            cells@.len() == rows,
            buffer@.len() == rows,
            forall|k: int| 0 <= k < y ==> #[trigger] buffer@[k] == life_step(cells@)[k],
        decreases rows - y,
    {
        let up = wrap_step(y, Direction::Before, rows);
        let down = wrap_step(y, Direction::After, rows);
        buffer.store_next_row(y, cells.row(up), cells.row(y), cells.row(down));
        y += 1;
    }
    proof {
        assert(buffer@ =~= life_step(cells@));
    }
}

/// The generation after `grid`.
pub fn step(grid: Grid) -> (next: Grid)
    requires
        grid.wf(),
    ensures
        next.wf(),
        next.spec_rows() == grid.spec_rows(),
        next.spec_cols() == grid.spec_cols(),
        next@ == life_step(grid@),
{
    let mut buffers = DoubleBuffer::new(grid);
    buffers.advance();
    buffers.into_grid()
}

/// Two grids of one shape: the current generation, and the space into which
/// the next one is computed. After each generation the two change places;
/// no cell is copied.
#[derive(Debug)]
pub struct DoubleBuffer {
    current: Grid,
    next: Grid,
}

impl View for DoubleBuffer {
    type V = Seq<Seq<bool>>;

    /// The cells of the current generation.
    closed spec fn view(&self) -> Seq<Seq<bool>> {
        self.current@
    }
}

impl DoubleBuffer {
    /// Both grids are well formed and of one shape.
    pub closed spec fn wf(&self) -> bool {
        &&& self.current.wf()
        &&& self.next.wf()
        &&& self.next.spec_rows() == self.current.spec_rows()
        &&& self.next.spec_cols() == self.current.spec_cols()
    }

    /// Number of rows.
    pub closed spec fn spec_rows(&self) -> nat {
        self.current.spec_rows()
    }

    /// Number of words in a row.
    pub closed spec fn spec_cols(&self) -> nat {
        self.current.spec_cols()
    }

    /// Takes `grid` as the current generation.
    pub fn new(grid: Grid) -> (b: DoubleBuffer)
        requires
            grid.wf(),
        ensures
            b.wf(),
            b@ == grid@,
            b.spec_rows() == grid.spec_rows(),
            b.spec_cols() == grid.spec_cols(),
    {
        proof {
            grid.lemma_shape();
        }
        let next = Grid::new(grid.rows(), grid.cols());
        DoubleBuffer { current: grid, next }
    }

    /// The current generation.
    pub fn current(&self) -> (g: &Grid)
        requires
            self.wf(),
        ensures
            g.wf(),
            g@ == self@,
            g.spec_rows() == self.spec_rows(),
            g.spec_cols() == self.spec_cols(),
    {
        &self.current
    }

    /// Gives the current generation back.
    pub fn into_grid(self) -> (g: Grid)
        requires
            self.wf(),
        ensures
            g.wf(),
            g@ == self@,
            g.spec_rows() == self.spec_rows(),
            g.spec_cols() == self.spec_cols(),
    {
        self.current
    }

    /// Moves on by one generation.
    pub fn advance(&mut self)
        requires
            old(self).wf(),
        ensures
            final(self).wf(),
            final(self).spec_rows() == old(self).spec_rows(),
            final(self).spec_cols() == old(self).spec_cols(),
            final(self)@ == life_step(old(self)@),
    {
        next_generation(&self.current, &mut self.next);
        std::mem::swap(&mut self.current, &mut self.next);
    }

    /// Moves on by `generations` generations.
    pub fn run(&mut self, generations: u64)
        requires
            old(self).wf(),
        ensures
            final(self).wf(),
            final(self).spec_rows() == old(self).spec_rows(),
            final(self).spec_cols() == old(self).spec_cols(),
            final(self)@ == life_steps(old(self)@, generations as nat),
    {
        let mut done: u64 = 0;
        while done < generations
            invariant
                done <= generations,
                self.wf(),
                self.spec_rows() == old(self).spec_rows(),
                self.spec_cols() == old(self).spec_cols(),
                self@ == life_steps(old(self)@, done as nat),
            decreases generations - done,
        {
            self.advance();
            done += 1;
        }
    }
}

/// The grid `generations` generations after `grid`.
pub fn run(grid: Grid, generations: u64) -> (last: Grid)
    requires
        grid.wf(),
    ensures
        last.wf(),
        last.spec_rows() == grid.spec_rows(),
        last.spec_cols() == grid.spec_cols(),
        last@ == life_steps(grid@, generations as nat),
{
    let mut buffers = DoubleBuffer::new(grid);
    buffers.run(generations);
    buffers.into_grid()
}

} // verus!
