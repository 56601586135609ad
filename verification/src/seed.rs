//! Random initial grids.
//!
//! The words come from `rand`; which word of the grid takes which drawn word
//! is fixed by [`fill_words`] and [`fill_chunks`], which take the drawn words
//! as an argument.

use vstd::prelude::*;
use rand::Rng;
use crate::grid::{fill_chunks, fill_words, uniform, Grid};

verus! {

/// `rand::rngs::ThreadRng`, the handle to a thread's random number
/// generator. Nothing inside it is visible here.
#[verifier::external_type_specification]
#[verifier::external_body]
pub struct ExThreadRng(rand::rngs::ThreadRng);

/// `rand::thread_rng`: a handle to the calling thread's generator, which the
/// system seeds on first use. Nothing is claimed of the handle. Where the
/// system cannot supply a seed, `rand` panics.
pub assume_specification[ rand::thread_rng ]() -> (rng: rand::rngs::ThreadRng)
;

/// `rand::Rng::gen` at `u128`: the next word of the generator, made of two
/// of its 64-bit outputs. Nothing is claimed of the word: it may be any of
/// the 2^128, and no two calls need agree. The generator takes a fresh seed
/// from the system after every 64 KiB of output and after a fork; where the
/// system cannot supply it, this version of `rand` panics.
#[verifier::external_body]
fn next_word(rng: &mut rand::rngs::ThreadRng) -> (word: u128) {
    rng.gen()
}

/// Appends to `words` as many words of `rng` as `rows` rows of `cols` words
/// hold.
fn draw_words(rng: &mut rand::rngs::ThreadRng, words: &mut Vec<u128>, rows: usize, cols: usize)
    ensures
        final(words)@.len() == old(words)@.len() + rows * cols,
        final(words)@.subrange(0, old(words)@.len() as int) == old(words)@,
{
    let ghost kept = words@;
    let mut y: usize = 0;
    proof {
        assert(0 * cols == 0) by (nonlinear_arith);
    }
    while y < rows
        invariant
            y <= rows,
            words@.len() == kept.len() + y * cols,
            words@.subrange(0, kept.len() as int) == kept,
        decreases rows - y,
    {
        let mut x: usize = 0;
        while x < cols
            invariant
                x <= cols,
                words@.len() == kept.len() + y * cols + x,
                words@.subrange(0, kept.len() as int) == kept,
            decreases cols - x,
        {
            let word = next_word(rng);
            words.push(word);
            x += 1;
        }
        proof {
            assert((y + 1) * cols == y * cols + cols) by (nonlinear_arith);
        }
        y += 1;
    }
}

/// Overwrites every word of `cells` with a random one: draws as many words
/// as the grid holds and lays them out row by row.
pub fn randomize_cells(cells: &mut Grid)
    requires
        old(cells).wf(),
    ensures
        final(cells).wf(),
        final(cells).spec_rows() == old(cells).spec_rows(),
        final(cells).spec_cols() == old(cells).spec_cols(),
{
    let mut rng = rand::thread_rng();
    fill_random(cells, &mut rng);
}

/// Overwrites every word of every chunk with a random one: draws as many
/// words as all chunks hold and lays them out chunk by chunk, row by row.
pub fn randomize_chunks(chunks: &mut Vec<Grid>)
    requires
        old(chunks).len() > 0,
        uniform(old(chunks)@, old(chunks)@[0].spec_rows(), old(chunks)@[0].spec_cols()),
    ensures
        final(chunks).len() == old(chunks).len(),
        uniform(final(chunks)@, old(chunks)@[0].spec_rows(), old(chunks)@[0].spec_cols()),
{
    let mut rng = rand::thread_rng();
    let parts = chunks.len();
    let band = chunks[0].rows();
    let cols = chunks[0].cols();
    let mut words: Vec<u128> = Vec::new();
    let mut z: usize = 0;
    proof {
        assert(0 * band * cols == 0) by (nonlinear_arith);
    }
    while z < parts
        invariant
            z <= parts,
            words@.len() == z * band * cols,
        decreases parts - z,
    {
        draw_words(&mut rng, &mut words, band, cols);
        proof {
            assert((z + 1) * band * cols == z * band * cols + band * cols) by (nonlinear_arith);
        }
        z += 1;
    }
    fill_chunks(chunks, &words);
}

/// Overwrites every word of `cells` with a word of `rng`: draws as many
/// words as the grid holds and lays them out row by row.
fn fill_random(cells: &mut Grid, rng: &mut rand::rngs::ThreadRng)
    requires
        old(cells).wf(),
    ensures
        final(cells).wf(),
        final(cells).spec_rows() == old(cells).spec_rows(),
        final(cells).spec_cols() == old(cells).spec_cols(),
{
    let mut words: Vec<u128> = Vec::new();
    draw_words(rng, &mut words, cells.rows(), cells.cols());
    fill_words(cells, &words);
}

} // verus!
