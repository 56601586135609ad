//! The bit-sliced carry-save counter.
//!
//! Three words hold, lane by lane, a running count of live neighbours: `b1`
//! and `b2` are the two low binary digits of the count, and `b4` is set once
//! the count has reached four and stays set. Folding in one neighbour mask
//! advances all 128 counts at once.

use vstd::prelude::*;
use crate::lanes::{lane, lemma_lane_ops};
use crate::torus::survives;

verus! {

/// Per-lane neighbour counts of one word, as three bit planes.
#[derive(Clone, Copy, Debug)]
pub struct NeighborCounter {
    /// Digit 2^0 of each lane's count.
    pub b1: u128,
    /// Digit 2^1 of each lane's count.
    pub b2: u128,
    /// Set in each lane whose count has reached four.
    pub b4: u128,
}

impl NeighborCounter {
    /// Lane `i` of the three planes stands for the count `n`.
    pub open spec fn tallies(self, i: u128, n: int) -> bool {
        &&& lane(self.b1, i) == (n % 2 == 1)
        &&& lane(self.b2, i) == (n % 4 >= 2)
        &&& lane(self.b4, i) == (n >= 4)
    }

    /// A counter with every lane at zero.
    pub fn new() -> (c: Self)
        ensures
            c.b1 == 0,
            c.b2 == 0,
            c.b4 == 0,
            forall|i: u128| i < 128 ==> #[trigger] c.tallies(i, 0),
    {
        let c = NeighborCounter { b1: 0, b2: 0, b4: 0 };
        proof {
            assert forall|i: u128| i < 128 implies #[trigger] c.tallies(i, 0) by {
                lemma_lane_ops(0, 0, i);
            }
        }
        c
    }

    /// Folds one neighbour mask in: every lane in which `m` is set counts one
    /// more.
    pub fn add(&mut self, m: u128)
        ensures
            final(self).b1 == old(self).b1 ^ m,
            final(self).b2 == old(self).b2 ^ (m & old(self).b1),
            final(self).b4 == old(self).b4 | (m & old(self).b1 & old(self).b2),
            forall|i: u128, n: int|
                i < 128 && 0 <= n && #[trigger] old(self).tallies(i, n) ==> final(self).tallies(
                    i,
                    if lane(m, i) {
                        n + 1
                    } else {
                        n
                    },
                ),
    {
        let carry2: u128 = m & self.b1;
        let carry4: u128 = carry2 & self.b2;
        proof {
            let b1 = self.b1;
            let b2 = self.b2;
            let b4 = self.b4;
            assert forall|i: u128, n: int|
                i < 128 && 0 <= n && #[trigger] self.tallies(i, n) implies (NeighborCounter {
                b1: b1 ^ m,
                b2: b2 ^ carry2,
                b4: b4 | carry4,
            }).tallies(
                i,
                if lane(m, i) {
                    n + 1
                } else {
                    n
                },
            ) by {
                lemma_lane_ops(b1, m, i);
                lemma_lane_ops(m, b1, i);
                lemma_lane_ops(b2, carry2, i);
                lemma_lane_ops(carry2, b2, i);
                lemma_lane_ops(b4, carry4, i);
            }
        }
        self.b1 ^= m;
        self.b2 ^= carry2;
        self.b4 |= carry4;
    }

    /// The next generation of the word `cell`, whose lanes' neighbours this
    /// counter has counted: a lane lives on a count of three, or of two where
    /// it is alive already.
    pub fn resolve(&self, cell: u128) -> (next: u128)
        ensures
            next == self.b2 & (self.b1 | cell) & !self.b4,
            forall|i: u128, n: int|
                i < 128 && 0 <= n && #[trigger] self.tallies(i, n) ==> lane(next, i) == survives(
                    lane(cell, i),
                    n,
                ),
    {
        let born_or_kept: u128 = self.b1 | cell;
        let two_or_three: u128 = self.b2 & born_or_kept;
        let next: u128 = two_or_three & !self.b4;
        proof {
            assert forall|i: u128, n: int|
                i < 128 && 0 <= n && #[trigger] self.tallies(i, n) implies lane(next, i)
                == survives(lane(cell, i), n) by {
                lemma_lane_ops(self.b1, cell, i);
                lemma_lane_ops(self.b2, born_or_kept, i);
                lemma_lane_ops(self.b4, self.b4, i);
                lemma_lane_ops(two_or_three, !self.b4, i);
            }
        }
        next
    }

    /// A lane that has counted four or more is dead in the next generation,
    /// whatever the two low digits of its count say: at six and seven they
    /// look like two and three, at eight like zero.
    pub proof fn lemma_crowded_lane_is_dead(self, cell: u128, i: u128, n: int)
        requires
            i < 128,
            4 <= n,
            self.tallies(i, n),
        ensures
            !lane(self.b2 & (self.b1 | cell) & !self.b4, i),
    {
        lemma_lane_ops(self.b4, self.b4, i);
        lemma_lane_ops(self.b2 & (self.b1 | cell), !self.b4, i);
    }
}

} // verus!
