//! Lanes: the individual bits of a packed word, and how the bitwise
//! operators act on them.

use vstd::prelude::*;

verus! {

/// Number of cells packed into one word.
pub const WORD_BITS: usize = 128;

/// Whether lane `i` (bit `i`, counted from the least significant) of `w` is set.
pub open spec fn lane(w: u128, i: u128) -> bool {
    (w >> i) & 1 == 1
}

/// The bitwise operators act on every lane independently.
pub proof fn lemma_lane_ops(a: u128, b: u128, i: u128)
    by (bit_vector)
    requires
        i < 128,
    ensures
        lane(a & b, i) == (lane(a, i) && lane(b, i)),
        lane(a | b, i) == (lane(a, i) || lane(b, i)),
        lane(a ^ b, i) == (lane(a, i) != lane(b, i)),
        lane(!a, i) == !lane(a, i),
        !lane(0u128, i),
{
}

/// Shifting a word one lane up and taking the top lane of `carry` into lane 0.
pub proof fn lemma_lane_shift_up(a: u128, carry: u128, i: u128, j: u128)
    by (bit_vector)
    requires
        j < 127,
        i == j + 1,
    ensures
        lane((a << 1) | (carry >> 127), i) == lane(a, j),
        lane((a << 1) | (carry >> 127), 0) == lane(carry, 127),
{
}

/// Shifting a word one lane down and taking lane 0 of `carry` into the top lane.
pub proof fn lemma_lane_shift_down(a: u128, carry: u128, i: u128, j: u128)
    by (bit_vector)
    requires
        i < 127,
        j == i + 1,
    ensures
        lane((a >> 1) | (carry << 127), i) == lane(a, j),
        lane((a >> 1) | (carry << 127), 127) == lane(carry, 0),
{
}

/// Setting or clearing lane `k` leaves the other lanes as they are.
pub proof fn lemma_lane_put(w: u128, k: u128, i: u128)
    by (bit_vector)
    requires
        k < 128,
        i < 128,
    ensures
        lane(w | (1u128 << k), i) == (i == k || lane(w, i)),
        lane(w & !(1u128 << k), i) == (i != k && lane(w, i)),
{
}

} // verus!
