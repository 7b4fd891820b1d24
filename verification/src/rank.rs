//! Ranks for numbers that are held as a sign and a magnitude.
//!
//! A double-precision number is stored as 64 bits: the highest is the sign,
//! the other 63 are the magnitude, and among numbers of one sign a greater
//! magnitude is a number further from zero. The rank of such a bit pattern
//! is the magnitude with the sign applied. So a greater number has a greater
//! rank, and the two zeros, which compare as equal, share the rank 0.
//! Patterns that stand for no number have the ranks furthest from zero.

use vstd::prelude::*;

verus! {

/// The bit that holds the sign.
pub const SIGN: u64 = 0x8000_0000_0000_0000;

/// The rank of the pattern `bits`.
pub open spec fn rank_of(bits: u64) -> int {
    if bits < SIGN {
        bits as int
    } else {
        -(bits - SIGN)
    }
}

/// Whether `rank` is the rank of some pattern.
pub open spec fn is_rank(rank: int) -> bool {
    -(SIGN as int) < rank < SIGN as int
}

/// The pattern with the rank `rank`; for the rank 0, the one of the two
/// that has no sign.
pub open spec fn bits_of(rank: int) -> u64
    recommends
        is_rank(rank),
{
    if rank >= 0 {
        rank as u64
    } else {
        (SIGN - rank) as u64
    }
}

/// The rank of the pattern `bits`.
pub fn rank(bits: u64) -> (rank: i64)
    ensures
        rank == rank_of(bits),
        is_rank(rank as int),
{
    if bits < SIGN {
        bits as i64
    } else {
        -((bits - SIGN) as i64)
    }
}

/// The pattern with the rank `rank`; `None` for the one value that is the
/// rank of no pattern.
pub fn bits(rank: i64) -> (bits: Option<u64>)
    ensures
        bits is Some <==> is_rank(rank as int),
        bits is Some ==> bits->0 == bits_of(rank as int),
{
    if rank >= 0 {
        Some(rank as u64)
    } else if rank == i64::MIN {
        None
    } else {
        Some(SIGN + ((-rank) as u64))
    }
}

/// The pattern of a rank has that rank.
pub proof fn lemma_rank_of_bits(rank: int)
    requires
        is_rank(rank),
    ensures
        rank_of(bits_of(rank)) == rank,
{
}

/// The rank of a pattern leads back to the pattern, but for the zero with a
/// sign, which leads to the zero without.
pub proof fn lemma_bits_of_rank(bits: u64)
    ensures
        is_rank(rank_of(bits)),
        bits_of(rank_of(bits)) == if bits == SIGN {
            0
        } else {
            bits
        },
{
}

/// Ranks order patterns by sign first: a pattern with the sign never ranks
/// above one without. Among patterns without the sign the greater pattern
/// has the greater rank, among those with it the smaller rank.
pub proof fn lemma_rank_order(a: u64, b: u64)
    ensures
        a < SIGN && b < SIGN ==> (rank_of(a) < rank_of(b) <==> a < b),
        a >= SIGN && b >= SIGN ==> (rank_of(a) < rank_of(b) <==> a > b),
        a >= SIGN && b < SIGN ==> rank_of(a) <= rank_of(b),
        rank_of(a) == rank_of(b) <==> a == b || (a == 0 && b == SIGN) || (a == SIGN && b == 0),
{
}

} // verus!
