//! The capacity law of the chunks: a fixed first capacity that doubles from
//! one chunk to the next, and the closed form of the capacities' sum.

use vstd::arithmetic::power2::{
    lemma2_to64, lemma_pow2_adds, lemma_pow2_pos, lemma_pow2_strictly_increases, lemma_pow2_unfold,
    pow2,
};
use vstd::bits::{lemma_usize_pow2_no_overflow, lemma_usize_shl_is_mul};
use vstd::prelude::*;

verus! {

/// Capacity of the first chunk.
pub const FIRST_CHUNK_SIZE: usize = 8;

/// Capacity of the chunk at `index`, counted from zero.
pub open spec fn chunk_capacity(index: nat) -> nat {
    FIRST_CHUNK_SIZE as nat * pow2(index)
}

/// Joint capacity of the first `count` chunks, in closed form.
pub open spec fn full_capacity(count: nat) -> nat {
    (FIRST_CHUNK_SIZE as nat * (pow2(count) - 1)) as nat
}

/// Joint capacity of the first `count` chunks, added up one chunk at a time.
pub open spec fn capacity_sum(count: nat) -> nat
    decreases count,
{
    if count == 0 {
        0
    } else {
        capacity_sum((count - 1) as nat) + chunk_capacity((count - 1) as nat)
    }
}

/// The first chunk holds `FIRST_CHUNK_SIZE` elements and every later chunk
/// twice as many as the chunk before it.
pub proof fn lemma_capacity_doubles(index: nat)
    ensures
        chunk_capacity(0) == FIRST_CHUNK_SIZE,
        chunk_capacity(index + 1) == 2 * chunk_capacity(index),
        chunk_capacity(index) >= FIRST_CHUNK_SIZE,
{
    lemma2_to64();
    lemma_pow2_unfold(index + 1);
    lemma_pow2_pos(index);
}

/// One more full chunk adds that chunk's capacity to the joint capacity.
pub proof fn lemma_full_capacity_step(count: nat)
    ensures
        full_capacity(0) == 0,
        full_capacity(count + 1) == full_capacity(count) + chunk_capacity(count),
        full_capacity(count) + FIRST_CHUNK_SIZE == chunk_capacity(count),
{
    lemma2_to64();
    lemma_pow2_unfold(count + 1);
    lemma_pow2_pos(count);
}

/// The closed form equals the sum taken chunk by chunk, for every number of
/// chunks.
pub proof fn lemma_capacity_sum_closed_form(count: nat)
    ensures
        capacity_sum(count) == full_capacity(count),
    decreases count,
{
    if count == 0 {
        lemma_full_capacity_step(0);
    } else {
        lemma_capacity_sum_closed_form((count - 1) as nat);
        lemma_full_capacity_step((count - 1) as nat);
    }
}

/// Later chunks are larger, and more chunks hold more.
pub proof fn lemma_capacity_increases(earlier: nat, later: nat)
    requires
        earlier < later,
    ensures
        chunk_capacity(earlier) < chunk_capacity(later),
        full_capacity(earlier) < full_capacity(later),
{
    lemma_pow2_strictly_increases(earlier, later);
    lemma_pow2_pos(earlier);
}

/// A chunk's capacity fits a `usize` exactly when its index is below
/// `usize::BITS - 3`, and is then `FIRST_CHUNK_SIZE` shifted left by the
/// index.
pub proof fn lemma_capacity_fits(index: usize)
    ensures
        chunk_capacity(index as nat) <= usize::MAX <==> index < usize::BITS - 3,
        index < usize::BITS - 3 ==> FIRST_CHUNK_SIZE << index == chunk_capacity(index as nat),
{
    lemma2_to64();
    lemma_pow2_adds(3, index as nat);
    if index < usize::BITS - 3 {
        lemma_usize_pow2_no_overflow((index + 3) as nat);
        lemma_usize_shl_is_mul(FIRST_CHUNK_SIZE, index);
    } else if usize::BITS - 3 < index {
        lemma_pow2_strictly_increases(usize::BITS as nat, (index + 3) as nat);
    }
}

/// The capacity of the chunk at `index`, or `None` where it exceeds
/// `usize::MAX`.
pub fn checked_chunk_capacity(index: usize) -> (capacity: Option<usize>)
    ensures
        chunk_capacity(index as nat) <= usize::MAX ==> capacity == Some(
            chunk_capacity(index as nat) as usize,
        ),
        chunk_capacity(index as nat) > usize::MAX ==> capacity.is_none(),
{
    proof {
        lemma_capacity_fits(index);
    }
    if index < (usize::BITS - 3) as usize {
        Some(FIRST_CHUNK_SIZE << index)
    } else {
        None
    }
}

/// The joint capacity of the first `count` chunks, computed in constant time
/// from the capacity of the largest of them.
pub fn full_chunks_capacity(count: usize) -> (capacity: usize)
    requires
        full_capacity(count as nat) <= usize::MAX,
    ensures
        capacity == full_capacity(count as nat),
{
    if count == 0 {
        proof {
            lemma_full_capacity_step(0);
        }
        0
    } else {
        proof {
            lemma_capacity_doubles((count - 1) as nat);
            lemma_capacity_fits((count - 1) as usize);
        }
        let largest = FIRST_CHUNK_SIZE << (count - 1);
        (largest - FIRST_CHUNK_SIZE) + largest
    }
}

} // verus!
