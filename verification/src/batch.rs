//! The batch generator: grow-and-retry candidate ranges.

use vstd::prelude::*;
use crate::errors::ErrorKind;

verus! {

/// How many candidates each batch adds to the scanned range.
pub const BATCH_UNIT: u64 = 100_000_000;

/// Number of distinct candidates the 32-bit big-endian digest encoding can
/// carry.
pub const CANDIDATE_CAPACITY: u64 = 4_294_967_296;

/// The largest batch index whose range still fits the candidate capacity.
pub const MAX_BATCH_INDEX: u64 = 42;

/// The end of batch `batch_index`'s candidate range: every batch scans from
/// zero, and each batch reaches `BATCH_UNIT` further than the one before.
pub open spec fn batch_end(batch_index: int) -> int {
    batch_index * (BATCH_UNIT as int)
}

/// Produces batch `batch_index`'s candidate range `[0, batch_end)`, or signals
/// exhaustion once the range would leave the candidate capacity.
pub fn batch_range(batch_index: u64) -> (r: Result<u64, ErrorKind>)
    requires
        1 <= batch_index,
    ensures
        r is Ok <==> batch_end(batch_index as int) <= CANDIDATE_CAPACITY,
        r matches Ok(end) ==> end == batch_end(batch_index as int),
        r matches Err(e) ==> e == ErrorKind::SearchSpaceExhausted,
{
    if batch_index > MAX_BATCH_INDEX {
        assert(batch_end(batch_index as int) > CANDIDATE_CAPACITY) by {
            assert(batch_index as int >= 43);
            vstd::arithmetic::mul::lemma_mul_inequality(
                43,
                batch_index as int,
                BATCH_UNIT as int,
            );
        };
        Err(ErrorKind::SearchSpaceExhausted)
    } else {
        assert(batch_index as int * BATCH_UNIT as int <= CANDIDATE_CAPACITY) by {
            vstd::arithmetic::mul::lemma_mul_inequality(
                batch_index as int,
                42,
                BATCH_UNIT as int,
            );
        };
        Ok(batch_index * BATCH_UNIT)
    }
}

/// Grow-and-retry batching: every batch's range starts at zero, and each
/// successive batch's range strictly contains the one before it, re-scanning
/// it whole and adding `BATCH_UNIT` new candidates.
pub proof fn lemma_batch_ranges_grow(batch_index: int)
    requires
        1 <= batch_index,
    ensures
        0 < batch_end(batch_index),
        batch_end(batch_index) < batch_end(batch_index + 1),
        batch_end(batch_index + 1) - batch_end(batch_index) == BATCH_UNIT,
{
    vstd::arithmetic::mul::lemma_mul_is_distributive_add_other_way(
        BATCH_UNIT as int,
        batch_index,
        1,
    );
    vstd::arithmetic::mul::lemma_mul_inequality(1, batch_index, BATCH_UNIT as int);
}

} // verus!
