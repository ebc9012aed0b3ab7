//! The work partitioner: one batch's range split evenly over the workers.

use vstd::prelude::*;
use crate::errors::ErrorKind;
use vstd::arithmetic::div_mod::{
    lemma_fundamental_div_mod,
    lemma_mod_division_less_than_divisor,
    lemma_div_pos_is_pos,
};
use vstd::arithmetic::mul::{
    lemma_mul_by_zero_is_zero,
    lemma_mul_inequality,
    lemma_mul_is_commutative,
    lemma_mul_is_distributive_add_other_way,
    lemma_mul_nonnegative,
    lemma_mul_strict_inequality_converse,
};

verus! {

/// The common size of one worker's sub-range: the batch range divided by the
/// thread count, rounded down.
pub open spec fn part_size(range_end: int, thread_count: int) -> int {
    range_end / thread_count
}

/// Where worker `i`'s sub-range begins.
pub open spec fn sub_start(range_end: int, thread_count: int, i: int) -> int {
    i * part_size(range_end, thread_count)
}

/// Where worker `i`'s sub-range ends (exclusive).
pub open spec fn sub_end(range_end: int, thread_count: int, i: int) -> int {
    (i + 1) * part_size(range_end, thread_count)
}

/// Whether candidate `c` falls in worker `i`'s sub-range.
pub open spec fn in_sub_range(range_end: int, thread_count: int, i: int, c: int) -> bool {
    sub_start(range_end, thread_count, i) <= c < sub_end(range_end, thread_count, i)
}

/// The end of the region one batch actually scans: the last
/// `range_end % thread_count` candidates of the batch fall in no sub-range.
pub open spec fn scanned_end(range_end: int, thread_count: int) -> int {
    thread_count * part_size(range_end, thread_count)
}

/// One worker's assignment.
pub struct SubRange {
    /// Which worker the sub-range belongs to.
    pub thread_index: usize,
    /// First candidate of the sub-range.
    pub start: u64,
    /// First candidate past the sub-range.
    pub end: u64,
}

/// Splits the batch range `[0, range_end)` into `thread_count` equal,
/// ordered, contiguous sub-ranges, rejecting a zero thread count.
pub fn partition(range_end: u64, thread_count: usize) -> (r: Result<Vec<SubRange>, ErrorKind>)
    ensures
        r is Ok <==> thread_count >= 1,
        r matches Err(e) ==> e == ErrorKind::InvalidThreadCount,
        r matches Ok(v) ==> {
            &&& v@.len() == thread_count
            &&& forall|i: int| 0 <= i < thread_count ==> {
                &&& (#[trigger] v@[i]).thread_index == i
                &&& v@[i].start == sub_start(range_end as int, thread_count as int, i)
                &&& v@[i].end == sub_end(range_end as int, thread_count as int, i)
            }
        },
{
    if thread_count == 0 {
        return Err(ErrorKind::InvalidThreadCount);
    }
    let part: u64 = range_end / (thread_count as u64);
    proof {
        lemma_fundamental_div_mod(range_end as int, thread_count as int);
        lemma_mod_division_less_than_divisor(range_end as int, thread_count as int);
        lemma_div_pos_is_pos(range_end as int, thread_count as int);
    }
    let mut v: Vec<SubRange> = Vec::new();
    let mut i: usize = 0;
    while i < thread_count
        invariant
            0 <= i <= thread_count,
            1 <= thread_count,
            part == part_size(range_end as int, thread_count as int),
            0 <= part,
            thread_count * (part as int) <= range_end,
            v@.len() == i,
            forall|j: int| 0 <= j < i ==> {
                &&& (#[trigger] v@[j]).thread_index == j
                &&& v@[j].start == sub_start(range_end as int, thread_count as int, j)
                &&& v@[j].end == sub_end(range_end as int, thread_count as int, j)
            },
        decreases thread_count - i,
    {
        proof {
            lemma_mul_inequality(i as int + 1, thread_count as int, part as int);
            lemma_mul_is_distributive_add_other_way(part as int, i as int, 1);
            lemma_mul_nonnegative(i as int, part as int);
        }
        let start: u64 = (i as u64) * part;
        let end: u64 = start + part;
        v.push(SubRange { thread_index: i, start, end });
        i = i + 1;
    }
    Ok(v)
}

/// The sub-ranges of one batch are ordered and contiguous: sub-range 0 starts
/// at zero, each sub-range ends where the next begins, and the last one ends
/// at `scanned_end`, which falls short of the batch range by exactly
/// `range_end % thread_count` trailing candidates.
pub proof fn lemma_partition_structure(range_end: int, thread_count: int)
    requires
        0 <= range_end,
        1 <= thread_count,
    ensures
        sub_start(range_end, thread_count, 0) == 0,
        forall|i: int| sub_end(range_end, thread_count, i)
            == sub_start(range_end, thread_count, i + 1),
        sub_end(range_end, thread_count, thread_count - 1)
            == scanned_end(range_end, thread_count),
        scanned_end(range_end, thread_count) == range_end - range_end % thread_count,
        0 <= range_end % thread_count < thread_count,
        scanned_end(range_end, thread_count) <= range_end,
{
    lemma_fundamental_div_mod(range_end, thread_count);
    lemma_mod_division_less_than_divisor(range_end, thread_count);
}

/// Union of the sub-ranges: a candidate lies in some sub-range exactly when
/// it lies in `[0, scanned_end)` — the tiling is gap-free below `scanned_end`
/// and nothing is scanned beyond it.
pub proof fn lemma_partition_covers(range_end: int, thread_count: int, c: int)
    requires
        0 <= range_end,
        1 <= thread_count,
    ensures
        (exists|i: int| 0 <= i < thread_count
            && #[trigger] in_sub_range(range_end, thread_count, i, c))
            <==> 0 <= c < scanned_end(range_end, thread_count),
{
    let p = part_size(range_end, thread_count);
    lemma_div_pos_is_pos(range_end, thread_count);
    if exists|i: int| 0 <= i < thread_count && #[trigger] in_sub_range(range_end, thread_count, i, c) {
        let i = choose|i: int| 0 <= i < thread_count
            && #[trigger] in_sub_range(range_end, thread_count, i, c);
        lemma_mul_nonnegative(i, p);
        lemma_mul_inequality(i + 1, thread_count, p);
        assert(0 <= c < scanned_end(range_end, thread_count));
    }
    if 0 <= c < scanned_end(range_end, thread_count) {
        assert(p > 0) by {
            if p == 0 {
                lemma_mul_by_zero_is_zero(thread_count);
            }
        };
        let i = c / p;
        lemma_div_pos_is_pos(c, p);
        lemma_fundamental_div_mod(c, p);
        lemma_mod_division_less_than_divisor(c, p);
        lemma_mul_is_commutative(i, p);
        assert(sub_start(range_end, thread_count, i) <= c);
        assert(c < sub_end(range_end, thread_count, i)) by {
            lemma_mul_is_commutative(i, p);
            lemma_mul_is_distributive_add_other_way(p, i, 1);
            vstd::arithmetic::mul::lemma_mul_basics(p);
        };
        assert(i < thread_count) by {
            lemma_mul_is_commutative(thread_count, p);
            lemma_mul_strict_inequality_converse(i, thread_count, p);
        };
        assert(in_sub_range(range_end, thread_count, i, c));
    }
}

/// Disjointness of the sub-ranges: no candidate lies in two different
/// workers' sub-ranges.
pub proof fn lemma_partition_disjoint(range_end: int, thread_count: int, i: int, j: int, c: int)
    requires
        0 <= range_end,
        1 <= thread_count,
        0 <= i < j < thread_count,
    ensures
        !(in_sub_range(range_end, thread_count, i, c)
            && in_sub_range(range_end, thread_count, j, c)),
{
    let p = part_size(range_end, thread_count);
    lemma_div_pos_is_pos(range_end, thread_count);
    lemma_mul_inequality(i + 1, j, p);
}

} // verus!
