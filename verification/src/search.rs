//! The worker scan and the batch-loop orchestrator.

use vstd::prelude::*;
use crate::batch::{batch_end, batch_range, BATCH_UNIT, CANDIDATE_CAPACITY, MAX_BATCH_INDEX};
use crate::digest::{
    candidate_matches, check_candidate, record_ok, MatchRecord, DIGEST_HEX_LEN,
};
use crate::errors::ErrorKind;
use crate::partition::{partition, scanned_end, sub_end, sub_start};
use vstd::arithmetic::div_mod::{
    lemma_fundamental_div_mod, lemma_mod_division_less_than_divisor,
};
use vstd::arithmetic::mul::{lemma_mul_by_zero_is_zero, lemma_mul_inequality};

verus! {

/// All matching candidates in `[start, end)`, in ascending order.
pub open spec fn matches_in(zero_count: int, start: int, end: int) -> Seq<u32>
    decreases end - start,
{
    if start < end {
        let rest = matches_in(zero_count, start + 1, end);
        if candidate_matches(start as u32, zero_count) {
            seq![start as u32] + rest
        } else {
            rest
        }
    } else {
        Seq::empty()
    }
}

/// Splitting a scan at any point splits its matches: the matches of
/// `[a, c)` are the matches of `[a, b)` followed by those of `[b, c)`.
pub proof fn lemma_matches_in_concat(zero_count: int, a: int, b: int, c: int)
    requires
        a <= b <= c,
    ensures
        matches_in(zero_count, a, c)
            == matches_in(zero_count, a, b) + matches_in(zero_count, b, c),
    decreases b - a,
{
    if a < b {
        lemma_matches_in_concat(zero_count, a + 1, b, c);
        assert(matches_in(zero_count, a, c)
            =~= matches_in(zero_count, a, b) + matches_in(zero_count, b, c));
    } else {
        assert(matches_in(zero_count, a, c)
            =~= matches_in(zero_count, a, b) + matches_in(zero_count, b, c));
    }
}

/// The numbers a sequence of match records reports, in order.
pub open spec fn numbers_of(records: Seq<MatchRecord>) -> Seq<u32> {
    records.map_values(|rec: MatchRecord| rec.number)
}

/// Every record carries the digest of its own candidate.
pub open spec fn records_wf(records: Seq<MatchRecord>) -> bool {
    forall|i: int| 0 <= i < records.len() ==> record_ok(#[trigger] records[i])
}

/// The shared termination state of one search call: the counter every worker
/// consults before scanning a candidate, together with the records reported
/// so far, in report order.
pub struct SearchState {
    /// How many matches have been reported so far.
    pub matches_found: usize,
    /// The reported records.
    pub records: Vec<MatchRecord>,
}

impl SearchState {
    /// The counter counts exactly the reported records.
    pub open spec fn wf(self) -> bool {
        &&& self.matches_found == self.records@.len()
        &&& records_wf(self.records@)
    }

    /// A fresh state: nothing found yet.
    pub fn new() -> (s: SearchState)
        ensures
            s.wf(),
            s.matches_found == 0,
            s.records@ == Seq::<MatchRecord>::empty(),
    {
        SearchState { matches_found: 0, records: Vec::new() }
    }
}

/// What a scan of `[start, end)` reports when it has room for `room` more
/// matches before the target is reached: the first `room` matching candidates
/// of the range, or all of them if the range holds fewer.
pub open spec fn found_in(zero_count: int, start: int, end: int, room: int) -> Seq<u32> {
    let all = matches_in(zero_count, start, end);
    if room <= 0 {
        Seq::empty()
    } else if room <= all.len() {
        all.take(room)
    } else {
        all
    }
}

/// A scan of one candidate reports it exactly when it matches.
proof fn lemma_matches_in_one(zero_count: int, c: int)
    ensures
        matches_in(zero_count, c, c + 1) == (if candidate_matches(c as u32, zero_count) {
            seq![c as u32]
        } else {
            Seq::<u32>::empty()
        }),
{
    assert(matches_in(zero_count, c + 1, c + 1) =~= Seq::<u32>::empty());
    if candidate_matches(c as u32, zero_count) {
        assert(matches_in(zero_count, c, c + 1) =~= seq![c as u32]);
    }
}

/// Mapping to numbers commutes with appending one record.
proof fn lemma_numbers_of_push(records: Seq<MatchRecord>, rec: MatchRecord)
    ensures
        numbers_of(records.push(rec)) == numbers_of(records).push(rec.number),
{
    assert(numbers_of(records.push(rec)) =~= numbers_of(records).push(rec.number));
}

/// A scan that stopped at `c` — because it ran out of room there, or because
/// the range ended there with room to spare — has reported exactly what a
/// scan of the whole range reports.
proof fn lemma_found_in_stopped(zero_count: int, start: int, c: int, end: int, room: int)
    requires
        start <= c <= end,
        0 <= room,
        matches_in(zero_count, start, c).len() == room
            || (c == end && matches_in(zero_count, start, c).len() <= room),
    ensures
        found_in(zero_count, start, end, room) == matches_in(zero_count, start, c),
{
    let a = matches_in(zero_count, start, c);
    lemma_matches_in_concat(zero_count, start, c, end);
    let all = matches_in(zero_count, start, end);
    if a.len() == room {
        if room <= 0 {
            assert(a =~= Seq::<u32>::empty());
            assert(found_in(zero_count, start, end, room) =~= a);
        } else {
            assert(all.take(room) =~= a);
        }
    } else {
        assert(matches_in(zero_count, c, end) =~= Seq::<u32>::empty());
        assert(all =~= a);
    }
}

/// Splitting a scan with a room budget: what a budgeted scan of `[a, c)`
/// reports is what a scan of `[a, b)` reports, followed by what a scan of
/// `[b, c)` reports with the room that is then left.
proof fn lemma_found_in_compose(zero_count: int, a: int, b: int, c: int, room: int)
    requires
        a <= b <= c,
        0 <= room,
    ensures
        found_in(zero_count, a, c, room) == found_in(zero_count, a, b, room) + found_in(
            zero_count,
            b,
            c,
            room - found_in(zero_count, a, b, room).len(),
        ),
{
    let first = matches_in(zero_count, a, b);
    let second = matches_in(zero_count, b, c);
    lemma_matches_in_concat(zero_count, a, b, c);
    let all = matches_in(zero_count, a, c);
    let fab = found_in(zero_count, a, b, room);
    let room2 = room - fab.len();
    if room <= 0 {
        assert(found_in(zero_count, a, c, room) =~= fab + found_in(zero_count, b, c, room2));
    } else if room <= first.len() {
        assert(found_in(zero_count, a, c, room) =~= fab + found_in(zero_count, b, c, room2));
    } else if room - first.len() <= second.len() {
        assert(found_in(zero_count, a, c, room) =~= fab + found_in(zero_count, b, c, room2));
    } else {
        assert(found_in(zero_count, a, c, room) =~= fab + found_in(zero_count, b, c, room2));
    }
}

/// The worker: scans its sub-range in ascending order; before each candidate
/// it consults the shared counter and stops as soon as the target is reached;
/// otherwise it digests the candidate and reports it if it matches.
pub fn scan_sub_range(
    start: u64,
    end: u64,
    zero_count: usize,
    target_count: usize,
    state: &mut SearchState,
)
    requires
        old(state).wf(),
        old(state).matches_found <= target_count,
        start <= end,
        end <= CANDIDATE_CAPACITY,
    ensures
        final(state).wf(),
        final(state).matches_found <= target_count,
        numbers_of(final(state).records@) == numbers_of(old(state).records@) + found_in(
            zero_count as int,
            start as int,
            end as int,
            target_count - old(state).matches_found,
        ),
{
    let ghost k = zero_count as int;
    let ghost m0 = old(state).matches_found as int;
    let ghost base = old(state).records@;
    proof {
        assert(matches_in(k, start as int, start as int) =~= Seq::<u32>::empty());
    }
    let mut c: u64 = start;
    while c < end && state.matches_found < target_count
        invariant
            start <= c <= end,
            end <= CANDIDATE_CAPACITY,
            state.wf(),
            state.matches_found <= target_count,
            k == zero_count as int,
            m0 <= target_count,
            m0 == base.len(),
            numbers_of(state.records@) == numbers_of(base) + matches_in(
                k,
                start as int,
                c as int,
            ),
            state.matches_found == m0 + matches_in(k, start as int, c as int).len(),
        decreases end - c,
    {
        let ghost scanned = matches_in(k, start as int, c as int);
        if let Some(rec) = check_candidate(c as u32, zero_count) {
            proof {
                lemma_numbers_of_push(state.records@, rec);
            }
            state.records.push(rec);
            state.matches_found = state.matches_found + 1;
        }
        proof {
            lemma_matches_in_concat(k, start as int, c as int, c as int + 1);
            lemma_matches_in_one(k, c as int);
            if candidate_matches(c as u32, k) {
                assert(scanned + seq![c as u32] =~= scanned.push(c as u32));
                assert(numbers_of(base) + scanned.push(c as u32) =~= (numbers_of(base)
                    + scanned).push(c as u32));
            } else {
                assert(scanned + Seq::<u32>::empty() =~= scanned);
            }
        }
        c = c + 1;
    }
    proof {
        lemma_found_in_stopped(
            k,
            start as int,
            c as int,
            end as int,
            target_count - m0,
        );
    }
}

/// One batch: partitions the batch range over the workers and runs them over
/// their sub-ranges in order.
pub fn run_batch(
    range_end: u64,
    zero_count: usize,
    target_count: usize,
    thread_count: usize,
    state: &mut SearchState,
)
    requires
        thread_count >= 1,
        range_end <= CANDIDATE_CAPACITY,
        old(state).wf(),
        old(state).matches_found <= target_count,
    ensures
        final(state).wf(),
        final(state).matches_found <= target_count,
        numbers_of(final(state).records@) == numbers_of(old(state).records@) + found_in(
            zero_count as int,
            0,
            scanned_end(range_end as int, thread_count as int),
            target_count - old(state).matches_found,
        ),
{
    let parts = match partition(range_end, thread_count) {
        Ok(parts) => parts,
        Err(_) => {
            return;
        },
    };
    let ghost k = zero_count as int;
    let ghost r_end = range_end as int;
    let ghost t = thread_count as int;
    let ghost m_b = old(state).matches_found as int;
    let ghost base = old(state).records@;
    let ghost room = target_count - m_b;
    proof {
        lemma_mul_by_zero_is_zero(r_end / t);
        assert(matches_in(k, 0, 0) =~= Seq::<u32>::empty());
        lemma_fundamental_div_mod(r_end, t);
        lemma_mod_division_less_than_divisor(r_end, t);
    }
    let mut j: usize = 0;
    while j < thread_count
        invariant
            0 <= j <= thread_count,
            parts@.len() == thread_count,
            forall|i: int| 0 <= i < thread_count ==> {
                &&& (#[trigger] parts@[i]).start == sub_start(r_end, t, i)
                &&& parts@[i].end == sub_end(r_end, t, i)
            },
            1 <= t,
            t * (r_end / t) <= r_end,
            range_end <= CANDIDATE_CAPACITY,
            state.wf(),
            state.matches_found <= target_count,
            k == zero_count as int,
            r_end == range_end as int,
            t == thread_count as int,
            m_b == base.len(),
            m_b <= target_count,
            room == target_count - m_b,
            numbers_of(state.records@) == numbers_of(base) + found_in(
                k,
                0,
                sub_start(r_end, t, j as int),
                room,
            ),
            state.matches_found == m_b + found_in(k, 0, sub_start(r_end, t, j as int), room).len(),
        decreases thread_count - j,
    {
        let sub_s = parts[j].start;
        let sub_e = parts[j].end;
        proof {
            lemma_mul_inequality(j as int, j as int + 1, r_end / t);
            lemma_mul_inequality(j as int + 1, t, r_end / t);
            vstd::arithmetic::mul::lemma_mul_is_commutative(j as int + 1, r_end / t);
            vstd::arithmetic::mul::lemma_mul_is_commutative(t, r_end / t);
        }
        scan_sub_range(sub_s, sub_e, zero_count, target_count, state);
        proof {
            lemma_found_in_compose(k, 0, sub_start(r_end, t, j as int), sub_end(r_end, t, j as int), room);
            assert((numbers_of(base) + found_in(k, 0, sub_start(r_end, t, j as int), room))
                + found_in(
                k,
                sub_start(r_end, t, j as int),
                sub_end(r_end, t, j as int),
                room - found_in(k, 0, sub_start(r_end, t, j as int), room).len(),
            ) =~= numbers_of(base) + found_in(k, 0, sub_end(r_end, t, j as int), room));
        }
        j = j + 1;
    }
}

/// The candidates a search reports after working through batches
/// `1..=batch_index`, in report order. Each batch re-scans `[0, batch_end)`
/// from zero with whatever room the earlier batches have left, so a candidate
/// already reported in an earlier batch is reported again when a later batch
/// reaches it with room to spare.
pub open spec fn search_found_upto(
    zero_count: int,
    thread_count: int,
    target_count: int,
    batch_index: int,
) -> Seq<u32>
    decreases batch_index,
{
    if batch_index <= 0 {
        Seq::empty()
    } else {
        let prev = search_found_upto(zero_count, thread_count, target_count, batch_index - 1);
        prev + found_in(
            zero_count,
            0,
            scanned_end(batch_end(batch_index), thread_count),
            target_count - prev.len(),
        )
    }
}

/// Every candidate a range scan lists is a genuine match.
proof fn lemma_matches_in_all_match(zero_count: int, start: int, end: int, i: int)
    requires
        0 <= i < matches_in(zero_count, start, end).len(),
    ensures
        candidate_matches(matches_in(zero_count, start, end)[i], zero_count),
    decreases end - start,
{
    if start < end {
        if candidate_matches(start as u32, zero_count) {
            if i > 0 {
                lemma_matches_in_all_match(zero_count, start + 1, end, i - 1);
            }
        } else {
            lemma_matches_in_all_match(zero_count, start + 1, end, i);
        }
    }
}

/// Every candidate a search reports is a genuine match: its digest ends in
/// the requested count of zero characters.
pub proof fn lemma_reported_candidates_match(
    zero_count: int,
    thread_count: int,
    target_count: int,
    batch_index: int,
    i: int,
)
    requires
        0 <= i < search_found_upto(zero_count, thread_count, target_count, batch_index).len(),
    ensures
        candidate_matches(
            search_found_upto(zero_count, thread_count, target_count, batch_index)[i],
            zero_count,
        ),
    decreases batch_index,
{
    if batch_index > 0 {
        let prev = search_found_upto(zero_count, thread_count, target_count, batch_index - 1);
        if i < prev.len() {
            lemma_reported_candidates_match(
                zero_count,
                thread_count,
                target_count,
                batch_index - 1,
                i,
            );
        } else {
            lemma_matches_in_all_match(
                zero_count,
                0,
                scanned_end(batch_end(batch_index), thread_count),
                i - prev.len(),
            );
        }
    }
}

/// The count of reported matches never exceeds the target: however many
/// batches a search works through, it reports at most `target_count`
/// candidates.
pub proof fn lemma_found_never_exceeds_target(
    zero_count: int,
    thread_count: int,
    target_count: int,
    batch_index: int,
)
    requires
        0 <= target_count,
    ensures
        search_found_upto(zero_count, thread_count, target_count, batch_index).len()
            <= target_count,
    decreases batch_index,
{
    if batch_index > 0 {
        lemma_found_never_exceeds_target(zero_count, thread_count, target_count, batch_index - 1);
    }
}

/// Once a search has reported `target_count` matches, later batches report
/// nothing more: every worker sees the full counter and stops at once.
pub proof fn lemma_found_stable_after_target(
    zero_count: int,
    thread_count: int,
    target_count: int,
    batch_index: int,
    later_index: int,
)
    requires
        0 <= batch_index <= later_index,
        search_found_upto(zero_count, thread_count, target_count, batch_index).len()
            == target_count,
    ensures
        search_found_upto(zero_count, thread_count, target_count, later_index)
            == search_found_upto(zero_count, thread_count, target_count, batch_index),
    decreases later_index - batch_index,
{
    if later_index > batch_index {
        lemma_found_stable_after_target(
            zero_count,
            thread_count,
            target_count,
            batch_index,
            later_index - 1,
        );
        let prev = search_found_upto(zero_count, thread_count, target_count, later_index - 1);
        assert(prev + found_in(
            zero_count,
            0,
            scanned_end(batch_end(later_index), thread_count),
            target_count - prev.len(),
        ) =~= prev);
    }
}

/// The orchestrator: validates its arguments, then pulls ever larger batch
/// ranges, partitions each over `thread_count` workers, runs the workers, and
/// stops as soon as `target_count` matches have been reported or the
/// candidate space is exhausted.
///
/// On success the reported records are, in order, the first `target_count`
/// matching candidates the batched scan order meets, each paired with its own
/// digest; in particular a search that terminates normally has reported
/// exactly `target_count` matches, and a `target_count` of zero succeeds at
/// once with nothing reported.
pub fn hash_search(zero_count: usize, target_count: usize, thread_count: usize) -> (r: Result<
    Vec<MatchRecord>,
    ErrorKind,
>)
    ensures
        ({
            let full = search_found_upto(
                zero_count as int,
                thread_count as int,
                target_count as int,
                MAX_BATCH_INDEX as int,
            );
            match r {
                Ok(v) => {
                    &&& thread_count >= 1
                    &&& zero_count <= DIGEST_HEX_LEN
                    &&& v@.len() == target_count
                    &&& records_wf(v@)
                    &&& numbers_of(v@) == full
                },
                Err(ErrorKind::InvalidThreadCount) => thread_count == 0,
                Err(ErrorKind::InvalidZeroCount) => thread_count >= 1 && zero_count
                    > DIGEST_HEX_LEN,
                Err(ErrorKind::SearchSpaceExhausted) => {
                    &&& thread_count >= 1
                    &&& zero_count <= DIGEST_HEX_LEN
                    &&& target_count > 0
                    &&& full.len() < target_count
                },
                Err(ErrorKind::ArgumentMissingOrMalformed) => false,
            }
        }),
        thread_count == 0 <==> r == Err::<Vec<MatchRecord>, ErrorKind>(
            ErrorKind::InvalidThreadCount,
        ),
        target_count == 0 && thread_count >= 1 && zero_count <= DIGEST_HEX_LEN ==> r is Ok,
{
    if thread_count == 0 {
        return Err(ErrorKind::InvalidThreadCount);
    }
    if zero_count > DIGEST_HEX_LEN {
        return Err(ErrorKind::InvalidZeroCount);
    }
    let ghost k = zero_count as int;
    let ghost t = thread_count as int;
    let ghost f = target_count as int;
    let mut state = SearchState::new();
    proof {
        assert(numbers_of(Seq::<MatchRecord>::empty()) =~= Seq::<u32>::empty());
    }
    if target_count == 0 {
        proof {
            lemma_found_never_exceeds_target(k, t, 0, MAX_BATCH_INDEX as int);
            assert(search_found_upto(k, t, 0, MAX_BATCH_INDEX as int) =~= Seq::<u32>::empty());
        }
        return Ok(state.records);
    }
    let mut b: u64 = 1;
    loop
        invariant
            1 <= b <= MAX_BATCH_INDEX + 1,
            state.wf(),
            state.matches_found < target_count,
            k == zero_count as int,
            t == thread_count as int,
            f == target_count as int,
            thread_count >= 1,
            zero_count <= DIGEST_HEX_LEN,
            target_count > 0,
            numbers_of(state.records@) == search_found_upto(k, t, f, b - 1),
            state.matches_found == search_found_upto(k, t, f, b - 1).len(),
        decreases MAX_BATCH_INDEX + 1 - b,
    {
        let range_end = match batch_range(b) {
            Ok(range_end) => range_end,
            Err(err) => {
                proof {
                    if b <= MAX_BATCH_INDEX {
                        lemma_mul_inequality(b as int, MAX_BATCH_INDEX as int, BATCH_UNIT as int);
                    }
                }
                return Err(err);
            },
        };
        let ghost prev = search_found_upto(k, t, f, b - 1);
        run_batch(range_end, zero_count, target_count, thread_count, &mut state);
        proof {
            assert(search_found_upto(k, t, f, b as int) == prev + found_in(
                k,
                0,
                scanned_end(batch_end(b as int), t),
                f - prev.len(),
            ));
        }
        if state.matches_found == target_count {
            proof {
                lemma_found_stable_after_target(k, t, f, b as int, MAX_BATCH_INDEX as int);
            }
            return Ok(state.records);
        }
        b = b + 1;
    }
}

} // verus!
