use hash_finder::batch::{batch_range, BATCH_UNIT};
use hash_finder::digest::{check_candidate, get_hash, is_match, DIGEST_HEX_LEN};
use hash_finder::errors::ErrorKind;
use hash_finder::partition::partition;
use hash_finder::search::{hash_search, scan_sub_range, SearchState};

#[test]
fn get_zero_hashes() {
    let check = |num| {
        let hash = get_hash(num);
        assert!(&hash[hash.len() - 3..] == "000")
    };

    check(25698);
    check(37024399);
    check(2022754);
    check(43024485);
    check(94027734);
    check(79024506);
}

#[test]
fn digest_has_fixed_length() {
    assert_eq!(get_hash(0).len(), DIGEST_HEX_LEN);
    assert_eq!(get_hash(u32::MAX).len(), DIGEST_HEX_LEN);
}

#[test]
fn is_match_checks_trailing_zeros() {
    assert!(is_match("deadbeef0", 1));
    assert!(is_match("deadbeef00", 2));
    assert!(is_match("deadbeef000", 3));
    assert!(is_match("deadbeef0000", 4));
    assert!(!is_match("deadbeef0", 2));
    assert!(!is_match("deadbeef010", 2));
    assert!(!is_match("0deadbeef", 1));
}

#[test]
fn is_match_with_zero_count_zero_always_matches() {
    assert!(is_match("deadbeef", 0));
    assert!(is_match("", 0));
}

#[test]
fn is_match_beyond_digest_length_never_matches() {
    assert!(!is_match("000", 4));
    assert!(!is_match("", 1));
}

#[test]
fn is_match_on_real_digests() {
    for k in 1..=3usize {
        assert!(is_match(&get_hash(25698), k));
    }
    assert!(!is_match(&get_hash(0), 3));
}

#[test]
fn check_candidate_reports_matches_only() {
    let record = check_candidate(25698, 3).expect("25698 matches three zeros");
    assert_eq!(record.number, 25698);
    assert_eq!(record.digest, get_hash(25698));
    assert!(record.digest.ends_with("000"));

    // No candidate below 25698 has three trailing zeros.
    assert!(check_candidate(0, 3).is_none());

    // A zero count of zero matches every candidate.
    assert!(check_candidate(0, 0).is_some());
}

#[test]
fn partition_splits_evenly() {
    let parts = partition(100, 3).expect("three threads are valid");
    assert_eq!(parts.len(), 3);
    let bounds: Vec<(u64, u64)> = parts.iter().map(|p| (p.start, p.end)).collect();
    assert_eq!(bounds, vec![(0, 33), (33, 66), (66, 99)]);
    for (i, p) in parts.iter().enumerate() {
        assert_eq!(p.thread_index, i);
    }
    // exactly 100 % 3 == 1 trailing candidate is excluded
    assert_eq!(parts.last().unwrap().end, 99);
}

#[test]
fn partition_with_one_thread_covers_everything() {
    let parts = partition(BATCH_UNIT, 1).expect("one thread is valid");
    assert_eq!(parts.len(), 1);
    assert_eq!((parts[0].start, parts[0].end), (0, BATCH_UNIT));
}

#[test]
fn partition_rejects_zero_threads() {
    assert!(matches!(partition(100, 0), Err(ErrorKind::InvalidThreadCount)));
}

#[test]
fn partition_with_more_threads_than_candidates() {
    let parts = partition(3, 8).expect("eight threads are valid");
    assert_eq!(parts.len(), 8);
    for p in &parts {
        assert_eq!(p.start, p.end);
    }
}

#[test]
fn batch_ranges_grow_by_one_unit() {
    assert_eq!(batch_range(1), Ok(100_000_000));
    assert_eq!(batch_range(2), Ok(200_000_000));
    assert_eq!(batch_range(42), Ok(4_200_000_000));
}

#[test]
fn batch_rescan_strictly_contains_previous_batch() {
    // every batch starts at zero, so containment is growth of the end
    let mut previous_end = 0u64;
    for b in 1..=42u64 {
        let end = batch_range(b).expect("within capacity");
        assert!(end > previous_end);
        assert_eq!(end - previous_end, BATCH_UNIT);
        previous_end = end;
    }
}

#[test]
fn batch_generator_signals_exhaustion() {
    assert_eq!(batch_range(43), Err(ErrorKind::SearchSpaceExhausted));
    assert_eq!(batch_range(100), Err(ErrorKind::SearchSpaceExhausted));
}

#[test]
fn scan_reports_matches_in_ascending_order() {
    let mut state = SearchState::new();
    scan_sub_range(0, 30_000, 3, 20, &mut state);
    let numbers: Vec<u32> = state.records.iter().map(|r| r.number).collect();
    assert_eq!(
        numbers,
        vec![447, 904, 15117, 15527, 18656, 23341, 25424, 25698, 28903]
    );
    assert_eq!(state.matches_found, 9);
    for record in &state.records {
        assert!(record.digest.ends_with("000"));
        assert_eq!(record.digest, get_hash(record.number));
    }
}

#[test]
fn scan_continues_across_sub_ranges() {
    let mut state = SearchState::new();
    scan_sub_range(400, 500, 3, 5, &mut state);
    scan_sub_range(900, 950, 3, 5, &mut state);
    let numbers: Vec<u32> = state.records.iter().map(|r| r.number).collect();
    assert_eq!(numbers, vec![447, 904]);
    assert_eq!(state.matches_found, 2);
}

#[test]
fn scan_stops_once_target_is_reached() {
    let mut state = SearchState::new();
    // both 447 and 904 lie in the scanned ranges, but there is room for one
    scan_sub_range(0, 1_000, 3, 1, &mut state);
    scan_sub_range(0, 1_000, 3, 1, &mut state);
    assert_eq!(state.matches_found, 1);
    assert_eq!(state.records.len(), 1);
    assert_eq!(state.records[0].number, 447);
}

#[test]
fn scan_with_zero_target_scans_nothing() {
    let mut state = SearchState::new();
    scan_sub_range(0, 30_000, 3, 0, &mut state);
    assert_eq!(state.matches_found, 0);
    assert!(state.records.is_empty());
}

#[test]
fn search_reports_first_target_matches() {
    let records = hash_search(3, 3, 1).expect("three matches exist in the first batch");
    let numbers: Vec<u32> = records.iter().map(|r| r.number).collect();
    assert_eq!(numbers, vec![447, 904, 15117]);
    for record in &records {
        assert!(record.digest.ends_with("000"));
    }
}

#[test]
fn search_with_many_threads_finds_same_first_matches() {
    let records = hash_search(3, 3, 4).expect("three matches exist in the first sub-range");
    let numbers: Vec<u32> = records.iter().map(|r| r.number).collect();
    assert_eq!(numbers, vec![447, 904, 15117]);
}

#[test]
fn search_rejects_zero_threads_before_any_batch() {
    assert!(matches!(hash_search(3, 5, 0), Err(ErrorKind::InvalidThreadCount)));
}

#[test]
fn search_rejects_oversized_zero_count() {
    assert!(matches!(hash_search(65, 5, 1), Err(ErrorKind::InvalidZeroCount)));
}

#[test]
fn search_with_zero_target_succeeds_immediately() {
    let records = hash_search(3, 0, 4).expect("a zero target needs no scan");
    assert!(records.is_empty());
}

#[test]
fn error_descriptions_are_not_empty() {
    let kinds = [
        ErrorKind::InvalidThreadCount,
        ErrorKind::InvalidZeroCount,
        ErrorKind::SearchSpaceExhausted,
        ErrorKind::ArgumentMissingOrMalformed,
    ];
    for kind in kinds {
        assert!(!kind.describe().is_empty());
    }
}
