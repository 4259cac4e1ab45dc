use wavcut::catalog::Shard;
use wavcut::pps::{
    candidates, distance, find_best, find_start, get_pps, pack_nanos, sample_delta, BestSearch,
    MarkerScanner, Pps, ResolveError, ResolvedPosition, SENTINEL,
};

#[test]
fn pack_nanos_takes_first_word_as_low_bits() {
    assert_eq!(pack_nanos(1, 0), 1);
    assert_eq!(pack_nanos(0, 1), 0x1_0000_0000);
    assert_eq!(pack_nanos(-1, 0), 0xFFFF_FFFF);
    assert_eq!(pack_nanos(0x1234_5678, 0x0ABC_DEF0), 0x0ABC_DEF0_1234_5678);
    assert_eq!(pack_nanos(0, -1), -0x1_0000_0000);
    assert_eq!(pack_nanos(-1, -1), -1);
    assert_eq!(pack_nanos(0, i32::MIN), i64::MIN);
    assert_eq!(pack_nanos(-1, i32::MAX), i64::MAX);
}

#[test]
fn sentinel_is_the_pattern_of_all_e() {
    assert_eq!(SENTINEL as u32, 0xEEEE_EEEE);
}

#[test]
fn scan_recovers_marker_at_sentinel_offset() {
    let samples = vec![5, 6, SENTINEL, 0x1234_5678, 0x0ABC_DEF0, 7];
    let found = get_pps(&samples, 3);
    assert_eq!(found, vec![Pps { nanos: 0x0ABC_DEF0_1234_5678, sample: 2, file: 3 }]);
}

#[test]
fn scan_finds_every_marker_in_order() {
    let samples = vec![SENTINEL, 1, 0, 9, 9, SENTINEL, 2, 0, SENTINEL, 3, 0];
    let found = get_pps(&samples, 0);
    assert_eq!(
        found,
        vec![
            Pps { nanos: 1, sample: 0, file: 0 },
            Pps { nanos: 2, sample: 5, file: 0 },
            Pps { nanos: 3, sample: 8, file: 0 },
        ]
    );
}

#[test]
fn scan_drops_marker_cut_short_by_end_of_stream() {
    assert_eq!(get_pps(&[1, 2, SENTINEL], 0), vec![]);
    assert_eq!(get_pps(&[1, 2, SENTINEL, 4], 0), vec![]);
    assert_eq!(get_pps(&[], 0), vec![]);
    assert_eq!(get_pps(&[1, 2, 3], 0), vec![]);
}

#[test]
fn scan_takes_payload_words_as_they_are() {
    let samples = vec![SENTINEL, SENTINEL, 1, 5, 6];
    let found = get_pps(&samples, 0);
    assert_eq!(found, vec![Pps { nanos: pack_nanos(SENTINEL, 1), sample: 0, file: 0 }]);
}

#[test]
fn scanner_gives_the_same_markers_as_the_scan() {
    let samples = vec![4, SENTINEL, 10, 20, SENTINEL, SENTINEL, 1, 5, SENTINEL, 7, 8, SENTINEL, 1];
    let mut scanner = MarkerScanner::new(2);
    let mut streamed = Vec::new();
    for sample in samples.iter() {
        if let Some(pps) = scanner.push(*sample) {
            streamed.push(pps);
        }
    }
    assert_eq!(streamed, get_pps(&samples, 2));
    assert_eq!(streamed.len(), 3);
    assert_eq!(streamed[0], Pps { nanos: pack_nanos(10, 20), sample: 1, file: 2 });
}

#[test]
fn sample_delta_rounds_to_nearest() {
    assert_eq!(sample_delta(1_000_000_000, 0, 48000), 48000);
    assert_eq!(sample_delta(0, 1_000_000_000, 48000), 48000);
    assert_eq!(sample_delta(10_416, 0, 48000), 0);
    assert_eq!(sample_delta(10_417, 0, 48000), 1);
    assert_eq!(sample_delta(5, 5, 48000), 0);
    assert_eq!(sample_delta(i64::MAX, i64::MIN, 1), 18_446_744_074);
}

#[test]
fn find_start_of_marker_instant_is_the_marker() {
    let durations = vec![Some(1000), Some(1000), Some(1000)];
    let start = find_start(777, 777, 123, 1, &durations, 1, 48000);
    assert_eq!(start, Ok(ResolvedPosition { file: 1, sample: 123 }));
}

#[test]
fn find_start_walks_forward_over_two_boundaries() {
    let durations = vec![Some(400), Some(400), Some(400)];
    // 100 samples per shard at 4 channels; 2.3 s at 100 Hz are 230 samples.
    let start = find_start(2_300_000_000, 0, 10, 0, &durations, 4, 100);
    assert_eq!(start, Ok(ResolvedPosition { file: 2, sample: 40 }));
}

#[test]
fn find_start_walks_backward_over_two_boundaries() {
    let durations = vec![Some(400), Some(400), Some(400)];
    let start = find_start(0, 2_300_000_000, 50, 2, &durations, 4, 100);
    assert_eq!(start, Ok(ResolvedPosition { file: 0, sample: 20 }));
}

#[test]
fn find_start_within_marker_shard() {
    let durations = vec![Some(1000)];
    assert_eq!(
        find_start(1_000_000_000, 0, 10, 0, &durations, 1, 100),
        Ok(ResolvedPosition { file: 0, sample: 110 })
    );
    assert_eq!(
        find_start(0, 1_000_000_000, 110, 0, &durations, 1, 100),
        Ok(ResolvedPosition { file: 0, sample: 10 })
    );
    assert_eq!(
        find_start(0, 1_000_000_000, 100, 0, &durations, 1, 100),
        Ok(ResolvedPosition { file: 0, sample: 0 })
    );
}

#[test]
fn find_start_skips_shards_that_did_not_open() {
    let durations = vec![Some(100), None, Some(100)];
    assert_eq!(
        find_start(1_500_000_000, 0, 0, 0, &durations, 1, 100),
        Ok(ResolvedPosition { file: 2, sample: 50 })
    );
    assert_eq!(
        find_start(0, 500_000_000, 0, 2, &durations, 1, 100),
        Ok(ResolvedPosition { file: 0, sample: 50 })
    );
}

#[test]
fn find_start_end_of_shard_is_start_of_next() {
    let durations = vec![Some(100), Some(100)];
    assert_eq!(
        find_start(1_000_000_000, 0, 0, 0, &durations, 1, 100),
        Ok(ResolvedPosition { file: 1, sample: 0 })
    );
    assert_eq!(
        find_start(0, 1_000_000_000, 0, 1, &durations, 1, 100),
        Ok(ResolvedPosition { file: 0, sample: 0 })
    );
}

#[test]
fn find_start_outside_the_recording_is_not_found() {
    let durations = vec![Some(100), Some(100)];
    assert_eq!(
        find_start(2_000_000_000, 0, 0, 0, &durations, 1, 100),
        Err(ResolveError::StartNotFound)
    );
    assert_eq!(
        find_start(0, 1_010_000_000, 0, 1, &durations, 1, 100),
        Err(ResolveError::StartNotFound)
    );
    assert_eq!(find_start(0, 0, 0, 2, &durations, 1, 100), Err(ResolveError::StartNotFound));
    assert_eq!(find_start(0, 0, 0, 0, &Vec::new(), 1, 100), Err(ResolveError::StartNotFound));
}

#[test]
fn distance_is_absolute_and_capped() {
    assert_eq!(distance(5, 8), 3);
    assert_eq!(distance(8, 5), 3);
    assert_eq!(distance(-4, 4), 8);
    assert_eq!(distance(i64::MIN, i64::MAX), i64::MAX);
    assert_eq!(distance(i64::MAX, 0), i64::MAX);
}

fn marker(nanos: i64, file: usize) -> Pps {
    Pps { nanos, sample: 0, file }
}

#[test]
fn find_best_takes_first_of_the_nearest() {
    let scans = vec![
        vec![marker(100, 0), marker(190, 0)],
        vec![marker(210, 1), marker(500, 1)],
        vec![],
    ];
    assert_eq!(find_best(200, &scans), (Some(marker(190, 0)), 10, 3));
}

#[test]
fn find_best_without_marker_finds_none() {
    let scans: Vec<Vec<Pps>> = vec![vec![], vec![]];
    assert_eq!(find_best(200, &scans), (None, i64::MAX, 2));
    assert_eq!(find_best(200, &Vec::new()), (None, i64::MAX, 0));
}

#[test]
fn find_best_stops_after_six_shards_within_half_a_second() {
    let mut scans = Vec::new();
    for file in 0..10 {
        scans.push(vec![marker(1_000_000_000 - 100 * (10 - file as i64), file)]);
    }
    // The nearest marker of all lies in the last shard, but the search ends after six.
    assert_eq!(find_best(1_000_000_000, &scans), (Some(marker(1_000_000_000 - 500, 5)), 500, 6));
}

#[test]
fn find_best_stops_after_sixteen_shards_within_a_minute() {
    let mut scans = Vec::new();
    for file in 0..20 {
        scans.push(vec![marker(file as i64, file)]);
    }
    let found = find_best(30_000_000_000, &scans);
    assert_eq!(found, (Some(marker(15, 15)), 30_000_000_000 - 15, 16));
}

#[test]
fn find_best_goes_on_while_nothing_is_near() {
    let mut scans = Vec::new();
    for file in 0..20 {
        scans.push(vec![marker(file as i64, file)]);
    }
    let found = find_best(100_000_000_000, &scans);
    assert_eq!(found, (Some(marker(19, 19)), 100_000_000_000 - 19, 20));
}

#[test]
fn best_search_agrees_with_find_best() {
    let scans = vec![vec![marker(5, 0)], vec![marker(7, 1), marker(9, 1)], vec![marker(9, 2)]];
    let mut search = BestSearch::new(8);
    let mut stopped = false;
    for scan in scans.iter() {
        stopped = search.observe(scan);
    }
    assert!(!stopped);
    assert_eq!((search.best(), search.gap(), search.examined()), find_best(8, &scans));
    assert_eq!(search.best(), Some(marker(7, 1)));
}

#[test]
fn candidates_keep_shards_of_the_last_minute() {
    let shards = vec![
        Shard { nanos: 0, entry: 0 },
        Shard { nanos: 39_999_999_999, entry: 1 },
        Shard { nanos: 40_000_000_000, entry: 2 },
        Shard { nanos: 200_000_000_000, entry: 3 },
    ];
    let kept = candidates(&shards, 100_000_000_000);
    assert_eq!(
        kept,
        vec![Shard { nanos: 40_000_000_000, entry: 2 }, Shard { nanos: 200_000_000_000, entry: 3 }]
    );
    assert_eq!(candidates(&shards, i64::MIN), shards);
}
