use wavcut::cursor::{
    reached, resolve_break, seek_start, virtual_len, BreakWindow, CursorMode, CursorStep,
    ExtractionCursor, Segment,
};
use wavcut::pps::{Pps, ResolveError, ResolvedPosition, SENTINEL};

fn at(file: usize, sample: u32) -> ResolvedPosition {
    ResolvedPosition { file, sample }
}

// Runs a cursor over one shard of `len` samples whose values are their offsets.
fn run(cursor: &mut ExtractionCursor, len: u32) -> (Vec<i32>, Vec<Segment>, usize) {
    let mut written = Vec::new();
    let mut segments = Vec::new();
    let mut opened = 1;
    for offset in 0..len {
        let step = cursor.step(at(0, offset), offset as i32);
        if let Some(segment) = step.closed {
            segments.push(segment);
        }
        if step.opened {
            opened += 1;
        }
        if step.write {
            written.push(offset as i32);
        }
        if let Some(segment) = step.last {
            segments.push(segment);
        }
        if step.done {
            return (written, segments, opened);
        }
    }
    if let Some(segment) = cursor.finish() {
        segments.push(segment);
    }
    (written, segments, opened)
}

#[test]
fn one_break_inside_gives_two_segments_that_add_up() {
    // The break covers the samples 40..70, which are 30 samples of the timeline.
    let window = BreakWindow { start: at(0, 40), end: at(0, 70), nanos: 30_000_000 };
    let mut cursor = ExtractionCursor::new(100, 1, 1000, 0, vec![window]).unwrap();
    let (written, segments, opened) = run(&mut cursor, 1000);
    assert_eq!(segments, vec![Segment { from: 0, to: 40 }, Segment { from: 70, to: 100 }]);
    assert_eq!(opened, 2);
    let emitted: u64 = segments.iter().map(|s| s.to - s.from).sum();
    assert_eq!(emitted + 30, 100);
    assert_eq!(cursor.emitted(), 70);
    assert_eq!(cursor.excised(), 30);
    assert_eq!(cursor.drone(), 100);
    assert_eq!(cursor.mode(), CursorMode::Finished);
    let mut want: Vec<i32> = (0..40).collect();
    want.extend(70..100);
    assert_eq!(written, want);
}

#[test]
fn without_breaks_one_segment_covers_the_budget() {
    let mut cursor = ExtractionCursor::new(10, 1, 48000, 0, Vec::new()).unwrap();
    let (written, segments, opened) = run(&mut cursor, 50);
    assert_eq!(written, (0..10).collect::<Vec<i32>>());
    assert_eq!(segments, vec![Segment { from: 0, to: 10 }]);
    assert_eq!(opened, 1);
}

#[test]
fn source_that_runs_out_closes_the_open_segment() {
    let mut cursor = ExtractionCursor::new(10, 1, 48000, 0, Vec::new()).unwrap();
    let (written, segments, _) = run(&mut cursor, 4);
    assert_eq!(written, vec![0, 1, 2, 3]);
    assert_eq!(segments, vec![Segment { from: 0, to: 4 }]);
    assert_eq!(cursor.mode(), CursorMode::Finished);
    assert_eq!(cursor.finish(), None);
    assert_eq!(
        cursor.step(at(0, 4), 4),
        CursorStep { closed: None, opened: false, write: false, last: None, done: true }
    );
}

#[test]
fn ratio_counts_source_samples_per_timeline_sample() {
    let mut cursor = ExtractionCursor::new(3, 4, 48000, 0, Vec::new()).unwrap();
    let (written, segments, _) = run(&mut cursor, 50);
    assert_eq!(written.len(), 12);
    assert_eq!(segments, vec![Segment { from: 0, to: 3 }]);
    assert_eq!(cursor.audio(), 12);
}

#[test]
fn marker_payload_is_left_out_and_not_counted() {
    let mut cursor = ExtractionCursor::new(4, 1, 48000, 2, Vec::new()).unwrap();
    let source = [1, SENTINEL, 77, 88, 2, 3, 4, 5];
    let mut written = Vec::new();
    let mut done = false;
    for (offset, sample) in source.iter().enumerate() {
        let step = cursor.step(at(0, offset as u32), *sample);
        if step.write {
            written.push(*sample);
        }
        done = step.done;
        if done {
            break;
        }
    }
    assert!(done);
    assert_eq!(written, vec![1, 2, 3, 4]);
}

#[test]
fn sentinel_stays_where_markers_are_not_skipped() {
    let mut cursor = ExtractionCursor::new(3, 1, 48000, 0, Vec::new()).unwrap();
    let mut written = Vec::new();
    for (offset, sample) in [1, SENTINEL, 77, 88].iter().enumerate() {
        if cursor.step(at(0, offset as u32), *sample).write {
            written.push(*sample);
        }
    }
    assert_eq!(written, vec![1, SENTINEL, 77]);
}

#[test]
fn break_that_passes_the_budget_ends_the_extraction() {
    let window = BreakWindow { start: at(0, 5), end: at(0, 9), nanos: 1_000_000_000 };
    let mut cursor = ExtractionCursor::new(20, 1, 1000, 0, vec![window]).unwrap();
    let (written, segments, opened) = run(&mut cursor, 100);
    assert_eq!(written, vec![0, 1, 2, 3, 4]);
    assert_eq!(segments, vec![Segment { from: 0, to: 5 }]);
    assert_eq!(opened, 1);
    assert_eq!(cursor.excised(), 15);
    assert_eq!(cursor.emitted() + cursor.excised(), 20);
}

#[test]
fn breaks_across_shards_compare_shard_first() {
    let window = BreakWindow { start: at(1, 2), end: at(2, 1), nanos: 2_000_000 };
    let mut cursor = ExtractionCursor::new(100, 1, 1000, 0, vec![window]).unwrap();
    let mut states = Vec::new();
    for (file, sample) in [(0, 5), (1, 1), (1, 2), (1, 9), (2, 0), (2, 1), (2, 2)] {
        let step = cursor.step(at(file, sample), 0);
        states.push((step.closed.is_some(), step.opened, step.write));
    }
    assert_eq!(
        states,
        vec![
            (false, false, true),
            (false, false, true),
            (true, false, false),
            (false, false, false),
            (false, false, false),
            (false, true, true),
            (false, false, true),
        ]
    );
    assert_eq!(cursor.finish(), Some(Segment { from: 4, to: 6 }));
}

#[test]
fn new_refuses_what_cannot_be_counted() {
    assert!(ExtractionCursor::new(10, 0, 48000, 0, Vec::new()).is_none());
    assert!(ExtractionCursor::new(u64::MAX, 2, 48000, 0, Vec::new()).is_none());
    assert!(ExtractionCursor::new(u64::MAX, 1, 48000, 0, Vec::new()).is_some());
}

#[test]
fn zero_budget_closes_an_empty_segment() {
    let mut cursor = ExtractionCursor::new(0, 1, 48000, 0, Vec::new()).unwrap();
    let step = cursor.step(at(0, 0), 5);
    assert_eq!(
        step,
        CursorStep {
            closed: None,
            opened: false,
            write: false,
            last: Some(Segment { from: 0, to: 0 }),
            done: true
        }
    );
}

#[test]
fn reached_orders_places() {
    assert!(reached(at(1, 0), at(0, 99)));
    assert!(reached(at(1, 5), at(1, 5)));
    assert!(!reached(at(1, 4), at(1, 5)));
    assert!(!reached(at(0, 99), at(1, 0)));
}

#[test]
fn virtual_len_rounds_to_nearest() {
    assert_eq!(virtual_len(1_000_000_000, 48000), 48000);
    assert_eq!(virtual_len(10_416, 48000), 0);
    assert_eq!(virtual_len(10_417, 48000), 1);
    assert_eq!(virtual_len(u64::MAX, u32::MAX), 79_228_162_495_817_593_516);
}

#[test]
fn seek_start_passes_short_shards() {
    assert_eq!(seek_start(10, 100), Ok(10));
    assert_eq!(seek_start(100, 100), Ok(100));
    assert_eq!(seek_start(101, 100), Err(1));
}

#[test]
fn resolve_break_places_both_ends() {
    let durations = vec![Some(100), Some(100), Some(100)];
    let marker = Pps { nanos: 0, sample: 0, file: 0 };
    assert_eq!(
        resolve_break(500_000_000, 1_200_000_000, marker, &durations, 1, 100),
        Ok(BreakWindow { start: at(0, 50), end: at(1, 20), nanos: 700_000_000 })
    );
    assert_eq!(
        resolve_break(500_000_000, 3_000_000_000, marker, &durations, 1, 100),
        Err(ResolveError::StartNotFound)
    );
    assert_eq!(
        resolve_break(-1_000_000_000, 1_000_000_000, marker, &durations, 1, 100),
        Err(ResolveError::StartNotFound)
    );
}
