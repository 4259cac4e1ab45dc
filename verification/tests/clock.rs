use wavcut::clock::{locate, offset, origin, ClockStart, Record};

fn record(time: i64, file_sample: u32, file: &str) -> Record {
    Record { time, sample: 0, file_sample, file: file.to_string() }
}

#[test]
fn locate_without_rows_finds_nothing() {
    assert_eq!(locate(&Vec::new(), Some(5), 48000), None);
    assert_eq!(locate(&Vec::new(), None, 48000), None);
}

#[test]
fn locate_without_instant_starts_at_first_row() {
    let records = vec![record(100, 7, "a"), record(200, 9, "b")];
    assert_eq!(locate(&records, None, 48000), Some(ClockStart { record: 0, file_start_sample: 0 }));
}

#[test]
fn locate_takes_the_nearest_row_and_moves_its_offset() {
    let records = vec![
        record(1_000_000_000, 1000, "a"),
        record(2_000_000_000, 2000, "b"),
        record(3_000_000_000, 3000, "c"),
    ];
    // A quarter of a second after the second row, at 48 kHz: 12000 samples on.
    assert_eq!(
        locate(&records, Some(2_250_000_000), 48000),
        Some(ClockStart { record: 1, file_start_sample: 14000 })
    );
    // A hundredth of a second before the third row: 480 samples back.
    assert_eq!(
        locate(&records, Some(2_990_000_000), 48000),
        Some(ClockStart { record: 2, file_start_sample: 2520 })
    );
    // Of two rows at one distance the first.
    assert_eq!(
        locate(&records, Some(1_500_000_000), 48000),
        Some(ClockStart { record: 0, file_start_sample: 25000 })
    );
}

#[test]
fn offset_stays_within_the_shard_offsets() {
    assert_eq!(offset(10, 1_000_000_000, 0, 48000), 0);
    assert_eq!(offset(48000, 1_000_000_000, 0, 48000), 0);
    assert_eq!(offset(48001, 1_000_000_000, 0, 48000), 1);
    assert_eq!(offset(u32::MAX, 0, 1_000_000_000, 48000), u32::MAX);
    assert_eq!(offset(5, 7, 7, 48000), 5);
}

#[test]
fn origin_is_the_instant_of_sample_zero() {
    assert_eq!(origin(5_000_000_000, 48000, 48000), 4_000_000_000);
    assert_eq!(origin(5_000_000_000, 0, 48000), 5_000_000_000);
    // One sample at 48 kHz lasts 20833.33 ns.
    assert_eq!(origin(0, 1, 48000), -20833);
    assert_eq!(origin(0, 2, 48000), -41667);
    assert_eq!(origin(i64::MIN, 1, 48000), i64::MIN);
}
