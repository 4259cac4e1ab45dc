use wavcut::i2s::{mic, slot, CircularI2S, I2sCursor, BUF_SIZE, BUF_SIZE_INNER, MID, TAPS};

#[test]
fn constants_of_the_hardware() {
    assert_eq!(BUF_SIZE, 33);
    assert_eq!(BUF_SIZE_INNER, 8);
    assert_eq!(MID, 4);
    assert_eq!(TAPS, 9);
}

#[test]
fn routing_reads_bit_three_and_the_low_bits() {
    assert_eq!((mic(0), slot(0)), (0, 0));
    assert_eq!((mic(7), slot(7)), (0, 7));
    assert_eq!((mic(8), slot(8)), (1, 0));
    assert_eq!((mic(0x7FFF_FFF9), slot(0x7FFF_FFF9)), (1, 1));
    assert_eq!((mic(-1), slot(-1)), (1, 7));
    assert_eq!((mic(-16), slot(-16)), (0, 0));
    assert_eq!((mic(-11), slot(-11)), (0, 5));
    assert_eq!((mic(i32::MIN), slot(i32::MIN)), (0, 0));
}

fn feed_ramp_rows(demux: &mut CircularI2S, from: i32, rows: i32) -> Vec<Option<[i32; 9]>> {
    let mut outputs = Vec::new();
    for row in from..from + rows {
        for tap in 0..8 {
            let full = demux.set_inner(row * 8 + tap, tap as usize);
            assert_eq!(full, tap == 7);
            if full {
                outputs.push(demux.compute_samples());
            }
        }
    }
    outputs
}

#[test]
fn ramp_gives_exact_diagonal_means() {
    let mut demux = CircularI2S::new();
    let outputs = feed_ramp_rows(&mut demux, 0, 35);
    assert_eq!(outputs.len(), 35);
    for output in outputs.iter().take(32) {
        assert_eq!(*output, None);
    }
    // Rows 0..=32 fill the ring: the middle tap is the mean of row 16,
    // (128 + 129 + ... + 135) / 8 = 1052 / 8.
    let first = outputs[32].unwrap();
    assert_eq!(first[MID], 131);
    assert_eq!(first, [115, 119, 123, 127, 131, 135, 139, 143, 147]);
    // Tap 0 reads rows 0, 4, ..., 28: (0 + 33 + 66 + 99 + 132 + 165 + 198 + 231) / 8.
    assert_eq!(first[0], 924 / 8);
    // Tap 8 reads rows 32, 28, ..., 4.
    assert_eq!(first[8], (256 + 225 + 194 + 163 + 132 + 101 + 70 + 39) / 8);
    // One more row moves the ring on by one row.
    let second = outputs[33].unwrap();
    assert_eq!(second, [123, 127, 131, 135, 139, 143, 147, 151, 155]);
    assert_eq!(outputs[34].unwrap()[MID], 147);
}

#[test]
fn mean_rounds_toward_zero() {
    let mut demux = CircularI2S::new();
    let mut last = None;
    for _ in 0..33 {
        for tap in 0..8 {
            if demux.set_inner(if tap == 0 { -1 } else { 0 }, tap) {
                last = demux.compute_samples();
            }
        }
    }
    assert_eq!(last, Some([0; 9]));
    let mut demux = CircularI2S::new();
    for _ in 0..33 {
        for tap in 0..8 {
            if demux.set_inner(-9, tap) {
                last = demux.compute_samples();
            }
        }
    }
    assert_eq!(last, Some([-9; 9]));
    let mut demux = CircularI2S::new();
    for _ in 0..33 {
        for tap in 0..8 {
            if demux.set_inner(i32::MIN, tap) {
                last = demux.compute_samples();
            }
        }
    }
    assert_eq!(last, Some([i32::MIN; 9]));
}

#[test]
fn row_completes_when_every_slot_was_written() {
    let mut demux = CircularI2S::new();
    for tap in [3usize, 3, 0, 7, 1, 2, 5, 4, 4] {
        assert!(!demux.set_inner(1, tap));
    }
    assert!(demux.set_inner(1, 6));
    assert!(!demux.is_full());
    assert_eq!(demux.compute_samples(), None);
    for tap in [7usize, 6, 5, 4, 3, 2, 1] {
        assert!(!demux.set_inner(1, tap));
    }
    assert!(demux.set_inner(1, 0));
}

fn group_sample(value: i32, group: i32, tap: i32) -> i32 {
    (value << 4) | (group << 3) | tap
}

#[test]
fn cursor_waits_for_group_one_tap_one() {
    let mut cursor = I2sCursor::new(0, 1);
    for tap in 0..8 {
        let step = cursor.feed(group_sample(1, 0, tap));
        assert!(!step.row_full && !step.end && step.samples.is_none());
    }
    let step = cursor.feed(group_sample(1, 1, 0));
    assert!(!step.row_full && !step.end);
    // Rows start with the first sample of group 1, tap 1.
    let mut order: Vec<i32> = (1..8).collect();
    order.push(0);
    for (count, tap) in order.iter().enumerate() {
        let step = cursor.feed(group_sample(1, 1, *tap));
        assert_eq!(step.mic, 1);
        assert_eq!(step.row_full, count == 7);
        assert!(!step.end);
    }
    // Group 1 has used its budget: its samples are passed over.
    for tap in order.iter() {
        assert!(!cursor.feed(group_sample(1, 1, *tap)).row_full);
    }
    for (count, tap) in (0..8).enumerate() {
        let step = cursor.feed(group_sample(1, 0, tap));
        assert_eq!(step.mic, 0);
        assert_eq!(step.row_full, count == 7);
        assert_eq!(step.end, count == 7);
    }
}

#[test]
fn cursor_gives_output_once_the_ring_is_full() {
    let mut cursor = I2sCursor::new(0, 40);
    let mut outputs = Vec::new();
    let mut rows = 0;
    for row in 0..40 {
        for tap in [1, 2, 3, 4, 5, 6, 7, 0] {
            let step = cursor.feed(group_sample(row, 1, tap));
            if step.row_full {
                rows += 1;
                assert_eq!(step.samples.is_some(), rows >= 33);
                if let Some(samples) = step.samples {
                    outputs.push(samples);
                }
            }
        }
    }
    assert_eq!(rows, 40);
    assert_eq!(outputs.len(), 8);
    // The middle tap is row 16 of the ring: eight samples of the value 16, group 1.
    let want = (0..8).map(|tap| group_sample(16, 1, tap) as i64).sum::<i64>() / 8;
    assert_eq!(outputs[0][MID] as i64, want);
}

#[test]
fn cursor_enters_shards_at_the_start_offset_while_seeking() {
    let mut cursor = I2sCursor::new(100, 5);
    assert_eq!(cursor.enter(100), Some(100));
    assert_eq!(cursor.enter(500), Some(100));
    assert_eq!(cursor.enter(99), None);
    cursor.feed(group_sample(0, 1, 1));
    assert_eq!(cursor.enter(99), Some(0));
}

#[test]
fn cursor_with_no_budget_ends_at_the_first_sample() {
    let mut cursor = I2sCursor::new(0, 0);
    assert!(!cursor.feed(group_sample(0, 0, 1)).end);
    assert!(cursor.feed(group_sample(0, 1, 1)).end);
}
