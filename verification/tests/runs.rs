use wavcut::runs::{run_of_cut, runs, CutRecord, RunsError};

fn cut(start: &str, end: &str, range: &str, flight: &str) -> CutRecord {
    CutRecord {
        start: start.to_string(),
        end: end.to_string(),
        range: range.to_string(),
        flight: flight.to_string(),
    }
}

#[test]
fn without_cuts_there_is_one_run() {
    let made = runs(Some(5), Some(7), None, "umc", 12).unwrap();
    assert_eq!(made.len(), 1);
    assert_eq!(made[0].start, Some(5));
    assert_eq!(made[0].samples, Some(7));
    assert_eq!(made[0].output_dir_ext, "umc/12");
    let made = runs(None, None, None, "i2s", 255).unwrap();
    assert_eq!((made[0].start, made[0].samples), (None, None));
    assert_eq!(made[0].output_dir_ext, "i2s/255");
    assert_eq!(runs(None, None, None, "i2s", 0).unwrap()[0].output_dir_ext, "i2s/0");
    assert_eq!(runs(None, None, None, "i2s", 100).unwrap()[0].output_dir_ext, "i2s/100");
}

#[test]
fn cuts_give_one_run_each() {
    let table = vec![
        cut("1970-01-01T00:00:01Z", "1970-01-01T00:00:03Z", "near", "3"),
        cut("2024-05-06T07:08:09.5+02:00", "2024-05-06T05:08:10Z", ".", "."),
    ];
    let made = runs(None, None, Some(&table), "umc", 4).unwrap();
    assert_eq!(made.len(), 2);
    assert_eq!(made[0].start, Some(1_000_000_000));
    assert_eq!(made[0].samples, Some(96000));
    assert_eq!(made[0].output_dir_ext, "umc/flight_3/4/near/");
    assert_eq!(made[1].start, Some(1_714_972_089_500_000_000));
    assert_eq!(made[1].samples, Some(24000));
    assert_eq!(made[1].output_dir_ext, "umc/4/");
}

#[test]
fn raw_mode_counts_four_channels_at_192_khz() {
    let table = vec![cut("1970-01-01T00:00:00Z", "1970-01-01T00:00:01Z", ".", "7")];
    let made = runs(None, None, Some(&table), "rawi2s", 9).unwrap();
    assert_eq!(made[0].samples, Some(768000));
    assert_eq!(made[0].output_dir_ext, "rawi2s/flight_7/9/");
}

#[test]
fn bad_instant_fails_the_table() {
    let table = vec![
        cut("1970-01-01T00:00:01Z", "1970-01-01T00:00:03Z", ".", "."),
        cut("1970-01-01T00:00:01Z", "tomorrow", ".", "."),
        cut("never", "1970-01-01T00:00:03Z", ".", "."),
    ];
    assert_eq!(runs(None, None, Some(&table), "umc", 4).err(), Some(RunsError::BadInstant(1)));
    let table = vec![cut("1970-01-01 00:00:01", "1970-01-01T00:00:03Z", ".", ".")];
    assert_eq!(runs(None, None, Some(&table), "umc", 4).err(), Some(RunsError::BadInstant(0)));
    assert_eq!(runs(None, None, Some(&Vec::new()), "umc", 4).unwrap().len(), 0);
}

#[test]
fn run_of_cut_rounds_and_never_counts_backward() {
    let row = cut("", "", "r", ".");
    let run = run_of_cut(0, 10_416, &row, "umc", 1);
    assert_eq!(run.samples, Some(0));
    assert_eq!(run_of_cut(0, 10_417, &row, "umc", 1).samples, Some(1));
    assert_eq!(run_of_cut(5, 5, &row, "umc", 1).samples, Some(0));
    assert_eq!(run_of_cut(9, 5, &row, "umc", 1).samples, Some(0));
    assert_eq!(run_of_cut(i64::MIN, i64::MAX, &row, "rawi2s", 1).samples, Some(14_167_099_448_608_936));
    assert_eq!(run.output_dir_ext, "umc/1/r/");
    assert_eq!(run.start, Some(0));
}
