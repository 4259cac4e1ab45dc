//! The clock table: rows that tie wall-clock instants to places in the shards.

use vstd::prelude::*;
use crate::pps::{distance, sample_delta, spec_distance, spec_sample_delta};

verus! {

/// One row of the clock table.
///
/// At the instant `time`, in nanoseconds since the epoch, the recording stood
/// at sample `file_sample` of the shard named `file`, and the uninterrupted
/// timeline at sample `sample`.
#[derive(Clone, Debug)]
pub struct Record {
    pub time: i64,
    pub sample: u64,
    pub file_sample: u32,
    pub file: String,
}

/// Where an extraction starts: the row of the clock table that names the
/// shard, and the sample offset in that shard.
#[derive(Clone, Copy, Debug, PartialEq, Eq, Structural)]
pub struct ClockStart {
    pub record: usize,
    pub file_start_sample: u32,
}

/// The instants of the rows.
pub open spec fn spec_times(records: Seq<Record>) -> Seq<i64> {
    Seq::new(records.len(), |i: int| records[i].time)
}

/// The least distance of an instant of `times` from `start`, and `i64::MAX`
/// where there is none.
pub open spec fn spec_min_gap(times: Seq<i64>, start: i64) -> int
    decreases times.len(),
{
    if times.len() == 0 {
        i64::MAX as int
    } else {
        let before = spec_min_gap(times.drop_last(), start);
        let last = spec_distance(times.last(), start);
        if last < before {
            last
        } else {
            before
        }
    }
}

/// Whether `row` is the first of the rows nearest to `start`; where no row is
/// nearer than `i64::MAX`, the first row stands for them.
pub open spec fn spec_is_nearest(times: Seq<i64>, start: i64, row: int) -> bool {
    if spec_min_gap(times, start) == i64::MAX {
        row == 0
    } else {
        &&& 0 <= row < times.len()
        &&& spec_distance(times[row], start) == spec_min_gap(times, start)
        &&& forall|j: int|
            0 <= j < row ==> spec_distance(#[trigger] times[j], start) > spec_min_gap(times, start)
    }
}

/// The sample offset of the instant `start`, given a row at `time` and
/// `file_sample`: the offset of the row, moved by the distance of the two
/// instants in samples at `freq` hertz, and kept within `0..=u32::MAX`.
pub open spec fn spec_offset(file_sample: u32, time: i64, start: i64, freq: u32) -> int {
    let delta = spec_sample_delta(start, time, freq);
    let moved = if start < time {
        file_sample - delta
    } else {
        file_sample + delta
    };
    if moved < 0 {
        0
    } else if moved > u32::MAX {
        u32::MAX as int
    } else {
        moved
    }
}

/// What `locate` owes.
pub open spec fn spec_located(
    records: Seq<Record>,
    start: Option<i64>,
    freq: u32,
    found: Option<ClockStart>,
) -> bool {
    if records.len() == 0 {
        found is None
    } else {
        match (start, found) {
            (_, None) => false,
            (None, Some(at)) => at.record == 0 && at.file_start_sample == 0,
            (Some(t), Some(at)) => {
                &&& spec_is_nearest(spec_times(records), t, at.record as int)
                &&& at.file_start_sample == if spec_min_gap(spec_times(records), t) == i64::MAX {
                    0
                } else {
                    spec_offset(
                        records[at.record as int].file_sample,
                        records[at.record as int].time,
                        t,
                        freq,
                    )
                }
            },
        }
    }
}

/// The sample offset of the instant `start`, given a row at `time` and `file_sample`.
pub fn offset(file_sample: u32, time: i64, start: i64, freq: u32) -> (moved: u32)
    ensures
        moved == spec_offset(file_sample, time, start, freq),
{
    let delta = sample_delta(start, time, freq);
    if start < time {
        if delta >= file_sample as u128 {
            0
        } else {
            (file_sample as u128 - delta) as u32
        }
    } else {
        let moved = file_sample as u128 + delta;
        if moved > u32::MAX as u128 {
            u32::MAX
        } else {
            moved as u32
        }
    }
}

/// No instant is nearer than the least distance.
proof fn lemma_min_gap_bounds(times: Seq<i64>, start: i64)
    ensures
        0 <= spec_min_gap(times, start) <= i64::MAX,
        forall|j: int|
            0 <= j < times.len() ==> spec_min_gap(times, start) <= spec_distance(
                #[trigger] times[j],
                start,
            ),
    decreases times.len(),
{
    if times.len() > 0 {
        lemma_min_gap_bounds(times.drop_last(), start);
        assert forall|j: int| 0 <= j < times.len() implies spec_min_gap(times, start)
            <= spec_distance(#[trigger] times[j], start) by {
            if j < times.len() - 1 {
                assert(times.drop_last()[j] == times[j]);
            }
        }
    }
}

/// Finds the place at which an extraction starts.
///
/// Without rows there is no place. Without an instant the extraction starts
/// with the first row's shard, at its first sample. With an instant it starts
/// in the shard of the row nearest to the instant (of several at one distance
/// the first), at the row's offset moved by the distance in samples at `freq`
/// hertz.
pub fn locate(records: &Vec<Record>, start: Option<i64>, freq: u32) -> (found: Option<ClockStart>)
    ensures
        spec_located(records@, start, freq, found),
{
    if records.len() == 0 {
        return None;
    }
    let t = match start {
        Some(t) => t,
        None => {
            return Some(ClockStart { record: 0, file_start_sample: 0 });
        },
    };
    let ghost times = spec_times(records@);
    let mut best: usize = 0;
    let mut gap: i64 = i64::MAX;
    let mut at: usize = 0;
    while at < records.len()
        invariant
            at <= records@.len(),
            records@.len() > 0,
            times == spec_times(records@),
            gap == spec_min_gap(times.take(at as int), t),
            spec_is_nearest(times.take(at as int), t, best as int),
            best < records@.len(),
        decreases records@.len() - at,
    {
        let d = distance(records[at].time, t);
        proof {
            assert(times.take(at + 1).drop_last() == times.take(at as int));
            lemma_min_gap_bounds(times.take(at as int), t);
        }
        if d < gap {
            gap = d;
            best = at;
        }
        at = at + 1;
    }
    proof {
        assert(times.take(at as int) == times);
    }
    let moved = if gap == i64::MAX {
        0
    } else {
        offset(records[best].file_sample, records[best].time, t, freq)
    };
    Some(ClockStart { record: best, file_start_sample: moved })
}

/// The instant of sample 0 of the uninterrupted timeline, given that sample
/// `sample` of it lies at the instant `time`: `time` less the length of
/// `sample` samples at `freq` hertz, in nanoseconds rounded to the nearest, a
/// half upward, and kept within the range of `i64`.
pub open spec fn spec_origin(time: i64, sample: u64, freq: u32) -> int {
    let length = (sample * 2_000_000_000 + freq) / (2 * freq);
    if time - length < i64::MIN {
        i64::MIN as int
    } else {
        time - length
    }
}

/// The instant of sample 0 of the uninterrupted timeline.
pub fn origin(time: i64, sample: u64, freq: u32) -> (nanos: i64)
    requires
        freq > 0,
    ensures
        nanos == spec_origin(time, sample, freq),
{
    let length: u128 = (sample as u128 * 2_000_000_000 + freq as u128) / (2 * freq as u128);
    let moved: i128 = time as i128 - length as i128;
    if moved < i64::MIN as i128 {
        i64::MIN
    } else {
        moved as i64
    }
}

} // verus!
