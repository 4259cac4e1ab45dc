//! The multiplexed stream of two microphone groups, and its split into phase taps.

use vstd::prelude::*;
use vstd::string::StringExecFns;
use crate::text::{append_decimal, spec_decimal};
use vstd::arithmetic::div_mod::lemma_mod_multiples_vanish;
use circular_buffer::CircularBuffer;

verus! {

/// Rows that the ring of one microphone group holds.
pub const BUF_SIZE: usize = 33;

/// Phase taps in one row.
pub const BUF_SIZE_INNER: usize = 8;

/// The middle tap.
pub const MID: usize = 4;

/// Output streams of one microphone group.
pub const TAPS: usize = 9;

#[verifier::external_type_specification]
#[verifier::external_body]
#[verifier::reject_recursive_types(T)]
pub struct ExCircularBuffer<const N: usize, T>(circular_buffer::CircularBuffer<N, T>);

/// The rows that a ring holds, oldest first.
pub uninterp spec fn ring_rows(ring: CircularBuffer<33, [i32; 8]>) -> Seq<Seq<i32>>;

/// `CircularBuffer::new`: a ring that holds no row.
#[verifier::external_body]
fn ring_new() -> (ring: CircularBuffer<33, [i32; 8]>)
    ensures
        ring_rows(ring) == Seq::<Seq<i32>>::empty(),
{
    CircularBuffer::new()
}

/// `CircularBuffer::push_back`: the row goes to the back; from a ring that
/// holds 33 rows the front row leaves.
#[verifier::external_body]
fn ring_push_back(ring: &mut CircularBuffer<33, [i32; 8]>, row: [i32; 8])
    ensures
        ring_rows(*final(ring)) == if ring_rows(*old(ring)).len() < 33 {
            ring_rows(*old(ring)).push(row@)
        } else {
            ring_rows(*old(ring)).drop_first().push(row@)
        },
{
    ring.push_back(row);
}

/// `CircularBuffer::is_full`: whether the ring holds 33 rows.
#[verifier::external_body]
fn ring_is_full(ring: &CircularBuffer<33, [i32; 8]>) -> (full: bool)
    ensures
        full == (ring_rows(*ring).len() == 33),
{
    ring.is_full()
}

/// The index operator of `CircularBuffer`: the row at `index`, counted from the front.
#[verifier::external_body]
fn ring_row(ring: &CircularBuffer<33, [i32; 8]>, index: usize) -> (row: [i32; 8])
    requires
        index < ring_rows(*ring).len(),
    ensures
        row@ == ring_rows(*ring)[index as int],
{
    ring[index]
}

/// The state of one microphone group: the rows of its ring, oldest first, the
/// row in progress, and which of its slots were written.
#[verifier::ext_equal]
pub struct DemuxState {
    pub rows: Seq<Seq<i32>>,
    pub row: Seq<i32>,
    pub written: Seq<bool>,
}

/// The row of the ring that tap `tap` reads for slot `slot`.
pub open spec fn spec_row_index(tap: int, slot: int) -> int {
    MID * tap + slot * (MID - tap)
}

/// The sum of the first `upto` slots along the diagonal of tap `tap`.
pub open spec fn spec_diagonal(rows: Seq<Seq<i32>>, tap: int, upto: int) -> int
    decreases upto,
{
    if upto <= 0 {
        0
    } else {
        spec_diagonal(rows, tap, upto - 1) + rows[spec_row_index(tap, upto - 1)][upto - 1]
    }
}

/// An eighth of `sum`, rounded toward zero.
pub open spec fn spec_eighth(sum: int) -> int {
    if sum >= 0 {
        sum / 8
    } else {
        -((-sum) / 8)
    }
}

/// The output sample of tap `tap`: the mean of the eight samples on its diagonal.
pub open spec fn spec_tap(rows: Seq<Seq<i32>>, tap: int) -> int {
    spec_eighth(spec_diagonal(rows, tap, BUF_SIZE_INNER as int))
}

/// Whether every slot of a row was written.
pub open spec fn spec_complete(written: Seq<bool>) -> bool {
    forall|k: int| 0 <= k < written.len() ==> #[trigger] written[k]
}

/// The slots of a row that were written, among the first `upto`.
pub open spec fn spec_count(written: Seq<bool>, upto: int) -> int
    decreases upto,
{
    if upto <= 0 {
        0
    } else {
        spec_count(written, upto - 1) + if written[upto - 1] {
            1int
        } else {
            0int
        }
    }
}

/// The ring after one more row: it holds at most `BUF_SIZE` rows, the newest last.
pub open spec fn spec_push_row(rows: Seq<Seq<i32>>, row: Seq<i32>) -> Seq<Seq<i32>> {
    if rows.len() < BUF_SIZE {
        rows.push(row)
    } else {
        rows.drop_first().push(row)
    }
}

impl DemuxState {
    /// Whether the ring holds `BUF_SIZE` rows, so that output is computed.
    pub open spec fn is_full(self) -> bool {
        self.rows.len() == BUF_SIZE
    }

    /// The state after `value` was written to slot `slot`, and whether
    /// that completed the row.
    ///
    /// A row is complete when each of its slots was written, in whatever order
    /// and however often. The complete row goes into the ring, and the next
    /// row starts with no slot written.
    pub open spec fn set_inner(self, value: i32, slot: int) -> (DemuxState, bool) {
        let row = self.row.update(slot, value);
        let written = self.written.update(slot, true);
        if spec_complete(written) {
            (
                DemuxState {
                    rows: spec_push_row(self.rows, row),
                    row,
                    written: Seq::new(BUF_SIZE_INNER as nat, |k: int| false),
                },
                true,
            )
        } else {
            (DemuxState { rows: self.rows, row, written }, false)
        }
    }

    /// The output samples, one for each tap, once the ring is full.
    pub open spec fn compute_samples(self) -> Option<Seq<i32>> {
        if self.is_full() {
            Some(Seq::new(TAPS as nat, |tap: int| spec_tap(self.rows, tap) as i32))
        } else {
            None
        }
    }
}

/// As many slots were written as there are slots if and only if each was written.
proof fn lemma_count_complete(written: Seq<bool>, upto: int)
    requires
        0 <= upto <= written.len(),
    ensures
        0 <= spec_count(written, upto) <= upto,
        spec_count(written, upto) == upto <==> forall|k: int|
            0 <= k < upto ==> #[trigger] written[k],
    decreases upto,
{
    if upto > 0 {
        lemma_count_complete(written, upto - 1);
    }
}

/// Of a row with no slot written the count is zero.
proof fn lemma_count_none(written: Seq<bool>, upto: int)
    requires
        0 <= upto <= written.len(),
        forall|k: int| 0 <= k < upto ==> !#[trigger] written[k],
    ensures
        spec_count(written, upto) == 0,
    decreases upto,
{
    if upto > 0 {
        lemma_count_none(written, upto - 1);
    }
}

/// Writing a slot adds one to the count where the slot was not written before.
proof fn lemma_count_update(written: Seq<bool>, slot: int, upto: int)
    requires
        0 <= slot < written.len(),
        0 <= upto <= written.len(),
    ensures
        spec_count(written.update(slot, true), upto) == spec_count(written, upto) + if slot < upto
            && !written[slot] {
            1int
        } else {
            0int
        },
    decreases upto,
{
    if upto > 0 {
        lemma_count_update(written, slot, upto - 1);
    }
}

/// The row of the ring that tap `tap` reads for slot `slot`.
fn row_index(tap: usize, slot: usize) -> (index: usize)
    requires
        tap < TAPS,
        slot < BUF_SIZE_INNER,
    ensures
        index == spec_row_index(tap as int, slot as int),
        index < BUF_SIZE,
{
    if tap <= MID {
        let step = MID - tap;
        assert(0 <= slot * step <= 7 * 4 && slot * step <= 28 - 7 * tap + 7 * tap) by (nonlinear_arith)
            requires
                0 <= slot <= 7,
                0 <= step <= 4,
        ;
        assert(slot * step <= 7 * step) by (nonlinear_arith)
            requires
                0 <= slot <= 7,
                0 <= step,
        ;
        MID * tap + slot * step
    } else {
        let step = tap - MID;
        assert(0 <= slot * step <= 7 * step) by (nonlinear_arith)
            requires
                0 <= slot <= 7,
                0 <= step,
        ;
        assert(slot * (MID - tap) == -(slot * step)) by (nonlinear_arith)
            requires
                step == tap - MID,
        ;
        MID * tap - slot * step
    }
}

/// An eighth of `sum`, rounded toward zero.
fn eighth(sum: i64) -> (mean: i32)
    requires
        -0x4_0000_0000 <= sum <= 0x4_0000_0000 - 8,
    ensures
        mean == spec_eighth(sum as int),
{
    if sum >= 0 {
        (sum / 8) as i32
    } else {
        (-((-sum) / 8)) as i32
    }
}

/// The demultiplexer of one microphone group.
///
/// Samples are written to the slots of a row; each complete row goes into a
/// ring of `BUF_SIZE` rows, and once the ring is full every row gives one output
/// sample for each of the `TAPS` taps.
pub struct CircularI2S {
    buf: CircularBuffer<33, [i32; 8]>,
    new_row: [i32; 8],
    written: [bool; 8],
    inner_index: usize,
}

impl View for CircularI2S {
    type V = DemuxState;

    closed spec fn view(&self) -> DemuxState {
        DemuxState { rows: ring_rows(self.buf), row: self.new_row@, written: self.written@ }
    }
}

impl CircularI2S {
    /// The ring holds no more rows than it can, and the row in progress is not complete.
    pub closed spec fn wf(&self) -> bool {
        &&& ring_rows(self.buf).len() <= BUF_SIZE
        &&& forall|j: int|
            0 <= j < ring_rows(self.buf).len() ==> (#[trigger] ring_rows(self.buf)[j]).len()
                == BUF_SIZE_INNER
        &&& self.inner_index == spec_count(self.written@, BUF_SIZE_INNER as int)
        &&& self.inner_index < BUF_SIZE_INNER
    }

    /// What `wf` says of the state, for callers.
    pub proof fn lemma_wf(&self)
        requires
            self.wf(),
        ensures
            self@.rows.len() <= BUF_SIZE,
            forall|j: int| 0 <= j < self@.rows.len() ==> (#[trigger] self@.rows[j]).len()
                == BUF_SIZE_INNER,
            self@.row.len() == BUF_SIZE_INNER,
            self@.written.len() == BUF_SIZE_INNER,
            !spec_complete(self@.written),
    {
        lemma_count_complete(self.written@, BUF_SIZE_INNER as int);
    }

    /// A demultiplexer with an empty ring and no slot written.
    pub fn new() -> (demux: CircularI2S)
        ensures
            demux.wf(),
            demux@.rows == Seq::<Seq<i32>>::empty(),
            demux@.row == Seq::new(BUF_SIZE_INNER as nat, |k: int| 0i32),
            demux@.written == Seq::new(BUF_SIZE_INNER as nat, |k: int| false),
    {
        let demux = CircularI2S {
            buf: ring_new(),
            new_row: [0; 8],
            written: [false; 8],
            inner_index: 0,
        };
        proof {
            lemma_count_none(demux.written@, BUF_SIZE_INNER as int);
        }
        demux
    }

    /// Counts slot `index` of the row in progress as written; a row of which
    /// every slot was written goes into the ring, and the next row begins.
    fn increment_index(&mut self, index: usize) -> (row_full: bool)
        requires
            old(self).wf(),
            index < BUF_SIZE_INNER,
        ensures
            final(self).wf(),
            row_full == spec_complete(old(self).written@.update(index as int, true)),
            final(self).new_row == old(self).new_row,
            final(self).written@ == if row_full {
                Seq::new(BUF_SIZE_INNER as nat, |k: int| false)
            } else {
                old(self).written@.update(index as int, true)
            },
            ring_rows(final(self).buf) == if row_full {
                spec_push_row(ring_rows(old(self).buf), old(self).new_row@)
            } else {
                ring_rows(old(self).buf)
            },
    {
        proof {
            lemma_count_update(self.written@, index as int, BUF_SIZE_INNER as int);
            lemma_count_complete(
                self.written@.update(index as int, true),
                BUF_SIZE_INNER as int,
            );
        }
        if !self.written[index] {
            self.written[index] = true;
            self.inner_index = self.inner_index + 1;
        }
        let row_full = self.inner_index == BUF_SIZE_INNER;
        if row_full {
            ring_push_back(&mut self.buf, self.new_row);
            self.inner_index = 0;
            self.written = [false; 8];
            proof {
                lemma_count_none(self.written@, BUF_SIZE_INNER as int);
            }
        }
        row_full
    }

    /// Writes `value` to slot `index` of the row in progress, and says whether
    /// that completed the row.
    pub fn set_inner(&mut self, value: i32, index: usize) -> (row_full: bool)
        requires
            old(self).wf(),
            index < BUF_SIZE_INNER,
        ensures
            final(self).wf(),
            (final(self)@, row_full) == old(self)@.set_inner(value, index as int),
    {
        self.new_row[index] = value;
        self.increment_index(index)
    }

    /// Whether the ring is full.
    pub fn is_full(&self) -> (full: bool)
        ensures
            full == self@.is_full(),
    {
        ring_is_full(&self.buf)
    }

    /// Computes the output samples, one for each tap, once the ring is full.
    ///
    /// Tap `tap` takes slot `slot` from row `MID * tap + slot * (MID - tap)` of
    /// the ring, for each of the eight slots, and gives the mean of the eight
    /// samples, rounded toward zero.
    pub fn compute_samples(&self) -> (samples: Option<[i32; 9]>)
        requires
            self.wf(),
        ensures
            match samples {
                Some(out) => self@.compute_samples() == Some(out@),
                None => self@.compute_samples() == None::<Seq<i32>>,
            },
    {
        if !ring_is_full(&self.buf) {
            return None;
        }
        let ghost rows = ring_rows(self.buf);
        let mut out: [i32; 9] = [0; 9];
        let mut tap: usize = 0;
        while tap < TAPS
            invariant
                tap <= TAPS,
                self.wf(),
                rows == ring_rows(self.buf),
                rows.len() == BUF_SIZE,
                forall|t: int| 0 <= t < tap ==> out@[t] == spec_tap(rows, t),
            decreases TAPS - tap,
        {
            let mut sum: i64 = 0;
            let mut slot: usize = 0;
            while slot < BUF_SIZE_INNER
                invariant
                    slot <= BUF_SIZE_INNER,
                    tap < TAPS,
                    self.wf(),
                    rows == ring_rows(self.buf),
                    rows.len() == BUF_SIZE,
                    sum == spec_diagonal(rows, tap as int, slot as int),
                    -0x8000_0000 * slot <= sum <= 0x7FFF_FFFF * slot,
                decreases BUF_SIZE_INNER - slot,
            {
                let index = row_index(tap, slot);
                let row = ring_row(&self.buf, index);
                sum = sum + row[slot] as i64;
                slot = slot + 1;
            }
            let mean = eighth(sum);
            out[tap] = mean;
            tap = tap + 1;
        }
        proof {
            let want = Seq::new(TAPS as nat, |tap: int| spec_tap(rows, tap) as i32);
        }
        Some(out)
    }
}

/// The microphone group of a sample: bit 3.
pub open spec fn spec_mic(sample: i32) -> usize {
    ((sample as u32 & 0b1000) >> 3) as usize
}

/// The phase tap of a sample: bits 0 to 2.
pub open spec fn spec_slot(sample: i32) -> usize {
    (sample as u32 & 0b111) as usize
}

/// The microphone group of a sample: 0 or 1.
pub fn mic(sample: i32) -> (group: usize)
    ensures
        group == spec_mic(sample),
        group < 2,
{
    let bits = sample as u32;
    assert((bits & 0b1000) >> 3 < 2) by (bit_vector);
    ((bits & 0b1000) >> 3) as usize
}

/// The phase tap of a sample: 0 to 7.
pub fn slot(sample: i32) -> (tap: usize)
    ensures
        tap == spec_slot(sample),
        tap < BUF_SIZE_INNER,
{
    let bits = sample as u32;
    assert(bits & 0b111 < 8) by (bit_vector);
    (bits & 0b111) as usize
}

/// The routing bits as arithmetic: the tap is the sample modulo 8, and the
/// group says whether the sample modulo 16 reaches 8.
pub proof fn law_routing_bits(sample: i32)
    ensures
        spec_slot(sample) == sample as int % 8,
        spec_mic(sample) == (sample as int % 16) / 8,
{
    let bits = sample as u32;
    assert(bits & 0b111 == bits % 8) by (bit_vector);
    assert((bits & 0b1000) >> 3 == (bits % 16) / 8) by (bit_vector);
    if sample >= 0 {
        assert(bits == sample) by (bit_vector)
            requires
                bits == sample as u32,
                sample >= 0,
        ;
    } else {
        assert(bits == sample + 0x1_0000_0000) by (bit_vector)
            requires
                bits == sample as u32,
                sample < 0,
        ;
        lemma_mod_multiples_vanish(0x2000_0000, sample as int, 8);
        lemma_mod_multiples_vanish(0x1000_0000, sample as int, 16);
    }
}

/// The state of the stream of both microphone groups.
///
/// `seeking` holds until the first sample of group 1, tap 1 was seen; `left`
/// counts the rows that each group may still complete.
#[verifier::ext_equal]
pub struct StreamState {
    pub seeking: bool,
    pub left0: u64,
    pub left1: u64,
    pub group0: DemuxState,
    pub group1: DemuxState,
}

/// What one sample of the stream brought.
pub struct StreamStep {
    /// The microphone group of the sample.
    pub mic: usize,
    /// Whether the sample completed a row of its group.
    pub row_full: bool,
    /// The output samples of the group, one for each tap, where the sample
    /// completed a row and the ring of the group is full.
    pub samples: Option<[i32; 9]>,
    /// Whether neither group may complete another row.
    pub end: bool,
}

impl StreamState {
    /// The state after one more sample, whether the sample completed a row,
    /// the output that it gave, and whether the stream has ended.
    ///
    /// Samples before the first one of group 1, tap 1 are passed over. After
    /// that each sample is written to the slot of its tap in its group, as long
    /// as the group may still complete a row. A complete row counts against
    /// the group, and gives output once the ring of the group is full. The
    /// stream ends when neither group may complete another row.
    pub open spec fn feed(self, sample: i32) -> (StreamState, bool, Option<Seq<i32>>, bool) {
        let mic = spec_mic(sample);
        let tap = spec_slot(sample);
        if self.seeking && (mic != 1 || tap != 1) {
            (self, false, None, false)
        } else {
            let left = if mic == 0 {
                self.left0
            } else {
                self.left1
            };
            let group = if mic == 0 {
                self.group0
            } else {
                self.group1
            };
            let (written, row_full) = if left > 0 {
                group.set_inner(sample, tap as int)
            } else {
                (group, false)
            };
            let rest = if row_full {
                (left - 1) as u64
            } else {
                left
            };
            let after = if mic == 0 {
                StreamState {
                    seeking: false,
                    left0: rest,
                    left1: self.left1,
                    group0: written,
                    group1: self.group1,
                }
            } else {
                StreamState {
                    seeking: false,
                    left0: self.left0,
                    left1: rest,
                    group0: self.group0,
                    group1: written,
                }
            };
            (
                after,
                row_full,
                if row_full {
                    written.compute_samples()
                } else {
                    None
                },
                after.left0 == 0 && after.left1 == 0,
            )
        }
    }
}

/// The stream of both microphone groups, one sample at a time.
pub struct I2sCursor {
    start: bool,
    file_start_sample: u32,
    left0: u64,
    left1: u64,
    first: CircularI2S,
    second: CircularI2S,
}

impl View for I2sCursor {
    type V = StreamState;

    closed spec fn view(&self) -> StreamState {
        StreamState {
            seeking: self.start,
            left0: self.left0,
            left1: self.left1,
            group0: self.first@,
            group1: self.second@,
        }
    }
}

impl I2sCursor {
    /// Both demultiplexers are well formed.
    pub closed spec fn wf(&self) -> bool {
        self.first.wf() && self.second.wf()
    }

    /// The offset at which reading starts in a shard that is opened while the
    /// cursor still seeks its first sample.
    pub closed spec fn spec_file_start_sample(&self) -> u32 {
        self.file_start_sample
    }

    /// A cursor that starts reading at `file_start_sample` and lets each group
    /// complete `samples` rows.
    pub fn new(file_start_sample: u32, samples: u64) -> (cursor: I2sCursor)
        ensures
            cursor.wf(),
            cursor.spec_file_start_sample() == file_start_sample,
            cursor@.seeking,
            cursor@.left0 == samples,
            cursor@.left1 == samples,
            cursor@.group0.rows == Seq::<Seq<i32>>::empty(),
            cursor@.group1.rows == Seq::<Seq<i32>>::empty(),
    {
        I2sCursor {
            start: true,
            file_start_sample,
            left0: samples,
            left1: samples,
            first: CircularI2S::new(),
            second: CircularI2S::new(),
        }
    }

    /// Where to start reading a shard of `duration` samples that was just
    /// opened: at the start offset while the cursor still seeks its first
    /// sample, unless the shard ends before it, which gives `None`; at the start
    /// of the shard afterwards.
    pub fn enter(&self, duration: u32) -> (from: Option<u32>)
        ensures
            from == if !self@.seeking {
                Some(0u32)
            } else if self.spec_file_start_sample() <= duration {
                Some(self.spec_file_start_sample())
            } else {
                None
            },
    {
        if !self.start {
            Some(0)
        } else if self.file_start_sample <= duration {
            Some(self.file_start_sample)
        } else {
            None
        }
    }

    /// Takes the next sample of the stream.
    pub fn feed(&mut self, sample: i32) -> (step: StreamStep)
        requires
            old(self).wf(),
        ensures
            final(self).wf(),
            final(self).spec_file_start_sample() == old(self).spec_file_start_sample(),
            step.mic == spec_mic(sample),
            (
                final(self)@,
                step.row_full,
                match step.samples {
                    Some(out) => Some(out@),
                    None => None,
                },
                step.end,
            ) == old(self)@.feed(sample),
    {
        let mic = mic(sample);
        let tap = slot(sample);
        if self.start && (mic != 1 || tap != 1) {
            return StreamStep { mic, row_full: false, samples: None, end: false };
        }
        self.start = false;
        let mut row_full = false;
        let mut samples: Option<[i32; 9]> = None;
        if mic == 0 {
            if self.left0 > 0 {
                row_full = self.first.set_inner(sample, tap);
                if row_full {
                    samples = self.first.compute_samples();
                    self.left0 = self.left0 - 1;
                }
            }
        } else {
            if self.left1 > 0 {
                row_full = self.second.set_inner(sample, tap);
                if row_full {
                    samples = self.second.compute_samples();
                    self.left1 = self.left1 - 1;
                }
            }
        }
        let end = self.left0 == 0 && self.left1 == 0;
        StreamStep { mic, row_full, samples, end }
    }
}

/// On a ramp the diagonal mean is exact: where slot `slot` of row `row` of
/// the ring holds `(base + row) * 8 + slot`, tap `tap` gives the mean of the
/// eight samples `(base + row_k) * 8 + k` on its diagonal, which is
/// `8 * base + 4 * tap + 115` (the exact mean lies a half above it). The
/// middle tap reads one row only, row 16.
pub proof fn law_ramp_taps(rows: Seq<Seq<i32>>, base: int, tap: int)
    requires
        rows.len() == BUF_SIZE,
        0 <= base,
        0 <= tap < TAPS,
        forall|row: int, slot: int|
            0 <= row < BUF_SIZE && 0 <= slot < BUF_SIZE_INNER ==> #[trigger] rows[row][slot] == (
            base + row) * 8 + slot,
    ensures
        spec_diagonal(rows, tap, BUF_SIZE_INNER as int) == 64 * base + 32 * tap + 924,
        spec_tap(rows, tap) == 8 * base + 4 * tap + 115,
        tap == MID ==> spec_tap(rows, tap) == (rows[16][0] + rows[16][1] + rows[16][2] + rows[16][3]
            + rows[16][4] + rows[16][5] + rows[16][6] + rows[16][7]) / 8,
{
    reveal_with_fuel(spec_diagonal, 9);
    assert(rows[spec_row_index(tap, 0)][0] == (base + 4 * tap) * 8);
    assert(rows[spec_row_index(tap, 1)][1] == (base + 3 * tap + 4) * 8 + 1);
    assert(rows[spec_row_index(tap, 2)][2] == (base + 2 * tap + 8) * 8 + 2);
    assert(rows[spec_row_index(tap, 3)][3] == (base + tap + 12) * 8 + 3);
    assert(rows[spec_row_index(tap, 4)][4] == (base + 16) * 8 + 4);
    assert(rows[spec_row_index(tap, 5)][5] == (base - tap + 20) * 8 + 5);
    assert(rows[spec_row_index(tap, 6)][6] == (base - 2 * tap + 24) * 8 + 6);
    assert(rows[spec_row_index(tap, 7)][7] == (base - 3 * tap + 28) * 8 + 7);
}

/// The file name of one output stream: the output path, the number of the
/// microphone group, the tap, and the extension `.wav`.
pub open spec fn spec_tap_name(path: Seq<char>, num: u8, tap: usize) -> Seq<char> {
    path + seq!['_'] + spec_decimal(num as nat) + seq!['_'] + spec_decimal(tap as nat) + ".wav"@
}

/// Names the file of one output stream of a microphone group.
pub fn tap_name(path: &str, num: u8, tap: usize) -> (name: String)
    ensures
        name@ == spec_tap_name(path@, num, tap),
{
    proof {
        reveal_strlit("_");
        assert("_"@ =~= seq!['_']);
    }
    let mut name = String::from_str(path);
    name.append("_");
    append_decimal(&mut name, num as u64);
    name.append("_");
    append_decimal(&mut name, tap as u64);
    name.append(".wav");
    assert(name@ =~= spec_tap_name(path@, num, tap));
    name
}

} // verus!
