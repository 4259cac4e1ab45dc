//! The extraction cursor: it streams samples from a start place for a budget
//! of samples, leaves the marker payloads out, and cuts known-bad windows out
//! of the output while it keeps count of the uninterrupted timeline.

use vstd::prelude::*;
use vstd::string::StringExecFns;
use crate::text::{append_decimal, spec_decimal};
use crate::pps::{find_start, spec_start, Pps, ResolveError, ResolvedPosition, SENTINEL};

verus! {

/// A known-bad span of the recording, from `start` up to `end`, which is the
/// first good place after it, and its length in nanoseconds.
#[derive(Clone, Copy, Debug, PartialEq, Eq, Structural)]
pub struct BreakWindow {
    pub start: ResolvedPosition,
    pub end: ResolvedPosition,
    pub nanos: u64,
}

/// What the cursor does with the samples it takes.
#[derive(Clone, Copy, Debug, PartialEq, Eq, Structural)]
pub enum CursorMode {
    /// Samples go to the open output segment.
    Writing,
    /// The cursor is inside a break window: samples are dropped.
    Skipping,
    /// The extraction is over and every segment is closed.
    Finished,
}

/// A closed output segment: the samples `from..to` of the uninterrupted timeline.
#[derive(Clone, Copy, Debug, PartialEq, Eq, Structural)]
pub struct Segment {
    pub from: u64,
    pub to: u64,
}

/// What one sample brought.
#[derive(Clone, Copy, Debug, PartialEq, Eq, Structural)]
pub struct CursorStep {
    /// The segment that was closed, before anything else happened.
    pub closed: Option<Segment>,
    /// Whether a new segment was opened, after the closing and before the writing.
    pub opened: bool,
    /// Whether the sample goes to the open segment.
    pub write: bool,
    /// Whether a segment was closed after the writing: the last one.
    pub last: Option<Segment>,
    /// Whether the extraction is over.
    pub done: bool,
}

/// The state of an extraction.
///
/// `budget` is the length of the extraction in samples of the uninterrupted
/// timeline, `ratio` the source samples that make one such sample, `rate` the
/// samples of the timeline in one second, and `skip` the payload samples that
/// follow a sentinel (0 where markers stay in the output). `audio` counts the
/// samples written to the open segment, `drone` is the place on the timeline,
/// `origin` the place at which the open segment began, `next` the first break
/// window not yet left, and `pending` the payload samples still to drop.
/// `emitted` is the length of all closed segments, `excised` that of all cuts,
/// and `segments` the number of closed segments.
pub struct CursorState {
    pub budget: u64,
    pub ratio: u32,
    pub rate: u32,
    pub skip: u8,
    pub breaks: Seq<BreakWindow>,
    pub mode: CursorMode,
    pub audio: u64,
    pub drone: u64,
    pub origin: u64,
    pub next: nat,
    pub pending: u8,
    pub emitted: u64,
    pub excised: u64,
    pub segments: nat,
}

/// Whether the place `pos` is `mark` or lies after it.
pub open spec fn spec_reached(pos: ResolvedPosition, mark: ResolvedPosition) -> bool {
    pos.file > mark.file || (pos.file == mark.file && pos.sample >= mark.sample)
}

/// The length of `nanos` nanoseconds in samples at `rate` hertz, rounded to
/// the nearest sample, a half upward.
pub open spec fn spec_virtual_len(nanos: u64, rate: u32) -> int {
    (nanos * rate + 500_000_000) / 1_000_000_000
}

impl CursorState {
    /// The state at the start: writing, with the first segment open at 0.
    pub open spec fn start(budget: u64, ratio: u32, rate: u32, skip: u8, breaks: Seq<BreakWindow>)
        -> CursorState {
        CursorState {
            budget,
            ratio,
            rate,
            skip,
            breaks,
            mode: CursorMode::Writing,
            audio: 0,
            drone: 0,
            origin: 0,
            next: 0,
            pending: 0,
            emitted: 0,
            excised: 0,
            segments: 0,
        }
    }

    /// The open segment, as it would be closed now.
    pub open spec fn open_segment(self) -> Segment {
        Segment { from: self.origin, to: self.drone }
    }

    /// The state after the open segment was closed.
    pub open spec fn close(self, mode: CursorMode) -> CursorState {
        CursorState {
            mode,
            emitted: (self.emitted + (self.drone - self.origin)) as u64,
            segments: self.segments + 1,
            pending: 0,
            ..self
        }
    }

    /// Whether the cursor, writing, has come to the next break window.
    pub open spec fn at_break(self, pos: ResolvedPosition) -> bool {
        self.mode == CursorMode::Writing && self.next < self.breaks.len() && spec_reached(
            pos,
            self.breaks[self.next as int].start,
        )
    }

    /// The state after the cursor entered the next break window: the open
    /// segment is closed and the timeline moves on by the length of the window,
    /// but not beyond the budget.
    pub open spec fn cut(self) -> CursorState {
        let closed = self.close(CursorMode::Skipping);
        let len = spec_virtual_len(closed.breaks[closed.next as int].nanos, closed.rate);
        let step = if len > closed.budget - closed.drone {
            closed.budget - closed.drone
        } else {
            len
        };
        CursorState {
            drone: (closed.drone + step) as u64,
            excised: (closed.excised + step) as u64,
            ..closed
        }
    }

    /// The state after the cursor left the break window: a new segment is open.
    pub open spec fn resume(self) -> CursorState {
        CursorState {
            mode: CursorMode::Writing,
            next: self.next + 1,
            origin: self.drone,
            audio: 0,
            pending: 0,
            ..self
        }
    }

    /// The state after one sample was written to the open segment.
    pub open spec fn written(self) -> CursorState {
        let audio = (self.audio + 1) as u64;
        CursorState {
            audio,
            drone: if audio % (self.ratio as u64) == 0 {
                (self.drone + 1) as u64
            } else {
                self.drone
            },
            ..self
        }
    }

    /// What a writing cursor does with a sample: it drops the payload of a
    /// marker and the sentinel before it, and writes any other sample; with
    /// the budget used up it closes the segment and the extraction is over.
    pub open spec fn write(self, sample: i32, closed: Option<Segment>, opened: bool) -> (
        CursorState,
        CursorStep,
    ) {
        if self.drone >= self.budget {
            (
                self.close(CursorMode::Finished),
                CursorStep {
                    closed,
                    opened,
                    write: false,
                    last: Some(self.open_segment()),
                    done: true,
                },
            )
        } else if self.pending > 0 {
            (
                CursorState { pending: (self.pending - 1) as u8, ..self },
                CursorStep { closed, opened, write: false, last: None, done: false },
            )
        } else if self.skip > 0 && sample == SENTINEL {
            (
                CursorState { pending: self.skip, ..self },
                CursorStep { closed, opened, write: false, last: None, done: false },
            )
        } else {
            let after = self.written();
            if after.drone >= after.budget {
                (
                    after.close(CursorMode::Finished),
                    CursorStep {
                        closed,
                        opened,
                        write: true,
                        last: Some(after.open_segment()),
                        done: true,
                    },
                )
            } else {
                (after, CursorStep { closed, opened, write: true, last: None, done: false })
            }
        }
    }

    /// The state after the sample at `pos`, and what the sample brought.
    ///
    /// A writing cursor that has come to the next break window closes its
    /// segment and skips. A skipping cursor that has come to the end of the
    /// window opens a new segment and writes again, this sample first. A cut
    /// that uses up the budget ends the extraction.
    pub open spec fn step(self, pos: ResolvedPosition, sample: i32) -> (CursorState, CursorStep) {
        if self.mode == CursorMode::Finished {
            (self, CursorStep { closed: None, opened: false, write: false, last: None, done: true })
        } else {
            let closed = if self.at_break(pos) {
                Some(self.open_segment())
            } else {
                None
            };
            let entered = if self.at_break(pos) {
                self.cut()
            } else {
                self
            };
            if entered.mode == CursorMode::Skipping {
                if entered.drone >= entered.budget {
                    (
                        CursorState { mode: CursorMode::Finished, ..entered },
                        CursorStep { closed, opened: false, write: false, last: None, done: true },
                    )
                } else if spec_reached(pos, entered.breaks[entered.next as int].end) {
                    entered.resume().write(sample, closed, true)
                } else {
                    (
                        entered,
                        CursorStep { closed, opened: false, write: false, last: None, done: false },
                    )
                }
            } else {
                entered.write(sample, closed, false)
            }
        }
    }

    /// The state after the source ran out, and the segment that was closed.
    pub open spec fn finish(self) -> (CursorState, Option<Segment>) {
        match self.mode {
            CursorMode::Writing => (self.close(CursorMode::Finished), Some(self.open_segment())),
            CursorMode::Skipping => (CursorState { mode: CursorMode::Finished, ..self }, None),
            CursorMode::Finished => (self, None),
        }
    }

    /// What holds of every state that an extraction comes to.
    ///
    /// The timeline never passes the budget. The closed segments and the cuts
    /// make up the timeline up to the start of the open segment, or up to the
    /// place of the cursor where no segment is open. While a segment is open,
    /// it is as long as the samples written to it make it. One segment was
    /// closed for each break window entered, and one more at the end.
    pub open spec fn inv(self) -> bool {
        &&& self.ratio > 0
        &&& self.budget * self.ratio <= u64::MAX
        &&& self.drone <= self.budget
        &&& self.next <= self.breaks.len()
        &&& match self.mode {
            CursorMode::Writing => {
                &&& self.origin <= self.drone
                &&& self.emitted + self.excised == self.origin
                &&& self.audio >= (self.drone - self.origin) * self.ratio
                &&& self.audio < (self.drone - self.origin) * self.ratio + self.ratio
                &&& self.segments == self.next
            },
            CursorMode::Skipping => {
                &&& self.emitted + self.excised == self.drone
                &&& self.next < self.breaks.len()
                &&& self.segments == self.next + 1
            },
            CursorMode::Finished => {
                &&& self.emitted + self.excised == self.drone
                &&& self.segments == self.next + 1
            },
        }
    }
}

/// Writing one sample keeps what holds of every state.
proof fn lemma_written_keeps_inv(state: CursorState)
    requires
        state.inv(),
        state.mode == CursorMode::Writing,
        state.drone < state.budget,
    ensures
        state.written().inv(),
        state.written().drone <= state.drone + 1,
{
    let span = state.drone - state.origin;
    let ratio = state.ratio as int;
    let audio = state.audio + 1;
    assert((span + 1) * ratio == span * ratio + ratio) by (nonlinear_arith);
    assert((span + 1) * ratio <= state.budget * ratio) by (nonlinear_arith)
        requires
            0 <= span + 1 <= state.budget,
            ratio > 0,
    ;
    assert(audio % ratio == 0 <==> audio == (span + 1) * ratio) by (nonlinear_arith)
        requires
            span * ratio < audio <= span * ratio + ratio,
            ratio > 0,
            span >= 0,
    ;
}

/// Closing the open segment of a writing cursor gives a state with no segment
/// open, in which the closed segments and the cuts make up the timeline.
proof fn lemma_close_sums(state: CursorState, mode: CursorMode)
    requires
        state.inv(),
        state.mode == CursorMode::Writing,
    ensures
        state.close(mode).emitted + state.close(mode).excised == state.drone,
        state.close(mode).segments == state.next + 1,
{
}

/// Entering a break window keeps what holds of every state.
proof fn lemma_cut_keeps_inv(state: CursorState, pos: ResolvedPosition)
    requires
        state.inv(),
        state.at_break(pos),
    ensures
        state.cut().inv(),
        state.cut().mode == CursorMode::Skipping,
{
    lemma_close_sums(state, CursorMode::Skipping);
}

/// A writing cursor keeps what holds of every state.
proof fn lemma_write_keeps_inv(
    state: CursorState,
    sample: i32,
    closed: Option<Segment>,
    opened: bool,
)
    requires
        state.inv(),
        state.mode == CursorMode::Writing,
    ensures
        state.write(sample, closed, opened).0.inv(),
        state.write(sample, closed, opened).1.done ==> state.write(sample, closed, opened).0.drone
            == state.budget,
{
    if state.drone >= state.budget {
        lemma_close_sums(state, CursorMode::Finished);
    } else if state.pending == 0 && !(state.skip > 0 && sample == SENTINEL) {
        lemma_written_keeps_inv(state);
        if state.written().drone >= state.budget {
            lemma_close_sums(state.written(), CursorMode::Finished);
        }
    }
}

/// Every state that an extraction comes to by a sample is as `inv` says.
pub proof fn law_step_keeps_inv(state: CursorState, pos: ResolvedPosition, sample: i32)
    requires
        state.inv(),
    ensures
        state.step(pos, sample).0.inv(),
{
    if state.mode != CursorMode::Finished {
        let closed = if state.at_break(pos) {
            Some(state.open_segment())
        } else {
            None
        };
        let entered = if state.at_break(pos) {
            state.cut()
        } else {
            state
        };
        if state.at_break(pos) {
            lemma_close_sums(state, CursorMode::Skipping);
        }
        if entered.mode != CursorMode::Skipping {
            lemma_write_keeps_inv(entered, sample, closed, false);
        } else if entered.drone < entered.budget && spec_reached(
            pos,
            entered.breaks[entered.next as int].end,
        ) {
            let resumed = entered.resume();
            assert(0 * (resumed.ratio as int) == 0) by (nonlinear_arith);
            lemma_write_keeps_inv(resumed, sample, closed, true);
        }
    }
}

/// The state that an extraction comes to when the source runs out is as `inv` says.
pub proof fn law_finish_keeps_inv(state: CursorState)
    requires
        state.inv(),
    ensures
        state.finish().0.inv(),
        state.finish().0.mode == CursorMode::Finished,
{
}

/// The state after the cursor took the samples of a source, each with its place.
pub open spec fn spec_run(state: CursorState, places: Seq<ResolvedPosition>, samples: Seq<i32>)
    -> CursorState
    decreases places.len(),
{
    if places.len() == 0 || samples.len() != places.len() {
        state
    } else {
        spec_run(state, places.drop_last(), samples.drop_last()).step(
            places.last(),
            samples.last(),
        ).0
    }
}

/// Whatever the source holds, the cursor comes to a state that is as `inv`
/// says: at every moment of an extraction the closed segments and the cuts
/// make up the timeline behind the cursor, and the timeline stays within the
/// budget.
pub proof fn law_run_keeps_inv(
    state: CursorState,
    places: Seq<ResolvedPosition>,
    samples: Seq<i32>,
)
    requires
        state.inv(),
    ensures
        spec_run(state, places, samples).inv(),
    decreases places.len(),
{
    if places.len() > 0 && samples.len() == places.len() {
        law_run_keeps_inv(state, places.drop_last(), samples.drop_last());
        law_step_keeps_inv(
            spec_run(state, places.drop_last(), samples.drop_last()),
            places.last(),
            samples.last(),
        );
    }
}

/// The start of an extraction is as `inv` says.
pub proof fn law_start_inv(budget: u64, ratio: u32, rate: u32, skip: u8, breaks: Seq<BreakWindow>)
    requires
        ratio > 0,
        budget * ratio <= u64::MAX,
    ensures
        CursorState::start(budget, ratio, rate, skip, breaks).inv(),
{
    assert(0 * (ratio as int) == 0) by (nonlinear_arith);
}

/// An extraction that a sample ends has used its budget: the lengths of the
/// segments and of the cuts add up to the budget, and one segment was closed
/// for each break window that was left, and the last one.
pub proof fn law_budget_is_spent(state: CursorState, pos: ResolvedPosition, sample: i32)
    requires
        state.inv(),
        state.mode != CursorMode::Finished,
        state.step(pos, sample).1.done,
    ensures
        state.step(pos, sample).0.emitted + state.step(pos, sample).0.excised == state.budget,
        state.step(pos, sample).0.segments == state.step(pos, sample).0.next + 1,
{
    law_step_keeps_inv(state, pos, sample);
    let closed = if state.at_break(pos) {
        Some(state.open_segment())
    } else {
        None
    };
    let entered = if state.at_break(pos) {
        state.cut()
    } else {
        state
    };
    if state.at_break(pos) {
        lemma_close_sums(state, CursorMode::Skipping);
    }
    if entered.mode != CursorMode::Skipping {
        lemma_write_keeps_inv(entered, sample, closed, false);
    } else if entered.drone < entered.budget && spec_reached(
        pos,
        entered.breaks[entered.next as int].end,
    ) {
        let resumed = entered.resume();
        assert(0 * (resumed.ratio as int) == 0) by (nonlinear_arith);
        lemma_write_keeps_inv(resumed, sample, closed, true);
    }
}

/// A segment opens where the one before it closed, moved on by the cut
/// between them: a new segment starts at the sum of the lengths of all
/// closed segments and all cuts.
pub proof fn law_segment_bounds(state: CursorState)
    requires
        state.inv(),
        state.mode == CursorMode::Writing,
    ensures
        state.open_segment().from == state.emitted + state.excised,
        state.open_segment().from <= state.open_segment().to <= state.budget,
{
}

/// Whether the place `pos` is `mark` or lies after it.
pub fn reached(pos: ResolvedPosition, mark: ResolvedPosition) -> (at: bool)
    ensures
        at == spec_reached(pos, mark),
{
    pos.file > mark.file || (pos.file == mark.file && pos.sample >= mark.sample)
}

/// The length of `nanos` nanoseconds in samples at `rate` hertz.
pub fn virtual_len(nanos: u64, rate: u32) -> (len: u128)
    ensures
        len == spec_virtual_len(nanos, rate),
{
    assert(nanos * rate <= 0xFFFF_FFFF_FFFF_FFFF * 0xFFFF_FFFF) by (nonlinear_arith)
        requires
            0 <= nanos <= 0xFFFF_FFFF_FFFF_FFFF,
            0 <= rate <= 0xFFFF_FFFF,
    ;
    (nanos as u128 * rate as u128 + 500_000_000) / 1_000_000_000
}

/// Where reading starts in a shard of `duration` samples while `offset`
/// samples are still to pass: at `offset` where the shard reaches so far;
/// otherwise not in this shard, and `offset` less the length of the shard is
/// left for the next.
pub fn seek_start(offset: u32, duration: u32) -> (place: Result<u32, u32>)
    ensures
        place == if offset <= duration {
            Ok::<u32, u32>(offset)
        } else {
            Err::<u32, u32>((offset - duration) as u32)
        },
{
    if offset <= duration {
        Ok(offset)
    } else {
        Err(offset - duration)
    }
}

/// The cursor of one extraction.
///
/// The caller reads the source from the start place on and hands each sample
/// with its place to `step`, which says what is to be done with it, until
/// `step` says that the extraction is over; when the source runs out first,
/// the caller calls `finish`.
pub struct ExtractionCursor {
    budget: u64,
    ratio: u32,
    rate: u32,
    skip: u8,
    breaks: Vec<BreakWindow>,
    mode: CursorMode,
    audio: u64,
    drone: u64,
    origin: u64,
    next: usize,
    pending: u8,
    emitted: u64,
    excised: u64,
}

impl View for ExtractionCursor {
    type V = CursorState;

    closed spec fn view(&self) -> CursorState {
        CursorState {
            budget: self.budget,
            ratio: self.ratio,
            rate: self.rate,
            skip: self.skip,
            breaks: self.breaks@,
            mode: self.mode,
            audio: self.audio,
            drone: self.drone,
            origin: self.origin,
            next: self.next as nat,
            pending: self.pending,
            emitted: self.emitted,
            excised: self.excised,
            segments: if self.mode == CursorMode::Writing {
                self.next as nat
            } else {
                (self.next + 1) as nat
            },
        }
    }
}

impl ExtractionCursor {
    /// A cursor at the start of an extraction of `budget` samples of the
    /// timeline, or `None` where `ratio` is 0 or `budget * ratio` source
    /// samples are more than a `u64` counts.
    pub fn new(budget: u64, ratio: u32, rate: u32, skip: u8, breaks: Vec<BreakWindow>) -> (cursor:
        Option<ExtractionCursor>)
        ensures
            match cursor {
                Some(c) => {
                    &&& ratio > 0
                    &&& budget * ratio <= u64::MAX
                    &&& c@ == CursorState::start(budget, ratio, rate, skip, breaks@)
                    &&& c@.inv()
                },
                None => ratio == 0 || budget * ratio > u64::MAX,
            },
    {
        if ratio == 0 {
            return None;
        }
        assert(budget * ratio <= 0xFFFF_FFFF_FFFF_FFFF * 0xFFFF_FFFF) by (nonlinear_arith)
            requires
                0 <= budget <= 0xFFFF_FFFF_FFFF_FFFF,
                0 <= ratio <= 0xFFFF_FFFF,
        ;
        if budget as u128 * ratio as u128 > u64::MAX as u128 {
            return None;
        }
        proof {
            law_start_inv(budget, ratio, rate, skip, breaks@);
        }
        Some(
            ExtractionCursor {
                budget,
                ratio,
                rate,
                skip,
                breaks,
                mode: CursorMode::Writing,
                audio: 0,
                drone: 0,
                origin: 0,
                next: 0,
                pending: 0,
                emitted: 0,
                excised: 0,
            },
        )
    }

    /// What the cursor does with the samples it takes.
    pub fn mode(&self) -> (mode: CursorMode)
        ensures
            mode == self@.mode,
    {
        self.mode
    }

    /// The samples written to the open segment.
    pub fn audio(&self) -> (audio: u64)
        ensures
            audio == self@.audio,
    {
        self.audio
    }

    /// The place of the cursor on the uninterrupted timeline.
    pub fn drone(&self) -> (drone: u64)
        ensures
            drone == self@.drone,
    {
        self.drone
    }

    /// The length of all closed segments.
    pub fn emitted(&self) -> (emitted: u64)
        ensures
            emitted == self@.emitted,
    {
        self.emitted
    }

    /// The length of all cuts.
    pub fn excised(&self) -> (excised: u64)
        ensures
            excised == self@.excised,
    {
        self.excised
    }

    /// Closes the open segment.
    fn close(&mut self, mode: CursorMode) -> (segment: Segment)
        requires
            old(self)@.inv(),
            old(self)@.mode == CursorMode::Writing,
            mode != CursorMode::Writing,
        ensures
            final(self)@ == old(self)@.close(mode),
            segment == old(self)@.open_segment(),
    {
        let segment = Segment { from: self.origin, to: self.drone };
        self.emitted = self.emitted + (self.drone - self.origin);
        self.pending = 0;
        self.mode = mode;
        segment
    }

    /// Takes a sample as a writing cursor.
    fn write(&mut self, sample: i32, closed: Option<Segment>, opened: bool) -> (step: CursorStep)
        requires
            old(self)@.inv(),
            old(self)@.mode == CursorMode::Writing,
        ensures
            (final(self)@, step) == old(self)@.write(sample, closed, opened),
    {
        if self.drone >= self.budget {
            let last = self.close(CursorMode::Finished);
            return CursorStep { closed, opened, write: false, last: Some(last), done: true };
        }
        if self.pending > 0 {
            self.pending = self.pending - 1;
            return CursorStep { closed, opened, write: false, last: None, done: false };
        }
        if self.skip > 0 && sample == SENTINEL {
            self.pending = self.skip;
            return CursorStep { closed, opened, write: false, last: None, done: false };
        }
        proof {
            lemma_written_keeps_inv(self@);
            let span = self.drone - self.origin;
            assert(span * self.ratio + self.ratio <= self.budget * self.ratio) by (nonlinear_arith)
                requires
                    0 <= span < self.budget,
                    self.ratio > 0,
            ;
        }
        self.audio = self.audio + 1;
        if self.audio % (self.ratio as u64) == 0 {
            self.drone = self.drone + 1;
        }
        if self.drone >= self.budget {
            let last = self.close(CursorMode::Finished);
            CursorStep { closed, opened, write: true, last: Some(last), done: true }
        } else {
            CursorStep { closed, opened, write: true, last: None, done: false }
        }
    }

    /// Takes the sample at `pos`, and says what is to be done with it.
    pub fn step(&mut self, pos: ResolvedPosition, sample: i32) -> (step: CursorStep)
        requires
            old(self)@.inv(),
        ensures
            final(self)@.inv(),
            (final(self)@, step) == old(self)@.step(pos, sample),
    {
        proof {
            law_step_keeps_inv(self@, pos, sample);
        }
        if self.mode == CursorMode::Finished {
            return CursorStep { closed: None, opened: false, write: false, last: None, done: true };
        }
        let mut closed: Option<Segment> = None;
        if self.mode == CursorMode::Writing && self.next < self.breaks.len() && reached(
            pos,
            self.breaks[self.next].start,
        ) {
            proof {
                lemma_close_sums(self@, CursorMode::Skipping);
            }
            closed = Some(self.close(CursorMode::Skipping));
            let len = virtual_len(self.breaks[self.next].nanos, self.rate);
            let room = self.budget - self.drone;
            let cut = if len > room as u128 {
                room
            } else {
                len as u64
            };
            self.drone = self.drone + cut;
            self.excised = self.excised + cut;
            proof {
                lemma_cut_keeps_inv(old(self)@, pos);
            }
        }
        if self.mode == CursorMode::Skipping {
            if self.drone >= self.budget {
                self.mode = CursorMode::Finished;
                return CursorStep { closed, opened: false, write: false, last: None, done: true };
            }
            if reached(pos, self.breaks[self.next].end) {
                assert(self.next < self.breaks.len());
                self.mode = CursorMode::Writing;
                self.next = self.next + 1;
                self.origin = self.drone;
                self.audio = 0;
                self.pending = 0;
                proof {
                    assert(0 * (self.ratio as int) == 0) by (nonlinear_arith);
                }
                return self.write(sample, closed, true);
            }
            return CursorStep { closed, opened: false, write: false, last: None, done: false };
        }
        self.write(sample, closed, false)
    }

    /// Ends the extraction when the source has run out, and gives the segment
    /// that was still open.
    pub fn finish(&mut self) -> (last: Option<Segment>)
        requires
            old(self)@.inv(),
        ensures
            final(self)@.inv(),
            (final(self)@, last) == old(self)@.finish(),
    {
        match self.mode {
            CursorMode::Writing => {
                let last = self.close(CursorMode::Finished);
                Some(last)
            },
            CursorMode::Skipping => {
                self.mode = CursorMode::Finished;
                None
            },
            CursorMode::Finished => None,
        }
    }
}

/// What `resolve_break` owes: both ends of the window at their places, and
/// the length of the window in nanoseconds, which is nothing where the end is
/// not after the start; or the error of the first end that has no place.
pub open spec fn spec_resolved(
    start_nanos: i64,
    end_nanos: i64,
    marker: Pps,
    durations: Seq<Option<u32>>,
    channels: u32,
    freq: u32,
    window: Result<BreakWindow, ResolveError>,
) -> bool {
    match window {
        Ok(w) => {
            &&& spec_start(
                start_nanos,
                marker.nanos,
                marker.sample,
                marker.file,
                durations,
                channels,
                freq,
                Ok(w.start),
            )
            &&& spec_start(
                end_nanos,
                marker.nanos,
                marker.sample,
                marker.file,
                durations,
                channels,
                freq,
                Ok(w.end),
            )
            &&& w.nanos == if end_nanos > start_nanos {
                end_nanos - start_nanos
            } else {
                0
            }
        },
        Err(e) => spec_start(
            start_nanos,
            marker.nanos,
            marker.sample,
            marker.file,
            durations,
            channels,
            freq,
            Err(e),
        ) || spec_start(
            end_nanos,
            marker.nanos,
            marker.sample,
            marker.file,
            durations,
            channels,
            freq,
            Err(e),
        ),
    }
}

/// Resolves a break window, given as two wall-clock instants, to the places
/// of its ends in the recording.
pub fn resolve_break(
    start_nanos: i64,
    end_nanos: i64,
    marker: Pps,
    durations: &Vec<Option<u32>>,
    channels: u32,
    freq: u32,
) -> (window: Result<BreakWindow, ResolveError>)
    requires
        channels > 0,
    ensures
        spec_resolved(start_nanos, end_nanos, marker, durations@, channels, freq, window),
{
    let start = match find_start(
        start_nanos,
        marker.nanos,
        marker.sample,
        marker.file,
        durations,
        channels,
        freq,
    ) {
        Ok(pos) => pos,
        Err(e) => {
            return Err(e);
        },
    };
    let end = match find_start(
        end_nanos,
        marker.nanos,
        marker.sample,
        marker.file,
        durations,
        channels,
        freq,
    ) {
        Ok(pos) => pos,
        Err(e) => {
            return Err(e);
        },
    };
    let nanos: u64 = if end_nanos > start_nanos {
        (end_nanos as i128 - start_nanos as i128) as u64
    } else {
        0
    };
    Ok(BreakWindow { start, end, nanos })
}

/// The file name of a closed segment: the stem, the index of the timeline at
/// which the segment starts, the index at which it ends, and the extension.
pub open spec fn spec_segment_name(stem: Seq<char>, ext: Seq<char>, segment: Segment) -> Seq<char> {
    stem + seq!['_'] + spec_decimal(segment.from as nat) + seq!['_'] + spec_decimal(
        segment.to as nat,
    ) + seq!['.'] + ext
}

/// Names the file of a closed segment after the span of the timeline that it covers.
pub fn segment_name(stem: &str, ext: &str, segment: Segment) -> (name: String)
    ensures
        name@ == spec_segment_name(stem@, ext@, segment),
{
    proof {
        reveal_strlit("_");
        reveal_strlit(".");
        assert("_"@ =~= seq!['_']);
        assert("."@ =~= seq!['.']);
    }
    let mut name = String::from_str(stem);
    name.append("_");
    append_decimal(&mut name, segment.from);
    name.append("_");
    append_decimal(&mut name, segment.to);
    name.append(".");
    name.append(ext);
    assert(name@ =~= spec_segment_name(stem@, ext@, segment));
    name
}

} // verus!
