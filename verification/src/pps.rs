//! Timestamp markers in the sample stream, and the place of an instant among the shards.

use vstd::prelude::*;
use crate::catalog::Shard;

verus! {

/// The sample value that announces a timestamp: the bit pattern `0xEEEE_EEEE`.
pub const SENTINEL: i32 = -286331154;

/// A timestamp marker found in a shard.
///
/// `nanos` is the instant that the marker encodes, `sample` the offset of its
/// sentinel in the shard, and `file` the index of that shard in the sequence that
/// the caller works with.
#[derive(Clone, Copy, Debug, PartialEq, Eq, Structural)]
pub struct Pps {
    pub nanos: i64,
    pub sample: u32,
    pub file: usize,
}

/// A place in the recording: a shard, by its index, and a sample offset in it.
#[derive(Clone, Copy, Debug, PartialEq, Eq, Structural)]
pub struct ResolvedPosition {
    pub file: usize,
    pub sample: u32,
}

/// Why an instant has no place in the recording.
#[derive(Clone, Copy, Debug, PartialEq, Eq, Structural)]
pub enum ResolveError {
    /// The instant lies before the first or after the last sample of the shards.
    StartNotFound,
}

/// The instant that two payload words encode: `word0` gives the low 32 bits,
/// taken unsigned, and `word1` the high 32 bits, taken signed.
pub open spec fn spec_pack_nanos(word0: i32, word1: i32) -> int {
    word1 * 0x1_0000_0000 + if word0 < 0 {
        word0 + 0x1_0000_0000
    } else {
        word0 as int
    }
}

/// Joins the two payload words of a marker into its nanosecond timestamp.
pub fn pack_nanos(word0: i32, word1: i32) -> (nanos: i64)
    ensures
        nanos == spec_pack_nanos(word0, word1),
{
    let low: i64 = if word0 < 0 {
        word0 as i64 + 0x1_0000_0000i64
    } else {
        word0 as i64
    };
    (word1 as i64) * 0x1_0000_0000i64 + low
}

/// The markers of a shard, from offset `at` on, in the order of their sentinels.
///
/// A sentinel announces a marker; the two samples after it are the payload,
/// whatever their values, and the scan goes on behind them. A sentinel with
/// fewer than two samples after it gives no marker.
pub open spec fn spec_markers(samples: Seq<i32>, at: int, file: usize) -> Seq<Pps>
    decreases samples.len() - at,
{
    if at < 0 || at >= samples.len() {
        Seq::empty()
    } else if samples[at] != SENTINEL {
        spec_markers(samples, at + 1, file)
    } else if at + 2 < samples.len() {
        seq![
            Pps {
                nanos: spec_pack_nanos(samples[at + 1], samples[at + 2]) as i64,
                sample: at as u32,
                file,
            },
        ] + spec_markers(samples, at + 3, file)
    } else {
        Seq::empty()
    }
}

/// Scans the samples of a shard for markers.
///
/// `file` is the index of the shard; it is recorded in each marker. The offset
/// of a marker is that of its sentinel.
pub fn get_pps(samples: &[i32], file: usize) -> (found: Vec<Pps>)
    requires
        samples.len() <= u32::MAX,
    ensures
        found@ == spec_markers(samples@, 0, file),
{
    let mut found: Vec<Pps> = Vec::new();
    let mut at: usize = 0;
    while at < samples.len()
        invariant
            at <= samples.len() <= u32::MAX,
            found@ + spec_markers(samples@, at as int, file) == spec_markers(samples@, 0, file),
        decreases samples.len() - at,
    {
        if samples[at] != SENTINEL {
            at = at + 1;
        } else if samples.len() - at > 2 {
            let nanos = pack_nanos(samples[at + 1], samples[at + 2]);
            let pps = Pps { nanos, sample: at as u32, file };
            proof {
                let rest = spec_markers(samples@, at + 3, file);
            }
            found.push(pps);
            at = at + 3;
        } else {
            at = samples.len();
        }
    }
    found
}

/// What a scanner waits for.
#[derive(Clone, Copy, Debug, PartialEq, Eq, Structural)]
pub enum ScanPhase {
    /// A sentinel.
    Idle,
    /// The first payload word; the sentinel was the sample before.
    Armed,
    /// The second payload word; the first is held.
    Half(i32),
}

/// A scanner that takes the samples of a shard one at a time.
#[derive(Clone, Copy, Debug, PartialEq, Eq, Structural)]
pub struct MarkerScanner {
    /// The index of the shard.
    pub file: usize,
    /// The offset of the next sample.
    pub next: u32,
    /// What the scanner waits for.
    pub phase: ScanPhase,
}

impl MarkerScanner {
    /// A scanner at the start of shard `file`.
    pub open spec fn spec_new(file: usize) -> MarkerScanner {
        MarkerScanner { file, next: 0, phase: ScanPhase::Idle }
    }

    /// The scanner after one more sample, and the marker that the sample completed.
    pub open spec fn spec_push(self, sample: i32) -> (MarkerScanner, Option<Pps>) {
        let next = (self.next + 1) as u32;
        match self.phase {
            ScanPhase::Idle => (
                MarkerScanner {
                    file: self.file,
                    next,
                    phase: if sample == SENTINEL {
                        ScanPhase::Armed
                    } else {
                        ScanPhase::Idle
                    },
                },
                None,
            ),
            ScanPhase::Armed => (
                MarkerScanner { file: self.file, next, phase: ScanPhase::Half(sample) },
                None,
            ),
            ScanPhase::Half(word0) => (
                MarkerScanner { file: self.file, next, phase: ScanPhase::Idle },
                Some(
                    Pps {
                        nanos: spec_pack_nanos(word0, sample) as i64,
                        sample: (self.next - 2) as u32,
                        file: self.file,
                    },
                ),
            ),
        }
    }

    /// The markers that the scanner gives while it takes `samples` from offset `at` on.
    pub open spec fn spec_feed(self, samples: Seq<i32>, at: int) -> Seq<Pps>
        decreases samples.len() - at,
    {
        if at < 0 || at >= samples.len() {
            Seq::empty()
        } else {
            let (after, found) = self.spec_push(samples[at]);
            let tail = after.spec_feed(samples, at + 1);
            match found {
                Some(pps) => seq![pps] + tail,
                None => tail,
            }
        }
    }

    /// Whether the scanner can have come to this state: a payload is never
    /// awaited before its sentinel was taken.
    pub open spec fn wf(self) -> bool {
        match self.phase {
            ScanPhase::Idle => true,
            ScanPhase::Armed => self.next >= 1,
            ScanPhase::Half(_) => self.next >= 2,
        }
    }

    /// A scanner at the start of shard `file`.
    pub fn new(file: usize) -> (scanner: MarkerScanner)
        ensures
            scanner == MarkerScanner::spec_new(file),
            scanner.wf(),
    {
        MarkerScanner { file, next: 0, phase: ScanPhase::Idle }
    }

    /// Takes the next sample of the shard, and gives the marker that it completed.
    pub fn push(&mut self, sample: i32) -> (found: Option<Pps>)
        requires
            old(self).wf(),
            old(self).next < u32::MAX,
        ensures
            (*final(self), found) == old(self).spec_push(sample),
            final(self).wf(),
    {
        let at = self.next;
        self.next = at + 1;
        match self.phase {
            ScanPhase::Idle => {
                if sample == SENTINEL {
                    self.phase = ScanPhase::Armed;
                }
                None
            },
            ScanPhase::Armed => {
                self.phase = ScanPhase::Half(sample);
                None
            },
            ScanPhase::Half(word0) => {
                self.phase = ScanPhase::Idle;
                Some(Pps { nanos: pack_nanos(word0, sample), sample: at - 2, file: self.file })
            },
        }
    }
}

/// What a scanner in a given state will still give equals the markers counted
/// from the sentinel that it is working on.
proof fn lemma_feed_is_scan(scanner: MarkerScanner, samples: Seq<i32>, at: int)
    requires
        0 <= at <= samples.len() <= u32::MAX,
        scanner.next == at,
        scanner.wf(),
        scanner.phase is Armed ==> samples[at - 1] == SENTINEL,
        scanner.phase matches ScanPhase::Half(word0) ==> samples[at - 2] == SENTINEL && samples[at
            - 1] == word0,
    ensures
        scanner.spec_feed(samples, at) == match scanner.phase {
            ScanPhase::Idle => spec_markers(samples, at, scanner.file),
            ScanPhase::Armed => spec_markers(samples, at - 1, scanner.file),
            ScanPhase::Half(_) => spec_markers(samples, at - 2, scanner.file),
        },
    decreases samples.len() - at,
{
    if at < samples.len() {
        let (after, found) = scanner.spec_push(samples[at]);
        lemma_feed_is_scan(after, samples, at + 1);
    }
}

/// A scanner that takes the samples of a shard one by one gives the markers of the shard.
pub proof fn law_feed_is_scan(samples: Seq<i32>, file: usize)
    requires
        samples.len() <= u32::MAX,
    ensures
        MarkerScanner::spec_new(file).spec_feed(samples, 0) == spec_markers(samples, 0, file),
{
    lemma_feed_is_scan(MarkerScanner::spec_new(file), samples, 0);
}

/// The first sentinel of a shard that has two samples after it gives the first
/// marker: the sample after the sentinel is the low word of its instant, the
/// next one the high word, and its offset is that of the sentinel.
pub proof fn law_first_marker(samples: Seq<i32>, at: int, file: usize)
    requires
        0 <= at,
        at + 2 < samples.len() <= u32::MAX,
        samples[at] == SENTINEL,
        forall|j: int| 0 <= j < at ==> samples[j] != SENTINEL,
    ensures
        spec_markers(samples, 0, file).len() >= 1,
        spec_markers(samples, 0, file)[0] == (Pps {
            nanos: spec_pack_nanos(samples[at + 1], samples[at + 2]) as i64,
            sample: at as u32,
            file,
        }),
        spec_markers(samples, 0, file)[0].nanos == spec_pack_nanos(
            samples[at + 1],
            samples[at + 2],
        ),
        spec_markers(samples, 0, file)[0].sample == at,
{
    lemma_skip_plain(samples, 0, at, file);
}

/// Samples that are no sentinel give no marker.
proof fn lemma_skip_plain(samples: Seq<i32>, from: int, to: int, file: usize)
    requires
        0 <= from <= to <= samples.len(),
        forall|j: int| from <= j < to ==> samples[j] != SENTINEL,
    ensures
        spec_markers(samples, from, file) == spec_markers(samples, to, file),
    decreases to - from,
{
    if from < to {
        lemma_skip_plain(samples, from + 1, to, file);
    }
}

/// How far before the instant a shard may have been opened and still be searched: 60 seconds.
pub const LOOK_BACK_NANOS: i64 = 60_000_000_000;

/// A marker this near ends the search once `NEAR_SHARDS` shards were scanned: 500 milliseconds.
pub const NEAR_NANOS: i64 = 500_000_000;

/// A marker this near ends the search once `FAR_SHARDS` shards were scanned: 60 seconds.
pub const FAR_NANOS: i64 = 60_000_000_000;

/// The shards to scan before a marker within `NEAR_NANOS` ends the search.
pub const NEAR_SHARDS: usize = 6;

/// The shards to scan before a marker within `FAR_NANOS` ends the search.
pub const FAR_SHARDS: usize = 16;

/// The distance between two instants in nanoseconds, capped at `i64::MAX`.
pub open spec fn spec_distance(nanos: i64, from_nanos: i64) -> int {
    let gap = if nanos < from_nanos {
        from_nanos - nanos
    } else {
        nanos - from_nanos
    };
    if gap > i64::MAX {
        i64::MAX as int
    } else {
        gap
    }
}

/// The distance between two instants in nanoseconds, capped at `i64::MAX`.
pub fn distance(nanos: i64, from_nanos: i64) -> (gap: i64)
    ensures
        gap == spec_distance(nanos, from_nanos),
{
    let gap: i128 = if nanos < from_nanos {
        from_nanos as i128 - nanos as i128
    } else {
        nanos as i128 - from_nanos as i128
    };
    if gap > i64::MAX as i128 {
        i64::MAX
    } else {
        gap as i64
    }
}

/// The least distance of a marker from the instant, and `i64::MAX` where there is no marker.
pub open spec fn spec_min_distance(markers: Seq<Pps>, from_nanos: i64) -> int
    decreases markers.len(),
{
    if markers.len() == 0 {
        i64::MAX as int
    } else {
        let before = spec_min_distance(markers.drop_last(), from_nanos);
        let last = spec_distance(markers.last().nanos, from_nanos);
        if last < before {
            last
        } else {
            before
        }
    }
}

/// Whether `best` is the marker nearest to the instant: the first of those at
/// the least distance, and none where no marker is nearer than `i64::MAX`.
pub open spec fn spec_is_best(markers: Seq<Pps>, from_nanos: i64, best: Option<Pps>) -> bool {
    match best {
        None => spec_min_distance(markers, from_nanos) == i64::MAX,
        Some(pps) => exists|i: int|
            {
                &&& 0 <= i < markers.len()
                &&& #[trigger] markers[i] == pps
                &&& spec_distance(pps.nanos, from_nanos) == spec_min_distance(markers, from_nanos)
                &&& spec_distance(pps.nanos, from_nanos) < i64::MAX
                &&& forall|j: int|
                    0 <= j < i ==> spec_distance((#[trigger] markers[j]).nanos, from_nanos)
                        > spec_distance(pps.nanos, from_nanos)
            },
    }
}

/// Whether the search ends after `examined` shards with the nearest marker at `gap`.
pub open spec fn spec_stop(examined: int, gap: int) -> bool {
    (examined >= NEAR_SHARDS && gap <= NEAR_NANOS) || (examined >= FAR_SHARDS && gap <= FAR_NANOS)
}

/// The markers of the first `count` shards, one shard after the other.
pub open spec fn spec_seen(scans: Seq<Seq<Pps>>, count: int) -> Seq<Pps>
    decreases count,
{
    if count <= 0 || count > scans.len() {
        Seq::empty()
    } else {
        spec_seen(scans, count - 1) + scans[count - 1]
    }
}

/// The markers of each shard as a sequence.
pub open spec fn spec_scans(scans: Seq<Vec<Pps>>) -> Seq<Seq<Pps>> {
    Seq::new(scans.len(), |i: int| scans[i]@)
}

/// No marker is nearer than the least distance.
pub proof fn lemma_min_distance_bounds(markers: Seq<Pps>, from_nanos: i64)
    ensures
        0 <= spec_min_distance(markers, from_nanos) <= i64::MAX,
        forall|j: int|
            0 <= j < markers.len() ==> spec_min_distance(markers, from_nanos) <= spec_distance(
                (#[trigger] markers[j]).nanos,
                from_nanos,
            ),
    decreases markers.len(),
{
    if markers.len() > 0 {
        lemma_min_distance_bounds(markers.drop_last(), from_nanos);
        assert forall|j: int| 0 <= j < markers.len() implies spec_min_distance(markers, from_nanos)
            <= spec_distance((#[trigger] markers[j]).nanos, from_nanos) by {
            if j < markers.len() - 1 {
                assert(markers.drop_last()[j] == markers[j]);
            }
        }
    }
}

/// One more marker: it becomes the nearest where it is strictly nearer than all before it.
proof fn lemma_best_push(markers: Seq<Pps>, from_nanos: i64, best: Option<Pps>, pps: Pps)
    requires
        spec_is_best(markers, from_nanos, best),
    ensures
        spec_is_best(
            markers.push(pps),
            from_nanos,
            if spec_distance(pps.nanos, from_nanos) < spec_min_distance(markers, from_nanos) {
                Some(pps)
            } else {
                best
            },
        ),
        spec_min_distance(markers.push(pps), from_nanos) == if spec_distance(
            pps.nanos,
            from_nanos,
        ) < spec_min_distance(markers, from_nanos) {
            spec_distance(pps.nanos, from_nanos)
        } else {
            spec_min_distance(markers, from_nanos)
        },
{
    let more = markers.push(pps);
    assert(more.drop_last() == markers);
    lemma_min_distance_bounds(markers, from_nanos);
    if spec_distance(pps.nanos, from_nanos) < spec_min_distance(markers, from_nanos) {
        assert(more[markers.len() as int] == pps);
    }
}

/// Among given markers only one answer is the nearest.
pub proof fn law_best_is_unique(
    markers: Seq<Pps>,
    from_nanos: i64,
    first: Option<Pps>,
    second: Option<Pps>,
)
    requires
        spec_is_best(markers, from_nanos, first),
        spec_is_best(markers, from_nanos, second),
    ensures
        first == second,
{
    if let Some(a) = first {
        if let Some(b) = second {
            let i = choose|i: int|
                {
                    &&& 0 <= i < markers.len()
                    &&& #[trigger] markers[i] == a
                    &&& spec_distance(a.nanos, from_nanos) == spec_min_distance(markers, from_nanos)
                    &&& spec_distance(a.nanos, from_nanos) < i64::MAX
                    &&& forall|j: int|
                        0 <= j < i ==> spec_distance((#[trigger] markers[j]).nanos, from_nanos)
                            > spec_distance(a.nanos, from_nanos)
                };
            let k = choose|k: int|
                {
                    &&& 0 <= k < markers.len()
                    &&& #[trigger] markers[k] == b
                    &&& spec_distance(b.nanos, from_nanos) == spec_min_distance(markers, from_nanos)
                    &&& spec_distance(b.nanos, from_nanos) < i64::MAX
                    &&& forall|j: int|
                        0 <= j < k ==> spec_distance((#[trigger] markers[j]).nanos, from_nanos)
                            > spec_distance(b.nanos, from_nanos)
                };
            if i < k {
                assert(spec_distance(markers[i].nanos, from_nanos) > spec_distance(
                    b.nanos,
                    from_nanos,
                ));
            } else if k < i {
                assert(spec_distance(markers[k].nanos, from_nanos) > spec_distance(
                    a.nanos,
                    from_nanos,
                ));
            }
        }
    }
}

/// The search for the marker nearest to an instant, one shard at a time.
///
/// The caller scans the shards in the order of the catalog and hands the markers
/// of each to `observe`, until `observe` says that the search has ended or the
/// shards are used up.
pub struct BestSearch {
    from_nanos: i64,
    best: Option<Pps>,
    gap: i64,
    examined: usize,
    seen: Ghost<Seq<Pps>>,
}

impl BestSearch {
    /// The instant that the search is for.
    pub closed spec fn spec_from_nanos(&self) -> i64 {
        self.from_nanos
    }

    /// The nearest marker so far.
    pub closed spec fn spec_best(&self) -> Option<Pps> {
        self.best
    }

    /// The distance of the nearest marker so far, and `i64::MAX` where there is none.
    pub closed spec fn spec_gap(&self) -> i64 {
        self.gap
    }

    /// The shards scanned so far; the count stops at `usize::MAX`.
    pub closed spec fn spec_examined(&self) -> usize {
        self.examined
    }

    /// The markers handed in so far.
    pub closed spec fn spec_history(&self) -> Seq<Pps> {
        self.seen@
    }

    /// The nearest marker and its distance are those of the markers handed in.
    pub closed spec fn wf(&self) -> bool {
        &&& spec_is_best(self.seen@, self.from_nanos, self.best)
        &&& self.gap == spec_min_distance(self.seen@, self.from_nanos)
    }

    /// What `wf` says, for callers.
    pub proof fn lemma_wf(&self)
        requires
            self.wf(),
        ensures
            spec_is_best(self.spec_history(), self.spec_from_nanos(), self.spec_best()),
            self.spec_gap() == spec_min_distance(self.spec_history(), self.spec_from_nanos()),
    {
    }

    /// A search for the instant `from_nanos`, with no shard scanned.
    pub fn new(from_nanos: i64) -> (search: BestSearch)
        ensures
            search.wf(),
            search.spec_from_nanos() == from_nanos,
            search.spec_best() == None::<Pps>,
            search.spec_gap() == i64::MAX,
            search.spec_examined() == 0,
            search.spec_history() == Seq::<Pps>::empty(),
    {
        BestSearch {
            from_nanos,
            best: None,
            gap: i64::MAX,
            examined: 0,
            seen: Ghost(Seq::empty()),
        }
    }

    /// The nearest marker so far.
    pub fn best(&self) -> (best: Option<Pps>)
        ensures
            best == self.spec_best(),
    {
        self.best
    }

    /// The distance of the nearest marker so far, and `i64::MAX` where there is none.
    pub fn gap(&self) -> (gap: i64)
        ensures
            gap == self.spec_gap(),
    {
        self.gap
    }

    /// The shards scanned so far.
    pub fn examined(&self) -> (examined: usize)
        ensures
            examined == self.spec_examined(),
    {
        self.examined
    }

    /// Takes the markers of the next shard, and says whether the search has ended.
    ///
    /// The search ends once `NEAR_SHARDS` shards were scanned and the nearest
    /// marker lies within `NEAR_NANOS`, or `FAR_SHARDS` shards and `FAR_NANOS`.
    pub fn observe(&mut self, markers: &[Pps]) -> (stop: bool)
        requires
            old(self).wf(),
        ensures
            final(self).wf(),
            final(self).spec_from_nanos() == old(self).spec_from_nanos(),
            final(self).spec_history() == old(self).spec_history() + markers@,
            final(self).spec_examined() == if old(self).spec_examined() < usize::MAX {
                old(self).spec_examined() + 1
            } else {
                usize::MAX as int
            },
            stop == spec_stop(final(self).spec_examined() as int, final(self).spec_gap() as int),
    {
        let mut at: usize = 0;
        while at < markers.len()
            invariant
                at <= markers@.len(),
                self.from_nanos == old(self).from_nanos,
                self.examined == old(self).examined,
                self.seen@ == old(self).seen@ + markers@.take(at as int),
                spec_is_best(self.seen@, self.from_nanos, self.best),
                self.gap == spec_min_distance(self.seen@, self.from_nanos),
            decreases markers@.len() - at,
        {
            let pps = markers[at];
            let gap = distance(pps.nanos, self.from_nanos);
            proof {
                lemma_best_push(self.seen@, self.from_nanos, self.best, pps);
                assert(markers@.take(at + 1) == markers@.take(at as int).push(pps));
                assert(old(self).seen@ + markers@.take(at as int).push(pps) == (old(self).seen@
                    + markers@.take(at as int)).push(pps));
            }
            if gap < self.gap {
                self.best = Some(pps);
                self.gap = gap;
            }
            self.seen = Ghost(self.seen@.push(pps));
            at = at + 1;
        }
        if self.examined < usize::MAX {
            self.examined = self.examined + 1;
        }
        (self.examined >= NEAR_SHARDS && self.gap <= NEAR_NANOS) || (self.examined >= FAR_SHARDS
            && self.gap <= FAR_NANOS)
    }
}

/// What `find_best` owes for the markers of the shards: it scans shards until
/// the search ends, and gives the nearest marker of the shards scanned, its
/// distance, and the number of shards scanned.
pub open spec fn spec_found(
    from_nanos: i64,
    scans: Seq<Seq<Pps>>,
    found: (Option<Pps>, i64, usize),
) -> bool {
    let (best, gap, examined) = found;
    &&& examined <= scans.len()
    &&& spec_is_best(spec_seen(scans, examined as int), from_nanos, best)
    &&& gap == spec_min_distance(spec_seen(scans, examined as int), from_nanos)
    &&& examined == scans.len() || spec_stop(examined as int, gap as int)
    &&& forall|k: int|
        0 <= k < examined ==> !spec_stop(
            k,
            spec_min_distance(#[trigger] spec_seen(scans, k), from_nanos),
        )
}

/// Finds the marker nearest to the instant `from_nanos`.
///
/// `scans` holds the markers of each candidate shard, in the order of the
/// catalog. The shards are taken in that order. The search ends early, and the
/// later shards are not looked at, once `NEAR_SHARDS` shards were scanned and
/// the nearest marker lies within `NEAR_NANOS`, or `FAR_SHARDS` shards and
/// `FAR_NANOS`. The result is the nearest marker of the shards scanned (of
/// several at one distance the first), its distance (`i64::MAX` without a
/// marker), and the number of shards scanned.
pub fn find_best(from_nanos: i64, scans: &Vec<Vec<Pps>>) -> (found: (Option<Pps>, i64, usize))
    ensures
        spec_found(from_nanos, spec_scans(scans@), found),
{
    let ghost all = spec_scans(scans@);
    let mut search = BestSearch::new(from_nanos);
    let mut at: usize = 0;
    let mut stop = false;
    while at < scans.len() && !stop
        invariant
            at <= scans@.len(),
            all == spec_scans(scans@),
            search.wf(),
            search.spec_from_nanos() == from_nanos,
            search.spec_examined() == at,
            search.spec_history() == spec_seen(all, at as int),
            stop == spec_stop(at as int, search.spec_gap() as int),
            at == 0 ==> !stop,
            forall|k: int|
                0 <= k < at ==> !spec_stop(
                    k,
                    spec_min_distance(#[trigger] spec_seen(all, k), from_nanos),
                ),
        decreases scans@.len() - at,
    {
        proof {
            search.lemma_wf();
        }
        stop = search.observe(scans[at].as_slice());
        at = at + 1;
    }
    proof {
        search.lemma_wf();
    }
    (search.best(), search.gap(), at)
}

/// The shards that a search for the instant `from_nanos` scans: those opened
/// no more than `LOOK_BACK_NANOS` before it, in the order of the catalog.
pub fn candidates(shards: &Vec<Shard>, from_nanos: i64) -> (kept: Vec<Shard>)
    ensures
        kept@ == shards@.filter(|shard: Shard| shard.nanos >= from_nanos - LOOK_BACK_NANOS),
{
    let ghost wanted = |shard: Shard| shard.nanos >= from_nanos - LOOK_BACK_NANOS;
    let mut kept: Vec<Shard> = Vec::new();
    let mut at: usize = 0;
    while at < shards.len()
        invariant
            at <= shards@.len(),
            wanted == |shard: Shard| shard.nanos >= from_nanos - LOOK_BACK_NANOS,
            kept@ == shards@.take(at as int).filter(wanted),
        decreases shards@.len() - at,
    {
        let shard = shards[at];
        proof {
            assert(shards@.take(at + 1).drop_last() == shards@.take(at as int));
            reveal(Seq::filter);
        }
        if shard.nanos as i128 >= from_nanos as i128 - LOOK_BACK_NANOS as i128 {
            kept.push(shard);
        }
        at = at + 1;
    }
    proof {
        assert(shards@.take(at as int) == shards@);
    }
    kept
}

/// The samples of shard `k` that count: its raw length divided by the channel
/// count, and nothing for a shard that could not be opened.
pub open spec fn spec_usable(durations: Seq<Option<u32>>, channels: u32, k: int) -> int {
    if 0 <= k < durations.len() && channels > 0 {
        match durations[k] {
            Some(d) => d as int / channels as int,
            None => 0,
        }
    } else {
        0
    }
}

/// The samples that lie before shard `k`.
pub open spec fn spec_span(durations: Seq<Option<u32>>, channels: u32, k: int) -> int
    decreases k,
{
    if k <= 0 {
        0
    } else {
        spec_span(durations, channels, k - 1) + spec_usable(durations, channels, k - 1)
    }
}

/// The distance between two instants, in samples at `freq` hertz, rounded to the
/// nearest sample, a half upward.
pub open spec fn spec_sample_delta(from_nanos: i64, nanos: i64, freq: u32) -> int {
    let gap = if from_nanos < nanos {
        nanos - from_nanos
    } else {
        from_nanos - nanos
    };
    (gap * freq + 500_000_000) / 1_000_000_000
}

/// The offset of the instant `from_nanos`, counted in samples from the start of
/// the first shard, given a marker of instant `nanos` at `sample` in shard `file`.
pub open spec fn spec_target(
    from_nanos: i64,
    nanos: i64,
    sample: u32,
    file: usize,
    durations: Seq<Option<u32>>,
    channels: u32,
    freq: u32,
) -> int {
    let delta = spec_sample_delta(from_nanos, nanos, freq);
    spec_span(durations, channels, file as int) + sample + if from_nanos < nanos {
        -delta
    } else {
        delta
    }
}

/// Whether `pos` is a sample of its shard and lies `offset` samples after the
/// start of the first shard.
pub open spec fn spec_at(
    pos: ResolvedPosition,
    durations: Seq<Option<u32>>,
    channels: u32,
    offset: int,
) -> bool {
    &&& pos.file < durations.len()
    &&& pos.sample < spec_usable(durations, channels, pos.file as int)
    &&& spec_span(durations, channels, pos.file as int) + pos.sample == offset
}

/// Whether no sample of any shard lies `offset` samples after the start of the first shard.
pub open spec fn spec_no_place(durations: Seq<Option<u32>>, channels: u32, offset: int) -> bool {
    forall|p: ResolvedPosition| !#[trigger] spec_at(p, durations, channels, offset)
}

/// The shards lie one after the other: a later shard starts where the earlier ends, or after.
pub proof fn lemma_span_grows(durations: Seq<Option<u32>>, channels: u32, a: int, b: int)
    requires
        0 <= a <= b,
    ensures
        0 <= spec_span(durations, channels, a) <= spec_span(durations, channels, b),
        a < b ==> spec_span(durations, channels, a) + spec_usable(durations, channels, a)
            <= spec_span(durations, channels, b),
    decreases b,
{
    if b > 0 {
        if a < b {
            lemma_span_grows(durations, channels, a, b - 1);
        } else {
            lemma_span_grows(durations, channels, a - 1, b - 1);
        }
    }
}

/// An offset in the recording belongs to at most one place.
pub proof fn law_place_is_unique(
    p: ResolvedPosition,
    q: ResolvedPosition,
    durations: Seq<Option<u32>>,
    channels: u32,
    offset: int,
)
    requires
        spec_at(p, durations, channels, offset),
        spec_at(q, durations, channels, offset),
    ensures
        p == q,
{
    if p.file < q.file {
        lemma_span_grows(durations, channels, p.file as int, q.file as int);
    } else if q.file < p.file {
        lemma_span_grows(durations, channels, q.file as int, p.file as int);
    }
}

/// The samples of shard `k` that count.
fn usable_duration(durations: &Vec<Option<u32>>, channels: u32, k: usize) -> (d: u32)
    requires
        k < durations.len(),
        channels > 0,
    ensures
        d == spec_usable(durations@, channels, k as int),
{
    match durations[k] {
        Some(raw) => raw / channels,
        None => 0,
    }
}

/// The distance between two instants in samples at `freq` hertz.
pub fn sample_delta(from_nanos: i64, nanos: i64, freq: u32) -> (delta: u128)
    ensures
        delta == spec_sample_delta(from_nanos, nanos, freq),
        delta <= 0xFFFF_FFFF_FFFF_FFFF_FFFF_FFFF,
{
    let gap: u128 = if from_nanos < nanos {
        (nanos as i128 - from_nanos as i128) as u128
    } else {
        (from_nanos as i128 - nanos as i128) as u128
    };
    assert(gap * freq <= 0xFFFF_FFFF_FFFF_FFFF * 0xFFFF_FFFF) by (nonlinear_arith)
        requires
            0 <= gap <= 0xFFFF_FFFF_FFFF_FFFF,
            0 <= freq <= 0xFFFF_FFFF,
    ;
    (gap * (freq as u128) + 500_000_000) / 1_000_000_000
}

/// Walks forward from the start of shard `from`, `rest` samples on.
fn walk_forward(durations: &Vec<Option<u32>>, channels: u32, from: usize, ahead: u128) -> (start:
    Result<ResolvedPosition, ResolveError>)
    requires
        from <= durations.len(),
        channels > 0,
    ensures
        match start {
            Ok(pos) => spec_at(
                pos,
                durations@,
                channels,
                spec_span(durations@, channels, from as int) + ahead,
            ),
            Err(e) => spec_no_place(
                durations@,
                channels,
                spec_span(durations@, channels, from as int) + ahead,
            ),
        },
{
    let ghost goal = spec_span(durations@, channels, from as int) + ahead;
    let mut k: usize = from;
    let mut rest: u128 = ahead;
    proof {
        assert forall|p: ResolvedPosition| p.file < k implies !#[trigger] spec_at(
            p,
            durations@,
            channels,
            goal,
        ) by {
            lemma_span_grows(durations@, channels, p.file as int, k as int);
        }
    }
    while k < durations.len()
        invariant
            from <= k <= durations.len(),
            channels > 0,
            goal == spec_span(durations@, channels, from as int) + ahead,
            goal == spec_span(durations@, channels, k as int) + rest,
            forall|p: ResolvedPosition|
                p.file < k ==> !#[trigger] spec_at(p, durations@, channels, goal),
        decreases durations.len() - k,
    {
        let d = usable_duration(durations, channels, k);
        if rest < d as u128 {
            return Ok(ResolvedPosition { file: k, sample: rest as u32 });
        }
        rest = rest - d as u128;
        k = k + 1;
    }
    Err(ResolveError::StartNotFound)
}

/// Walks backward from the start of shard `from`, `rest` samples back.
fn walk_backward(durations: &Vec<Option<u32>>, channels: u32, from: usize, back: u128) -> (start:
    Result<ResolvedPosition, ResolveError>)
    requires
        from < durations.len(),
        channels > 0,
        back >= 1,
    ensures
        match start {
            Ok(pos) => spec_at(
                pos,
                durations@,
                channels,
                spec_span(durations@, channels, from as int) - back,
            ),
            Err(e) => spec_no_place(
                durations@,
                channels,
                spec_span(durations@, channels, from as int) - back,
            ),
        },
{
    let ghost goal = spec_span(durations@, channels, from as int) - back;
    let mut k: usize = from;
    let mut rest: u128 = back;
    while k > 0
        invariant
            k <= from < durations.len(),
            channels > 0,
            rest >= 1,
            goal == spec_span(durations@, channels, from as int) - back,
            goal == spec_span(durations@, channels, k as int) - rest,
        decreases k,
    {
        k = k - 1;
        let d = usable_duration(durations, channels, k);
        if rest <= d as u128 {
            return Ok(ResolvedPosition { file: k, sample: (d as u128 - rest) as u32 });
        }
        rest = rest - d as u128;
    }
    proof {
        assert forall|p: ResolvedPosition| !#[trigger] spec_at(p, durations@, channels, goal) by {
            lemma_span_grows(durations@, channels, p.file as int, p.file as int);
        }
    }
    Err(ResolveError::StartNotFound)
}

/// What `find_start` owes: the place of the instant, which is a sample of its
/// shard, or `StartNotFound` where the marker's shard is not among the shards or
/// no sample lies at the instant.
pub open spec fn spec_start(
    from_nanos: i64,
    nanos: i64,
    sample: u32,
    file: usize,
    durations: Seq<Option<u32>>,
    channels: u32,
    freq: u32,
    start: Result<ResolvedPosition, ResolveError>,
) -> bool {
    let target = spec_target(from_nanos, nanos, sample, file, durations, channels, freq);
    match start {
        Ok(pos) => file < durations.len() && spec_at(pos, durations, channels, target),
        Err(e) => e == ResolveError::StartNotFound && (file >= durations.len() || spec_no_place(
            durations,
            channels,
            target,
        )),
    }
}

/// The instant of a marker that lies in its shard resolves to the marker's own
/// shard and offset.
pub proof fn law_marker_is_its_own_start(
    nanos: i64,
    sample: u32,
    file: usize,
    durations: Seq<Option<u32>>,
    channels: u32,
    freq: u32,
    start: Result<ResolvedPosition, ResolveError>,
)
    requires
        file < durations.len(),
        sample < spec_usable(durations, channels, file as int),
        spec_start(nanos, nanos, sample, file, durations, channels, freq, start),
    ensures
        start == Ok::<ResolvedPosition, ResolveError>(ResolvedPosition { file, sample }),
{
    let own = ResolvedPosition { file, sample };
    let target = spec_target(nanos, nanos, sample, file, durations, channels, freq);
    assert(spec_at(own, durations, channels, target));
    if let Ok(pos) = start {
        law_place_is_unique(pos, own, durations, channels, target);
    }
}

/// Before shard `k` of shards that all count `each` samples lie `k * each` samples.
proof fn lemma_equal_span(durations: Seq<Option<u32>>, channels: u32, each: int, k: int)
    requires
        0 <= k <= durations.len(),
        forall|j: int| 0 <= j < durations.len() ==> spec_usable(durations, channels, j) == each,
    ensures
        spec_span(durations, channels, k) == k * each,
    decreases k,
{
    if k > 0 {
        lemma_equal_span(durations, channels, each, k - 1);
        assert((k - 1) * each + each == k * each) by (nonlinear_arith);
    } else {
        assert(0 * each == 0) by (nonlinear_arith);
    }
}

/// Among shards of one length the walk is a division: with `each` samples that
/// count in every shard, an instant `target` samples after the start of the
/// first shard lies in shard `target / each`, at offset `target % each`; an
/// instant before the first or after the last sample has no place.
pub proof fn law_equal_shards(
    from_nanos: i64,
    nanos: i64,
    sample: u32,
    file: usize,
    durations: Seq<Option<u32>>,
    channels: u32,
    freq: u32,
    raw: u32,
    start: Result<ResolvedPosition, ResolveError>,
)
    requires
        channels > 0,
        raw / channels > 0,
        file < durations.len() <= usize::MAX,
        forall|j: int| 0 <= j < durations.len() ==> durations[j] == Some(raw),
        spec_start(from_nanos, nanos, sample, file, durations, channels, freq, start),
    ensures
        ({
            let each = (raw / channels) as int;
            let delta = spec_sample_delta(from_nanos, nanos, freq);
            let target = file * each + sample + if from_nanos < nanos {
                -delta
            } else {
                delta
            };
            if 0 <= target < durations.len() * each {
                start == Ok::<ResolvedPosition, ResolveError>(
                    ResolvedPosition {
                        file: (target / each) as usize,
                        sample: (target % each) as u32,
                    },
                )
            } else {
                start == Err::<ResolvedPosition, ResolveError>(ResolveError::StartNotFound)
            }
        }),
{
    let each = (raw / channels) as int;
    let count = durations.len() as int;
    let target = spec_target(from_nanos, nanos, sample, file, durations, channels, freq);
    lemma_equal_span(durations, channels, each, file as int);
    if 0 <= target < count * each {
        let k = target / each;
        let r = target % each;
        assert(0 <= k < count && 0 <= r < each && k * each + r == target) by (nonlinear_arith)
            requires
                0 <= target < count * each,
                each > 0,
                k == target / each,
                r == target % each,
        ;
        lemma_equal_span(durations, channels, each, k);
        let own = ResolvedPosition { file: k as usize, sample: r as u32 };
        assert(spec_at(own, durations, channels, target));
        if let Ok(pos) = start {
            law_place_is_unique(pos, own, durations, channels, target);
        }
    } else if let Ok(pos) = start {
        lemma_equal_span(durations, channels, each, pos.file as int);
        assert(pos.file * each + each <= count * each) by (nonlinear_arith)
            requires
                0 <= pos.file < count,
                each > 0,
        ;
        assert(0 <= pos.file * each) by (nonlinear_arith)
            requires
                0 <= pos.file,
                each > 0,
        ;
    }
}

/// Finds the place of the instant `from_nanos` in the recording.
///
/// A marker of instant `nanos` was found at offset `sample` of shard `file`.
/// `durations` gives, for each shard in order, its raw length in samples, or
/// `None` where the shard could not be opened: such a shard holds no sample. The
/// distance between the two instants becomes a number of samples at `freq` hertz,
/// and the place is the one that lies so many samples before or after the marker,
/// across as many shards as it takes. The place is always a sample of its shard.
pub fn find_start(
    from_nanos: i64,
    nanos: i64,
    sample: u32,
    file: usize,
    durations: &Vec<Option<u32>>,
    channels: u32,
    freq: u32,
) -> (start: Result<ResolvedPosition, ResolveError>)
    requires
        channels > 0,
    ensures
        spec_start(from_nanos, nanos, sample, file, durations@, channels, freq, start),
{
    if file >= durations.len() {
        return Err(ResolveError::StartNotFound);
    }
    let delta = sample_delta(from_nanos, nanos, freq);
    if from_nanos < nanos {
        if delta <= sample as u128 {
            walk_forward(durations, channels, file, sample as u128 - delta)
        } else {
            walk_backward(durations, channels, file, delta - sample as u128)
        }
    } else {
        walk_forward(durations, channels, file, sample as u128 + delta)
    }
}

} // verus!
