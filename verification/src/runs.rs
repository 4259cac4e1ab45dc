//! The extractions that one call of the tool asks for.

use vstd::prelude::*;
use vstd::string::StringExecFns;
use chrono::DateTime;
use crate::text::{append_decimal, same_text, spec_decimal};

verus! {

/// One row of the table of cuts: the instants between which to extract, as
/// RFC 3339 text, and the range and the flight that the cut belongs to (`.`
/// where it belongs to none).
#[derive(Clone, Debug)]
pub struct CutRecord {
    pub start: String,
    pub end: String,
    pub range: String,
    pub flight: String,
}

/// One extraction: where it starts, how many samples it takes, and the
/// directory below the output directory that it writes to.
#[derive(Clone, Debug)]
pub struct Run {
    pub start: Option<i64>,
    pub samples: Option<u64>,
    pub output_dir_ext: String,
}

/// An extraction as plain values.
pub struct RunView {
    pub start: Option<i64>,
    pub samples: Option<u64>,
    pub output_dir_ext: Seq<char>,
}

impl View for Run {
    type V = RunView;

    open spec fn view(&self) -> RunView {
        RunView { start: self.start, samples: self.samples, output_dir_ext: self.output_dir_ext@ }
    }
}

/// A row of the table of cuts as plain values.
pub struct CutView {
    pub start: Seq<char>,
    pub end: Seq<char>,
    pub range: Seq<char>,
    pub flight: Seq<char>,
}

impl View for CutRecord {
    type V = CutView;

    open spec fn view(&self) -> CutView {
        CutView { start: self.start@, end: self.end@, range: self.range@, flight: self.flight@ }
    }
}

/// Why the table of cuts gives no extractions.
#[derive(Clone, Copy, Debug, PartialEq, Eq, Structural)]
pub enum RunsError {
    /// The start or the end of the row with this index is no instant.
    BadInstant(usize),
}

/// The instant that an RFC 3339 text names, in nanoseconds since the epoch;
/// `None` where the text is no such instant or the instant is out of range.
pub uninterp spec fn spec_rfc3339_nanos(text: Seq<char>) -> Option<i64>;

/// `DateTime::parse_from_rfc3339`, read through `timestamp_nanos_opt`: the
/// instant that the text names, which depends on the text alone.
#[verifier::external_body]
fn rfc3339_nanos(text: &str) -> (nanos: Option<i64>)
    ensures
        nanos == spec_rfc3339_nanos(text@),
{
    match DateTime::parse_from_rfc3339(text) {
        Ok(instant) => instant.timestamp_nanos_opt(),
        Err(_) => None,
    }
}

/// Whether the recording of this mode is the raw stream: four channels at
/// 192 kHz, where every other mode has one channel at 48 kHz.
pub open spec fn spec_is_raw(mode: Seq<char>) -> bool {
    mode == "rawi2s"@
}

/// The samples between two instants: the distance in seconds times the
/// samples of the mode in one second, rounded to the nearest sample, a half
/// upward; none where the end is not after the start.
pub open spec fn spec_cut_samples(start_nanos: i64, end_nanos: i64, raw: bool) -> int {
    let per_second: int = if raw {
        768000int
    } else {
        48000int
    };
    if end_nanos <= start_nanos {
        0
    } else {
        ((end_nanos - start_nanos) * per_second + 500_000_000) / 1_000_000_000
    }
}

/// The directory of an extraction below the output directory: the mode, then
/// `flight_` and the flight where the cut has one, then the module, then the
/// range where the cut has one.
pub open spec fn spec_cut_dir(mode: Seq<char>, module: u8, range: Seq<char>, flight: Seq<char>)
    -> Seq<char> {
    let flight_name = if flight == seq!['.'] {
        Seq::<char>::empty()
    } else {
        "flight_"@ + flight + seq!['/']
    };
    let range_name = if range == seq!['.'] {
        Seq::<char>::empty()
    } else {
        range + seq!['/']
    };
    mode + seq!['/'] + flight_name + spec_decimal(module as nat) + seq!['/'] + range_name
}

/// The directory of the one extraction that is made without a table of cuts.
pub open spec fn spec_plain_dir(mode: Seq<char>, module: u8) -> Seq<char> {
    mode + seq!['/'] + spec_decimal(module as nat)
}

/// The extraction of one cut, given the instants of its start and end.
pub open spec fn spec_run_of_cut(
    start_nanos: i64,
    end_nanos: i64,
    cut: CutView,
    mode: Seq<char>,
    module: u8,
) -> RunView {
    RunView {
        start: Some(start_nanos),
        samples: Some(spec_cut_samples(start_nanos, end_nanos, spec_is_raw(mode)) as u64),
        output_dir_ext: spec_cut_dir(mode, module, cut.range, cut.flight),
    }
}

/// Makes the extraction of one cut from the instants of its start and end.
pub fn run_of_cut(start_nanos: i64, end_nanos: i64, cut: &CutRecord, mode: &str, module: u8) -> (run:
    Run)
    ensures
        run@ == spec_run_of_cut(start_nanos, end_nanos, cut@, mode@, module),
{
    proof {
        reveal_strlit("/");
        reveal_strlit(".");
        assert("."@ =~= seq!['.']);
    }
    let raw = same_text(mode, "rawi2s");
    let per_second: u128 = if raw {
        4 * 192000
    } else {
        48000
    };
    let samples: u64 = if end_nanos <= start_nanos {
        0
    } else {
        let gap = (end_nanos as i128 - start_nanos as i128) as u128;
        assert(gap * per_second <= 0xFFFF_FFFF_FFFF_FFFF * 768000) by (nonlinear_arith)
            requires
                0 <= gap <= 0xFFFF_FFFF_FFFF_FFFF,
                0 <= per_second <= 768000,
        ;
        ((gap * per_second + 500_000_000) / 1_000_000_000) as u64
    };
    let mut dir = String::from_str(mode);
    dir.append("/");
    if !same_text(cut.flight.as_str(), ".") {
        dir.append("flight_");
        dir.append(cut.flight.as_str());
        dir.append("/");
    }
    append_decimal(&mut dir, module as u64);
    dir.append("/");
    if !same_text(cut.range.as_str(), ".") {
        dir.append(cut.range.as_str());
        dir.append("/");
    }
    assert(dir@ =~= spec_cut_dir(mode@, module, cut@.range, cut@.flight));
    Run { start: Some(start_nanos), samples: Some(samples), output_dir_ext: dir }
}

/// The instants of the start and the end of a cut, where both texts name one.
pub open spec fn spec_cut_instants(cut: CutView) -> Option<(i64, i64)> {
    match (spec_rfc3339_nanos(cut.start), spec_rfc3339_nanos(cut.end)) {
        (Some(start_nanos), Some(end_nanos)) => Some((start_nanos, end_nanos)),
        _ => None,
    }
}

/// What `runs` owes.
///
/// Without a table of cuts there is one extraction, with the start and the
/// samples that were asked for. With a table there is one extraction for each
/// row, in the order of the rows; the first row whose start or end is no
/// instant makes the whole table fail.
pub open spec fn spec_runs(
    start: Option<i64>,
    samples: Option<u64>,
    cuts: Option<Seq<CutRecord>>,
    mode: Seq<char>,
    module: u8,
    made: Result<Vec<Run>, RunsError>,
) -> bool {
    match (cuts, made) {
        (None, Ok(runs)) => runs@.len() == 1 && runs@[0]@ == (RunView {
            start,
            samples,
            output_dir_ext: spec_plain_dir(mode, module),
        }),
        (None, Err(_)) => false,
        (Some(table), Ok(runs)) => {
            &&& runs@.len() == table.len()
            &&& forall|i: int|
                0 <= i < table.len() ==> {
                    &&& spec_cut_instants(table[i]@) is Some
                    &&& (#[trigger] runs@[i])@ == spec_run_of_cut(
                        spec_cut_instants(table[i]@).unwrap().0,
                        spec_cut_instants(table[i]@).unwrap().1,
                        table[i]@,
                        mode,
                        module,
                    )
                }
        },
        (Some(table), Err(RunsError::BadInstant(row))) => {
            &&& row < table.len()
            &&& spec_cut_instants(table[row as int]@) is None
            &&& forall|j: int| 0 <= j < row ==> spec_cut_instants((#[trigger] table[j])@) is Some
        },
    }
}

/// Lists the extractions that one call of the tool asks for.
pub fn runs(
    start: Option<i64>,
    samples: Option<u64>,
    cuts: Option<&Vec<CutRecord>>,
    mode: &str,
    module: u8,
) -> (made: Result<Vec<Run>, RunsError>)
    ensures
        spec_runs(
            start,
            samples,
            match cuts {
                Some(table) => Some(table@),
                None => None,
            },
            mode@,
            module,
            made,
        ),
{
    let mut made: Vec<Run> = Vec::new();
    let table = match cuts {
        Some(table) => table,
        None => {
            proof {
                reveal_strlit("/");
                assert("/"@ =~= seq!['/']);
            }
            let mut dir = String::from_str(mode);
            dir.append("/");
            append_decimal(&mut dir, module as u64);
            made.push(Run { start, samples, output_dir_ext: dir });
            return Ok(made);
        },
    };
    let mut at: usize = 0;
    while at < table.len()
        invariant
            cuts == Some(table),
            at <= table@.len(),
            made@.len() == at,
            forall|j: int| 0 <= j < at ==> spec_cut_instants((#[trigger] table@[j])@) is Some,
            forall|i: int|
                0 <= i < at ==> {
                    &&& spec_cut_instants(table@[i]@) is Some
                    &&& (#[trigger] made@[i])@ == spec_run_of_cut(
                        spec_cut_instants(table@[i]@).unwrap().0,
                        spec_cut_instants(table@[i]@).unwrap().1,
                        table@[i]@,
                        mode@,
                        module,
                    )
                },
        decreases table@.len() - at,
    {
        let cut = &table[at];
        let start_nanos = match rfc3339_nanos(cut.start.as_str()) {
            Some(nanos) => nanos,
            None => {
                return Err(RunsError::BadInstant(at));
            },
        };
        let end_nanos = match rfc3339_nanos(cut.end.as_str()) {
            Some(nanos) => nanos,
            None => {
                return Err(RunsError::BadInstant(at));
            },
        };
        let run = run_of_cut(start_nanos, end_nanos, cut, mode, module);
        made.push(run);
        at = at + 1;
    }
    Ok(made)
}

} // verus!
