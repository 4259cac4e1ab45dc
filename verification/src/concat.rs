//! The name of the file that holds all shards of a directory joined.

use vstd::prelude::*;
use vstd::string::StringExecFns;
use chrono::DateTime;

verus! {

/// The RFC 3339 text of the instant `nanos` nanoseconds after the epoch, in UTC.
pub uninterp spec fn spec_rfc3339_text(nanos: i64) -> Seq<char>;

/// `DateTime::from_timestamp_nanos`, written by `to_rfc3339`: the text of the
/// instant, which depends on the instant alone.
#[verifier::external_body]
fn rfc3339_text(nanos: i64) -> (text: String)
    ensures
        text@ == spec_rfc3339_text(nanos),
{
    DateTime::from_timestamp_nanos(nanos).to_rfc3339()
}

/// The name of an output file with a stamp: the directory, the stem, the
/// stamp, and the extension.
pub open spec fn spec_stamped_name(
    dir: Seq<char>,
    stem: Seq<char>,
    ext: Seq<char>,
    stamp: Seq<char>,
) -> Seq<char> {
    dir + seq!['/'] + stem + seq!['_'] + stamp + seq!['.'] + ext
}

/// Puts a stamp between the stem and the extension of an output file.
pub fn stamped_name(dir: &str, stem: &str, ext: &str, stamp: &str) -> (name: String)
    ensures
        name@ == spec_stamped_name(dir@, stem@, ext@, stamp@),
{
    proof {
        reveal_strlit("/");
        reveal_strlit("_");
        reveal_strlit(".");
        assert("/"@ =~= seq!['/']);
        assert("_"@ =~= seq!['_']);
        assert("."@ =~= seq!['.']);
    }
    let mut name = String::from_str(dir);
    name.append("/");
    name.append(stem);
    name.append("_");
    name.append(stamp);
    name.append(".");
    name.append(ext);
    assert(name@ =~= spec_stamped_name(dir@, stem@, ext@, stamp@));
    name
}

/// Names the output file of a joined recording after the instant at which
/// the recording starts.
pub fn output_name(dir: &str, stem: &str, ext: &str, start_nanos: i64) -> (name: String)
    ensures
        name@ == spec_stamped_name(dir@, stem@, ext@, spec_rfc3339_text(start_nanos)),
{
    let stamp = rfc3339_text(start_nanos);
    stamped_name(dir, stem, ext, stamp.as_str())
}

} // verus!
