//! The elevation oracle's decisions.
//!
//! The privilege queries themselves run outside the library; what stands
//! here is the reading of their output.  Any outcome that is not a clear
//! affirmative — an error, a vanished process, junk output — counts as
//! not elevated, so callers never mistakenly believe they hold
//! administrative power.

use vstd::prelude::*;
use crate::strutil::{fold, trimmed, has_prefix, has_substring};
use crate::strutil::{str_trim, eq_ignore_case, str_starts_with, str_contains};

verus! {

/// Whether a privilege query's output affirms elevation: the text, with
/// surrounding whitespace removed, reads `true` in any letter case.
pub open spec fn affirms_elevation(s: Seq<char>) -> bool {
    fold(trimmed(s)) == fold("true"@)
}

/// Read a privilege query's output.
pub fn parse_elevation_output(stdout: &str) -> (r: bool)
    ensures
        r == affirms_elevation(stdout@),
{
    let t = str_trim(stdout);
    eq_ignore_case(t, "true")
}

/// The elevation verdict for a query that may itself have failed: only a
/// successful query whose output affirms elevation counts; every failure
/// degrades to `false` rather than to an error.
pub fn elevation_verdict(query_succeeded: bool, stdout: &str) -> (r: bool)
    ensures
        r == (query_succeeded && affirms_elevation(stdout@)),
{
    if !query_succeeded {
        false
    } else {
        parse_elevation_output(stdout)
    }
}

/// How an elevation request ended.
#[derive(Debug, Clone)]
pub enum ElevationResponse {
    /// The elevated process was started.
    Started,
    /// The user declined or cancelled the prompt.
    Denied,
    /// The request could not be carried out; the raw response rides along.
    Failed(String),
}

/// Classify the textual response to an elevation request: an affirmative
/// prefix means the elevated process started; a cancellation or denial is
/// the user's decision, not an error; anything else is a failure carrying
/// the raw text.
pub fn classify_elevation_response(stdout: &str) -> (r: ElevationResponse)
    ensures
        has_prefix(trimmed(stdout@), "Success"@) ==> r is Started,
        !has_prefix(trimmed(stdout@), "Success"@) && (has_substring(trimmed(stdout@), "canceled"@)
            || has_substring(trimmed(stdout@), "denied"@)) ==> r is Denied,
        !has_prefix(trimmed(stdout@), "Success"@) && !has_substring(trimmed(stdout@), "canceled"@)
            && !has_substring(trimmed(stdout@), "denied"@) ==> (r matches
        ElevationResponse::Failed(m) && m@ == trimmed(stdout@)),
{
    let t = str_trim(stdout);
    if str_starts_with(t, "Success") {
        ElevationResponse::Started
    } else if str_contains(t, "canceled") || str_contains(t, "denied") {
        ElevationResponse::Denied
    } else {
        ElevationResponse::Failed(t.to_owned())
    }
}

} // verus!
