//! Rendering a rotation epoch as a timestamp string.
//!
//! The rendering itself is done by the chrono crate; the library only names
//! its result, so that contracts can say that two files opened under the same
//! epoch and format carry the same stamp.

use std::fmt::Write;
use vstd::prelude::*;

verus! {

/// What chrono renders for the UTC time `epoch` (in seconds since the Unix
/// epoch) under the strftime pattern `fmt`: `None` when the epoch is out of
/// chrono's range or the pattern is invalid, otherwise the rendered text.
pub uninterp spec fn formatted_time(epoch: u64, fmt: Seq<char>) -> Option<Seq<char>>;

/// Relies on chrono: `DateTime::<Utc>::from_timestamp` builds the UTC time for
/// an epoch second (`None` when out of range), and `DateTime::format` renders
/// it under a strftime pattern, reporting an invalid pattern as an error
/// rather than text.  Both depend on the two arguments alone.
#[verifier::external_body]
pub(crate) fn format_epoch(epoch: u64, fmt: &str) -> (r: Option<String>)
    ensures
        r is Some <==> formatted_time(epoch, fmt@) is Some,
        r matches Some(s) ==> Some(s@) == formatted_time(epoch, fmt@),
{
    let secs = match i64::try_from(epoch) {
        Ok(s) => s,
        Err(_) => return None,
    };
    let dt = match chrono::DateTime::<chrono::Utc>::from_timestamp(secs, 0) {
        Some(d) => d,
        None => return None,
    };
    let mut out = String::new();
    match write!(out, "{}", dt.format(fmt)) {
        Ok(()) => Some(out),
        Err(_) => None,
    }
}

} // verus!
