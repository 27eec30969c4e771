//! The rotation decision evaluated on every write.

use crate::policy::RotationPolicy;
use vstd::arithmetic::div_mod::{lemma_fundamental_div_mod, lemma_mod_bound};
use vstd::prelude::*;
use vstd::string::StringSliceAdditionalSpecFns;

verus! {

/// The mutable state of the file currently being written: its name, the
/// rotation epoch it was opened under, and the bytes written to it since.
pub struct ActiveFileState {
    /// File name under the root directory.
    pub name: String,
    /// Rotation epoch the file was opened under, in seconds since the Unix
    /// epoch.
    pub epoch: u64,
    /// Bytes appended since the file was opened, trailing newlines included.
    pub bytes_written: u64,
}

impl ActiveFileState {
    /// The state of a newly opened, still empty file.
    pub fn fresh(name: String, epoch: u64) -> (r: Self)
        ensures
            r.name == name,
            r.epoch == epoch,
            r.bytes_written == 0,
    {
        ActiveFileState { name, epoch, bytes_written: 0 }
    }
}

/// What a write request must do to the active file before the line is
/// appended: keep it, or retire it and open a successor under the given
/// epoch.
#[derive(Copy, Clone, PartialEq, Eq, Structural, Debug)]
pub enum WriteDecision {
    Keep,
    Rotate { epoch: u64 },
}

/// The interval-aligned epoch for a file opened at time `now`.
pub fn next_epoch(policy: &RotationPolicy, now: u64) -> (r: u64)
    ensures
        r as int == policy.next_epoch(now),
        r <= now,
{
    if policy.interval > 0 {
        proof {
            let i = policy.interval as int;
            lemma_fundamental_div_mod(now as int, i);
            lemma_mod_bound(now as int, i);
            assert((now as int / i) * i == now as int - (now as int % i));
        }
        (now / policy.interval) * policy.interval
    } else {
        now
    }
}

/// Evaluates both rotation triggers for a write of `line` at time `now`
/// against the active file: the decision is `Rotate` exactly when the size
/// or the time trigger fires, and the new epoch is the interval-aligned
/// boundary of `now`.
pub fn plan_write(policy: &RotationPolicy, active: &ActiveFileState, line: &str, now: u64) -> (d:
    WriteDecision)
    ensures
        (d is Rotate) == policy.rotates(
            active.bytes_written,
            crate::policy::line_cost(line@),
            active.epoch,
            now,
        ),
        d matches WriteDecision::Rotate { epoch } ==> epoch as int == policy.next_epoch(now),
{
    let len = line.len();
    proof {
        assert(len + 1 == crate::policy::line_cost(line@));
    }
    let size_fires = policy.size > 0 && (active.bytes_written as u128) + (len as u128) + 1 >= (
    policy.size as u128) * 1024;
    let time_fires = policy.interval > 0 && (now as u128) >= (active.epoch as u128) + (
    policy.interval as u128);
    if size_fires || time_fires {
        WriteDecision::Rotate { epoch: next_epoch(policy, now) }
    } else {
        WriteDecision::Keep
    }
}

} // verus!
