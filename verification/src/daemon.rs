//! The supervisor's restart policy for the two long-lived daemons.
//!
//! A daemon that fails before it ever reported `started` is fatal. After a
//! successful start it is restarted, up to the allowed number of failures;
//! beyond that the process gives up.

use vstd::prelude::*;

verus! {

/// How many post-start failures are tolerated before giving up.
pub const ALLOWED_FAILURES: u32 = 10;

/// What to do when a daemon's run function returns with an error.
#[derive(Debug, PartialEq, Eq, Structural)]
pub enum DaemonVerdict {
    /// Restart the daemon.
    Restart,
    /// It never started: exit.
    FatalStartFailure,
    /// It failed too often after starting: exit.
    FatalTooManyFailures,
}

/// Decide on a daemon failure: restart only a daemon that had reported
/// `started` and has not exhausted the failure budget; report the new
/// failure count.
pub fn supervise_failure(started: bool, fails: u32) -> (r: (DaemonVerdict, u32))
    ensures
        !started ==> r.0 == DaemonVerdict::FatalStartFailure,
        started && fails <= ALLOWED_FAILURES ==> r.0 == DaemonVerdict::Restart && r.1 == fails + 1,
        started && fails > ALLOWED_FAILURES ==> r.0 == DaemonVerdict::FatalTooManyFailures,
{
    if !started {
        (DaemonVerdict::FatalStartFailure, fails)
    } else if fails <= ALLOWED_FAILURES {
        (DaemonVerdict::Restart, fails + 1)
    } else {
        (DaemonVerdict::FatalTooManyFailures, fails)
    }
}

} // verus!
