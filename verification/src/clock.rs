//! Points in time, as the manifest records them.

use vstd::prelude::*;

verus! {

/// A point in time: whole seconds since 1970-01-01T00:00:00Z, and the
/// nanoseconds since that second began.
#[derive(Clone, Copy, Debug, PartialEq, Eq, Structural)]
pub struct Timestamp {
    pub secs: i64,
    pub nanos: u32,
}

/// Reads the system clock through `chrono::Utc::now`. Nothing is claimed of the
/// value: it is whatever the clock says. `Utc::now` does not return if the
/// clock stands before 1970.
#[verifier::external_body]
pub(crate) fn current_time() -> (t: Timestamp) {
    let now = chrono::Utc::now();
    Timestamp { secs: now.timestamp(), nanos: now.timestamp_subsec_nanos() }
}

} // verus!
