//! Points in time, as the world and the agendas record them.

use vstd::prelude::*;

verus! {

/// A point in time on the UTC scale: whole seconds since the start of 1970 and
/// the nanoseconds into that second.
#[derive(Clone, Copy, Debug, PartialEq, Eq, Hash, Structural)]
pub struct Timestamp {
    pub secs: i64,
    pub nanos: u32,
}

/// Calls `chrono::Utc::now` and hands out the seconds and the nanoseconds of
/// the moment it returns (`timestamp`, `timestamp_subsec_nanos`). Nothing is
/// claimed of the value: it is whatever the machine's clock says. `now` itself
/// gives up on a machine whose clock stands before 1970.
#[verifier::external_body]
pub(crate) fn now() -> (moment: Timestamp) {
    let moment = chrono::Utc::now();
    Timestamp { secs: moment.timestamp(), nanos: moment.timestamp_subsec_nanos() }
}

} // verus!
