//! Points in time, as nanoseconds since the Unix epoch.

use vstd::prelude::*;

verus! {

/// A point in time: nanoseconds since the Unix epoch.
#[derive(Clone, Copy)]
pub struct Timestamp {
    pub nanos: u128,
}

/// Reads the system clock through `web_time::SystemTime::now`, as
/// nanoseconds since the Unix epoch (`None` for a clock before the epoch).
/// Nothing is promised of the value: it is the clock's.
#[verifier::external_body]
fn clock_nanos() -> Option<u128> {
    match web_time::SystemTime::now().duration_since(web_time::UNIX_EPOCH) {
        Ok(d) => Some(d.as_nanos()),
        Err(_) => None,
    }
}

impl Timestamp {
    /// The current time (the epoch itself if the clock reads earlier).
    pub fn now() -> (r: Timestamp) {
        match clock_nanos() {
            Some(n) => Timestamp { nanos: n },
            None => Timestamp { nanos: 0 },
        }
    }

    /// Nanoseconds from `earlier` to `self`, or `None` if `earlier` is later.
    pub fn duration_since(&self, earlier: &Timestamp) -> (r: Option<u128>)
        ensures
            r == (if earlier.nanos <= self.nanos { Some((self.nanos - earlier.nanos) as u128) } else { None::<u128> }),
    {
        if earlier.nanos <= self.nanos {
            Some(self.nanos - earlier.nanos)
        } else {
            None
        }
    }
}

} // verus!
