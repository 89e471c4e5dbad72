//! The round-trip time of a ping, as whole seconds and nanoseconds.

use vstd::prelude::*;

verus! {

/// Nanoseconds in one second.
pub const NANOS_PER_SEC: u64 = 1_000_000_000;

/// Nanoseconds in one millisecond.
pub const NANOS_PER_MILLI: u64 = 1_000_000;

/// How long the answer to a ping took.
#[derive(Clone, Copy, Debug, PartialEq, Eq, Structural)]
pub struct PingMeasurement {
    /// Whole seconds.
    pub secs: u64,
    /// The rest, in nanoseconds; below one second.
    pub nanos: u32,
}

/// The time from `sent` to `received`, two readings in nanoseconds of one
/// clock; zero if the clock ran backwards between them.
pub open spec fn elapsed(sent: u64, received: u64) -> PingMeasurement {
    let nanos: int = if received >= sent {
        received - sent
    } else {
        0
    };
    PingMeasurement {
        secs: (nanos / NANOS_PER_SEC as int) as u64,
        nanos: (nanos % NANOS_PER_SEC as int) as u32,
    }
}

/// A measurement of `millis` milliseconds.
pub open spec fn of_millis(millis: u64) -> PingMeasurement {
    PingMeasurement {
        secs: (millis / 1000) as u64,
        nanos: ((millis % 1000) * NANOS_PER_MILLI) as u32,
    }
}

impl PingMeasurement {
    /// The fractional part is below one second.
    pub open spec fn wf(&self) -> bool {
        self.nanos < NANOS_PER_SEC
    }

    /// The whole measurement in nanoseconds.
    pub open spec fn total_nanos(&self) -> nat {
        (self.secs * NANOS_PER_SEC + self.nanos) as nat
    }

    /// A measurement of `millis` milliseconds.
    pub fn from_millis(millis: u64) -> (r: PingMeasurement)
        ensures
            r == of_millis(millis),
            r.wf(),
            r.total_nanos() == millis * NANOS_PER_MILLI,
    {
        let rest: u64 = millis % 1000;
        PingMeasurement { secs: millis / 1000, nanos: (rest * NANOS_PER_MILLI) as u32 }
    }

    /// The time from `sent` to `received`, two readings in nanoseconds of one
    /// clock; zero if the clock ran backwards between them.
    pub fn between(sent: u64, received: u64) -> (r: PingMeasurement)
        ensures
            r == elapsed(sent, received),
            r.wf(),
            r.total_nanos() == if received >= sent {
                received - sent
            } else {
                0
            },
    {
        let elapsed: u64 = if received >= sent {
            received - sent
        } else {
            0
        };
        PingMeasurement { secs: elapsed / NANOS_PER_SEC, nanos: (elapsed % NANOS_PER_SEC) as u32 }
    }
}

} // verus!
