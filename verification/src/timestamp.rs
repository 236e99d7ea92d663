//! Points in time, as carried by the `timestamp` attribute of an element.

use vstd::prelude::*;

verus! {

/// Number of nanoseconds in one second.
pub const NANOS_PER_SECOND: u32 = 1_000_000_000;

/// The bound of the nanoseconds of a timestamp: those of two seconds.
pub const NANOS_LIMIT: u32 = 2_000_000_000;

/// A point in time on the UTC time line: the whole seconds since the Unix
/// epoch (1970-01-01T00:00:00Z), leap seconds not counted, and the
/// nanoseconds since the last of these seconds.
///
/// The nanoseconds stay below 1,000,000,000 but within a leap second, which
/// counts as the continuation of the second before it: there they run on
/// from 1,000,000,000 to 1,999,999,999.
#[derive(Clone, Copy, Debug, PartialEq, Eq, Structural)]
pub struct Timestamp {
    seconds: i64,
    nanos: u32,
}

impl Timestamp {
    /// The invariant of the representation: the nanoseconds are below `NANOS_LIMIT`.
    #[verifier::type_invariant]
    pub closed spec fn wf(self) -> bool {
        self.nanos < NANOS_LIMIT
    }

    /// Whole seconds since the epoch; negative before it.
    pub closed spec fn spec_seconds(&self) -> i64 {
        self.seconds
    }

    /// Nanoseconds since the last whole second.
    pub closed spec fn spec_nanos(&self) -> u32 {
        self.nanos
    }

    /// The timestamp `seconds` and `nanos` after the epoch, or `None` where
    /// `nanos` is not below `NANOS_LIMIT`.
    pub fn new(seconds: i64, nanos: u32) -> (r: Option<Timestamp>)
        ensures
            r is Some <==> nanos < NANOS_LIMIT,
            r matches Some(t) ==> t.spec_seconds() == seconds && t.spec_nanos() == nanos && t.wf(),
    {
        if nanos < NANOS_LIMIT {
            Some(Timestamp { seconds, nanos })
        } else {
            None
        }
    }

    /// The timestamp a whole number of seconds from the epoch.
    pub fn from_seconds(seconds: i64) -> (r: Timestamp)
        ensures
            r.spec_seconds() == seconds,
            r.spec_nanos() == 0,
            r.wf(),
    {
        Timestamp { seconds, nanos: 0 }
    }

    /// Whole seconds since the epoch; negative before it.
    #[verifier::when_used_as_spec(spec_seconds)]
    pub fn seconds(&self) -> (r: i64)
        ensures
            r == self.spec_seconds(),
    {
        self.seconds
    }

    /// Nanoseconds since the last whole second; 1,000,000,000 or more
    /// within a leap second only.
    #[verifier::when_used_as_spec(spec_nanos)]
    pub fn nanos(&self) -> (r: u32)
        ensures
            r == self.spec_nanos(),
            r < NANOS_LIMIT,
    {
        proof {
            use_type_invariant(self);
        }
        self.nanos
    }
}

/// Timestamps are equal exactly when they agree in seconds and nanoseconds.
pub proof fn timestamp_equality_is_by_parts(a: Timestamp, b: Timestamp)
    ensures
        a == b <==> a.spec_seconds() == b.spec_seconds() && a.spec_nanos() == b.spec_nanos(),
{
}

} // verus!
