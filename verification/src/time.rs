//! Instants on the UTC time line, with nanosecond resolution.

use vstd::prelude::*;

verus! {

/// Seconds of the earliest supported instant, `0000-01-01T00:00:00Z`.
pub const MIN_SECONDS: i64 = -62_167_219_200;

/// Seconds of the last supported second, `9999-12-31T23:59:59Z`.
pub const MAX_SECONDS: i64 = 253_402_300_799;

/// Nanoseconds in one second.
pub const NANOS_PER_SECOND: u32 = 1_000_000_000;

/// Whether `secs` seconds and `nanos` nanoseconds since the epoch name a
/// supported instant.
pub open spec fn in_range(secs: int, nanos: int) -> bool {
    &&& MIN_SECONDS <= secs <= MAX_SECONDS
    &&& 0 <= nanos < NANOS_PER_SECOND
}

/// The instant `secs` seconds and `nanos` nanoseconds after the epoch, counted
/// in nanoseconds.
pub open spec fn instant(secs: int, nanos: int) -> int {
    secs * NANOS_PER_SECOND + nanos
}

/// An instant between year 0 and year 9999, as whole seconds since the Unix
/// epoch and the nanoseconds into that second.
#[derive(Clone, Copy, Debug, PartialEq, Eq, PartialOrd, Ord, Hash)]
pub struct Timestamp {
    secs: i64,
    nanos: u32,
}

impl View for Timestamp {
    type V = int;

    /// Nanoseconds since the Unix epoch.
    closed spec fn view(&self) -> int {
        instant(self.secs as int, self.nanos as int)
    }
}

impl Timestamp {
    #[verifier::type_invariant]
    spec fn well_formed(self) -> bool {
        in_range(self.secs as int, self.nanos as int)
    }

    /// The whole seconds since the epoch, rounded towards the past.
    pub closed spec fn spec_seconds(&self) -> i64 {
        self.secs
    }

    /// The nanoseconds into the current second.
    pub closed spec fn spec_subsec_nanos(&self) -> u32 {
        self.nanos
    }

    /// The instant, if it is a supported one.
    pub fn new(secs: i64, nanos: u32) -> (r: Option<Timestamp>)
        ensures
            r.is_some() == in_range(secs as int, nanos as int),
            r matches Some(t) ==> t@ == instant(secs as int, nanos as int)
                && t.spec_seconds() == secs && t.spec_subsec_nanos() == nanos,
    {
        if MIN_SECONDS <= secs && secs <= MAX_SECONDS && nanos < NANOS_PER_SECOND {
            Some(Timestamp { secs, nanos })
        } else {
            None
        }
    }

    /// The Unix epoch, `1970-01-01T00:00:00Z`.
    pub fn epoch() -> (t: Timestamp)
        ensures
            t@ == 0,
            t.spec_seconds() == 0,
            t.spec_subsec_nanos() == 0,
    {
        Timestamp { secs: 0, nanos: 0 }
    }

    #[verifier::when_used_as_spec(spec_seconds)]
    pub fn seconds(&self) -> (s: i64)
        ensures
            s == self.spec_seconds(),
            in_range(s as int, self.spec_subsec_nanos() as int),
            self@ == instant(s as int, self.spec_subsec_nanos() as int),
    {
        proof {
            use_type_invariant(self);
        }
        self.secs
    }

    #[verifier::when_used_as_spec(spec_subsec_nanos)]
    pub fn subsec_nanos(&self) -> (n: u32)
        ensures
            n == self.spec_subsec_nanos(),
            in_range(self.spec_seconds() as int, n as int),
            self@ == instant(self.spec_seconds() as int, n as int),
    {
        proof {
            use_type_invariant(self);
        }
        self.nanos
    }

    /// Whether this instant is `other` or earlier.
    pub fn at_or_before(&self, other: &Timestamp) -> (r: bool)
        ensures
            r == (self@ <= other@),
    {
        proof {
            use_type_invariant(self);
            use_type_invariant(other);
        }
        self.secs < other.secs || (self.secs == other.secs && self.nanos <= other.nanos)
    }
}

} // verus!
