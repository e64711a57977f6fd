//! Instants on the time line, counted from the Unix epoch.

use vstd::prelude::*;

verus! {

/// Nanoseconds in one second.
pub const NANOS_PER_SEC: u32 = 1_000_000_000;

/// An instant: whole seconds since the Unix epoch (negative before it) and the
/// nanoseconds past that second.
#[derive(Clone, Copy, Debug)]
pub struct Timestamp {
    secs: i64,
    nanos: u32,
}

impl Timestamp {
    #[verifier::type_invariant]
    spec fn normalized(self) -> bool {
        self.nanos < NANOS_PER_SEC
    }

    /// The whole seconds since the epoch.
    pub closed spec fn spec_secs(self) -> int {
        self.secs as int
    }

    /// The nanoseconds past `spec_secs`.
    pub closed spec fn spec_subsec_nanos(self) -> int {
        self.nanos as int
    }

    /// The instant as one number: nanoseconds since the epoch.
    pub open spec fn spec_nanos(self) -> int {
        self.spec_secs() * 1_000_000_000 + self.spec_subsec_nanos()
    }

    /// Builds the instant `secs` seconds and `nanos` nanoseconds after the epoch;
    /// `None` when `nanos` does not lie within one second.
    pub fn new(secs: i64, nanos: u32) -> (r: Option<Timestamp>)
        ensures
            r is Some <==> nanos < NANOS_PER_SEC,
            r matches Some(t) ==> t.spec_secs() == secs && t.spec_subsec_nanos() == nanos,
    {
        if nanos < NANOS_PER_SEC {
            Some(Timestamp { secs, nanos })
        } else {
            None
        }
    }

    /// Builds the instant that lies `secs` seconds and `nanos` nanoseconds after
    /// the epoch; `None` when `nanos` does not lie within one second or the
    /// instant is out of range.
    pub fn after_epoch(secs: u64, nanos: u32) -> (r: Option<Timestamp>)
        ensures
            r is Some <==> nanos < NANOS_PER_SEC && secs <= i64::MAX,
            r matches Some(t) ==> t.spec_nanos() == secs * 1_000_000_000 + nanos,
    {
        if secs > i64::MAX as u64 {
            return None;
        }
        Timestamp::new(secs as i64, nanos)
    }

    /// Builds the instant that lies `secs` seconds and `nanos` nanoseconds
    /// before the epoch; `None` when `nanos` does not lie within one second or
    /// the instant is out of range.
    pub fn before_epoch(secs: u64, nanos: u32) -> (r: Option<Timestamp>)
        ensures
            r is Some <==> nanos < NANOS_PER_SEC && secs <= i64::MAX,
            r matches Some(t) ==> t.spec_nanos() == -(secs * 1_000_000_000 + nanos),
    {
        if secs > i64::MAX as u64 || nanos >= NANOS_PER_SEC {
            return None;
        }
        if nanos == 0 {
            Timestamp::new(-(secs as i64), 0)
        } else {
            Timestamp::new(-(secs as i64) - 1, NANOS_PER_SEC - nanos)
        }
    }

    /// The whole seconds since the epoch.
    pub fn secs(&self) -> (r: i64)
        ensures
            r == self.spec_secs(),
    {
        self.secs
    }

    /// The nanoseconds past the last whole second.
    pub fn subsec_nanos(&self) -> (r: u32)
        ensures
            r == self.spec_subsec_nanos(),
            r < NANOS_PER_SEC,
    {
        proof {
            use_type_invariant(self);
        }
        self.nanos
    }

    /// Whether `self` lies strictly after `other`.
    pub fn is_after(&self, other: &Timestamp) -> (r: bool)
        ensures
            r == (self.spec_nanos() > other.spec_nanos()),
    {
        proof {
            use_type_invariant(self);
            use_type_invariant(other);
        }
        self.secs > other.secs || (self.secs == other.secs && self.nanos > other.nanos)
    }

    /// The whole seconds that passed from `earlier` to `self`; `None` when
    /// `earlier` lies after `self`.
    pub fn seconds_since(&self, earlier: &Timestamp) -> (r: Option<u64>)
        ensures
            r is Some <==> earlier.spec_nanos() <= self.spec_nanos(),
            r matches Some(d) ==> d == (self.spec_nanos() - earlier.spec_nanos()) / 1_000_000_000,
    {
        proof {
            use_type_invariant(self);
            use_type_invariant(earlier);
        }
        if earlier.is_after(self) {
            return None;
        }
        let whole: i128 = self.secs as i128 - earlier.secs as i128;
        let d: i128 = if self.nanos >= earlier.nanos { whole } else { whole - 1 };
        Some(d as u64)
    }
}

} // verus!
