//! Spans and points of time as plain nanosecond counts.
//!
//! Deadlines are compared and subtracted in verified code, so time is held as
//! integers: a [`Duration`] is a non-negative span in nanoseconds, with the
//! same range as `std::time::Duration`, and an [`Instant`] is a point given
//! as nanoseconds since an origin the program chooses.

use vstd::prelude::*;
use vstd::std_specs::ops::{AddSpecImpl, SubSpecImpl};

verus! {

pub const NANOS_PER_SEC: u128 = 1_000_000_000;

pub const NANOS_PER_MILLI: u128 = 1_000_000;

/// The longest span a `std::time::Duration` can hold, in nanoseconds.
pub open spec fn max_duration_nanos() -> nat {
    (u64::MAX as nat) * 1_000_000_000 + 999_999_999
}

/// A span of time.
#[derive(Clone, Copy, PartialEq, Eq, PartialOrd, Ord, Debug, Hash, Structural)]
pub struct Duration {
    nanos: u128,
}

impl Duration {
    #[verifier::type_invariant]
    closed spec fn bounded(self) -> bool {
        self.nanos <= max_duration_nanos()
    }

    /// Length of the span in nanoseconds.
    pub closed spec fn spec_nanos(self) -> nat {
        self.nanos as nat
    }

    pub fn from_secs(secs: u64) -> (d: Duration)
        ensures
            d.spec_nanos() == secs * 1_000_000_000,
    {
        Duration { nanos: (secs as u128) * NANOS_PER_SEC }
    }

    pub fn from_millis(millis: u64) -> (d: Duration)
        ensures
            d.spec_nanos() == millis * 1_000_000,
    {
        assert(millis * 1_000_000 <= max_duration_nanos()) by (nonlinear_arith)
            requires
                millis <= u64::MAX,
        ;
        Duration { nanos: (millis as u128) * NANOS_PER_MILLI }
    }

    pub fn from_nanos_u128(nanos: u128) -> (r: Option<Duration>)
        ensures
            r is Some <==> nanos <= max_duration_nanos(),
            r matches Some(d) ==> d.spec_nanos() == nanos,
    {
        if nanos <= (u64::MAX as u128) * NANOS_PER_SEC + 999_999_999 {
            Some(Duration { nanos })
        } else {
            None
        }
    }

    pub fn is_zero(&self) -> (r: bool)
        ensures
            r == (self.spec_nanos() == 0),
    {
        self.nanos == 0
    }

    /// Whole seconds in the span.
    pub fn as_secs(&self) -> (r: u64)
        ensures
            r == self.spec_nanos() / 1_000_000_000,
    {
        proof {
            use_type_invariant(self);
        }
        (self.nanos / NANOS_PER_SEC) as u64
    }

    /// Whole milliseconds in the span.
    pub fn as_millis(&self) -> (r: u128)
        ensures
            r == self.spec_nanos() / 1_000_000,
    {
        self.nanos / NANOS_PER_MILLI
    }

    pub fn as_nanos(&self) -> (r: u128)
        ensures
            r == self.spec_nanos(),
            r <= max_duration_nanos(),
    {
        proof {
            use_type_invariant(self);
        }
        self.nanos
    }
}

/// A point in time, as nanoseconds since a fixed origin of the program's
/// choosing (its start, say): only differences between instants matter.
#[derive(Clone, Copy, PartialEq, Eq, PartialOrd, Ord, Debug, Hash, Structural)]
pub struct Instant {
    nanos: u128,
}

impl Instant {
    pub closed spec fn spec_nanos(self) -> nat {
        self.nanos as nat
    }

    pub fn from_nanos(nanos: u128) -> (r: Instant)
        ensures
            r.spec_nanos() == nanos,
    {
        Instant { nanos }
    }

    /// The span from `earlier` to `self`, or `None` when `earlier` is later
    /// than `self` or the span is longer than any `Duration`.
    pub fn checked_duration_since(&self, earlier: Instant) -> (r: Option<Duration>)
        ensures
            r is Some <==> (earlier.spec_nanos() <= self.spec_nanos() && self.spec_nanos()
                - earlier.spec_nanos() <= max_duration_nanos()),
            r matches Some(d) ==> d.spec_nanos() == self.spec_nanos() - earlier.spec_nanos(),
    {
        if earlier.nanos <= self.nanos {
            Duration::from_nanos_u128(self.nanos - earlier.nanos)
        } else {
            None
        }
    }

    pub fn checked_add(&self, d: Duration) -> (r: Option<Instant>)
        ensures
            r is Some <==> self.spec_nanos() + d.spec_nanos() <= u128::MAX,
            r matches Some(i) ==> i.spec_nanos() == self.spec_nanos() + d.spec_nanos(),
    {
        let n = d.as_nanos();
        if self.nanos <= u128::MAX - n {
            Some(Instant { nanos: self.nanos + n })
        } else {
            None
        }
    }
}

impl core::ops::Add<Duration> for Instant {
    type Output = Instant;

    fn add(self, rhs: Duration) -> (r: Instant)
        ensures
            r.spec_nanos() == self.spec_nanos() + rhs.spec_nanos(),
    {
        let n = rhs.as_nanos();
        Instant { nanos: self.nanos + n }
    }
}

impl AddSpecImpl<Duration> for Instant {
    open spec fn obeys_add_spec() -> bool {
        true
    }

    open spec fn add_req(self, rhs: Duration) -> bool {
        self.spec_nanos() + rhs.spec_nanos() <= u128::MAX
    }

    closed spec fn add_spec(self, rhs: Duration) -> Instant {
        Instant { nanos: (self.nanos + rhs.spec_nanos()) as u128 }
    }
}

impl core::ops::Sub<Duration> for Instant {
    type Output = Instant;

    fn sub(self, rhs: Duration) -> (r: Instant)
        ensures
            r.spec_nanos() == self.spec_nanos() - rhs.spec_nanos(),
    {
        let n = rhs.as_nanos();
        Instant { nanos: self.nanos - n }
    }
}

impl SubSpecImpl<Duration> for Instant {
    open spec fn obeys_sub_spec() -> bool {
        true
    }

    open spec fn sub_req(self, rhs: Duration) -> bool {
        rhs.spec_nanos() <= self.spec_nanos()
    }

    closed spec fn sub_spec(self, rhs: Duration) -> Instant {
        Instant { nanos: (self.nanos - rhs.spec_nanos()) as u128 }
    }
}

} // verus!
