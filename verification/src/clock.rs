//! Instants on the wall clock, as plain numbers.

use vstd::prelude::*;

verus! {

/// An instant: whole seconds since the Unix epoch and the nanoseconds into
/// the running second. Instants are ordered by seconds first, then by
/// nanoseconds.
#[derive(Clone, Copy, Debug, PartialEq, Eq, Hash, Structural)]
pub struct Timestamp {
    /// Whole seconds since 1970-01-01T00:00:00Z.
    pub secs: u64,
    /// Nanoseconds since the last whole second.
    pub nanos: u32,
}

impl Timestamp {
    /// `self` is strictly earlier than `other`.
    pub open spec fn before(self, other: Timestamp) -> bool {
        self.secs < other.secs || (self.secs == other.secs && self.nanos < other.nanos)
    }

    /// `self` is `other` or later.
    pub open spec fn at_or_after(self, other: Timestamp) -> bool {
        !self.before(other)
    }

    /// `self` is earlier than the instant `secs` whole seconds after `start`.
    /// The sum is taken in the integers, so it is exact however large `secs` is.
    pub open spec fn within(self, start: Timestamp, secs: u64) -> bool {
        self.secs < start.secs + secs || (self.secs == start.secs + secs && self.nanos
            < start.nanos)
    }

    /// The instant `secs` seconds after the epoch.
    pub fn from_secs(secs: u64) -> (t: Timestamp)
        ensures
            t == (Timestamp { secs, nanos: 0 }),
    {
        Timestamp { secs, nanos: 0 }
    }

    /// The instant that was read, or the epoch where none could be read: a
    /// time before the epoch counts as the epoch.
    pub fn or_epoch(read: Option<Timestamp>) -> (t: Timestamp)
        ensures
            t == (match read {
                Some(instant) => instant,
                None => Timestamp { secs: 0, nanos: 0 },
            }),
    {
        match read {
            Some(instant) => instant,
            None => Timestamp { secs: 0, nanos: 0 },
        }
    }

    /// The instant `secs` seconds and `nanos` nanoseconds after the epoch.
    pub fn new(secs: u64, nanos: u32) -> (t: Timestamp)
        ensures
            t == (Timestamp { secs, nanos }),
    {
        Timestamp { secs, nanos }
    }

    /// Seconds since the epoch.
    pub fn secs(&self) -> (s: u64)
        ensures
            s == self.secs,
    {
        self.secs
    }

    /// Nanoseconds into the running second.
    pub fn subsec_nanos(&self) -> (n: u32)
        ensures
            n == self.nanos,
    {
        self.nanos
    }

    /// Whether `self` is strictly earlier than `other`.
    pub fn is_before(&self, other: &Timestamp) -> (b: bool)
        ensures
            b == self.before(*other),
    {
        self.secs < other.secs || (self.secs == other.secs && self.nanos < other.nanos)
    }

    /// Whether `self` is `other` or later.
    pub fn is_at_or_after(&self, other: &Timestamp) -> (b: bool)
        ensures
            b == self.at_or_after(*other),
    {
        !self.is_before(other)
    }

    /// Whether `self` is earlier than `secs` seconds after `start`.
    pub fn is_within(&self, start: &Timestamp, secs: u64) -> (b: bool)
        ensures
            b == self.within(*start, secs),
    {
        if self.secs < start.secs {
            true
        } else {
            let elapsed: u64 = self.secs - start.secs;
            elapsed < secs || (elapsed == secs && self.nanos < start.nanos)
        }
    }
}

/// No instant is before itself, and of two different instants one is before
/// the other: `before` is a strict total order.
pub proof fn lemma_before_is_total_order(a: Timestamp, b: Timestamp, c: Timestamp)
    ensures
        !a.before(a),
        a.before(b) || b.before(a) || a == b,
        a.before(b) && b.before(c) ==> a.before(c),
        a.before(b) ==> !b.before(a),
{
}

/// An instant is within `secs` seconds of `start` exactly when it is before
/// the instant `secs` seconds after `start`, where that instant exists.
pub proof fn lemma_within_is_before_expiry(t: Timestamp, start: Timestamp, secs: u64)
    requires
        start.secs + secs <= u64::MAX,
    ensures
        t.within(start, secs) == t.before(
            Timestamp { secs: (start.secs + secs) as u64, nanos: start.nanos },
        ),
{
}

} // verus!
