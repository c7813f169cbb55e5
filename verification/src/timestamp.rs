//! Points in time, as the retention rules compare them.

use vstd::prelude::*;

verus! {

/// Nanoseconds in one second.
pub const NANOS_PER_SECOND: u128 = 1_000_000_000;

/// A point in time, counted in nanoseconds from the Unix epoch.
///
/// The epoch is the earliest instant the type can hold, so an entry whose
/// time is unknown and is given the epoch is older than, or as old as,
/// every other entry.
#[derive(Clone, Copy, Debug, PartialEq, Eq, Structural, Hash)]
pub struct Timestamp {
    pub nanos: u128,
}

impl View for Timestamp {
    type V = nat;

    open spec fn view(&self) -> nat {
        self.nanos as nat
    }
}

/// The whole seconds that lie between `earlier` and `now`, or `None` where
/// `earlier` is later than `now`.
pub open spec fn age_seconds(now: nat, earlier: nat) -> Option<nat> {
    if earlier <= now {
        Some(((now - earlier) / (NANOS_PER_SECOND as int)) as nat)
    } else {
        None
    }
}

impl Timestamp {
    /// The Unix epoch, the earliest instant.
    pub fn epoch() -> (t: Timestamp)
        ensures
            t@ == 0,
    {
        Timestamp { nanos: 0 }
    }

    /// The instant `nanos` nanoseconds after the epoch.
    pub fn from_nanos(nanos: u128) -> (t: Timestamp)
        ensures
            t@ == nanos,
    {
        Timestamp { nanos }
    }

    /// The instant `secs` whole seconds after the epoch.
    pub fn from_secs(secs: u64) -> (t: Timestamp)
        ensures
            t@ == secs * NANOS_PER_SECOND,
    {
        let whole: u128 = secs as u128;
        assert(whole * NANOS_PER_SECOND <= u128::MAX) by (nonlinear_arith)
            requires
                whole <= u64::MAX,
                NANOS_PER_SECOND == 1_000_000_000,
        ;
        Timestamp { nanos: whole * NANOS_PER_SECOND }
    }

    /// The whole seconds from `earlier` to `self`; `None` where `earlier`
    /// lies after `self`.
    pub fn seconds_since(&self, earlier: &Timestamp) -> (age: Option<u128>)
        ensures
            age matches Some(s) ==> age_seconds(self@, earlier@) == Some(s as nat),
            age is None ==> age_seconds(self@, earlier@) is None,
    {
        if earlier.nanos <= self.nanos {
            Some((self.nanos - earlier.nanos) / NANOS_PER_SECOND)
        } else {
            None
        }
    }
}

} // verus!
