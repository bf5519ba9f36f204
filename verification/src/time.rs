//! Instants as milliseconds since the Unix epoch.

use core::cmp::Ordering;
use vstd::prelude::*;

verus! {

/// UTC instant as milliseconds since the Unix epoch. The value is always
/// supplied by the caller; nothing here reads a clock.
#[derive(Debug, Clone, Copy, PartialEq, Eq, Structural, Hash, Ord)]
pub struct Timestamp(pub i64);

impl Timestamp {
    /// The epoch itself (zero milliseconds).
    pub fn unix_epoch() -> (r: Self)
        ensures
            r.0 == 0,
    {
        Timestamp(0)
    }

    /// The instant `ms` milliseconds after the epoch.
    pub fn from_unix_millis(ms: i64) -> (r: Self)
        ensures
            r.0 == ms,
    {
        Timestamp(ms)
    }

    /// Milliseconds since the epoch.
    pub fn as_unix_millis(self) -> (r: i64)
        ensures
            r == self.0,
    {
        self.0
    }
}

/// How two instants compare: by their milliseconds.
pub open spec fn timestamp_order(a: Timestamp, b: Timestamp) -> Option<Ordering> {
    if a.0 < b.0 {
        Some(Ordering::Less)
    } else if a.0 == b.0 {
        Some(Ordering::Equal)
    } else {
        Some(Ordering::Greater)
    }
}

impl PartialOrd for Timestamp {
    /// Instants compare as their milliseconds do.
    fn partial_cmp(&self, other: &Self) -> (r: Option<Ordering>) {
        if self.0 < other.0 {
            Some(Ordering::Less)
        } else if self.0 == other.0 {
            Some(Ordering::Equal)
        } else {
            Some(Ordering::Greater)
        }
    }
}

impl vstd::std_specs::cmp::PartialOrdSpecImpl for Timestamp {
    open spec fn obeys_partial_cmp_spec() -> bool {
        true
    }

    open spec fn partial_cmp_spec(&self, other: &Self) -> Option<Ordering> {
        timestamp_order(*self, *other)
    }
}

/// Instants are ordered and equal exactly as their milliseconds are.
pub proof fn lemma_timestamp_order(a: i64, b: i64)
    ensures
        (timestamp_order(Timestamp(a), Timestamp(b)) == Some(Ordering::Less)) <==> a < b,
        (timestamp_order(Timestamp(a), Timestamp(b)) == Some(Ordering::Greater)) <==> a > b,
        (Timestamp(a) == Timestamp(b)) <==> a == b,
{
}

} // verus!
