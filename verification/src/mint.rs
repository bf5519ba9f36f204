//! The edge where ambient identity and time enter: a fresh id from the clock
//! and the random generator, and the current instant.

use crate::id::NoteId;
use crate::time::Timestamp;
use vstd::prelude::*;

verus! {

/// `std::time::SystemTime::now()` as milliseconds since the Unix epoch, or
/// `None` when the clock reads earlier than the epoch. The clock is
/// ambient: nothing is promised of the value.
#[verifier::external_body]
fn clock_millis() -> (r: Option<u128>) {
    match std::time::SystemTime::now().duration_since(std::time::UNIX_EPOCH) {
        Ok(d) => Some(d.as_millis()),
        Err(_) => None,
    }
}

/// `ulid::Ulid::new()`: a ULID from the current time and fresh random bits.
/// Nothing is promised of the value.
#[verifier::external_body]
fn fresh_ulid() -> (r: u128) {
    ulid::Ulid::new().0
}

/// The timestamp of a clock reading: milliseconds since the epoch saturated
/// to `i64::MAX`, and zero for a clock before the epoch.
pub fn timestamp_of_reading(ms: Option<u128>) -> (r: Timestamp)
    ensures
        r.0 == match ms {
            None => 0,
            Some(m) => if m <= i64::MAX {
                m as int
            } else {
                i64::MAX as int
            },
        },
{
    match ms {
        None => Timestamp::from_unix_millis(0),
        Some(m) => if m <= i64::MAX as u128 {
            Timestamp::from_unix_millis(m as i64)
        } else {
            Timestamp::from_unix_millis(i64::MAX)
        },
    }
}

/// The current wall-clock instant (Unix milliseconds, UTC); never negative.
pub fn now() -> (r: Timestamp)
    ensures
        r.0 >= 0,
{
    timestamp_of_reading(clock_millis())
}

/// A fresh, time-sortable note id from the clock and the random generator.
pub fn new_id() -> (r: NoteId) {
    NoteId(fresh_ulid())
}

} // verus!
