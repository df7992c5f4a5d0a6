//! The crate's boundary to code that is not verified here: the wall clock,
//! random identifiers, JSON payload values and shared handles to events.
//!
//! Each item states what the rest of the crate relies on. Nothing else is
//! taken on trust.

use std::sync::Arc;
use vstd::prelude::*;

verus! {

/// The latest time that the clock can show, in milliseconds since the Unix
/// epoch: the last millisecond of the year 262142, which is the last instant
/// that `chrono::DateTime<Utc>` can hold (`DateTime::<Utc>::MAX_UTC`).
pub const MAX_CLOCK_MILLIS: i64 = 8_210_266_876_799_999;

/// Whether `t` is a time that the clock can show: not before the Unix epoch
/// and not after the last instant of the calendar.
pub open spec fn clock_reading(t: int) -> bool {
    0 <= t <= MAX_CLOCK_MILLIS
}

/// A JSON payload, `serde_json::Value`. The crate never looks inside one: it
/// stores payloads, copies them and hands them back.
#[verifier::external_type_specification]
#[verifier::external_body]
pub struct ExJsonValue(serde_json::Value);

/// Reads the wall clock through `chrono::Utc::now` and converts the instant
/// to milliseconds since the Unix epoch with `DateTime::timestamp_millis`.
///
/// The reading is not negative and not later than [`MAX_CLOCK_MILLIS`]:
/// `Utc::now` takes the time that has passed since the Unix epoch and gives
/// up when the system clock reads a moment before it, or one that its
/// calendar cannot hold. Nothing else is promised: callers are verified for
/// every reading in that range, including clocks that jump backwards.
#[verifier::external_body]
pub(crate) fn now_millis() -> (now: i64)
    ensures
        clock_reading(now as int),
{
    chrono::Utc::now().timestamp_millis()
}

/// Draws a random identifier with `uuid::Uuid::new_v4` and returns its 128
/// bits as given by `Uuid::as_u128`.
///
/// Nothing is promised of the value; in particular it may collide with an
/// identifier that is already in use, and callers handle that case.
#[verifier::external_body]
pub(crate) fn fresh_id() -> (id: u128) {
    uuid::Uuid::new_v4().as_u128()
}

/// Copies a payload with `serde_json::Value::clone`, which is derived and so
/// returns a value equal to the one it was given.
#[verifier::external_body]
pub(crate) fn clone_payload(payload: &serde_json::Value) -> (copy: serde_json::Value)
    ensures
        copy == *payload,
{
    payload.clone()
}

/// Makes another handle to a shared event with `Arc::clone`, which gives a
/// pointer to the same allocation, and so to the same event.
#[verifier::external_body]
pub(crate) fn share<E>(event: &Arc<E>) -> (shared: Arc<E>)
    ensures
        shared == *event,
{
    Arc::clone(event)
}

} // verus!
