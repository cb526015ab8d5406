use vstd::prelude::*;

verus! {

/// Whether `id` is the 128-bit value of a version-4 UUID: version nibble 4
/// and variant bits `10`.
pub open spec fn is_v4_uuid(id: u128) -> bool {
    &&& (id >> 76u128) & 0xfu128 == 4
    &&& (id >> 62u128) & 0x3u128 == 2
}

/// A fresh random identifier, as the 128-bit value of a version-4 UUID.
///
/// Calls `uuid::Uuid::new_v4` and takes `Uuid::as_u128`. The source of
/// `new_v4` masks random bits so that the version nibble is 4 and the variant
/// bits are `10`; that is what the contract states. Which value comes out
/// rests on the random number generator and is not stated.
#[verifier::external_body]
pub(crate) fn new_uuid() -> (id: u128)
    ensures
        is_v4_uuid(id),
{
    uuid::Uuid::new_v4().as_u128()
}

/// A point in time, at the precision `chrono` keeps: whole seconds since the
/// Unix epoch and the nanoseconds past that second.
#[derive(Debug, Clone, Copy)]
pub struct Timestamp {
    pub secs: i64,
    pub nanos: u32,
}

/// The current time.
///
/// Calls `chrono::Utc::now` and takes `DateTime::timestamp` and
/// `DateTime::timestamp_subsec_nanos` of that one value. The value rests on
/// the system clock; nothing is stated of it.
#[verifier::external_body]
pub(crate) fn now() -> (t: Timestamp) {
    let t = chrono::Utc::now();
    Timestamp { secs: t.timestamp(), nanos: t.timestamp_subsec_nanos() }
}

} // verus!
