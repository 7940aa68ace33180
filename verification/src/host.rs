use vstd::prelude::*;

verus! {

/// Relies on chrono's `Utc::now` and `DateTime::timestamp_millis`: the
/// current wall-clock time as milliseconds since the Unix epoch. Nothing can
/// be promised of a clock reading, so nothing is.
#[verifier::external_body]
pub fn now_millis() -> i64 {
    chrono::Utc::now().timestamp_millis()
}

/// Relies on uuid's `Uuid::new_v4` and its `Simple` formatter: a random
/// identifier rendered as exactly 32 hex digits (`Simple::LENGTH`). The
/// value is random, so only the length is stated.
#[verifier::external_body]
pub fn fresh_uuid_simple() -> (r: String)
    ensures
        r@.len() == 32,
{
    uuid::Uuid::new_v4().simple().to_string()
}

} // verus!
