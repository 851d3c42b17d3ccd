//! The wall clock, read through a trusted boundary.

use vstd::prelude::*;

verus! {

/// Relies on time::OffsetDateTime::now_utc and its unix_timestamp: the
/// current wall-clock time in whole seconds since the Unix epoch. The reading
/// depends on the machine's clock, so nothing is promised of the value;
/// every caller must cope with any reading. The conversion inside now_utc
/// panics on a clock set outside the crate's representable years; that risk
/// sits in the trusted call itself and cannot be fenced off by a
/// precondition.
#[verifier::external_body]
pub fn now_unix_timestamp() -> i64 {
    time::OffsetDateTime::now_utc().unix_timestamp()
}

} // verus!
