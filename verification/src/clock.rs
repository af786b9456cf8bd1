//! The wall clock, behind a trusted boundary.

use vstd::prelude::*;

verus! {

/// Relies on std::time::SystemTime::now for the wall clock. Nothing is
/// assumed of the reading except that the returned count of seconds since
/// the Unix epoch is nonnegative (a reading before the epoch is reported
/// as zero, a reading beyond i64 is clamped).
#[verifier::external_body]
pub fn now_seconds() -> (r: i64)
    ensures
        0 <= r,
{
    match std::time::SystemTime::now().duration_since(std::time::UNIX_EPOCH) {
        Ok(d) => {
            let s = d.as_secs();
            if s > i64::MAX as u64 {
                i64::MAX
            } else {
                s as i64
            }
        },
        Err(_) => 0,
    }
}

} // verus!
