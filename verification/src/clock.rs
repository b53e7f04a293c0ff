//! The wall clock.

use vstd::prelude::*;

verus! {

/// The present time in milliseconds since the Unix epoch, or 0 when the
/// clock reads a time before the epoch.
///
/// Wraps `std::time::SystemTime::now` and turns the distance from
/// `UNIX_EPOCH` into milliseconds. Nothing is promised about the value: it is
/// whatever the clock says.
#[verifier::external_body]
pub(crate) fn unix_ms() -> i64 {
    let since_epoch = std::time::SystemTime::now().duration_since(std::time::UNIX_EPOCH);
    since_epoch.unwrap_or_default().as_millis() as i64
}

} // verus!
