//! The wall clock, read as whole seconds since the Unix epoch.  Nothing is
//! promised of the value: every function that uses it states what holds
//! whatever the clock returned.

use vstd::prelude::*;

verus! {

/// Relies on `std::time::SystemTime::now` and
/// `SystemTime::duration_since(UNIX_EPOCH)`: seconds since the epoch, or
/// zero when the clock reads earlier than the epoch.
#[verifier::external_body]
pub fn now_secs() -> u64 {
    std::time::SystemTime::now()
        .duration_since(std::time::SystemTime::UNIX_EPOCH)
        .map(|d| d.as_secs())
        .unwrap_or(0)
}

} // verus!
