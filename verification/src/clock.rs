//! The wall clock.

use vstd::prelude::*;

verus! {

/// Seconds since the Unix epoch, 0 where the clock stands before it.
///
/// Trusted: `SystemTime::now` of std. Nothing is claimed of the number; two
/// calls may differ.
#[verifier::external_body]
pub(crate) fn now_secs() -> (now: u64) {
    std::time::SystemTime::now().duration_since(std::time::UNIX_EPOCH).unwrap_or_default().as_secs()
}

} // verus!
