//! The wall clock.

use vstd::prelude::*;

verus! {

/// The current wall-clock time in milliseconds since the Unix epoch, read
/// with `SystemTime::now`; a clock set before the epoch reads as zero.
/// Nothing is promised of the value: two readings may differ in either
/// direction.
#[verifier::external_body]
pub(crate) fn now_ms() -> u64 {
    std::time::SystemTime::now().duration_since(std::time::UNIX_EPOCH).unwrap_or_default().as_millis() as u64
}

} // verus!
