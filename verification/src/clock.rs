//! The wall clock.
use vstd::prelude::*;

verus! {

/// Milliseconds since the Unix epoch, or 0 when the clock reads earlier
/// (`SystemTime::now` against `UNIX_EPOCH`). Nothing is promised of the value: it
/// is whatever the machine's clock says.
#[verifier::external_body]
pub fn now_ms() -> u64 {
    std::time::SystemTime::now().duration_since(std::time::UNIX_EPOCH).map(
        |d| d.as_millis() as u64,
    ).unwrap_or(0)
}

} // verus!
