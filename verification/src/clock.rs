//! Wall-clock access.

use vstd::prelude::*;

verus! {

/// Relies on `chrono::Utc::now`: the clock can return anything, so
/// nothing is promised of the result.
#[verifier::external_body]
pub(crate) fn now_millis() -> u64 {
    chrono::Utc::now().timestamp_millis() as u64
}

} // verus!
