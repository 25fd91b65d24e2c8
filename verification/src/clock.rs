//! The one place the library reads the wall clock.

use vstd::prelude::*;

verus! {

/// Relies on `chrono::Utc::now`: the wall-clock unix time in whole seconds.
/// Nothing is promised of the value; callers must hold for every outcome.
#[verifier::external_body]
pub(crate) fn now_unix_seconds() -> u64 {
    chrono::Utc::now().timestamp() as u64
}

} // verus!
