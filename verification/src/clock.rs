//! The wall clock.

use vstd::prelude::*;

verus! {

/// Calls `chrono::Utc::now` and writes the instant out with `to_string`.
/// The text depends on when the call is made, so nothing is stated of it.
#[verifier::external_body]
pub(crate) fn utc_now_text() -> (r: String) {
    chrono::Utc::now().to_string()
}

} // verus!
