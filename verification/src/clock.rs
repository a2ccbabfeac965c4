//! The wall clock, as seconds since the Unix epoch.

use vstd::prelude::*;

verus! {

/// Reads the wall clock through `chrono::Utc::now` and renders it with
/// `timestamp`. Nothing is promised about the value.
#[verifier::external_body]
pub(crate) fn unix_now() -> i64 {
    chrono::Utc::now().timestamp()
}

} // verus!
