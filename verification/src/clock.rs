//! The wall clock, behind one trusted call.

use vstd::prelude::*;

use crate::Timestamp;

verus! {

/// Relies on `chrono::Utc::now`: the wall clock, read as whole seconds
/// since the epoch. Nothing is promised of the value: it depends on the
/// clock, so every caller must hold for whatever comes back.
#[verifier::external_body]
pub(crate) fn now_seconds() -> Timestamp {
    chrono::Utc::now().timestamp()
}

} // verus!
