//! The one place where the library reads the wall clock.

use vstd::prelude::*;

verus! {

/// Relies on chrono's `Local::now`: the current local wall-clock time, here
/// reduced to whole seconds since the Unix epoch. Nothing can be promised
/// of the value; callers state what holds whatever time comes back.
#[verifier::external_body]
pub(crate) fn now_seconds() -> i64 {
    chrono::Local::now().timestamp()
}

} // verus!
