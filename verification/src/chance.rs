//! The one source of chance that the legacy rounds draw on.

use vstd::prelude::*;

verus! {

/// Calls `rand::random::<bool>()`, which draws one value from the thread's
/// generator. The outcome is a matter of chance: nothing is claimed of it,
/// and two calls may differ.
#[verifier::external_body]
pub(crate) fn coin_flip() -> (heads: bool) {
    rand::random::<bool>()
}

} // verus!
