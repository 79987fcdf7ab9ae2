//! The source of random bytes for the `RND` instruction.

use vstd::prelude::*;

verus! {

/// `rand::random::<u8>()`: one byte from the thread-local generator. Each
/// call may give another byte, so nothing is claimed of the result.
#[verifier::external_body]
pub(crate) fn random_byte() -> u8 {
    rand::random::<u8>()
}

} // verus!
