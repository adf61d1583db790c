//! Serial numbers for requests that come without one.

use vstd::prelude::*;
use std::hash::{BuildHasher, RandomState};

verus! {

/// Calls `RandomState::new`, which draws fresh keys at random. Nothing is
/// known of them.
#[verifier::external_body]
fn random_state() -> RandomState {
    RandomState::new()
}

/// Calls `BuildHasher::hash_one` on a `RandomState`: the hash of `seed`
/// under the keys of the state. With keys unknown, nothing is known of it.
#[verifier::external_body]
fn hash_one(state: &RandomState, seed: u64) -> u64 {
    state.hash_one(seed)
}

/// A serial number that depends only on what came back from the random
/// source: that very number, or one where zero came back.
pub fn serno_from(drawn: u64) -> (serno: u64)
    ensures
        serno > 0,
        drawn > 0 ==> serno == drawn,
        drawn == 0 ==> serno == 1,
{
    if drawn == 0 {
        1
    } else {
        drawn
    }
}

/// Draws a serial number at random. It is never zero.
pub fn gen_random_auth_serno() -> (serno: u64)
    ensures
        serno > 0,
{
    let state = random_state();
    serno_from(hash_one(&state, 0))
}

} // verus!
