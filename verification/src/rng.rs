//! Trusted access to the system's secure random source.
//!
//! Nothing can be promised about the values that come back: every contract
//! here states only what holds of any outcome, and the callers are verified
//! for every such value.

use vstd::prelude::*;

verus! {

#[verifier::external_type_specification]
#[verifier::external_body]
pub struct ExThreadRng(rand::rngs::ThreadRng);

/// Relies on rand::rng: hands out the thread-local cryptographically secure
/// random generator.
#[verifier::external_body]
pub(crate) fn new_rng() -> rand::rngs::ThreadRng {
    rand::rng()
}

/// Relies on rand::Rng::fill_bytes: fills a buffer of the requested
/// length with random bytes.
#[verifier::external_body]
pub(crate) fn fill_random_bytes(rng: &mut rand::rngs::ThreadRng, n: usize) -> (v: Vec<u8>)
    ensures
        v@.len() == n,
{
    let mut v = vec![0u8; n];
    rand::Rng::fill_bytes(rng, &mut v);
    v
}

/// Relies on rand::RngExt::random_range: a uniform draw from the given range,
/// here the non-zero bytes.
#[verifier::external_body]
pub(crate) fn random_nonzero_element(rng: &mut rand::rngs::ThreadRng) -> (b: u8)
    ensures
        b != 0,
{
    rand::RngExt::random_range(rng, 1..=255u8)
}

/// Relies on rand::seq::IteratorRandom::choose: picks a uniformly random
/// element of an iterator, `None` exactly when the iterator is empty.
#[verifier::external_body]
pub(crate) fn choose_index(rng: &mut rand::rngs::ThreadRng, n: usize) -> (r: Option<usize>)
    ensures
        match r {
            Some(i) => i < n,
            None => n == 0,
        },
{
    rand::seq::IteratorRandom::choose(0..n, rng)
}

} // verus!
