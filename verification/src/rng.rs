//! The library's only source of randomness: thin trusted wrappers around
//! the `rand` crate. Nothing can be promised about the values drawn, only
//! about their ranges and lengths.

use vstd::prelude::*;

verus! {

#[verifier::external_type_specification]
#[verifier::external_body]
pub struct ExThreadRng(rand::rngs::ThreadRng);

/// Relies on `rand`'s `random_range` over `0..bound`: returns a value
/// uniformly drawn from `[0, bound)`; it panics only on an empty range,
/// which the precondition rules out.
#[verifier::external_body]
pub(crate) fn draw_below(rng: &mut rand::rngs::ThreadRng, bound: u16) -> (r: u16)
    requires
        bound > 0,
    ensures
        r < bound,
{
    rand::RngExt::random_range(rng, 0..bound)
}

/// Relies on `rand::fill`: fills the whole slice with random bytes and
/// leaves its length unchanged.
#[verifier::external_body]
fn fill_random(buf: &mut Vec<u8>)
    ensures
        final(buf)@.len() == old(buf)@.len(),
{
    rand::fill(buf.as_mut_slice());
}

/// The largest number of random bytes a single request may draw.
pub const RANDOM_BYTES_COUNT_MAX: usize = 4096;

/// Draws `n` random bytes for the specification runtime's byte source.
/// Requests above `RANDOM_BYTES_COUNT_MAX` are refused, never served
/// partially.
pub fn random_bytes(n: usize) -> (r: Option<Vec<u8>>)
    ensures
        n <= RANDOM_BYTES_COUNT_MAX <==> r is Some,
        r matches Some(buf) ==> buf@.len() == n,
{
    if n > RANDOM_BYTES_COUNT_MAX {
        return None;
    }
    let mut buf: Vec<u8> = Vec::new();
    let mut i: usize = 0;
    while i < n
        invariant
            buf@.len() == i,
            i <= n,
        decreases n - i,
    {
        buf.push(0u8);
        i = i + 1;
    }
    fill_random(&mut buf);
    Some(buf)
}

} // verus!
