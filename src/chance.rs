//! The random choices of the game, drawn from the thread-local generator.

use vstd::prelude::*;
use rand::Rng;
use rand::seq::SliceRandom;

verus! {

/// Relies on rand's `Rng::gen_range(low, high)`, which returns a value in
/// `low..high` and panics when the range is empty.
#[verifier::external_body]
pub(crate) fn random_below(n: usize) -> (r: usize)
    requires
        n > 0,
    ensures
        r < n,
{
    rand::thread_rng().gen_range(0, n)
}

/// Relies on rand's `SliceRandom::shuffle`, which only swaps elements.
#[verifier::external_body]
pub(crate) fn shuffled(v: Vec<String>) -> (r: Vec<String>)
    ensures
        r@.to_multiset() == v@.to_multiset(),
        r.len() == v.len(),
{
    let mut v = v;
    v.shuffle(&mut rand::thread_rng());
    v
}

/// Relies on `rand::random`: any byte.
#[verifier::external_body]
pub(crate) fn random_byte() -> (r: u8) {
    rand::random::<u8>()
}

} // verus!
