//! The source of randomness: the `rand` crate's thread-local generator and
//! its shuffle. Nothing here is proved; the contracts state what the
//! generator's callers rely on.

use crate::grid::Direction;
use rand::rngs::ThreadRng;
use rand::seq::SliceRandom;
use vstd::prelude::*;

verus! {

/// `rand::rngs::ThreadRng`, a handle to the thread-local random number
/// generator. Its state is hidden from the verifier.
#[verifier::external_type_specification]
#[verifier::external_body]
pub struct ExThreadRng(rand::rngs::ThreadRng);

/// Calls `rand::rng`, which hands out a handle to the thread-local
/// generator. Nothing is claimed of the handle. The generator is seeded from
/// the operating system on a thread's first call, and `rand` panics there if
/// the operating system gives no entropy.
#[verifier::external_body]
pub(crate) fn thread_rng() -> (rng: ThreadRng) {
    rand::rng()
}

/// Calls `rand::seq::SliceRandom::shuffle` on the slice of `dirs`. The
/// shuffle only swaps elements of the slice, so the contract claims that
/// `dirs` holds afterwards what it held before, each direction as often; it
/// claims nothing of the order, which is random.
#[verifier::external_body]
pub(crate) fn shuffle(dirs: &mut Vec<Direction>, rng: &mut ThreadRng)
    ensures
        final(dirs)@.to_multiset() == old(dirs)@.to_multiset(),
{
    dirs.shuffle(rng);
}

} // verus!
