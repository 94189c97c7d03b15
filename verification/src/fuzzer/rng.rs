//! The fuzzer's random number generator, as `libafl_bolts` provides it.
use vstd::prelude::*;
use libafl_bolts::rands::{Rand, RomuDuoJrRand};
use std::num::NonZeroUsize;

verus! {

#[verifier::external_type_specification]
#[verifier::external_body]
pub struct ExRomuDuoJrRand(RomuDuoJrRand);

/// Calls `Rand::below` of `libafl_bolts`: a number in `0..n`.
#[verifier::external_body]
pub fn rand_below(rand: &mut RomuDuoJrRand, n: usize) -> (r: usize)
    requires
        n > 0,
    ensures
        r < n,
{
    rand.below(NonZeroUsize::new(n).unwrap())
}

} // verus!
