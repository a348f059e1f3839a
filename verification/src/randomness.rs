//! The engine's randomness source: rand's `StdRng`, injectable and seedable
//! so that callers and tests can pin shuffles, behind trusted declarations.
use vstd::prelude::*;
use rand::Rng;
use rand::SeedableRng;
use rand::seq::SliceRandom;

verus! {

#[verifier::external_type_specification]
#[verifier::external_body]
pub struct ExStdRng(rand::rngs::StdRng);

/// `p` maps the positions `0..n` onto themselves without repetition.
pub open spec fn is_perm(p: Seq<int>, n: int) -> bool {
    &&& p.len() == n
    &&& forall|i: int| 0 <= i < n ==> 0 <= #[trigger] p[i] < n
    &&& forall|i: int, j: int| 0 <= i < j < n ==> p[i] != p[j]
}

/// Relies on rand's `SeedableRng::seed_from_u64`: builds a generator from a
/// 64-bit seed (intended for reproducible runs, not for cryptography).
#[verifier::external_body]
pub(crate) fn rng_from_seed(seed: u64) -> rand::rngs::StdRng {
    rand::rngs::StdRng::seed_from_u64(seed)
}

/// Relies on rand's `SeedableRng::from_os_rng`: builds a generator seeded
/// from the operating system's entropy source (and aborts if the operating
/// system cannot supply entropy).
#[verifier::external_body]
pub(crate) fn rng_from_entropy() -> rand::rngs::StdRng {
    rand::rngs::StdRng::from_os_rng()
}

/// Relies on rand's `SliceRandom::shuffle`: an unbiased Fisher-Yates shuffle,
/// so the new contents are the old contents rearranged by some permutation of
/// the positions.
#[verifier::external_body]
pub(crate) fn shuffle<T>(v: &mut Vec<T>, rng: &mut rand::rngs::StdRng)
    ensures
        final(v)@.len() == old(v)@.len(),
        exists|p: Seq<int>|
            is_perm(p, old(v)@.len() as int)
                && forall|i: int|
                    0 <= i < old(v)@.len() ==> final(v)@[i] == old(v)@[#[trigger] p[i]],
        final(v)@.to_multiset() == old(v)@.to_multiset(),
{
    v.shuffle(rng)
}

/// Relies on rand's `Rng::random_range`: a uniform draw from `0..n`
/// (which panics on an empty range, hence the precondition).
#[verifier::external_body]
pub(crate) fn rand_below(rng: &mut rand::rngs::StdRng, n: usize) -> (r: usize)
    requires
        n > 0,
    ensures
        r < n,
{
    rng.random_range(0..n)
}

/// Relies on rand's `Rng::random`: a uniform 64-bit value, used for fresh
/// identifiers.
#[verifier::external_body]
pub(crate) fn random_u64(rng: &mut rand::rngs::StdRng) -> u64 {
    rng.random()
}

} // verus!
