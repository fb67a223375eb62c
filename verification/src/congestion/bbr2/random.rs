//! What the controller takes from outside: randomness, and shared configuration.

use crate::congestion::bbr2::Bbr2Config;
use rand::rngs::StdRng;
use rand::{Rng, SeedableRng};
use std::sync::Arc;
use vstd::prelude::*;

verus! {

/// The generator of `rand`; nothing of its state is known here.
#[verifier::external_type_specification]
#[verifier::external_body]
pub struct ExStdRng(rand::rngs::StdRng);

/// `StdRng::from_os_rng`: a generator seeded by the operating system. Nothing is claimed of it.
/// It panics where the operating system has no entropy to give.
#[verifier::external_body]
pub(crate) fn seed_from_os() -> (rng: StdRng) {
    StdRng::from_os_rng()
}

/// `Rng::random_range` over `low..=high`: some integer of the range. Which one is left to chance.
#[verifier::external_body]
pub(crate) fn random_range(rng: &mut StdRng, low: u64, high: u64) -> (drawn: u64)
    requires
        low <= high,
    ensures
        low <= drawn <= high,
{
    rng.random_range(low..=high)
}

/// `StdRng::clone`: a generator in the same state.
#[verifier::external_body]
pub(crate) fn clone_rng(rng: &StdRng) -> (copy: StdRng)
    ensures
        copy == *rng,
{
    rng.clone()
}

/// `Arc::clone`: another reference to the same configuration.
#[verifier::external_body]
pub(crate) fn share(config: &Arc<Bbr2Config>) -> (copy: Arc<Bbr2Config>)
    ensures
        copy == *config,
{
    config.clone()
}

} // verus!
