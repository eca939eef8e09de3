//! Where the places of the warriors come from: chance.

use rand::rngs::StdRng;
use rand::{Rng, SeedableRng};
use vstd::prelude::*;

verus! {

/// The standard generator of the rand crate. Nothing is known of what is
/// inside.
#[verifier::external_type_specification]
#[verifier::external_body]
pub struct ExStdRng(rand::rngs::StdRng);

/// A source of random numbers.
pub enum Source {
    /// The generator of the current thread, which the system seeds.
    Thread,
    /// A generator that was made from a seed. Two of them that were made
    /// from the same seed give the same numbers.
    Seeded(StdRng),
}

/// A number between two bounds that `gen_range` of the rand crate picks
/// with the generator of the current thread, `thread_rng()`. Nothing is
/// claimed of it but that it lies in the range: `low` at least and less
/// than `high`. The range must hold a number, or `gen_range` would panic.
#[verifier::external_body]
fn random_in_range(low: i32, high: i32) -> (r: i32)
    requires
        low < high,
    ensures
        low <= r < high,
{
    rand::thread_rng().gen_range(low..high)
}

/// A number between two bounds that `gen_range` of the rand crate picks
/// with the given generator. Nothing is claimed of it but that it lies in
/// the range: `low` at least and less than `high`. The range must hold a
/// number, or `gen_range` would panic.
#[verifier::external_body]
fn random_from(generator: &mut StdRng, low: i32, high: i32) -> (r: i32)
    requires
        low < high,
    ensures
        low <= r < high,
{
    generator.gen_range(low..high)
}

/// The generator that `seed_from_u64` of the rand crate makes from a
/// seed. Nothing is claimed of it.
#[verifier::external_body]
fn seeded_generator(seed: u64) -> StdRng {
    StdRng::seed_from_u64(seed)
}

impl Source {
    /// The generator of the current thread.
    pub fn thread() -> (r: Source)
        ensures
            !r.is_seeded(),
    {
        Source::Thread
    }

    /// A generator made from a seed.
    pub fn seeded(seed: u64) -> (r: Source)
        ensures
            r.is_seeded(),
    {
        Source::Seeded(seeded_generator(seed))
    }

    /// A number that is `low` at least and less than `high`. The source
    /// stays of its kind: the generator of the thread is used by a source
    /// that has none of its own, and a seeded source goes on with its own
    /// generator.
    pub fn pick(&mut self, low: i32, high: i32) -> (r: i32)
        requires
            low < high,
        ensures
            low <= r < high,
            final(self).is_seeded() == old(self).is_seeded(),
    {
        match self {
            Source::Thread => random_in_range(low, high),
            Source::Seeded(generator) => random_from(generator, low, high),
        }
    }

    /// Whether the source has a generator of its own, which was made from
    /// a seed.
    pub open spec fn is_seeded(self) -> bool {
        self is Seeded
    }
}

} // verus!
