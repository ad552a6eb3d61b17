//! Random choices.
use rand::RngExt;
use rand::SeedableRng;
use rand::rngs::StdRng;
use rand::seq::IndexedRandom;
use vstd::prelude::*;

verus! {

/// The random number generator of the `rand` crate. Nothing is known of its state.
#[verifier::external_type_specification]
#[verifier::external_body]
pub struct ExStdRng(StdRng);

/// A generator together with the number that it was seeded with.
pub struct SeededRng {
    generator: StdRng,
    seed: Ghost<u64>,
}

impl SeededRng {
    /// The number that the generator was seeded with.
    pub closed spec fn seed(self) -> u64 {
        self.seed@
    }

    /// The generator, to draw from.
    pub fn generator(&mut self) -> (r: &mut StdRng)
        ensures
            final(self).seed() == old(self).seed(),
    {
        &mut self.generator
    }
}

/// Calls `rand::SeedableRng::seed_from_u64`. What is claimed is which number the generator was seeded
/// with; nothing is claimed of what it will draw, since the generator is not portable.
#[verifier::external_body]
pub(crate) fn seed_from_u64(seed: u64) -> (r: SeededRng)
    ensures
        r.seed() == seed,
{
    SeededRng { generator: StdRng::seed_from_u64(seed), seed: Ghost(seed) }
}

/// Calls `rand::RngExt::random_range` on the range from zero to `last`, both of which are among the
/// outcomes. The draw lies in the range; which number it is depends on chance.
#[verifier::external_body]
fn random_up_to(rng: &mut StdRng, last: usize) -> (r: usize)
    ensures
        r <= last,
{
    rng.random_range(0..=last)
}

/// Calls `rand::seq::IndexedRandom::choose` on a slice. There is a choice just when the slice has
/// items, and it is one of them; which one depends on chance.
#[verifier::external_body]
pub(crate) fn choose_item<'a, T>(items: &'a [T], rng: &mut StdRng) -> (r: Option<&'a T>)
    ensures
        r is Some <==> items@.len() > 0,
        r matches Some(x) ==> items@.contains(*x),
{
    items.choose(rng)
}

/// A random index into a list, if it has items.
pub fn choose_index(len: usize, rng: &mut StdRng) -> (r: Option<usize>)
    ensures
        r is Some <==> len > 0,
        r matches Some(i) ==> i < len,
{
    if len == 0 {
        None
    } else {
        Some(random_up_to(rng, len - 1))
    }
}

/// A random position in a list or at its end.
pub fn choose_position(len: usize, rng: &mut StdRng) -> (r: usize)
    ensures
        r <= len,
{
    random_up_to(rng, len)
}

/// The second of two distinct indices, from a draw among the indices without the first.
pub fn skip_index(first: usize, draw: usize) -> (r: usize)
    requires
        draw < usize::MAX,
    ensures
        r == if draw < first {
            draw as int
        } else {
            draw + 1
        },
        r != first,
{
    if draw < first {
        draw
    } else {
        draw + 1
    }
}

/// Two distinct random indices into a list, if it has two items.
pub fn choose_distinct_indices(len: usize, rng: &mut StdRng) -> (r: Option<(usize, usize)>)
    ensures
        r is Some <==> len >= 2,
        r matches Some((a, b)) ==> a < len && b < len && a != b,
{
    if len < 2 {
        return None;
    }
    let first = random_up_to(rng, len - 1);
    let draw = random_up_to(rng, len - 2);
    Some((first, skip_index(first, draw)))
}

} // verus!
