use vstd::prelude::*;
use rand::Rng;
use rand::RngExt;
use rand::SeedableRng;
use rand::seq::SliceRandom;
use rand_pcg::Pcg64;
use std::hash::{DefaultHasher, Hash, Hasher};
use deterministic_hash::DeterministicHasher;
use crate::grid::Position;

verus! {

/// The order in which rand's `SliceRandom::shuffle` leaves `positions` when
/// it draws from rand_pcg's `Pcg64` seeded by `seed_from_u64(seed)`. Both
/// are deterministic: the stream is fixed by the seed, and the shuffle only
/// swaps elements at positions drawn from it.
pub uninterp spec fn seeded_shuffle(positions: Seq<Position>, seed: u64) -> Seq<Position>;

/// Seeds rand_pcg's `Pcg64` with `seed_from_u64(seed)` and shuffles
/// `positions` with rand's `SliceRandom::shuffle`. The result is the named
/// order, and, since the shuffle only swaps, it holds the same elements, each
/// as often as before. Which order that is, is left unsaid.
#[verifier::external_body]
pub(crate) fn shuffle_with_seed(positions: &mut Vec<Position>, seed: u64)
    ensures
        final(positions)@ == seeded_shuffle(old(positions)@, seed),
        final(positions)@.to_multiset() == old(positions)@.to_multiset(),
{
    let mut rng = Pcg64::seed_from_u64(seed);
    positions.shuffle(&mut rng)
}

/// The number that rand_pcg's `Pcg64`, seeded by `seed_from_u64(seed)`,
/// returns from `next_u64` after `k` earlier draws.
pub uninterp spec fn seeded_u64(seed: u64, k: u128) -> u64;

/// Seeds rand_pcg's `Pcg64` with `seed_from_u64(seed)`, jumps over `k` draws
/// with `advance(k)` (documented as equal to calling `next_u64` `k` times)
/// and draws with `next_u64`. The value drawn is left unsaid.
#[verifier::external_body]
pub(crate) fn nth_seeded_u64(seed: u64, k: u128) -> (r: u64)
    ensures
        r == seeded_u64(seed, k),
{
    let mut rng = Pcg64::seed_from_u64(seed);
    rng.advance(k);
    rng.next_u64()
}

/// The index that rand's `RngExt::random_range(0..lens.last())` gives on
/// rand_pcg's `Pcg64` seeded by `seed_from_u64(seed)`, when the earlier
/// draws from it were `random_range(0..len)` for the other lengths of `lens`,
/// in order.
pub uninterp spec fn seeded_pick(seed: u64, lens: Seq<usize>) -> usize;

/// Seeds rand_pcg's `Pcg64` with `seed_from_u64(seed)` and draws
/// `random_range(0..len)` for each length of `lens` in turn, returning the
/// last index drawn: an index below the last length (an empty range would
/// panic, which `requires` rules out). Which index it is, is left unsaid.
#[verifier::external_body]
pub(crate) fn pick_with_seed(seed: u64, lens: &Vec<usize>) -> (r: usize)
    requires
        lens@.len() > 0,
        forall|k: int| 0 <= k < lens@.len() ==> #[trigger] lens@[k] > 0,
    ensures
        r == seeded_pick(seed, lens@),
        r < lens@.last(),
{
    let mut rng = Pcg64::seed_from_u64(seed);
    let mut r: usize = 0;
    for &len in lens.iter() {
        r = rng.random_range(0..len);
    }
    r
}

/// What deterministic-hash's `DeterministicHasher`, wrapped around std's
/// `DefaultHasher::new()`, finishes with after hashing `text` as a `str`.
/// `DefaultHasher::new()` always starts from the same keys, and the wrapper
/// writes every integer little-endian and every `usize` as a `u64`, so the
/// hash is the same on every machine (std leaves the algorithm free to change
/// between its releases).
pub uninterp spec fn text_hash(text: Seq<char>) -> u64;

/// Hashes `text` with deterministic-hash's `DeterministicHasher` around std's
/// `DefaultHasher::new()`: the named hash of the text, used to turn a seed
/// typed by the player into a number.
#[verifier::external_body]
pub fn hash(text: &str) -> (r: u64)
    ensures
        r == text_hash(text@),
{
    let mut hasher = DeterministicHasher::new(DefaultHasher::new());
    text.hash(&mut hasher);
    hasher.finish()
}

} // verus!
