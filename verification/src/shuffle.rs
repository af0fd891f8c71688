//! Fisher-Yates shuffles of index lists: one driven by a 64-bit linear
//! congruential generator from a given seed, two driven by the thread-local
//! generator of `rand`.
use vstd::prelude::*;
use rand::seq::SliceRandom;
use rand::Rng;

verus! {

broadcast use vstd::seq_lib::group_to_multiset_ensures;

/// `s` with the entries at `i` and `j` exchanged.
pub open spec fn swapped(s: Seq<usize>, i: int, j: int) -> Seq<usize> {
    s.update(i, s[j]).update(j, s[i])
}

/// Exchanging two entries keeps the multiset of entries.
pub proof fn lemma_swap_keeps_multiset(s: Seq<usize>, i: int, j: int)
    requires
        0 <= i < s.len(),
        0 <= j < s.len(),
    ensures
        swapped(s, i, j).to_multiset() == s.to_multiset(),
        swapped(s, i, j).len() == s.len(),
{
    broadcast use vstd::multiset::group_multiset_axioms;

    let s1 = s.update(i, s[j]);
    assert(s1[j] == s[j]);
    assert(s1.to_multiset() == s.to_multiset().insert(s[j]).remove(s[i]));
    assert(swapped(s, i, j).to_multiset() == s1.to_multiset().insert(s[i]).remove(s[j]));
    assert(s.to_multiset().count(s[i]) > 0);
    assert(s.to_multiset().count(s[j]) > 0);
    assert(swapped(s, i, j).to_multiset() =~= s.to_multiset());
}

/// One step of the 64-bit linear congruential generator.
pub open spec fn lcg_step(seed: u64) -> u64 {
    seed.wrapping_mul(6364136223846793005).wrapping_add(1442695040888963407)
}

/// The position that the generator state `seed` picks among `0..=i`.
pub open spec fn lcg_pick(seed: u64, i: int) -> int {
    (seed >> 33u64) as int % (i + 1)
}

/// The order after the Fisher-Yates passes for positions `i`, `i - 1`, ..., `1`,
/// where `seed` is the generator state before the pass for `i`.
pub open spec fn lcg_shuffle_from(s: Seq<usize>, seed: u64, i: int) -> Seq<usize>
    decreases i,
{
    if i < 1 {
        s
    } else {
        let next = lcg_step(seed);
        lcg_shuffle_from(swapped(s, i, lcg_pick(next, i)), next, i - 1)
    }
}

/// The order in which the seeded shuffle leaves `s`.
pub open spec fn lcg_shuffle(s: Seq<usize>, seed: u64) -> Seq<usize> {
    lcg_shuffle_from(s, seed, s.len() - 1)
}

/// Shuffles `indices` in place with a Fisher-Yates pass from the last
/// position down, drawing each swap partner from a linear congruential
/// generator started at `seed`.
pub fn shuffle_with_seed(indices: &mut [usize], seed: u64)
    ensures
        final(indices)@ == lcg_shuffle(old(indices)@, seed),
        final(indices)@.to_multiset() == old(indices)@.to_multiset(),
        final(indices)@.len() == old(indices)@.len(),
{
    let n = indices.len();
    if n < 2 {
        return;
    }
    let mut state = seed;
    let mut i = n - 1;
    while i >= 1
        invariant
            n == indices@.len(),
            i < n,
            lcg_shuffle_from(indices@, state, i as int) == lcg_shuffle(old(indices)@, seed),
            indices@.to_multiset() == old(indices)@.to_multiset(),
            indices@.len() == old(indices)@.len(),
        decreases i,
    {
        state = state.wrapping_mul(6364136223846793005).wrapping_add(1442695040888963407);
        let high = state >> 33;
        assert(high <= 0x7fff_ffff) by (bit_vector)
            requires high == state >> 33u64;
        let j = (high as usize) % (i + 1);
        proof {
            lemma_swap_keeps_multiset(indices@, i as int, j as int);
        }
        let a = indices[i];
        let b = indices[j];
        indices[i] = b;
        indices[j] = a;
        i = i - 1;
    }
}

/// Shuffles `indices` in place with `rand`'s `SliceRandom::shuffle`, drawing
/// from the thread-local generator.
///
/// Trusted: the outside shuffle only swaps entries of the slice, so it leaves a
/// permutation of them; which one depends on the generator and is not stated.
#[verifier::external_body]
fn slice_shuffle(indices: &mut [usize])
    ensures
        final(indices)@.to_multiset() == old(indices)@.to_multiset(),
        final(indices)@.len() == old(indices)@.len(),
{
    indices.shuffle(&mut rand::thread_rng());
}

/// Puts `indices` in a random order: a permutation of its entries.
pub fn shuffle(indices: &mut [usize])
    ensures
        final(indices)@.to_multiset() == old(indices)@.to_multiset(),
        final(indices)@.len() == old(indices)@.len(),
{
    slice_shuffle(indices);
}

/// `rand::rngs::ThreadRng`, the handle to the thread-local generator, carried
/// through verified code without looking inside.
#[verifier::external_type_specification]
#[verifier::external_body]
pub struct ExThreadRng(rand::rngs::ThreadRng);

/// The thread-local generator of `rand` (`rand::thread_rng`).
///
/// Trusted: it returns a handle to the generator; nothing is stated of it.
#[verifier::external_body]
fn thread_rng() -> rand::rngs::ThreadRng {
    rand::thread_rng()
}

/// A uniformly drawn position in `0..=hi` (`Rng::gen_range` on `0..=hi`).
///
/// Trusted: `gen_range` returns a value inside the range it is given, and
/// panics only on an empty range, which `0..=hi` never is; which value it
/// returns depends on the generator and is not stated.
#[verifier::external_body]
fn gen_position(rng: &mut rand::rngs::ThreadRng, hi: usize) -> (r: usize)
    ensures
        r <= hi,
{
    rng.gen_range(0..=hi)
}

/// Shuffles `indices` in place with a Fisher-Yates pass from the last
/// position down, drawing each swap partner from the thread-local generator.
pub fn shuffle_indices(indices: &mut [usize])
    ensures
        final(indices)@.to_multiset() == old(indices)@.to_multiset(),
        final(indices)@.len() == old(indices)@.len(),
{
    let n = indices.len();
    if n < 2 {
        return;
    }
    let mut rng = thread_rng();
    let mut i = n - 1;
    while i >= 1
        invariant
            n == indices@.len(),
            i < n,
            indices@.to_multiset() == old(indices)@.to_multiset(),
            indices@.len() == old(indices)@.len(),
        decreases i,
    {
        let j = gen_position(&mut rng, i);
        proof {
            lemma_swap_keeps_multiset(indices@, i as int, j as int);
        }
        let a = indices[i];
        let b = indices[j];
        indices[i] = b;
        indices[j] = a;
        i = i - 1;
    }
}

} // verus!
