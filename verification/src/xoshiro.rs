//! The generator behind [`crate::TreeRng`]: xoshiro256** from `rand_xoshiro`.
//!
//! Nothing in this file is proved. It declares the generator, names what its
//! operations compute, and wraps each operation in a function whose contract
//! repeats what the generator's source shows. Every name is a function of the
//! generator's words alone: equal words give equal results.

use array_ext::Array;
use rand::Rng;
use rand_xoshiro::rand_core::RngCore;
use rand_xoshiro::rand_core::SeedableRng;
use rand_xoshiro::Xoshiro256StarStar;
use vstd::prelude::*;

verus! {

/// `rand_xoshiro::Xoshiro256StarStar`, carried as an opaque value.
#[verifier::external_type_specification]
#[verifier::external_body]
pub struct ExXoshiro256StarStar(Xoshiro256StarStar);

/// `rand::Error`, carried as an opaque value.
#[verifier::external_type_specification]
#[verifier::external_body]
pub struct ExRandError(rand::Error);

/// The words of state that a generator holds.
pub uninterp spec fn words_of(generator: Xoshiro256StarStar) -> Seq<u64>;

/// The words with which `from_seed` starts a generator for a seed.
pub uninterp spec fn seeded_words(seed: Seq<u8>) -> Seq<u64>;

/// The word that `next_u64` returns from a state, and the state it leaves.
pub uninterp spec fn next_word(words: Seq<u64>) -> (u64, Seq<u64>);

/// The state that `jump` leaves.
pub uninterp spec fn jumped_words(words: Seq<u64>) -> Seq<u64>;

/// The bytes that `fill_bytes` writes into a buffer of `len` bytes, and the
/// state it leaves.
pub uninterp spec fn filled_bytes(words: Seq<u64>, len: nat) -> (Seq<u8>, Seq<u64>);

/// The value that `gen_range(0, bound)` returns from a state, and the state
/// it leaves.
pub uninterp spec fn ranged_word(words: Seq<u64>, bound: u64) -> (u64, Seq<u64>);

/// `Xoshiro256StarStar::from_seed`: the generator's state is a function of the
/// seed.
#[verifier::external_body]
pub(crate) fn seed_generator(seed: [u8; 32]) -> (generator: Xoshiro256StarStar)
    ensures
        words_of(generator) == seeded_words(seed@),
{
    Xoshiro256StarStar::from_seed(seed)
}

/// `Xoshiro256StarStar::next_u64`: the result and the state left are functions
/// of the state before.
#[verifier::external_body]
pub(crate) fn draw_u64(generator: &mut Xoshiro256StarStar) -> (word: u64)
    ensures
        (word, words_of(*final(generator))) == next_word(words_of(*old(generator))),
{
    generator.next_u64()
}

/// `Xoshiro256StarStar::next_u32`: the low half of the word that `next_u64`
/// would return, leaving the state that `next_u64` would leave.
#[verifier::external_body]
pub(crate) fn draw_u32(generator: &mut Xoshiro256StarStar) -> (word: u32)
    ensures
        word == next_word(words_of(*old(generator))).0 as u32,
        words_of(*final(generator)) == next_word(words_of(*old(generator))).1,
{
    generator.next_u32()
}

/// `Xoshiro256StarStar::jump`: the state left is a function of the state
/// before.
#[verifier::external_body]
pub(crate) fn jump(generator: &mut Xoshiro256StarStar)
    ensures
        words_of(*final(generator)) == jumped_words(words_of(*old(generator))),
{
    generator.jump()
}

/// `Xoshiro256StarStar::fill_bytes`: every byte of the buffer is overwritten;
/// the bytes written and the state left are functions of the state before and
/// of the buffer's length.
#[verifier::external_body]
pub(crate) fn fill(generator: &mut Xoshiro256StarStar, dest: &mut [u8])
    ensures
        final(dest)@.len() == old(dest)@.len(),
        (final(dest)@, words_of(*final(generator))) == filled_bytes(
            words_of(*old(generator)),
            old(dest)@.len(),
        ),
{
    generator.fill_bytes(dest)
}

/// `Xoshiro256StarStar::try_fill_bytes`: calls `fill_bytes` and returns `Ok`.
#[verifier::external_body]
pub(crate) fn try_fill(generator: &mut Xoshiro256StarStar, dest: &mut [u8]) -> (outcome: Result<
    (),
    rand::Error,
>)
    ensures
        outcome is Ok,
        final(dest)@.len() == old(dest)@.len(),
        (final(dest)@, words_of(*final(generator))) == filled_bytes(
            words_of(*old(generator)),
            old(dest)@.len(),
        ),
{
    generator.try_fill_bytes(dest)
}

/// `rand::Rng::gen_range(0, bound)` on the generator: a value below `bound`;
/// the value and the state left are functions of the state before and of
/// `bound`. The call panics for an empty range, hence the precondition.
#[verifier::external_body]
pub(crate) fn draw_below(generator: &mut Xoshiro256StarStar, bound: u64) -> (word: u64)
    requires
        bound > 0,
    ensures
        word < bound,
        (word, words_of(*final(generator))) == ranged_word(words_of(*old(generator)), bound),
{
    generator.gen_range(0, bound)
}

/// `array_ext::Array::from_iter` on the items of a vector: the first `N`
/// items in order, or nothing when there are fewer than `N`.
#[verifier::external_body]
pub(crate) fn array_from_items<T, const N: usize>(items: Vec<T>) -> (array: Option<[T; N]>)
    ensures
        items@.len() < N ==> array is None,
        items@.len() >= N ==> array is Some && array.unwrap()@ == items@.subrange(0, N as int),
{
    Array::from_iter(items.into_iter())
}

} // verus!
