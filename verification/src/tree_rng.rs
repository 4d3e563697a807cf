//! The splittable random source.

use crate::xoshiro::array_from_items;
use crate::xoshiro::draw_below;
use crate::xoshiro::draw_u32;
use crate::xoshiro::draw_u64;
use crate::xoshiro::fill;
use crate::xoshiro::filled_bytes;
use crate::xoshiro::jump;
use crate::xoshiro::jumped_words;
use crate::xoshiro::next_word;
use crate::xoshiro::ranged_word;
use crate::xoshiro::seed_generator;
use crate::xoshiro::seeded_words;
use crate::xoshiro::try_fill;
use crate::xoshiro::words_of;
use rand_xoshiro::Xoshiro256StarStar;
use vstd::prelude::*;

verus! {

/// A deterministic source of random words.
///
/// Its view is the state of the generator it holds. Every operation is a
/// function of that state: sources with equal views return equal results and
/// are left with equal views.
pub struct TreeRng {
    rng: Xoshiro256StarStar,
}

impl View for TreeRng {
    type V = Seq<u64>;

    closed spec fn view(&self) -> Seq<u64> {
        words_of(self.rng)
    }
}

/// The failure of a fallible extraction.
#[derive(Debug)]
pub enum FillError {
    /// The sink that was to receive the bytes refused them.
    Sink,
}

/// What one child of a split is seeded to, and the state in which taking it
/// leaves the parent: the parent jumps, a seed is extracted from the jumped
/// state, and the child starts from that seed.
pub open spec fn child_of(words: Seq<u64>) -> (Seq<u64>, Seq<u64>) {
    let drawn = filled_bytes(jumped_words(words), 32);
    (seeded_words(drawn.0), drawn.1)
}

/// The states of the first `n` children split off a parent in state `words`,
/// in order, and the state in which the parent is left.
pub open spec fn children_of(words: Seq<u64>, n: nat) -> (Seq<Seq<u64>>, Seq<u64>)
    decreases n,
{
    if n == 0 {
        (Seq::empty(), words)
    } else {
        let earlier = children_of(words, (n - 1) as nat);
        let last = child_of(earlier.1);
        (earlier.0.push(last.0), last.1)
    }
}

/// One call on a source.
pub enum Call {
    /// [`TreeRng::next_u32`].
    NextU32,
    /// [`TreeRng::next_u64`].
    NextU64,
    /// [`TreeRng::fill_bytes`] or [`TreeRng::try_fill_bytes`] on a buffer of
    /// this length.
    FillBytes(nat),
    /// [`Split::split`] into this number of children.
    Split(nat),
}

/// What a call on a source hands back.
pub enum Output {
    /// The word of `next_u32`.
    Word32(u32),
    /// The word of `next_u64`.
    Word64(u64),
    /// The bytes written by `fill_bytes` or `try_fill_bytes`.
    Bytes(Seq<u8>),
    /// The states of the children of `split`, in order.
    Children(Seq<Seq<u64>>),
}

/// What a call hands back on a source in state `words`, and the state in
/// which it leaves the source. This is what the operations of [`TreeRng`]
/// and [`Split::split`] ensure, gathered in one function.
pub open spec fn outcome(words: Seq<u64>, call: Call) -> (Output, Seq<u64>) {
    match call {
        Call::NextU32 => (Output::Word32(next_word(words).0 as u32), next_word(words).1),
        Call::NextU64 => (Output::Word64(next_word(words).0), next_word(words).1),
        Call::FillBytes(len) => (Output::Bytes(filled_bytes(words, len).0), filled_bytes(words, len).1),
        Call::Split(n) => (Output::Children(children_of(words, n).0), children_of(words, n).1),
    }
}

/// What a sequence of calls hands back, call by call, on a source that starts
/// in state `words`, and the state in which the last call leaves it.
pub open spec fn outcomes(words: Seq<u64>, calls: Seq<Call>) -> (Seq<Output>, Seq<u64>)
    decreases calls.len(),
{
    if calls.len() == 0 {
        (Seq::empty(), words)
    } else {
        let earlier = outcomes(words, calls.drop_last());
        let last = outcome(earlier.1, calls.last());
        (earlier.0.push(last.0), last.1)
    }
}

/// Determinism: two sources made from one seed and driven through the same
/// sequence of calls hand back the same outputs, and end in the same state.
/// Children that were split off are compared by their states, so the same
/// holds of them in turn.
pub proof fn lemma_same_seed_same_outputs(
    first: TreeRng,
    second: TreeRng,
    seed: Seq<u8>,
    calls: Seq<Call>,
)
    requires
        first@ == seeded_words(seed),
        second@ == seeded_words(seed),
    ensures
        outcomes(first@, calls) == outcomes(second@, calls),
{
}

/// The states of some sources, in order.
pub open spec fn states_of(sources: Seq<TreeRng>) -> Seq<Seq<u64>> {
    Seq::new(sources.len(), |i: int| sources[i]@)
}

impl TreeRng {
    /// A source started from `seed`. Equal seeds give equal sources.
    pub fn from_seed(seed: [u8; 32]) -> (source: TreeRng)
        ensures
            source@ == seeded_words(seed@),
    {
        TreeRng { rng: seed_generator(seed) }
    }

    /// The next 32 bits: the low half of the next word.
    pub fn next_u32(&mut self) -> (word: u32)
        ensures
            word == next_word(old(self)@).0 as u32,
            final(self)@ == next_word(old(self)@).1,
    {
        draw_u32(&mut self.rng)
    }

    /// The next 64 bits.
    pub fn next_u64(&mut self) -> (word: u64)
        ensures
            (word, final(self)@) == next_word(old(self)@),
    {
        draw_u64(&mut self.rng)
    }

    /// Overwrites every byte of `dest` with random bytes.
    pub fn fill_bytes(&mut self, dest: &mut [u8])
        ensures
            final(dest)@.len() == old(dest)@.len(),
            (final(dest)@, final(self)@) == filled_bytes(old(self)@, old(dest)@.len()),
    {
        fill(&mut self.rng, dest)
    }

    /// As [`TreeRng::fill_bytes`]. The source itself never fails, so the
    /// result is always `Ok`.
    pub fn try_fill_bytes(&mut self, dest: &mut [u8]) -> (outcome: Result<(), FillError>)
        ensures
            outcome is Ok,
            final(dest)@.len() == old(dest)@.len(),
            (final(dest)@, final(self)@) == filled_bytes(old(self)@, old(dest)@.len()),
    {
        match try_fill(&mut self.rng, dest) {
            Ok(()) => Ok(()),
            Err(_) => Err(FillError::Sink),
        }
    }

    /// A value below `bound`, uniform over `0..bound`.
    pub(crate) fn below(&mut self, bound: u64) -> (word: u64)
        requires
            bound > 0,
        ensures
            word < bound,
            (word, final(self)@) == ranged_word(old(self)@, bound),
    {
        draw_below(&mut self.rng, bound)
    }

    /// Splits one child off: jumps, extracts a seed, starts the child from it.
    fn split_one(&mut self) -> (child: TreeRng)
        ensures
            (child@, final(self)@) == child_of(old(self)@),
    {
        jump(&mut self.rng);
        let mut seed: [u8; 32] = [0u8; 32];
        self.fill_bytes(&mut seed);
        TreeRng::from_seed(seed)
    }
}

/// Splitting a source into a fixed number of children.
pub trait Split<T>: Sized {
    /// Whether splitting a source equal to `parent` may return `children` and
    /// leave it equal to `left`.
    spec fn splits_into(parent: Self, children: T, left: Self) -> bool;

    /// Derives the children from `self`, which is advanced past them.
    fn split(&mut self) -> (children: T)
        ensures
            Self::splits_into(*old(self), children, *final(self)),
    ;
}

impl<const N: usize> Split<[TreeRng; N]> for TreeRng {
    /// The children are the `N` that [`children_of`] lists for the parent's
    /// state, in order, and the parent is left where it says.
    open spec fn splits_into(parent: TreeRng, children: [TreeRng; N], left: TreeRng) -> bool {
        (states_of(children@), left@) == children_of(parent@, N as nat)
    }

    fn split(&mut self) -> [TreeRng; N] {
        let mut made: Vec<TreeRng> = Vec::new();
        let mut count: usize = 0;
        while count < N
            invariant
                count <= N,
                made@.len() == count,
                (states_of(made@), self@) == children_of(old(self)@, count as nat),
            decreases N - count,
        {
            let ghost earlier = made@;
            let child = self.split_one();
            made.push(child);
            count += 1;
            assert(states_of(made@) =~= states_of(earlier).push(child@));
        }
        assert(made@.subrange(0, N as int) =~= made@);
        match array_from_items(made) {
            Some(children) => children,
            None => unreached(),
        }
    }
}

} // verus!
