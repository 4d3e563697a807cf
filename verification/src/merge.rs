//! Weighted choice among descriptions of one item type.
//!
//! A chain lists alternatives in the order in which they were registered,
//! each with a weight. One draw of the chain takes a value below the total
//! weight from the source and hands the source to the alternative in whose
//! share the value falls. The shares are laid out in registration order:
//! the first alternative has the values below its weight, the next one the
//! values that follow, as many as its weight, and so on.

use crate::tree_rng::TreeRng;
use crate::variant::Variant;
use crate::xoshiro::ranged_word;
use vstd::prelude::*;
use vstd::set_lib::lemma_int_range;
use vstd::set_lib::set_int_range;

verus! {

/// The sum of the first `k` weights: the least value in the share of
/// alternative `k`.
pub open spec fn weight_before(weights: Seq<nat>, k: int) -> nat
    decreases k,
{
    if k <= 0 {
        0
    } else {
        weight_before(weights, k - 1) + weights[k - 1]
    }
}

/// The sum of all weights.
pub open spec fn total_of(weights: Seq<nat>) -> nat {
    weight_before(weights, weights.len() as int)
}

/// The alternative that a value selects: the last one whose share begins at
/// or below the value.
pub open spec fn selected(weights: Seq<nat>, value: nat) -> int
    decreases weights.len(),
{
    if weights.len() <= 1 {
        0
    } else if value >= weight_before(weights, weights.len() - 1) {
        weights.len() - 1
    } else {
        selected(weights.drop_last(), value)
    }
}

/// The values below the total weight that select alternative `k`.
pub open spec fn values_selecting(weights: Seq<nat>, k: int) -> Set<int> {
    Set::new(|value: int| 0 <= value < total_of(weights) && selected(weights, value as nat) == k)
}

/// The sums of weights do not depend on the weights that follow.
proof fn lemma_weight_before_prefix(weights: Seq<nat>, shorter: Seq<nat>, k: int)
    requires
        shorter.len() <= weights.len(),
        forall|i: int| 0 <= i < shorter.len() ==> shorter[i] == weights[i],
        k <= shorter.len(),
    ensures
        weight_before(shorter, k) == weight_before(weights, k),
    decreases k,
{
    if k > 0 {
        lemma_weight_before_prefix(weights, shorter, k - 1);
    }
}

/// The sums of weights grow with the number of weights summed.
proof fn lemma_weight_before_grows(weights: Seq<nat>, i: int, j: int)
    requires
        i <= j,
    ensures
        weight_before(weights, i) <= weight_before(weights, j),
    decreases j - i,
{
    if i < j {
        lemma_weight_before_grows(weights, i, j - 1);
    }
}

/// Appending a weight adds it to the total.
pub proof fn lemma_total_of_push(weights: Seq<nat>, weight: nat)
    ensures
        total_of(weights.push(weight)) == total_of(weights) + weight,
        weight_before(weights.push(weight), weights.len() as int) == total_of(weights),
{
    lemma_weight_before_prefix(weights.push(weight), weights, weights.len() as int);
}

/// Every value selects an alternative of the chain.
pub proof fn lemma_selected_is_alternative(weights: Seq<nat>, value: nat)
    requires
        weights.len() >= 1,
    ensures
        0 <= selected(weights, value) < weights.len(),
    decreases weights.len(),
{
    if weights.len() > 1 && value < weight_before(weights, weights.len() - 1) {
        lemma_selected_is_alternative(weights.drop_last(), value);
    }
}

/// A value below the total weight selects an alternative of the chain, and
/// lies in that alternative's share: at or above the weights before it, and
/// less than its own weight beyond them.
pub proof fn lemma_selected_in_share(weights: Seq<nat>, value: nat)
    requires
        weights.len() >= 1,
        value < total_of(weights),
    ensures
        0 <= selected(weights, value) < weights.len(),
        weight_before(weights, selected(weights, value)) <= value,
        value < weight_before(weights, selected(weights, value)) + weights[selected(
            weights,
            value,
        )],
    decreases weights.len(),
{
    let last = weights.len() - 1;
    if weights.len() == 1 {
        reveal_with_fuel(weight_before, 2);
    } else if value >= weight_before(weights, last) {
    } else {
        let shorter = weights.drop_last();
        lemma_weight_before_prefix(weights, shorter, last);
        lemma_selected_in_share(shorter, value);
        lemma_weight_before_prefix(weights, shorter, selected(shorter, value));
    }
}

/// A value in the share of alternative `k` selects `k`.
pub proof fn lemma_share_selects(weights: Seq<nat>, k: int, value: nat)
    requires
        0 <= k < weights.len(),
        weight_before(weights, k) <= value < weight_before(weights, k) + weights[k],
    ensures
        value < total_of(weights),
        selected(weights, value) == k,
{
    lemma_weight_before_grows(weights, k + 1, weights.len() as int);
    lemma_selected_in_share(weights, value);
    let found = selected(weights, value);
    if found < k {
        lemma_weight_before_grows(weights, found + 1, k);
    } else if found > k {
        lemma_weight_before_grows(weights, k + 1, found);
    }
}

/// Every alternative is selected by as many of the values below the total
/// weight as its weight says: by those from the sum of the weights before it
/// up to, and not including, that sum plus its own weight. A draw that is
/// uniform over the values below the total therefore selects an alternative
/// with a probability of its weight divided by the total.
pub proof fn lemma_share_is_weight(weights: Seq<nat>, k: int)
    requires
        0 <= k < weights.len(),
    ensures
        values_selecting(weights, k) == set_int_range(
            weight_before(weights, k) as int,
            (weight_before(weights, k) + weights[k]) as int,
        ),
        values_selecting(weights, k).finite(),
        values_selecting(weights, k).len() == weights[k],
{
    let low = weight_before(weights, k) as int;
    let high = (weight_before(weights, k) + weights[k]) as int;
    let share = set_int_range(low, high);
    assert forall|value: int| values_selecting(weights, k).contains(value) implies share.contains(
        value,
    ) by {
        lemma_selected_in_share(weights, value as nat);
    }
    assert forall|value: int| share.contains(value) implies values_selecting(weights, k).contains(
        value,
    ) by {
        lemma_share_selects(weights, k, value as nat);
    }
    assert(values_selecting(weights, k) =~= share);
    lemma_int_range(low, high);
}

/// A chain of weighted alternatives.
pub trait VariantChain: Sized {
    /// What a draw of an alternative produces.
    type Item;

    /// The weights of the alternatives, in the order of registration.
    spec fn weights(&self) -> Seq<nat>;

    /// Whether the chain's records of weight agree with one another, link by
    /// link. Chains made by [`Variant::merge`] and [`MergeVariant::with`] are
    /// well formed.
    spec fn well_formed(&self) -> bool;

    /// Whether alternative `k` may draw on a source in state `pre`.
    spec fn alternative_ready(&self, k: int, pre: Seq<u64>) -> bool;

    /// Whether alternative `k`, drawing on a source in state `pre`, may
    /// return `item` and leave the source in state `post`.
    spec fn alternative_yields(&self, k: int, pre: Seq<u64>, item: Self::Item, post: Seq<
        u64,
    >) -> bool;

    /// A well-formed chain has an alternative.
    proof fn lemma_has_alternative(&self)
        requires
            self.well_formed(),
        ensures
            self.weights().len() >= 1,
    ;

    /// The sum of the weights.
    fn total_weight(&self) -> (total: u64)
        requires
            self.well_formed(),
        ensures
            total == total_of(self.weights()),
    ;

    /// Draws from the alternative that `chain_state` selects.
    fn next_chain(&self, chain_state: u64, rng: &mut TreeRng) -> (item: Self::Item)
        requires
            self.well_formed(),
            self.alternative_ready(selected(self.weights(), chain_state as nat), old(rng)@),
        ensures
            self.alternative_yields(
                selected(self.weights(), chain_state as nat),
                old(rng)@,
                item,
                final(rng)@,
            ),
    ;
}

/// One link of a chain: an alternative, with the chain of the alternatives
/// registered before it.
pub struct MergeVariant<V, C> {
    next: Option<C>,
    variant: V,
    threshold: u64,
    total_weight: u64,
}

impl<V, C> MergeVariant<V, C> {
    /// The alternative of this link.
    pub closed spec fn alternative(&self) -> V {
        self.variant
    }

    /// The chain of the alternatives registered before this one.
    pub closed spec fn earlier(&self) -> Option<C> {
        self.next
    }

    /// The least value that selects this link's alternative: the total
    /// weight of the alternatives registered before it.
    pub closed spec fn threshold(&self) -> u64 {
        self.threshold
    }

    /// The total weight of the chain up to and including this link.
    pub closed spec fn total(&self) -> u64 {
        self.total_weight
    }
}

impl<V> MergeVariant<V, ()> {
    /// The chain of the one alternative `variant`, with its weight.
    pub(crate) fn first(variant: V, weight: u64) -> (made: Self)
        ensures
            made.alternative() == variant,
            made.earlier() is None,
            made.threshold() == 0,
            made.total() == weight,
    {
        MergeVariant { next: None, variant, threshold: 0, total_weight: weight }
    }
}

impl<V, C> MergeVariant<V, C> where MergeVariant<V, C>: VariantChain {
    /// The chain of this chain's alternatives followed by `variant`, with its
    /// weight. The total weight has to fit the machine word.
    pub fn with<V2>(self, variant: V2, weight: u64) -> (made: MergeVariant<V2, Self>) where
        V2: Variant<Item = <Self as VariantChain>::Item>,

        requires
            self.well_formed(),
            total_of(self.weights()) + weight <= u64::MAX,
        ensures
            made.well_formed(),
            made.weights() == self.weights().push(weight as nat),
            made.alternative() == variant,
            made.earlier() == Some(self),
            made.threshold() == total_of(self.weights()),
            made.total() == total_of(self.weights()) + weight,
    {
        let total = self.total_weight();
        MergeVariant { threshold: total, total_weight: total + weight, next: Some(self), variant }
    }
}

impl<V: Variant> VariantChain for MergeVariant<V, ()> {
    type Item = V::Item;

    open spec fn weights(&self) -> Seq<nat> {
        seq![self.total() as nat]
    }

    open spec fn well_formed(&self) -> bool {
        self.threshold() == 0
    }

    open spec fn alternative_ready(&self, k: int, pre: Seq<u64>) -> bool {
        self.alternative().ready(pre)
    }

    open spec fn alternative_yields(&self, k: int, pre: Seq<u64>, item: V::Item, post: Seq<
        u64,
    >) -> bool {
        self.alternative().yields(pre, item, post)
    }

    proof fn lemma_has_alternative(&self) {
    }

    fn total_weight(&self) -> (total: u64) {
        proof {
            reveal_with_fuel(weight_before, 2);
        }
        self.total_weight
    }

    /// The one alternative draws, whatever the state.
    fn next_chain(&self, chain_state: u64, rng: &mut TreeRng) -> (item: V::Item) {
        self.variant.next(rng)
    }
}

impl<V, C, T> VariantChain for MergeVariant<V, C> where
    V: Variant<Item = T>,
    C: VariantChain<Item = T>,
 {
    type Item = T;

    open spec fn weights(&self) -> Seq<nat> {
        self.earlier().unwrap().weights().push((self.total() - self.threshold()) as nat)
    }

    open spec fn well_formed(&self) -> bool {
        &&& self.earlier() is Some
        &&& self.earlier().unwrap().well_formed()
        &&& self.threshold() == total_of(self.earlier().unwrap().weights())
        &&& self.threshold() <= self.total()
    }

    open spec fn alternative_ready(&self, k: int, pre: Seq<u64>) -> bool {
        if k == self.earlier().unwrap().weights().len() {
            self.alternative().ready(pre)
        } else {
            self.earlier().unwrap().alternative_ready(k, pre)
        }
    }

    open spec fn alternative_yields(&self, k: int, pre: Seq<u64>, item: T, post: Seq<u64>) -> bool {
        if k == self.earlier().unwrap().weights().len() {
            self.alternative().yields(pre, item, post)
        } else {
            self.earlier().unwrap().alternative_yields(k, pre, item, post)
        }
    }

    proof fn lemma_has_alternative(&self) {
    }

    fn total_weight(&self) -> (total: u64) {
        proof {
            lemma_total_of_push(
                self.earlier().unwrap().weights(),
                (self.total() - self.threshold()) as nat,
            );
        }
        self.total_weight
    }

    /// A state at or above the threshold selects this link's alternative; a
    /// state below it is handed to the chain of the earlier alternatives.
    fn next_chain(&self, chain_state: u64, rng: &mut TreeRng) -> (item: T) {
        proof {
            let before = self.earlier().unwrap().weights();
            let weight = (self.total() - self.threshold()) as nat;
            self.earlier().unwrap().lemma_has_alternative();
            lemma_total_of_push(before, weight);
            lemma_selected_is_alternative(before, chain_state as nat);
            assert(self.weights().drop_last() =~= before);
        }
        if chain_state >= self.threshold {
            self.variant.next(rng)
        } else {
            match &self.next {
                Some(next) => next.next_chain(chain_state, rng),
                None => unreached(),
            }
        }
    }
}

impl<V: Variant> Variant for MergeVariant<V, ()> {
    type Item = V::Item;

    open spec fn ready(&self, pre: Seq<u64>) -> bool {
        self.alternative().ready(pre)
    }

    open spec fn yields(&self, pre: Seq<u64>, item: V::Item, post: Seq<u64>) -> bool {
        self.alternative().yields(pre, item, post)
    }

    /// With one alternative there is nothing to choose: it draws, and the
    /// source is not asked for a value first.
    fn next(&self, rng: &mut TreeRng) -> (item: V::Item) {
        self.variant.next(rng)
    }
}

impl<V, C, T> Variant for MergeVariant<V, C> where
    V: Variant<Item = T>,
    C: VariantChain<Item = T>,
 {
    type Item = T;

    /// The chain is well formed and has weight, and the alternative that the
    /// value drawn selects is ready where that draw leaves the source.
    open spec fn ready(&self, pre: Seq<u64>) -> bool {
        &&& self.well_formed()
        &&& self.total() > 0
        &&& self.alternative_ready(
            selected(self.weights(), ranged_word(pre, self.total()).0 as nat),
            ranged_word(pre, self.total()).1,
        )
    }

    /// `item` is what the alternative selected by the value drawn yields
    /// from the state in which that draw leaves the source.
    open spec fn yields(&self, pre: Seq<u64>, item: T, post: Seq<u64>) -> bool {
        self.alternative_yields(
            selected(self.weights(), ranged_word(pre, self.total()).0 as nat),
            ranged_word(pre, self.total()).1,
            item,
            post,
        )
    }

    /// Takes a value below the total weight from the source, then draws from
    /// the alternative that the value selects.
    fn next(&self, rng: &mut TreeRng) -> (item: T) {
        let choice = rng.below(self.total_weight);
        self.next_chain(choice, rng)
    }
}

} // verus!
