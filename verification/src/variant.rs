//! Sampling descriptions: the trait, the function leaf, the transform and the
//! endless iterator over a description.

use crate::constrain::ConstrainedVariant;
use crate::constrain::TryConstrainedVariant;
use crate::merge::MergeVariant;
use crate::pool::PoolVariant;
use crate::pool::TryPoolVariant;
use crate::tree_rng::TreeRng;
use std::marker::PhantomData;
use vstd::prelude::*;

verus! {

/// A description of how to draw one item from a random source.
///
/// A description is immutable: `next` takes it by shared reference, and all
/// the state that a draw changes is the source that is handed in. What a
/// description may do is given by two relations over source states:
/// [`Variant::ready`] says from which states `next` may be called, and
/// [`Variant::yields`] relates the state before a call to the item returned
/// and the state left. A description that states neither may be called
/// anywhere and may return anything.
///
/// Where a description holds a function, its relations speak of the function
/// through `call_requires` and `call_ensures`. Verus connects them to a
/// closure or a named function only in code that has the function's type
/// as a type parameter, so a caller that wants to know what a draw returns
/// takes its functions as parameters. For `ready`, which every caller has to
/// meet, each such description has a lemma `lemma_ready`.
pub trait Variant: Sized {
    /// What a draw produces.
    type Item;

    /// Whether `next` may be called on a source in state `pre`.
    open spec fn ready(&self, pre: Seq<u64>) -> bool {
        true
    }

    /// Whether `next`, called on a source in state `pre`, may return `item`
    /// and leave the source in state `post`.
    open spec fn yields(&self, pre: Seq<u64>, item: Self::Item, post: Seq<u64>) -> bool {
        true
    }

    /// Draws one item from `rng`.
    fn next(&self, rng: &mut TreeRng) -> (item: Self::Item)
        requires
            self.ready(old(rng)@),
        ensures
            self.yields(old(rng)@, item, final(rng)@),
    ;

    /// The description that draws by calling `function`.
    fn from_fn<F>(function: F) -> (made: FnVariant<F, Self::Item>) where
        F: Fn(&mut TreeRng) -> Self::Item,

        ensures
            made.function() == function,
    {
        FnVariant::from(function)
    }

    /// An endless iterator of draws of `self` from `rng`, which is left
    /// where the iterator's last draw leaves it.
    fn into_iter(self, rng: &mut TreeRng) -> (iter: VariantIter<'_, Self>)
        ensures
            iter.variant == self,
            *iter.rng == *old(rng),
            *final(iter.rng) == *final(rng),
    {
        VariantIter { variant: self, rng }
    }

    /// The chain whose one alternative is `self`, with its weight. Further
    /// alternatives are added by [`MergeVariant::with`].
    fn merge(self, weight: u64) -> (made: MergeVariant<Self, ()>)
        ensures
            made.alternative() == self,
            made.earlier() is None,
            made.threshold() == 0,
            made.total() == weight,
    {
        MergeVariant::first(self, weight)
    }

    /// The description that draws from `self` and hands the item to `map`.
    fn map<M, B>(self, map: M) -> (made: MapVariant<M, Self>) where M: Fn(Self::Item) -> B
        ensures
            made.inner() == self,
            made.transform() == map,
    {
        MapVariant { map, variant: self }
    }

    /// The description that draws from `self` until `constraint` accepts the
    /// item.
    fn constrain<F>(self, constraint: F) -> (made: ConstrainedVariant<F, Self>) where
        F: Fn(&Self::Item) -> bool,

        ensures
            made.inner() == self,
            made.predicate() == constraint,
    {
        ConstrainedVariant::new(self, constraint)
    }

    /// The description that draws from `self` until `constraint` accepts the
    /// item, and gives up once the first draw and `attempts` more were
    /// rejected.
    fn try_constrain<F>(self, constraint: F, attempts: usize) -> (made: TryConstrainedVariant<
        F,
        Self,
    >) where F: Fn(&Self::Item) -> bool
        ensures
            made.inner() == self,
            made.predicate() == constraint,
            made.attempts() == attempts,
    {
        TryConstrainedVariant::new(self, constraint, attempts)
    }

    /// The description that draws from `self` until it holds `size` items of
    /// which each meets `self_constraint` with all that were taken in before
    /// it.
    fn pool<F>(self, size: usize, self_constraint: F) -> (made: PoolVariant<F, Self>) where
        F: Fn(&Self::Item, &Self::Item) -> bool,

        ensures
            made.inner() == self,
            made.relation() == self_constraint,
            made.size() == size,
    {
        PoolVariant::new(self, size, self_constraint)
    }

    /// The description that fills a pool as [`Variant::pool`] does, and gives
    /// up once the first draw and `attempts` more have left it short.
    fn try_pool<F>(self, size: usize, self_constraint: F, attempts: usize) -> (made:
        TryPoolVariant<F, Self>) where F: Fn(&Self::Item, &Self::Item) -> bool
        ensures
            made.inner() == self,
            made.relation() == self_constraint,
            made.size() == size,
            made.attempts() == attempts,
    {
        TryPoolVariant::new(self, size, self_constraint, attempts)
    }
}

/// An endless iterator of draws of one description from one source.
pub struct VariantIter<'r, V> {
    /// The description that is drawn from.
    pub variant: V,
    /// The source that the draws consume.
    pub rng: &'r mut TreeRng,
}

impl<'r, V: Variant> VariantIter<'r, V> {
    /// The next draw. There always is one. The iterator keeps its description
    /// and goes on borrowing the same source.
    pub fn next(&mut self) -> (item: Option<V::Item>)
        requires
            old(self).variant.ready((*old(self).rng)@),
        ensures
            item is Some,
            final(self).variant == old(self).variant,
            old(self).variant.yields((*old(self).rng)@, item.unwrap(), (*final(self).rng)@),
            *final(final(self).rng) == *final(old(self).rng),
    {
        Some(self.variant.next(self.rng))
    }
}

/// The description that draws by calling a function on the source.
pub struct FnVariant<F, T> {
    function: F,
    _type: PhantomData<T>,
}

/// Whether `function` accepts every source in state `pre`.
pub open spec fn function_ready<F: Fn(&mut TreeRng) -> T, T>(function: F, pre: Seq<u64>) -> bool {
    forall|source: &mut TreeRng| (*source)@ == pre ==> #[trigger] call_requires(function, (source,))
}

/// Whether `function` may return `item` when called on a source in state
/// `pre`.
pub open spec fn function_yields<F: Fn(&mut TreeRng) -> T, T>(
    function: F,
    pre: Seq<u64>,
    item: T,
) -> bool {
    exists|source: &mut TreeRng|
        (*source)@ == pre && #[trigger] call_ensures(function, (source,), item)
}

impl<F: Fn(&mut TreeRng) -> T, T> FnVariant<F, T> {
    /// The function that is called.
    pub closed spec fn function(&self) -> F {
        self.function
    }

    /// The description that draws by calling `function`.
    pub fn from(function: F) -> (made: Self)
        ensures
            made.function() == function,
    {
        FnVariant { function, _type: PhantomData }
    }

    /// What `ready` says of this description. Verus unfolds `ready` only
    /// where the function's type is a type parameter; this lemma states it
    /// for a caller that holds a closure or a named function.
    pub proof fn lemma_ready(self, pre: Seq<u64>)
        ensures
            self.ready(pre) == function_ready(self.function(), pre),
    {
    }
}

impl<F: Fn(&mut TreeRng) -> T, T> Variant for FnVariant<F, T> {
    type Item = T;

    /// The function accepts every source in state `pre`.
    open spec fn ready(&self, pre: Seq<u64>) -> bool {
        function_ready(self.function(), pre)
    }

    /// The function may return `item` on a source in state `pre`. In which
    /// state it leaves the source is said by `next` itself.
    open spec fn yields(&self, pre: Seq<u64>, item: T, post: Seq<u64>) -> bool {
        function_yields(self.function(), pre, item)
    }

    /// Calls the function once on `rng` and returns its result: the item and
    /// the state in which `rng` is left are what one call of the function
    /// on `rng` gives.
    fn next(&self, rng: &mut TreeRng) -> (item: T)
        ensures
            exists|source: &mut TreeRng|
                *source == *old(rng) && *final(source) == *final(rng) && #[trigger] call_ensures(
                    self.function(),
                    (source,),
                    item,
                ),
    {
        assert(self.function() == self.function);
        (self.function)(rng)
    }
}

/// The description that draws from another and transforms the item.
pub struct MapVariant<M, V> {
    map: M,
    variant: V,
}

/// Whether `inner` is ready in state `pre` and `transform` accepts whatever
/// `inner` may yield there.
pub open spec fn map_ready<M, V, B>(inner: V, transform: M, pre: Seq<u64>) -> bool where
    V: Variant,
    M: Fn(V::Item) -> B,
 {
    &&& inner.ready(pre)
    &&& forall|drawn: V::Item, post: Seq<u64>| #[trigger]
        inner.yields(pre, drawn, post) ==> call_requires(transform, (drawn,))
}

/// Whether `item` is what `transform` may return for an item that `inner`
/// yields from state `pre`, with `post` where that draw leaves the source.
pub open spec fn map_yields<M, V, B>(
    inner: V,
    transform: M,
    pre: Seq<u64>,
    item: B,
    post: Seq<u64>,
) -> bool where V: Variant, M: Fn(V::Item) -> B {
    exists|drawn: V::Item| #[trigger]
        inner.yields(pre, drawn, post) && call_ensures(transform, (drawn,), item)
}

impl<M, V> MapVariant<M, V> {
    /// The description that is drawn from.
    pub closed spec fn inner(&self) -> V {
        self.variant
    }

    /// The function that the item is handed to.
    pub closed spec fn transform(&self) -> M {
        self.map
    }
}

impl<M, V: Variant, B> MapVariant<M, V> where M: Fn(V::Item) -> B {
    /// What `ready` says of this description. Verus unfolds `ready` only
    /// where the transform's type is a type parameter; this lemma states it
    /// for a caller that holds a closure or a named function.
    pub proof fn lemma_ready(self, pre: Seq<u64>)
        ensures
            self.ready(pre) == map_ready(self.inner(), self.transform(), pre),
    {
    }
}

impl<M, V: Variant, B> Variant for MapVariant<M, V> where M: Fn(V::Item) -> B {
    type Item = B;

    /// The inner description is ready, and the transform accepts whatever it
    /// may yield.
    open spec fn ready(&self, pre: Seq<u64>) -> bool {
        map_ready(self.inner(), self.transform(), pre)
    }

    /// `item` is what the transform may return for an item that the inner
    /// description yields, and `post` is where that draw leaves the source.
    open spec fn yields(&self, pre: Seq<u64>, item: B, post: Seq<u64>) -> bool {
        map_yields(self.inner(), self.transform(), pre, item, post)
    }

    /// One draw of the inner description, then one call of the transform.
    fn next(&self, rng: &mut TreeRng) -> (item: B) {
        let drawn = self.variant.next(rng);
        (self.map)(drawn)
    }
}

} // verus!
