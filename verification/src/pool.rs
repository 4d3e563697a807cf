//! Descriptions that gather a pool of items which agree with one another.

use crate::tree_rng::TreeRng;
use crate::variant::Variant;
use vstd::prelude::*;

verus! {

/// One draw made while a pool is filled: the item drawn, the state in which
/// the draw left the source, and the pool as it stood once the item had been
/// taken in or turned away.
pub struct Trial<T> {
    /// The item drawn.
    pub item: T,
    /// The state of the source after the draw.
    pub after: Seq<u64>,
    /// The pool after the draw.
    pub pool: Seq<T>,
}

/// The state of the source before trial `i` of a run begun in state `pre`.
pub open spec fn source_before<T>(pre: Seq<u64>, trials: Seq<Trial<T>>, i: int) -> Seq<u64> {
    if i <= 0 {
        pre
    } else {
        trials[i - 1].after
    }
}

/// The state in which a run of trials begun in state `pre` leaves the source.
pub open spec fn source_after<T>(pre: Seq<u64>, trials: Seq<Trial<T>>) -> Seq<u64> {
    source_before(pre, trials, trials.len() as int)
}

/// The pool before trial `i`: empty before the first.
pub open spec fn pool_before<T>(trials: Seq<Trial<T>>, i: int) -> Seq<T> {
    if i <= 0 {
        Seq::empty()
    } else {
        trials[i - 1].pool
    }
}

/// The pool that a run of trials leaves.
pub open spec fn pool_after<T>(trials: Seq<Trial<T>>) -> Seq<T> {
    pool_before(trials, trials.len() as int)
}

/// Whether the relation may answer `true` for every member of the pool,
/// taken with `item`.
pub open spec fn fits<T, R: Fn(&T, &T) -> bool>(relation: R, pool: Seq<T>, item: T) -> bool {
    forall|j: int| 0 <= j < pool.len() ==> call_ensures(relation, (&#[trigger] pool[j], &item), true)
}

/// Whether the relation may answer `false` for some member of the pool, taken
/// with `item`, having answered `true` for the members before it.
pub open spec fn clashes<T, R: Fn(&T, &T) -> bool>(relation: R, pool: Seq<T>, item: T) -> bool {
    exists|j: int|
        0 <= j < pool.len() && call_ensures(relation, (&#[trigger] pool[j], &item), false)
            && fits(relation, pool.take(j), item)
}

/// Whether the relation may be asked about `item` and the members of the
/// pool, one after the other, for as long as it answers `true`.
pub open spec fn askable<T, R: Fn(&T, &T) -> bool>(relation: R, pool: Seq<T>, item: T) -> bool {
    forall|j: int|
        0 <= j < pool.len() && fits(relation, pool.take(j), item) ==> call_requires(
            relation,
            (&#[trigger] pool[j], &item),
        )
}

/// Whether every member of the pool agrees with every member that entered
/// the pool after it.
pub open spec fn agreeing<T, R: Fn(&T, &T) -> bool>(relation: R, pool: Seq<T>) -> bool {
    forall|i: int, j: int|
        0 <= i < j < pool.len() ==> call_ensures(
            relation,
            (&#[trigger] pool[i], &#[trigger] pool[j]),
            true,
        )
}

/// Whether a pool that stood at `before` may stand at `after` once `item` was
/// offered: the item is appended if it fits, and the pool is unchanged if it
/// clashes.
pub open spec fn offered<T, R: Fn(&T, &T) -> bool>(
    relation: R,
    before: Seq<T>,
    item: T,
    after: Seq<T>,
) -> bool {
    ||| fits(relation, before, item) && after == before.push(item)
    ||| clashes(relation, before, item) && after == before
}

/// Whether `trials` is a run of draws of `inner` from state `pre` by which a
/// pool of `size` items is filled: every draw begins where the one before it
/// ended and is made while the pool is short of `size`, and its item is
/// offered to the pool.
pub open spec fn filling_run<R, V>(
    inner: V,
    relation: R,
    size: usize,
    pre: Seq<u64>,
    trials: Seq<Trial<V::Item>>,
) -> bool where V: Variant, R: Fn(&V::Item, &V::Item) -> bool {
    forall|i: int|
        0 <= i < trials.len() ==> {
            &&& (#[trigger] pool_before(trials, i)).len() < size
            &&& inner.yields(source_before(pre, trials, i), trials[i].item, trials[i].after)
            &&& offered(relation, pool_before(trials, i), trials[i].item, trials[i].pool)
        }
}

/// Whether `trials` is a filling run that leaves the pool short of `size`.
pub open spec fn short_run<R, V>(
    inner: V,
    relation: R,
    size: usize,
    pre: Seq<u64>,
    trials: Seq<Trial<V::Item>>,
) -> bool where V: Variant, R: Fn(&V::Item, &V::Item) -> bool {
    filling_run(inner, relation, size, pre, trials) && pool_after(trials).len() < size
}

/// Whether `trials` is a filling run that leaves the source in state `post`
/// and the pool, complete, holding `pool`.
pub open spec fn full_run<R, V>(
    inner: V,
    relation: R,
    size: usize,
    pre: Seq<u64>,
    trials: Seq<Trial<V::Item>>,
    pool: Seq<V::Item>,
    post: Seq<u64>,
) -> bool where V: Variant, R: Fn(&V::Item, &V::Item) -> bool {
    &&& filling_run(inner, relation, size, pre, trials)
    &&& pool_after(trials) == pool
    &&& pool.len() == size
    &&& source_after(pre, trials) == post
}

/// Whether, after `trials`, `inner` may draw again and the relation may be
/// asked about whatever that draw may yield.
pub open spec fn may_try<R, V>(
    inner: V,
    relation: R,
    pre: Seq<u64>,
    trials: Seq<Trial<V::Item>>,
) -> bool where V: Variant, R: Fn(&V::Item, &V::Item) -> bool {
    &&& inner.ready(source_after(pre, trials))
    &&& forall|item: V::Item, post: Seq<u64>| #[trigger]
        inner.yields(source_after(pre, trials), item, post) ==> askable(
            relation,
            pool_after(trials),
            item,
        )
}

/// Whether every run from state `pre` that leaves the pool short of `size`
/// has fewer than `bound` draws: the pool is complete after at most `bound`.
pub open spec fn fills_within<R, V>(
    inner: V,
    relation: R,
    size: usize,
    pre: Seq<u64>,
    bound: nat,
) -> bool where V: Variant, R: Fn(&V::Item, &V::Item) -> bool {
    forall|trials: Seq<Trial<V::Item>>| #[trigger]
        short_run(inner, relation, size, pre, trials) ==> trials.len() < bound
}

/// Whether a description that fills a pool of `size` items from `inner` may
/// draw from state `pre`: after every run that leaves the pool short `inner`
/// may draw again and the relation may be asked, and some number bounds the
/// length of all such runs.
pub open spec fn pool_ready<R, V>(inner: V, relation: R, size: usize, pre: Seq<u64>) -> bool where
    V: Variant,
    R: Fn(&V::Item, &V::Item) -> bool,
 {
    &&& forall|trials: Seq<Trial<V::Item>>| #[trigger]
        short_run(inner, relation, size, pre, trials) ==> may_try(inner, relation, pre, trials)
    &&& exists|bound: nat| fills_within(inner, relation, size, pre, bound)
}

/// Whether `pool` holds `size` items, in the order in which a filling run of
/// `inner` from state `pre` took them in, each agreeing with all before it,
/// with `post` where the run left the source.
pub open spec fn pool_yields<R, V>(
    inner: V,
    relation: R,
    size: usize,
    pre: Seq<u64>,
    pool: Seq<V::Item>,
    post: Seq<u64>,
) -> bool where V: Variant, R: Fn(&V::Item, &V::Item) -> bool {
    &&& agreeing(relation, pool)
    &&& exists|trials: Seq<Trial<V::Item>>|
        full_run(inner, relation, size, pre, trials, pool, post)
}

/// Whether a description that fills a pool of `size` items from `inner`
/// within `attempts` draws after the first may draw from state `pre`: after
/// every run of at most `attempts` draws that leaves the pool short `inner`
/// may draw again and the relation may be asked.
pub open spec fn try_pool_ready<R, V>(
    inner: V,
    relation: R,
    size: usize,
    attempts: usize,
    pre: Seq<u64>,
) -> bool where V: Variant, R: Fn(&V::Item, &V::Item) -> bool {
    forall|trials: Seq<Trial<V::Item>>|
        trials.len() <= attempts && #[trigger] short_run(inner, relation, size, pre, trials)
            ==> may_try(inner, relation, pre, trials)
}

/// What a description that fills a pool of `size` items from `inner` within
/// `attempts` draws after the first may return from state `pre`.
/// `Some(pool)`: a filling run of at most `attempts + 1` draws completed the
/// pool, which holds the items in the order in which they were taken in, each
/// agreeing with all before it. `None`: a filling run of `attempts + 1` draws
/// left the pool short. Either way `post` is where the run left the source.
pub open spec fn try_pool_yields<R, V>(
    inner: V,
    relation: R,
    size: usize,
    attempts: usize,
    pre: Seq<u64>,
    item: Option<Seq<V::Item>>,
    post: Seq<u64>,
) -> bool where V: Variant, R: Fn(&V::Item, &V::Item) -> bool {
    match item {
        Some(pool) => {
            &&& agreeing(relation, pool)
            &&& exists|trials: Seq<Trial<V::Item>>|
                trials.len() <= attempts + 1 && #[trigger] full_run(
                    inner,
                    relation,
                    size,
                    pre,
                    trials,
                    pool,
                    post,
                )
        },
        None => exists|trials: Seq<Trial<V::Item>>|
            trials.len() == attempts + 1 && source_after(pre, trials) == post && #[trigger] short_run(
                inner,
                relation,
                size,
                pre,
                trials,
            ),
    }
}

/// The pool that a draw returned, as a sequence.
pub open spec fn pool_view<T>(item: Option<Vec<T>>) -> Option<Seq<T>> {
    match item {
        Some(pool) => Some(pool@),
        None => None,
    }
}

/// A filling run stays one when the draw that follows it is appended.
pub proof fn lemma_filling_run_extends<R, V>(
    inner: V,
    relation: R,
    size: usize,
    pre: Seq<u64>,
    trials: Seq<Trial<V::Item>>,
    next: Trial<V::Item>,
) where V: Variant, R: Fn(&V::Item, &V::Item) -> bool
    requires
        short_run(inner, relation, size, pre, trials),
        inner.yields(source_after(pre, trials), next.item, next.after),
        offered(relation, pool_after(trials), next.item, next.pool),
    ensures
        filling_run(inner, relation, size, pre, trials.push(next)),
        pool_after(trials.push(next)) == next.pool,
        source_after(pre, trials.push(next)) == next.after,
{
    let longer = trials.push(next);
    assert forall|i: int| 0 <= i < longer.len() implies {
        &&& (#[trigger] pool_before(longer, i)).len() < size
        &&& inner.yields(source_before(pre, longer, i), longer[i].item, longer[i].after)
        &&& offered(relation, pool_before(longer, i), longer[i].item, longer[i].pool)
    } by {
        if i < trials.len() {
            assert(pool_before(longer, i) == pool_before(trials, i));
            assert(source_before(pre, longer, i) == source_before(pre, trials, i));
        }
    }
}

/// A pool of agreeing members stays one when an item that fits is appended.
pub proof fn lemma_agreeing_extends<T, R: Fn(&T, &T) -> bool>(relation: R, pool: Seq<T>, item: T)
    requires
        agreeing(relation, pool),
        fits(relation, pool, item),
    ensures
        agreeing(relation, pool.push(item)),
{
    let longer = pool.push(item);
    assert forall|i: int, j: int| 0 <= i < j < longer.len() implies call_ensures(
        relation,
        (&#[trigger] longer[i], &#[trigger] longer[j]),
        true,
    ) by {
        if j < pool.len() {
            assert(longer[i] == pool[i] && longer[j] == pool[j]);
        } else {
            assert(longer[i] == pool[i]);
        }
    }
}

/// Asks the relation about `item` and the members of `pool` in order, and
/// stops at the first that answers `false`.
fn fits_pool<T, R: Fn(&T, &T) -> bool>(relation: &R, pool: &Vec<T>, item: &T) -> (all: bool)
    requires
        askable(*relation, pool@, *item),
    ensures
        all ==> fits(*relation, pool@, *item),
        !all ==> clashes(*relation, pool@, *item),
{
    let mut at: usize = 0;
    while at < pool.len()
        invariant
            at <= pool.len(),
            askable(*relation, pool@, *item),
            fits(*relation, pool@.take(at as int), *item),
        decreases pool.len() - at,
    {
        if !relation(&pool[at], item) {
            return false;
        }
        proof {
            let wider = pool@.take(at + 1);
            assert forall|j: int| 0 <= j < wider.len() implies call_ensures(
                *relation,
                (&#[trigger] wider[j], item),
                true,
            ) by {
                if j < at {
                    assert(wider[j] == pool@.take(at as int)[j]);
                }
            }
        }
        at += 1;
    }
    assert(pool@.take(at as int) =~= pool@);
    true
}

/// The description that draws from another until it holds `size` items of
/// which each agrees with all that were taken in before it. An item that
/// clashes with a member is dropped and another is drawn. It never gives up:
/// from a state from which the pool is never completed a draw would not
/// return, and `ready` leaves such states out.
pub struct PoolVariant<SC, V> {
    self_constraint: SC,
    variant: V,
    size: usize,
}

impl<SC, V> PoolVariant<SC, V> {
    /// The description that is drawn from.
    pub closed spec fn inner(&self) -> V {
        self.variant
    }

    /// The relation that a member and a later item have to meet.
    pub closed spec fn relation(&self) -> SC {
        self.self_constraint
    }

    /// The number of items in a complete pool.
    pub closed spec fn size(&self) -> usize {
        self.size
    }

    /// The description that fills a pool of `size` items of `variant` which
    /// agree under `self_constraint`.
    pub(crate) fn new(variant: V, size: usize, self_constraint: SC) -> (made: Self)
        ensures
            made.inner() == variant,
            made.relation() == self_constraint,
            made.size() == size,
    {
        PoolVariant { self_constraint, variant, size }
    }
}

impl<SC, V: Variant> PoolVariant<SC, V> where SC: Fn(&V::Item, &V::Item) -> bool {
    /// What `ready` says of this description. Verus unfolds `ready` only
    /// where the relation's type is a type parameter; this lemma states it
    /// for a caller that holds a closure or a named function.
    pub proof fn lemma_ready(self, pre: Seq<u64>)
        ensures
            self.ready(pre) == pool_ready(self.inner(), self.relation(), self.size(), pre),
    {
    }
}

impl<SC, V: Variant> Variant for PoolVariant<SC, V> where SC: Fn(&V::Item, &V::Item) -> bool {
    type Item = Vec<V::Item>;

    /// After every run that leaves the pool short the inner description may
    /// draw again and the relation may be asked, and some number bounds the
    /// length of all such runs.
    open spec fn ready(&self, pre: Seq<u64>) -> bool {
        pool_ready(self.inner(), self.relation(), self.size(), pre)
    }

    /// `item` holds `size` items, in the order in which a filling run from
    /// `pre` took them in, each agreeing with all before it, and `post` is
    /// where the run left the source.
    open spec fn yields(&self, pre: Seq<u64>, item: Vec<V::Item>, post: Seq<u64>) -> bool {
        pool_yields(self.inner(), self.relation(), self.size(), pre, item@, post)
    }

    /// Draws until the pool is complete, and returns it.
    fn next(&self, rng: &mut TreeRng) -> (item: Vec<V::Item>) {
        let ghost pre = rng@;
        let ghost bound = choose|bound: nat|
            fills_within(self.inner(), self.relation(), self.size(), pre, bound);
        let ghost mut trials: Seq<Trial<V::Item>> = Seq::empty();
        let mut pool: Vec<V::Item> = Vec::new();
        while pool.len() < self.size
            invariant
                pre == old(rng)@,
                self.ready(pre),
                fills_within(self.inner(), self.relation(), self.size(), pre, bound),
                filling_run(self.inner(), self.relation(), self.size(), pre, trials),
                pool_after(trials) == pool@,
                source_after(pre, trials) == rng@,
                pool@.len() <= self.size(),
                agreeing(self.relation(), pool@),
            decreases bound - trials.len(),
        {
            assert(short_run(self.inner(), self.relation(), self.size(), pre, trials));
            let ghost before = pool@;
            let drawn = self.variant.next(rng);
            let ghost offer = drawn;
            if fits_pool(&self.self_constraint, &pool, &drawn) {
                proof {
                    lemma_agreeing_extends(self.relation(), before, offer);
                }
                pool.push(drawn);
            }
            proof {
                let last = Trial { item: offer, after: rng@, pool: pool@ };
                lemma_filling_run_extends(
                    self.inner(),
                    self.relation(),
                    self.size(),
                    pre,
                    trials,
                    last,
                );
                trials = trials.push(last);
            }
        }
        proof {
            assert(full_run(self.inner(), self.relation(), self.size(), pre, trials, pool@, rng@));
        }
        pool
    }
}

/// The description that fills a pool as [`PoolVariant`] does, within a
/// budget of draws: the first draw, and up to `attempts` more. Every draw
/// counts, whether its item is taken in or dropped.
pub struct TryPoolVariant<SC, V> {
    self_constraint: SC,
    variant: V,
    size: usize,
    attempts: usize,
}

impl<SC, V> TryPoolVariant<SC, V> {
    /// The description that is drawn from.
    pub closed spec fn inner(&self) -> V {
        self.variant
    }

    /// The relation that a member and a later item have to meet.
    pub closed spec fn relation(&self) -> SC {
        self.self_constraint
    }

    /// The number of items in a complete pool.
    pub closed spec fn size(&self) -> usize {
        self.size
    }

    /// How many draws may follow the first.
    pub closed spec fn attempts(&self) -> usize {
        self.attempts
    }

    /// The description that fills a pool of `size` items of `variant` which
    /// agree under `self_constraint`, with at most `attempts` draws after
    /// the first.
    pub(crate) fn new(variant: V, size: usize, self_constraint: SC, attempts: usize) -> (made:
        Self)
        ensures
            made.inner() == variant,
            made.relation() == self_constraint,
            made.size() == size,
            made.attempts() == attempts,
    {
        TryPoolVariant { self_constraint, variant, size, attempts }
    }
}

impl<SC, V: Variant> TryPoolVariant<SC, V> where SC: Fn(&V::Item, &V::Item) -> bool {
    /// What `ready` says of this description. Verus unfolds `ready` only
    /// where the relation's type is a type parameter; this lemma states it
    /// for a caller that holds a closure or a named function.
    pub proof fn lemma_ready(self, pre: Seq<u64>)
        ensures
            self.ready(pre) == try_pool_ready(
                self.inner(),
                self.relation(),
                self.size(),
                self.attempts(),
                pre,
            ),
    {
    }
}

impl<SC, V: Variant> Variant for TryPoolVariant<SC, V> where SC: Fn(&V::Item, &V::Item) -> bool {
    type Item = Option<Vec<V::Item>>;

    /// After every run of at most `attempts` draws that leaves the pool short
    /// the inner description may draw again and the relation may be asked.
    open spec fn ready(&self, pre: Seq<u64>) -> bool {
        try_pool_ready(self.inner(), self.relation(), self.size(), self.attempts(), pre)
    }

    /// `Some(pool)`: a filling run from `pre` of at most `attempts + 1` draws
    /// completed the pool, which holds the items in the order in which they
    /// were taken in, each agreeing with all before it. `None`: a filling run
    /// of `attempts + 1` draws left the pool short. Either way `post` is where
    /// the run left the source.
    open spec fn yields(&self, pre: Seq<u64>, item: Option<Vec<V::Item>>, post: Seq<u64>) -> bool {
        try_pool_yields(
            self.inner(),
            self.relation(),
            self.size(),
            self.attempts(),
            pre,
            pool_view(item),
            post,
        )
    }

    /// Draws until the pool is complete or the budget is spent.
    fn next(&self, rng: &mut TreeRng) -> (item: Option<Vec<V::Item>>) {
        let ghost pre = rng@;
        let ghost mut trials: Seq<Trial<V::Item>> = Seq::empty();
        let mut pool: Vec<V::Item> = Vec::new();
        let mut left: usize = self.attempts;
        let mut spent: bool = false;
        while pool.len() < self.size
            invariant
                pre == old(rng)@,
                self.ready(pre),
                filling_run(self.inner(), self.relation(), self.size(), pre, trials),
                pool_after(trials) == pool@,
                source_after(pre, trials) == rng@,
                pool@.len() <= self.size(),
                agreeing(self.relation(), pool@),
                spent ==> left == 0,
                trials.len() + left == self.attempts() + if spent { 1int } else { 0int },
            decreases left + if spent { 0int } else { 1int },
        {
            assert(short_run(self.inner(), self.relation(), self.size(), pre, trials));
            if spent {
                return None;
            }
            let ghost before = pool@;
            let drawn = self.variant.next(rng);
            let ghost offer = drawn;
            if fits_pool(&self.self_constraint, &pool, &drawn) {
                proof {
                    lemma_agreeing_extends(self.relation(), before, offer);
                }
                pool.push(drawn);
            }
            proof {
                let last = Trial { item: offer, after: rng@, pool: pool@ };
                lemma_filling_run_extends(
                    self.inner(),
                    self.relation(),
                    self.size(),
                    pre,
                    trials,
                    last,
                );
                trials = trials.push(last);
            }
            if left == 0 {
                spent = true;
            } else {
                left -= 1;
            }
        }
        proof {
            let found = pool_view(Some(pool));
            assert(full_run(
                self.inner(),
                self.relation(),
                self.size(),
                pre,
                trials,
                found.unwrap(),
                rng@,
            ));
        }
        Some(pool)
    }
}

} // verus!
