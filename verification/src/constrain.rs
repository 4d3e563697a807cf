//! Descriptions that redraw until a predicate accepts the item.

use crate::draws::is_run;
use crate::draws::lemma_run_extends;
use crate::draws::state_after;
use crate::draws::Draw;
use crate::tree_rng::TreeRng;
use crate::variant::Variant;
use vstd::prelude::*;

verus! {

/// Whether the predicate may answer `false` for every item of `run`.
pub open spec fn all_rejected<T, C: Fn(&T) -> bool>(predicate: C, run: Seq<Draw<T>>) -> bool {
    forall|i: int| 0 <= i < run.len() ==> call_ensures(predicate, (&(#[trigger] run[i]).item,), false)
}

/// Whether `run` is a run of draws of `inner` from state `pre` in which the
/// predicate rejected every item.
pub open spec fn rejected_run<C, V>(inner: V, predicate: C, pre: Seq<u64>, run: Seq<
    Draw<V::Item>,
>) -> bool where V: Variant, C: Fn(&V::Item) -> bool {
    is_run(inner, pre, run) && all_rejected(predicate, run)
}

/// Whether, after `run`, `inner` may draw again and the predicate may be
/// asked about whatever that draw may yield.
pub open spec fn may_retry<C, V>(inner: V, predicate: C, pre: Seq<u64>, run: Seq<
    Draw<V::Item>,
>) -> bool where V: Variant, C: Fn(&V::Item) -> bool {
    &&& inner.ready(state_after(pre, run))
    &&& forall|item: V::Item, post: Seq<u64>| #[trigger]
        inner.yields(state_after(pre, run), item, post) ==> call_requires(predicate, (&item,))
}

/// Whether every run of rejected draws from state `pre` is shorter than
/// `bound`: an item is accepted after fewer than `bound` rejections.
pub open spec fn settles_within<C, V>(inner: V, predicate: C, pre: Seq<u64>, bound: nat) -> bool where
    V: Variant,
    C: Fn(&V::Item) -> bool,
 {
    forall|run: Seq<Draw<V::Item>>| #[trigger]
        rejected_run(inner, predicate, pre, run) ==> run.len() < bound
}

/// Whether `item` is accepted right after the rejected draws of `run`, the
/// draw that gives it leaving the source in state `post`.
pub open spec fn accepted_after<C, V>(
    inner: V,
    predicate: C,
    pre: Seq<u64>,
    run: Seq<Draw<V::Item>>,
    item: V::Item,
    post: Seq<u64>,
) -> bool where V: Variant, C: Fn(&V::Item) -> bool {
    &&& rejected_run(inner, predicate, pre, run)
    &&& inner.yields(state_after(pre, run), item, post)
    &&& call_ensures(predicate, (&item,), true)
}

/// Whether a description that redraws from `inner` until `predicate` accepts
/// may draw from state `pre`: after every run of rejected draws `inner` may
/// draw again and the predicate may be asked, and some number bounds the
/// length of all such runs.
pub open spec fn constrain_ready<C, V>(inner: V, predicate: C, pre: Seq<u64>) -> bool where
    V: Variant,
    C: Fn(&V::Item) -> bool,
 {
    &&& forall|run: Seq<Draw<V::Item>>| #[trigger]
        rejected_run(inner, predicate, pre, run) ==> may_retry(inner, predicate, pre, run)
    &&& exists|bound: nat| settles_within(inner, predicate, pre, bound)
}

/// Whether `item` is the first accepted item of a run of draws of `inner`
/// from state `pre`, with `post` where the draw that gave it left the source.
pub open spec fn constrain_yields<C, V>(
    inner: V,
    predicate: C,
    pre: Seq<u64>,
    item: V::Item,
    post: Seq<u64>,
) -> bool where V: Variant, C: Fn(&V::Item) -> bool {
    exists|run: Seq<Draw<V::Item>>| accepted_after(inner, predicate, pre, run, item, post)
}

/// Whether a description that redraws from `inner` at most `attempts` times
/// after the first draw may draw from state `pre`: after every run of at
/// most `attempts` rejected draws `inner` may draw again and the predicate
/// may be asked.
pub open spec fn try_constrain_ready<C, V>(
    inner: V,
    predicate: C,
    attempts: usize,
    pre: Seq<u64>,
) -> bool where V: Variant, C: Fn(&V::Item) -> bool {
    forall|run: Seq<Draw<V::Item>>|
        run.len() <= attempts && #[trigger] rejected_run(inner, predicate, pre, run) ==> may_retry(
            inner,
            predicate,
            pre,
            run,
        )
}

/// What a description that redraws from `inner` at most `attempts` times
/// after the first draw may return from state `pre`. `Some(found)`: `found`
/// is the first accepted item of a run of draws, after at most `attempts`
/// rejected ones, and `post` is where the draw that gave it left the source.
/// `None`: the first draw and the `attempts` that followed were all rejected,
/// and `post` is where the last of them left the source.
pub open spec fn try_constrain_yields<C, V>(
    inner: V,
    predicate: C,
    attempts: usize,
    pre: Seq<u64>,
    item: Option<V::Item>,
    post: Seq<u64>,
) -> bool where V: Variant, C: Fn(&V::Item) -> bool {
    match item {
        Some(found) => exists|run: Seq<Draw<V::Item>>|
            run.len() <= attempts && #[trigger] accepted_after(
                inner,
                predicate,
                pre,
                run,
                found,
                post,
            ),
        None => exists|run: Seq<Draw<V::Item>>|
            run.len() == attempts + 1 && post == state_after(pre, run) && #[trigger] rejected_run(
                inner,
                predicate,
                pre,
                run,
            ),
    }
}

/// The description that draws from another until the predicate accepts the
/// item. It never gives up: from a state from which no item is ever accepted
/// a draw would not return, and `ready` leaves such states out.
pub struct ConstrainedVariant<C, V> {
    constraint: C,
    variant: V,
}

impl<C, V> ConstrainedVariant<C, V> {
    /// The description that is drawn from.
    pub closed spec fn inner(&self) -> V {
        self.variant
    }

    /// The predicate that an item has to meet.
    pub closed spec fn predicate(&self) -> C {
        self.constraint
    }

    /// The description that draws from `variant` until `constraint` accepts.
    pub(crate) fn new(variant: V, constraint: C) -> (made: Self)
        ensures
            made.inner() == variant,
            made.predicate() == constraint,
    {
        ConstrainedVariant { constraint, variant }
    }
}

impl<C, V: Variant> ConstrainedVariant<C, V> where C: Fn(&V::Item) -> bool {
    /// What `ready` says of this description. Verus unfolds `ready` only
    /// where the predicate's type is a type parameter; this lemma states it
    /// for a caller that holds a closure or a named function.
    pub proof fn lemma_ready(self, pre: Seq<u64>)
        ensures
            self.ready(pre) == constrain_ready(self.inner(), self.predicate(), pre),
    {
    }
}

impl<C, V: Variant> Variant for ConstrainedVariant<C, V> where C: Fn(&V::Item) -> bool {
    type Item = V::Item;

    /// After every run of rejected draws the inner description may draw again
    /// and the predicate may be asked, and some number bounds the length of
    /// all such runs.
    open spec fn ready(&self, pre: Seq<u64>) -> bool {
        constrain_ready(self.inner(), self.predicate(), pre)
    }

    /// `item` is the first accepted item of a run of draws from `pre`, and
    /// `post` is where the draw that gave it left the source.
    open spec fn yields(&self, pre: Seq<u64>, item: V::Item, post: Seq<u64>) -> bool {
        constrain_yields(self.inner(), self.predicate(), pre, item, post)
    }

    /// Draws until the predicate accepts, and returns the accepted item.
    fn next(&self, rng: &mut TreeRng) -> (item: V::Item) {
        let ghost pre = rng@;
        let ghost bound = choose|bound: nat|
            settles_within(self.inner(), self.predicate(), pre, bound);
        let ghost mut run: Seq<Draw<V::Item>> = Seq::empty();
        loop
            invariant
                pre == old(rng)@,
                self.ready(pre),
                settles_within(self.inner(), self.predicate(), pre, bound),
                rejected_run(self.inner(), self.predicate(), pre, run),
                rng@ == state_after(pre, run),
            decreases bound - run.len(),
        {
            let drawn = self.variant.next(rng);
            if (self.constraint)(&drawn) {
                proof {
                    assert(accepted_after(self.inner(), self.predicate(), pre, run, drawn, rng@));
                }
                return drawn;
            }
            proof {
                let last = Draw { item: drawn, after: rng@ };
                lemma_run_extends(self.inner(), pre, run, last);
                run = run.push(last);
            }
        }
    }
}

/// The description that draws from another until the predicate accepts the
/// item or the attempts are spent: the first draw, and up to `attempts` more.
pub struct TryConstrainedVariant<C, V> {
    constraint: C,
    variant: V,
    attempts: usize,
}

impl<C, V> TryConstrainedVariant<C, V> {
    /// The description that is drawn from.
    pub closed spec fn inner(&self) -> V {
        self.variant
    }

    /// The predicate that an item has to meet.
    pub closed spec fn predicate(&self) -> C {
        self.constraint
    }

    /// How many draws may follow the first.
    pub closed spec fn attempts(&self) -> usize {
        self.attempts
    }

    /// The description that draws from `variant` until `constraint` accepts,
    /// at most `attempts` times after the first draw.
    pub(crate) fn new(variant: V, constraint: C, attempts: usize) -> (made: Self)
        ensures
            made.inner() == variant,
            made.predicate() == constraint,
            made.attempts() == attempts,
    {
        TryConstrainedVariant { constraint, variant, attempts }
    }
}

impl<C, V: Variant> TryConstrainedVariant<C, V> where C: Fn(&V::Item) -> bool {
    /// What `ready` says of this description. Verus unfolds `ready` only
    /// where the predicate's type is a type parameter; this lemma states it
    /// for a caller that holds a closure or a named function.
    pub proof fn lemma_ready(self, pre: Seq<u64>)
        ensures
            self.ready(pre) == try_constrain_ready(
                self.inner(),
                self.predicate(),
                self.attempts(),
                pre,
            ),
    {
    }
}

impl<C, V: Variant> Variant for TryConstrainedVariant<C, V> where C: Fn(&V::Item) -> bool {
    type Item = Option<V::Item>;

    /// After every run of at most `attempts` rejected draws the inner
    /// description may draw again and the predicate may be asked.
    open spec fn ready(&self, pre: Seq<u64>) -> bool {
        try_constrain_ready(self.inner(), self.predicate(), self.attempts(), pre)
    }

    /// `Some(item)`: `item` is the first accepted item of a run of draws from
    /// `pre`, after at most `attempts` rejected ones, and `post` is where the
    /// draw that gave it left the source. `None`: the first draw and the
    /// `attempts` that followed were all rejected, and `post` is where the
    /// last of them left the source.
    open spec fn yields(&self, pre: Seq<u64>, item: Option<V::Item>, post: Seq<u64>) -> bool {
        try_constrain_yields(self.inner(), self.predicate(), self.attempts(), pre, item, post)
    }

    /// Draws until the predicate accepts or the attempts are spent.
    fn next(&self, rng: &mut TreeRng) -> (item: Option<V::Item>) {
        let ghost pre = rng@;
        let ghost mut run: Seq<Draw<V::Item>> = Seq::empty();
        let mut left: usize = self.attempts;
        loop
            invariant
                pre == old(rng)@,
                self.ready(pre),
                rejected_run(self.inner(), self.predicate(), pre, run),
                rng@ == state_after(pre, run),
                run.len() + left == self.attempts(),
            decreases left,
        {
            let drawn = self.variant.next(rng);
            if (self.constraint)(&drawn) {
                proof {
                    let found = Some(drawn);
                    assert(accepted_after(
                        self.inner(),
                        self.predicate(),
                        pre,
                        run,
                        found.unwrap(),
                        rng@,
                    ));
                }
                return Some(drawn);
            }
            proof {
                let last = Draw { item: drawn, after: rng@ };
                lemma_run_extends(self.inner(), pre, run, last);
                run = run.push(last);
                assert(rejected_run(self.inner(), self.predicate(), pre, run));
            }
            if left == 0 {
                return None;
            }
            left -= 1;
        }
    }
}

} // verus!
