//! Runs of consecutive draws, by which the retrying descriptions are
//! specified.

use crate::variant::Variant;
use vstd::prelude::*;

verus! {

/// One draw of a run: the item drawn and the state in which the draw left the
/// source.
pub struct Draw<T> {
    /// The item drawn.
    pub item: T,
    /// The state of the source after the draw.
    pub after: Seq<u64>,
}

/// The state of the source before draw `i` of a run begun in state `pre`.
pub open spec fn state_before<T>(pre: Seq<u64>, run: Seq<Draw<T>>, i: int) -> Seq<u64> {
    if i <= 0 {
        pre
    } else {
        run[i - 1].after
    }
}

/// The state in which a run begun in state `pre` leaves the source.
pub open spec fn state_after<T>(pre: Seq<u64>, run: Seq<Draw<T>>) -> Seq<u64> {
    state_before(pre, run, run.len() as int)
}

/// Whether `run` is a sequence of consecutive draws of `variant` on a source
/// that starts in state `pre`: each draw begins where the one before it ended.
pub open spec fn is_run<V: Variant>(variant: V, pre: Seq<u64>, run: Seq<Draw<V::Item>>) -> bool {
    forall|i: int|
        0 <= i < run.len() ==> variant.yields(
            #[trigger] state_before(pre, run, i),
            run[i].item,
            run[i].after,
        )
}

/// A run stays a run when the draw that follows it is appended.
pub proof fn lemma_run_extends<V: Variant>(
    variant: V,
    pre: Seq<u64>,
    run: Seq<Draw<V::Item>>,
    next: Draw<V::Item>,
)
    requires
        is_run(variant, pre, run),
        variant.yields(state_after(pre, run), next.item, next.after),
    ensures
        is_run(variant, pre, run.push(next)),
        state_after(pre, run.push(next)) == next.after,
{
    let longer = run.push(next);
    assert forall|i: int| 0 <= i < longer.len() implies variant.yields(
        #[trigger] state_before(pre, longer, i),
        longer[i].item,
        longer[i].after,
    ) by {
        if i < run.len() {
            assert(state_before(pre, longer, i) == state_before(pre, run, i));
        }
    }
}

} // verus!
