//! Picking items out of a sequence, in order.

use vstd::prelude::*;

verus! {

/// The views of the items of a sequence.
pub open spec fn views<T: View>(items: Seq<T>) -> Seq<T::V> {
    items.map_values(|t: T| t@)
}

/// Of the items for which `keep` holds, in their order, what `f` makes of
/// each.
pub open spec fn select<A, B>(items: Seq<A>, keep: spec_fn(A) -> bool, f: spec_fn(A) -> B) -> Seq<
    B,
> {
    items.filter(keep).map_values(f)
}

/// The view of a sequence with one more item.
pub proof fn lemma_views_push<T: View>(items: Seq<T>, last: T)
    ensures
        views(items.push(last)) == views(items).push(last@),
{
    items.lemma_push_map_commute(|t: T| t@, last);
}

/// Nothing is selected from the empty sequence.
pub proof fn lemma_select_none<A, B>(items: Seq<A>, keep: spec_fn(A) -> bool, f: spec_fn(A) -> B)
    requires
        items.len() == 0,
    ensures
        select(items, keep, f) == Seq::<B>::empty(),
{
    items.lemma_filter_len(keep);
}

/// Taking one more item extends the selection by what `f` makes of it if
/// `keep` holds of it, and leaves the selection unchanged otherwise.
pub proof fn lemma_select_step<A, B>(
    items: Seq<A>,
    keep: spec_fn(A) -> bool,
    f: spec_fn(A) -> B,
    i: int,
)
    requires
        0 <= i < items.len(),
    ensures
        select(items.take(i + 1), keep, f) == if keep(items[i]) {
            select(items.take(i), keep, f).push(f(items[i]))
        } else {
            select(items.take(i), keep, f)
        },
{
    let before = items.take(i);
    assert(items.take(i + 1) == before.push(items[i]));
    before.lemma_filter_push(items[i], keep);
    if keep(items[i]) {
        before.filter(keep).lemma_push_map_commute(f, items[i]);
    }
}

/// A selection and the selection of the items it leaves out have together
/// as many items as the sequence.
pub proof fn lemma_select_len<A, B, C>(
    items: Seq<A>,
    keep: spec_fn(A) -> bool,
    f: spec_fn(A) -> B,
    g: spec_fn(A) -> C,
)
    ensures
        select(items, keep, f).len() + select(items, |a: A| !keep(a), g).len() == items.len(),
    decreases items.len(),
{
    let other = |a: A| !keep(a);
    if items.len() == 0 {
        lemma_select_none(items, keep, f);
        lemma_select_none(items, other, g);
    } else {
        let i = items.len() - 1;
        lemma_select_len(items.take(i), keep, f, g);
        lemma_select_step(items, keep, f, i);
        lemma_select_step(items, other, g, i);
        assert(items.take(i + 1) == items);
    }
}

} // verus!
