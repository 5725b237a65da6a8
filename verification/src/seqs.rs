//! Facts about filtered sequences.

use vstd::prelude::*;

verus! {

/// What a filter keeps comes from the sequence, in its order.
pub proof fn lemma_filter_source<A>(items: Seq<A>, keep: spec_fn(A) -> bool, k: int) -> (i: int)
    requires
        0 <= k < items.filter(keep).len(),
    ensures
        k <= i < items.len(),
        items[i] == items.filter(keep)[k],
        keep(items[i]),
    decreases items.len(),
{
    reveal(Seq::filter);
    let rest = items.drop_last();
    if k < rest.filter(keep).len() {
        lemma_filter_source(rest, keep, k)
    } else {
        broadcast use Seq::lemma_filter_len;

        items.len() - 1
    }
}

/// Two kept items stand in the order that they had.
pub proof fn lemma_filter_order<A>(
    items: Seq<A>,
    keep: spec_fn(A) -> bool,
    k: int,
    m: int,
) -> (at: (int, int))
    requires
        0 <= k < m < items.filter(keep).len(),
    ensures
        0 <= at.0 < at.1 < items.len(),
        items[at.0] == items.filter(keep)[k],
        items[at.1] == items.filter(keep)[m],
    decreases items.len(),
{
    reveal(Seq::filter);
    let rest = items.drop_last();
    if m < rest.filter(keep).len() {
        lemma_filter_order(rest, keep, k, m)
    } else {
        (lemma_filter_source(rest, keep, k), items.len() - 1)
    }
}

/// A filter keeps exactly the items that pass it.
pub proof fn lemma_filter_members<A>(items: Seq<A>, keep: spec_fn(A) -> bool, item: A)
    ensures
        items.filter(keep).contains(item) <==> items.contains(item) && keep(item),
{
    broadcast use Seq::lemma_filter_contains;

    if items.filter(keep).contains(item) {
        let k = choose|k: int| 0 <= k < items.filter(keep).len() && items.filter(keep)[k] == item;
        let i = lemma_filter_source(items, keep, k);
    }
    if items.contains(item) && keep(item) {
        let i = choose|i: int| 0 <= i < items.len() && items[i] == item;
        assert(items.filter(keep).contains(items[i]));
    }
}

} // verus!
