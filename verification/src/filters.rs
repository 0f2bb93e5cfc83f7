//! Lemmas on filtered sequences.

use vstd::prelude::*;

verus! {

/// A filter that no item passes keeps nothing.
pub proof fn lemma_filter_keeps_none<A>(items: Seq<A>, keep: spec_fn(A) -> bool)
    requires
        forall|i: int| 0 <= i < items.len() ==> !keep(#[trigger] items[i]),
    ensures
        items.filter(keep) == Seq::<A>::empty(),
    decreases items.len(),
{
    reveal(Seq::filter);
    if items.len() > 0 {
        lemma_filter_keeps_none(items.drop_last(), keep);
    }
}

/// A filter that every item passes keeps everything.
pub proof fn lemma_filter_keeps_all<A>(items: Seq<A>, keep: spec_fn(A) -> bool)
    requires
        forall|i: int| 0 <= i < items.len() ==> keep(#[trigger] items[i]),
    ensures
        items.filter(keep) == items,
    decreases items.len(),
{
    reveal(Seq::filter);
    if items.len() > 0 {
        lemma_filter_keeps_all(items.drop_last(), keep);
        assert(items.drop_last().push(items.last()) =~= items);
    }
}

/// Two filters that agree on every item keep the same items.
pub proof fn lemma_filter_by_equal_tests<A>(
    items: Seq<A>,
    keep: spec_fn(A) -> bool,
    other: spec_fn(A) -> bool,
)
    requires
        forall|i: int| 0 <= i < items.len() ==> keep(#[trigger] items[i]) == other(items[i]),
    ensures
        items.filter(keep) == items.filter(other),
    decreases items.len(),
{
    reveal(Seq::filter);
    if items.len() > 0 {
        lemma_filter_by_equal_tests(items.drop_last(), keep, other);
    }
}

/// A filter that exactly one item passes keeps that item alone.
pub proof fn lemma_filter_keeps_one<A>(items: Seq<A>, keep: spec_fn(A) -> bool, kept: int)
    requires
        0 <= kept < items.len(),
        forall|i: int| 0 <= i < items.len() ==> keep(#[trigger] items[i]) == (i == kept),
    ensures
        items.filter(keep) == seq![items[kept]],
    decreases items.len(),
{
    reveal(Seq::filter);
    if kept == items.len() - 1 {
        lemma_filter_keeps_none(items.drop_last(), keep);
    } else {
        lemma_filter_keeps_one(items.drop_last(), keep, kept);
    }
}

/// Every item that a filter keeps is an item of the list.
pub proof fn lemma_kept_item_is_an_item<A>(items: Seq<A>, keep: spec_fn(A) -> bool, kept: int)
    requires
        0 <= kept < items.filter(keep).len(),
    ensures
        exists|k: int| 0 <= k < items.len() && items[k] == items.filter(keep)[kept],
    decreases items.len(),
{
    reveal(Seq::filter);
    if items.len() > 0 {
        let front = items.drop_last();
        if kept < front.filter(keep).len() {
            lemma_kept_item_is_an_item(front, keep, kept);
            let k = choose|k: int| 0 <= k < front.len() && front[k] == front.filter(keep)[kept];
            assert(items[k] == items.filter(keep)[kept]);
        } else {
            assert(items[items.len() - 1] == items.filter(keep)[kept]);
        }
    }
}

/// Whether every item of a list of positions is greater than the items
/// before it.
pub open spec fn rising(positions: Seq<usize>) -> bool {
    forall|i: int, j: int|
        0 <= i < j < positions.len() ==> (#[trigger] positions[i]) < (#[trigger] positions[j])
}

/// What a filter keeps of a rising list is a rising list.
pub proof fn lemma_filter_keeps_rising(positions: Seq<usize>, keep: spec_fn(usize) -> bool)
    requires
        rising(positions),
    ensures
        rising(positions.filter(keep)),
    decreases positions.len(),
{
    reveal(Seq::filter);
    if positions.len() > 0 {
        let front = positions.drop_last();
        assert forall|i: int, j: int| 0 <= i < j < front.len() implies (#[trigger] front[i]) < (
        #[trigger] front[j]) by {
            assert(front[i] == positions[i] && front[j] == positions[j]);
        }
        lemma_filter_keeps_rising(front, keep);
        let kept = positions.filter(keep);
        let before = front.filter(keep);
        assert forall|i: int, j: int| 0 <= i < j < kept.len() implies (#[trigger] kept[i]) < (
        #[trigger] kept[j]) by {
            if j < before.len() {
                assert(kept[i] == before[i] && kept[j] == before[j]);
            } else {
                lemma_kept_item_is_an_item(front, keep, i);
                let k = choose|k: int| 0 <= k < front.len() && front[k] == before[i];
                assert(positions[k] < positions[positions.len() - 1]);
            }
        }
    }
}

} // verus!
