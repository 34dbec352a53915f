//! Lists that are built item by item.

use vstd::prelude::*;

verus! {

/// The items that are kept, in their order.
pub open spec fn kept<T>(items: Seq<T>, keep: spec_fn(T) -> bool) -> Seq<T>
    decreases items.len(),
{
    if items.len() == 0 {
        Seq::empty()
    } else if keep(items.last()) {
        kept(items.drop_last(), keep).push(items.last())
    } else {
        kept(items.drop_last(), keep)
    }
}

/// One more item is kept or not.
pub proof fn lemma_kept_step<T>(items: Seq<T>, keep: spec_fn(T) -> bool, i: int)
    requires
        0 <= i < items.len(),
    ensures
        kept(items.take(i + 1), keep) == (if keep(items[i]) {
            kept(items.take(i), keep).push(items[i])
        } else {
            kept(items.take(i), keep)
        }),
{
    assert(items.take(i + 1).drop_last() == items.take(i));
    assert(items.take(i + 1).last() == items[i]);
}

/// Exactly the items that are to be kept are in the result.
pub proof fn lemma_kept_items<T>(items: Seq<T>, keep: spec_fn(T) -> bool)
    ensures
        forall|i: int|
            0 <= i < kept(items, keep).len() ==> keep(#[trigger] kept(items, keep)[i])
                && items.contains(kept(items, keep)[i]),
        forall|i: int|
            0 <= i < items.len() && keep(#[trigger] items[i]) ==> kept(items, keep).contains(
                items[i],
            ),
        kept(items, keep).len() <= items.len(),
    decreases items.len(),
{
    if items.len() > 0 {
        let head = items.drop_last();
        lemma_kept_items(head, keep);
        let out = kept(items, keep);
        let before = kept(head, keep);
        assert forall|i: int| 0 <= i < out.len() implies keep(#[trigger] out[i]) && items.contains(
            out[i],
        ) by {
            if i < before.len() {
                assert(out[i] == before[i]);
                let j = choose|j: int| 0 <= j < head.len() && head[j] == before[i];
                assert(items[j] == before[i]);
            } else {
                assert(items[items.len() - 1] == out[i]);
            }
        }
        assert forall|i: int| 0 <= i < items.len() && keep(#[trigger] items[i]) implies out.contains(
            items[i],
        ) by {
            if i < head.len() {
                assert(head[i] == items[i]);
                let j = choose|j: int| 0 <= j < before.len() && before[j] == items[i];
                assert(out[j] == items[i]);
            } else {
                assert(out[out.len() - 1] == items[i]);
            }
        }
    }
}

/// The texts of a list of strings.
pub open spec fn texts(strings: Seq<String>) -> Seq<Seq<char>> {
    Seq::new(strings.len(), |i: int| strings[i]@)
}

/// The items that are kept of two lists are those of the first and then those of the second; of a single item
/// it is kept or not.
pub proof fn law_kept_items_keep_their_order<T>(
    a: Seq<T>,
    b: Seq<T>,
    item: T,
    keep: spec_fn(T) -> bool,
)
    ensures
        kept(a + b, keep) == kept(a, keep) + kept(b, keep),
        keep(item) ==> kept(seq![item], keep) == seq![item],
        !keep(item) ==> kept(seq![item], keep) == Seq::<T>::empty(),
    decreases b.len(),
{
    let one = seq![item];
    assert(one.drop_last() =~= Seq::empty());
    assert(kept(one.drop_last(), keep) =~= Seq::empty());
    assert(Seq::<T>::empty().push(item) =~= one);
    if b.len() == 0 {
        assert(a + b =~= a);
        assert(kept(a, keep) + kept(b, keep) =~= kept(a, keep));
    } else {
        assert((a + b).drop_last() =~= a + b.drop_last());
        law_kept_items_keep_their_order(a, b.drop_last(), item, keep);
        assert(kept(a + b, keep) =~= kept(a, keep) + kept(b, keep));
    }
}

} // verus!
