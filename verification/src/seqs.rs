use vstd::prelude::*;

verus! {

/// The items of `items` that `wanted` holds of, in their order.
pub open spec fn kept<T>(items: Seq<T>, wanted: spec_fn(T) -> bool) -> Seq<T>
    decreases items.len(),
{
    if items.len() == 0 {
        Seq::empty()
    } else if wanted(items.last()) {
        kept(items.drop_last(), wanted).push(items.last())
    } else {
        kept(items.drop_last(), wanted)
    }
}

/// An item is kept exactly when it is in the list and wanted.
pub proof fn lemma_kept_contains<T>(items: Seq<T>, wanted: spec_fn(T) -> bool, x: T)
    ensures
        kept(items, wanted).contains(x) <==> items.contains(x) && wanted(x),
    decreases items.len(),
{
    if items.len() > 0 {
        let front = items.drop_last();
        let last = items.last();
        lemma_kept_contains(front, wanted, x);
        if kept(items, wanted).contains(x) {
            let i = choose|i: int|
                0 <= i < kept(items, wanted).len() && kept(items, wanted)[i] == x;
            if wanted(last) && i == kept(front, wanted).len() {
                assert(items[items.len() - 1] == x);
            } else {
                assert(kept(front, wanted)[i] == x);
                let j = choose|j: int| 0 <= j < front.len() && front[j] == x;
                assert(items[j] == x);
            }
        }
        if items.contains(x) && wanted(x) {
            let j = choose|j: int| 0 <= j < items.len() && items[j] == x;
            if j < front.len() {
                assert(front[j] == x);
                let i = choose|i: int|
                    0 <= i < kept(front, wanted).len() && kept(front, wanted)[i] == x;
                assert(kept(items, wanted)[i] == x);
            } else {
                assert(kept(items, wanted)[kept(front, wanted).len() as int] == x);
            }
        }
    }
}

/// What is kept of a list with one more item.
pub proof fn lemma_kept_push<T>(items: Seq<T>, wanted: spec_fn(T) -> bool, x: T)
    ensures
        kept(items.push(x), wanted) == if wanted(x) {
            kept(items, wanted).push(x)
        } else {
            kept(items, wanted)
        },
{
    assert(items.push(x).drop_last() =~= items);
}

/// A list of which every item is wanted is kept whole.
pub proof fn lemma_kept_all<T>(items: Seq<T>, wanted: spec_fn(T) -> bool)
    requires
        forall|i: int| 0 <= i < items.len() ==> wanted(#[trigger] items[i]),
    ensures
        kept(items, wanted) == items,
    decreases items.len(),
{
    if items.len() > 0 {
        let front = items.drop_last();
        assert forall|i: int| 0 <= i < front.len() implies wanted(#[trigger] front[i]) by {
            assert(front[i] == items[i]);
        }
        lemma_kept_all(front, wanted);
        assert(wanted(items[items.len() - 1]));
        assert(front.push(items.last()) =~= items);
    } else {
        assert(items =~= Seq::<T>::empty());
    }
}

} // verus!
