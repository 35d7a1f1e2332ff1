//! Searching and selecting in sequences.

use vstd::prelude::*;

verus! {

/// The least index of an item that is wanted, if there is one.
pub open spec fn first_index<T>(items: Seq<T>, wanted: spec_fn(T) -> bool) -> Option<int>
    decreases items.len(),
{
    if items.len() == 0 {
        None
    } else {
        match first_index(items.drop_last(), wanted) {
            Some(i) => Some(i),
            None => if wanted(items.last()) {
                Some(items.len() - 1)
            } else {
                None
            },
        }
    }
}

/// `i` is the least index of an item that is wanted.
pub open spec fn is_first<T>(items: Seq<T>, wanted: spec_fn(T) -> bool, i: int) -> bool {
    &&& 0 <= i < items.len()
    &&& wanted(items[i])
    &&& forall|j: int| 0 <= j < i ==> !wanted(#[trigger] items[j])
}

/// No item is wanted.
pub open spec fn none_wanted<T>(items: Seq<T>, wanted: spec_fn(T) -> bool) -> bool {
    forall|j: int| 0 <= j < items.len() ==> !wanted(#[trigger] items[j])
}

/// `first_index` finds the least index of a wanted item, and finds nothing
/// only where no item is wanted.
pub proof fn lemma_first_index<T>(items: Seq<T>, wanted: spec_fn(T) -> bool)
    ensures
        match first_index(items, wanted) {
            Some(i) => is_first(items, wanted, i),
            None => none_wanted(items, wanted),
        },
    decreases items.len(),
{
    if items.len() > 0 {
        lemma_first_index(items.drop_last(), wanted);
        let front = items.drop_last();
        assert(forall|j: int| 0 <= j < front.len() ==> front[j] == items[j]);
        match first_index(front, wanted) {
            Some(i) => {
                assert(is_first(front, wanted, i));
                assert(forall|j: int| 0 <= j < i ==> !wanted(#[trigger] items[j])) by {
                    assert forall|j: int| 0 <= j < i implies !wanted(#[trigger] items[j]) by {
                        assert(front[j] == items[j]);
                    }
                }
            },
            None => {
                assert(none_wanted(front, wanted));
                assert forall|j: int| 0 <= j < items.len() - 1 implies !wanted(
                    #[trigger] items[j],
                ) by {
                    assert(front[j] == items[j]);
                }
            },
        }
    }
}

/// An index that is the least of a wanted item is what `first_index` finds.
pub proof fn lemma_first_index_is<T>(items: Seq<T>, wanted: spec_fn(T) -> bool, i: int)
    requires
        is_first(items, wanted, i),
    ensures
        first_index(items, wanted) == Some(i),
{
    lemma_first_index(items, wanted);
    match first_index(items, wanted) {
        Some(k) => {
            assert(is_first(items, wanted, k));
            if k < i {
                assert(!wanted(items[k]));
            }
            if i < k {
                assert(!wanted(items[i]));
            }
        },
        None => {
            assert(!wanted(items[i]));
        },
    }
}

/// Where no item is wanted, `first_index` finds nothing.
pub proof fn lemma_first_index_none<T>(items: Seq<T>, wanted: spec_fn(T) -> bool)
    requires
        none_wanted(items, wanted),
    ensures
        first_index(items, wanted) is None,
{
    lemma_first_index(items, wanted);
    match first_index(items, wanted) {
        Some(k) => {
            assert(!wanted(items[k]));
        },
        None => {},
    }
}

/// What `shown` makes of the items that are kept, in their order.
pub open spec fn select<T, U>(items: Seq<T>, keep: spec_fn(T) -> bool, shown: spec_fn(T) -> U) -> Seq<U>
    decreases items.len(),
{
    if items.len() == 0 {
        Seq::empty()
    } else {
        let rest = select(items.drop_last(), keep, shown);
        if keep(items.last()) {
            rest.push(shown(items.last()))
        } else {
            rest
        }
    }
}

/// Selecting from one item more: the item's image joins what was selected
/// where the item is kept.
pub proof fn lemma_select_step<T, U>(
    items: Seq<T>,
    keep: spec_fn(T) -> bool,
    shown: spec_fn(T) -> U,
    n: int,
)
    requires
        0 <= n < items.len(),
    ensures
        select(items.take(n + 1), keep, shown) == if keep(items[n]) {
            select(items.take(n), keep, shown).push(shown(items[n]))
        } else {
            select(items.take(n), keep, shown)
        },
{
    assert(items.take(n + 1).drop_last() =~= items.take(n));
}

/// What is selected holds exactly the images of the kept items.
pub proof fn lemma_select_contains<T, U>(
    items: Seq<T>,
    keep: spec_fn(T) -> bool,
    shown: spec_fn(T) -> U,
    image: U,
)
    ensures
        select(items, keep, shown).contains(image) <==> exists|i: int|
            0 <= i < items.len() && keep(#[trigger] items[i]) && shown(items[i]) == image,
    decreases items.len(),
{
    let chosen = select(items, keep, shown);
    if items.len() > 0 {
        let front = items.drop_last();
        let rest = select(front, keep, shown);
        lemma_select_contains(front, keep, shown, image);
        assert(forall|j: int| 0 <= j < front.len() ==> front[j] == items[j]);
        if chosen.contains(image) {
            let k = choose|k: int| 0 <= k < chosen.len() && chosen[k] == image;
            if keep(items.last()) && k == rest.len() {
                assert(keep(items[items.len() - 1]) && shown(items[items.len() - 1]) == image);
            } else {
                assert(rest[k] == image);
                assert(rest.contains(image));
                let i = choose|i: int|
                    0 <= i < front.len() && keep(#[trigger] front[i]) && shown(front[i]) == image;
                assert(keep(items[i]) && shown(items[i]) == image);
            }
        }
        if exists|i: int|
            0 <= i < items.len() && keep(#[trigger] items[i]) && shown(items[i]) == image {
            let i = choose|i: int|
                0 <= i < items.len() && keep(#[trigger] items[i]) && shown(items[i]) == image;
            if i == items.len() - 1 {
                assert(chosen[rest.len() as int] == image);
            } else {
                assert(keep(front[i]) && shown(front[i]) == image);
                assert(rest.contains(image));
                let k = choose|k: int| 0 <= k < rest.len() && rest[k] == image;
                assert(chosen[k] == image);
            }
        }
    }
}

} // verus!
