//! Lists without repetition.

use vstd::prelude::*;

verus! {

/// `list` and `item`, once.
pub open spec fn with_item<T>(list: Seq<T>, item: T) -> Seq<T> {
    if list.contains(item) {
        list
    } else {
        list.push(item)
    }
}

/// `list` and each of `items`, once.
pub open spec fn with_items<T>(list: Seq<T>, items: Seq<T>) -> Seq<T>
    decreases items.len(),
{
    if items.len() == 0 {
        list
    } else {
        with_item(with_items(list, items.drop_last()), items.last())
    }
}

/// Each of `items` once, in the order in which they first occur.
pub open spec fn distinct<T>(items: Seq<T>) -> Seq<T> {
    with_items(Seq::empty(), items)
}

pub(crate) proof fn lemma_with_items_concat<T>(list: Seq<T>, a: Seq<T>, b: Seq<T>)
    ensures
        with_items(list, a + b) == with_items(with_items(list, a), b),
    decreases b.len(),
{
    if b.len() == 0 {
        assert(a + b =~= a);
    } else {
        assert((a + b).drop_last() =~= a + b.drop_last());
        assert((a + b).last() == b.last());
        lemma_with_items_concat(list, a, b.drop_last());
    }
}

pub(crate) proof fn lemma_with_items<T>(list: Seq<T>, items: Seq<T>)
    requires
        list.no_duplicates(),
    ensures
        with_items(list, items).no_duplicates(),
        forall|x: T|
            #[trigger] with_items(list, items).contains(x) <==> list.contains(x)
                || items.contains(x),
    decreases items.len(),
{
    if items.len() > 0 {
        let head = items.drop_last();
        let d = with_items(list, head);
        let last = items.last();
        lemma_with_items(list, head);
        assert forall|x: T| #[trigger] with_items(list, items).contains(x) <==> list.contains(x)
            || items.contains(x) by {
            if items.contains(x) {
                let i = choose|i: int| 0 <= i < items.len() && items[i] == x;
                if i < head.len() {
                    assert(head[i] == x);
                    assert(head.contains(x));
                }
            }
            if head.contains(x) {
                let i = choose|i: int| 0 <= i < head.len() && head[i] == x;
                assert(items[i] == x);
            }
            assert(items[items.len() - 1] == last);
            if d.contains(x) {
                let i = choose|i: int| 0 <= i < d.len() && d[i] == x;
                assert(with_items(list, items)[i] == x);
            }
            if !d.contains(last) {
                assert(with_items(list, items)[d.len() as int] == last);
                if with_items(list, items).contains(x) && x != last {
                    let i = choose|i: int|
                        0 <= i < with_items(list, items).len() && with_items(list, items)[i] == x;
                    assert(d[i] == x);
                }
            }
        }
    }
}

/// A list without repetition holds what the given list holds, and nothing
/// twice.
pub proof fn law_distinct<T>(items: Seq<T>)
    ensures
        distinct(items).no_duplicates(),
        forall|x: T| #[trigger] distinct(items).contains(x) <==> items.contains(x),
{
    lemma_with_items(Seq::empty(), items);
}

/// A list without repetition keeps the order of the given list: of two of its
/// items, the one that comes first there comes first here.
pub proof fn law_distinct_in_order<T>(items: Seq<T>, i: int, j: int)
    requires
        0 <= i < j < distinct(items).len(),
    ensures
        exists|a: int|
            0 <= a < items.len() && #[trigger] items[a] == distinct(items)[i] && forall|b: int|
                0 <= b <= a ==> #[trigger] items[b] != distinct(items)[j],
    decreases items.len(),
{
    let head = items.drop_last();
    let before = distinct(head);
    let all = distinct(items);
    lemma_with_items(Seq::empty(), head);
    if j < before.len() {
        law_distinct_in_order(head, i, j);
        let a = choose|a: int|
            0 <= a < head.len() && #[trigger] head[a] == before[i] && forall|b: int|
                0 <= b <= a ==> #[trigger] head[b] != before[j];
        assert(items[a] == all[i]);
        assert forall|b: int| 0 <= b <= a implies #[trigger] items[b] != all[j] by {
            assert(head[b] != before[j]);
        }
    } else {
        assert(before.contains(before[i]));
        let a = choose|a: int| 0 <= a < head.len() && head[a] == before[i];
        assert(items[a] == all[i]);
        assert forall|b: int| 0 <= b <= a implies #[trigger] items[b] != all[j] by {
            assert(head.contains(head[b]));
        }
    }
}

} // verus!
