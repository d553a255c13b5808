//! Stable sorting.

use vstd::prelude::*;

verus! {

/// Values that are sorted by a key.
pub trait Sortable: View + Sized {
    /// `a` has to stand before `b`.
    spec fn before(a: Self::V, b: Self::V) -> bool;

    /// Tells whether `self` has to stand before `other`.
    fn comes_before(&self, other: &Self) -> (before: bool)
        ensures
            before == Self::before(self@, other@),
    ;
}

/// The views of a list.
pub open spec fn views<T: View>(list: Seq<T>) -> Seq<T::V> {
    Seq::new(list.len(), |i: int| list[i]@)
}

/// The list with one more item, behind all the items that it does not have to stand before.
pub open spec fn inserted_last<T: Sortable>(list: Seq<T::V>, item: T::V) -> Seq<T::V>
    decreases list.len(),
{
    if list.len() > 0 && T::before(item, list.last()) {
        inserted_last::<T>(list.drop_last(), item).push(list.last())
    } else {
        list.push(item)
    }
}

/// The list in order. Items of which neither has to stand before the other keep their places.
pub open spec fn sorted<T: Sortable>(list: Seq<T::V>) -> Seq<T::V>
    decreases list.len(),
{
    if list.len() == 0 {
        list
    } else {
        inserted_last::<T>(sorted::<T>(list.drop_last()), list.last())
    }
}

proof fn lemma_inserted_at<T: Sortable>(list: Seq<T::V>, item: T::V, p: int)
    requires
        0 <= p <= list.len(),
        p > 0 ==> !T::before(item, list[p - 1]),
        forall|j: int| p <= j < list.len() ==> T::before(item, #[trigger] list[j]),
    ensures
        inserted_last::<T>(list, item) == list.insert(p, item),
    decreases list.len(),
{
    if p < list.len() {
        assert(T::before(item, list[list.len() - 1]));
        lemma_inserted_at::<T>(list.drop_last(), item, p);
        assert(list.drop_last().insert(p, item).push(list.last()) =~= list.insert(p, item));
    } else {
        assert(list.push(item) =~= list.insert(p, item));
    }
}

/// Sorts `items`.
pub fn sort<T: Sortable>(items: &mut Vec<T>)
    ensures
        views(final(items)@) == sorted::<T>(views(old(items)@)),
{
    let ghost all = views(items@);
    let len = items.len();
    let mut i: usize = 0;
    assert(views(items@).take(0) =~= all.take(0));
    assert(all.skip(0) =~= all);
    while i < len
        invariant
            i <= len,
            len == items@.len(),
            all.len() == len,
            views(items@).take(i as int) == sorted::<T>(all.take(i as int)),
            forall|j: int| i <= j < len ==> (#[trigger] items@[j])@ == all[j],
        decreases len - i,
    {
        let ghost before = items@;
        let item = items.remove(i);
        let ghost prefix = views(before).take(i as int);
        let ghost removed = items@;
        assert(item@ == all[i as int]);
        let mut p: usize = i;
        while p > 0 && item.comes_before(&items[p - 1])
            invariant
                0 <= p <= i,
                i < len,
                items@ == removed,
                removed.len() == len - 1,
                prefix.len() == i,
                forall|j: int| 0 <= j < i ==> prefix[j] == (#[trigger] removed[j])@,
                forall|j: int| p <= j < i ==> T::before(item@, #[trigger] prefix[j]),
            decreases p,
        {
            assert(prefix[p - 1] == removed[p - 1]@);
            p -= 1;
        }
        proof {
            if p > 0 {
                assert(prefix[p - 1] == removed[p - 1]@);
            }
            lemma_inserted_at::<T>(prefix, item@, p as int);
            assert(all.take(i + 1).drop_last() =~= all.take(i as int));
            assert(all.take(i + 1).last() == item@);
        }
        items.insert(p, item);
        assert(views(items@).take(i + 1) =~= prefix.insert(p as int, all[i as int]));
        i += 1;
    }
    assert(views(items@).take(len as int) =~= views(items@));
    assert(all.take(len as int) =~= all);
}

/// The key puts the items of a list into a strict total order.
pub open spec fn totally_ordered<T: Sortable>(list: Seq<T::V>) -> bool {
    &&& forall|a: T::V| list.contains(a) ==> !#[trigger] T::before(a, a)
    &&& forall|a: T::V, b: T::V|
        list.contains(a) && list.contains(b) ==> a == b || #[trigger] T::before(a, b) || T::before(
            b,
            a,
        )
    &&& forall|a: T::V, b: T::V, c: T::V|
        list.contains(a) && list.contains(b) && list.contains(c) && #[trigger] T::before(a, b)
            && #[trigger] T::before(b, c) ==> T::before(a, c)
}

/// No item stands behind one that it has to stand before.
pub open spec fn in_order<T: Sortable>(list: Seq<T::V>) -> bool {
    forall|i: int, j: int|
        0 <= i < j < list.len() ==> !T::before(#[trigger] list[j], #[trigger] list[i])
}

proof fn lemma_inserted_multiset<T: Sortable>(list: Seq<T::V>, item: T::V)
    ensures
        inserted_last::<T>(list, item).to_multiset() == list.to_multiset().insert(item),
    decreases list.len(),
{
    broadcast use vstd::seq_lib::group_to_multiset_ensures;

    if list.len() > 0 && T::before(item, list.last()) {
        lemma_inserted_multiset::<T>(list.drop_last(), item);
        assert(list.drop_last().push(list.last()) =~= list);
        let rest = list.drop_last().to_multiset();
        assert(rest.insert(item).insert(list.last()) =~= rest.insert(list.last()).insert(item));
    }
}

/// Sorting keeps all the items.
pub proof fn sorting_keeps_items<T: Sortable>(list: Seq<T::V>)
    ensures
        sorted::<T>(list).to_multiset() == list.to_multiset(),
    decreases list.len(),
{
    broadcast use vstd::seq_lib::group_to_multiset_ensures;

    if list.len() > 0 {
        sorting_keeps_items::<T>(list.drop_last());
        lemma_inserted_multiset::<T>(sorted::<T>(list.drop_last()), list.last());
        assert(list.drop_last().push(list.last()) =~= list);
    }
}

proof fn lemma_same_items<A>(a: Seq<A>, b: Seq<A>, item: A)
    requires
        a.to_multiset() == b.to_multiset(),
    ensures
        a.contains(item) <==> b.contains(item),
{
    broadcast use vstd::seq_lib::group_to_multiset_ensures;

    assert(a.contains(item) <==> a.to_multiset().count(item) > 0);
    assert(b.contains(item) <==> b.to_multiset().count(item) > 0);
}

proof fn lemma_inserted_in_order<T: Sortable>(all: Seq<T::V>, list: Seq<T::V>, item: T::V)
    requires
        totally_ordered::<T>(all),
        all.contains(item),
        forall|i: int| 0 <= i < list.len() ==> all.contains(#[trigger] list[i]),
        in_order::<T>(list),
    ensures
        in_order::<T>(inserted_last::<T>(list, item)),
        forall|i: int|
            0 <= i < inserted_last::<T>(list, item).len() ==> #[trigger] inserted_last::<T>(
                list,
                item,
            )[i] == item || list.contains(inserted_last::<T>(list, item)[i]),
    decreases list.len(),
{
    let result = inserted_last::<T>(list, item);
    if list.len() > 0 && T::before(item, list.last()) {
        let rest = list.drop_last();
        let last = list.last();
        assert forall|i: int| 0 <= i < rest.len() implies all.contains(#[trigger] rest[i]) by {
            assert(rest[i] == list[i]);
        }
        assert(in_order::<T>(rest)) by {
            assert forall|i: int, j: int| 0 <= i < j < rest.len() implies !T::before(
                #[trigger] rest[j],
                #[trigger] rest[i],
            ) by {
                assert(rest[i] == list[i] && rest[j] == list[j]);
            }
        }
        lemma_inserted_in_order::<T>(all, rest, item);
        let inner = inserted_last::<T>(rest, item);
        assert(all.contains(list[list.len() - 1]));
        assert forall|i: int, j: int| 0 <= i < j < result.len() implies !T::before(
            #[trigger] result[j],
            #[trigger] result[i],
        ) by {
            assert(result[i] == inner[i]);
            if j < inner.len() {
                assert(result[j] == inner[j]);
            } else {
                assert(result[j] == last);
                if inner[i] == item {
                    if T::before(last, item) {
                        assert(T::before(item, item));
                    }
                } else {
                    assert(rest.contains(inner[i]));
                    let k = choose|k: int| 0 <= k < rest.len() && rest[k] == inner[i];
                    assert(list[k] == inner[i]);
                    assert(!T::before(list[list.len() - 1], list[k]));
                }
            }
        }
        assert forall|i: int| 0 <= i < result.len() implies #[trigger] result[i] == item
            || list.contains(result[i]) by {
            if i < inner.len() {
                assert(result[i] == inner[i]);
                if inner[i] != item {
                    let k = choose|k: int| 0 <= k < rest.len() && rest[k] == inner[i];
                    assert(list[k] == inner[i]);
                }
            } else {
                assert(list[list.len() - 1] == result[i]);
            }
        }
    } else {
        assert forall|i: int, j: int| 0 <= i < j < result.len() implies !T::before(
            #[trigger] result[j],
            #[trigger] result[i],
        ) by {
            assert(result[i] == list[i]);
            if j < list.len() {
                assert(result[j] == list[j]);
            } else {
                let last = list.last();
                assert(all.contains(list[list.len() - 1]) && all.contains(list[i]));
                assert(!T::before(item, last));
                if T::before(item, list[i]) {
                    // Whatever stands last comes behind `list[i]`, and so behind `item`.
                    if i < list.len() - 1 {
                        assert(!T::before(list[list.len() - 1], list[i]));
                        if list[i] != last {
                            assert(T::before(list[i], last));
                            assert(T::before(item, last));
                        }
                    }
                }
            }
        }
        assert forall|i: int| 0 <= i < result.len() implies #[trigger] result[i] == item
            || list.contains(result[i]) by {
            if i < list.len() {
                assert(list[i] == result[i]);
            }
        }
    }
}

/// Sorting puts the items into order.
pub proof fn sorting_puts_into_order<T: Sortable>(list: Seq<T::V>)
    requires
        totally_ordered::<T>(list),
    ensures
        in_order::<T>(sorted::<T>(list)),
{
    lemma_sorted_in_order::<T>(list, list);
}

proof fn lemma_sorted_in_order<T: Sortable>(all: Seq<T::V>, list: Seq<T::V>)
    requires
        totally_ordered::<T>(all),
        forall|i: int| 0 <= i < list.len() ==> all.contains(#[trigger] list[i]),
    ensures
        in_order::<T>(sorted::<T>(list)),
    decreases list.len(),
{
    if list.len() > 0 {
        let rest = list.drop_last();
        assert forall|i: int| 0 <= i < rest.len() implies all.contains(#[trigger] rest[i]) by {
            assert(rest[i] == list[i]);
        }
        lemma_sorted_in_order::<T>(all, rest);
        sorting_keeps_items::<T>(rest);
        let done = sorted::<T>(rest);
        assert forall|i: int| 0 <= i < done.len() implies all.contains(#[trigger] done[i]) by {
            lemma_same_items(done, rest, done[i]);
            let k = choose|k: int| 0 <= k < rest.len() && rest[k] == done[i];
            assert(all.contains(rest[k]));
        }
        assert(all.contains(list[list.len() - 1]));
        lemma_inserted_in_order::<T>(all, done, list.last());
    }
}

proof fn lemma_unique_order<T: Sortable>(all: Seq<T::V>, a: Seq<T::V>, b: Seq<T::V>)
    requires
        totally_ordered::<T>(all),
        forall|i: int| 0 <= i < a.len() ==> all.contains(#[trigger] a[i]),
        in_order::<T>(a),
        in_order::<T>(b),
        a.to_multiset() == b.to_multiset(),
    ensures
        a == b,
    decreases a.len(),
{
    broadcast use vstd::seq_lib::group_to_multiset_ensures;

    assert(a.len() == a.to_multiset().len() && b.len() == b.to_multiset().len());
    if a.len() > 0 {
        let n = a.len();
        assert(a.contains(a[n - 1]) && b.contains(b[n - 1]));
        lemma_same_items(a, b, a.last());
        lemma_same_items(a, b, b.last());
        let i = choose|i: int| 0 <= i < n && b[i] == a.last();
        let j = choose|j: int| 0 <= j < n && a[j] == b.last();
        assert(all.contains(a[n - 1]) && all.contains(a[j]));
        if i < n - 1 {
            assert(!T::before(b[n - 1], b[i]));
        }
        if j < n - 1 {
            assert(!T::before(a[n - 1], a[j]));
        }
        assert(a.last() == b.last());
        assert(a.remove(n - 1) =~= a.drop_last());
        assert(b.remove(n - 1) =~= b.drop_last());
        assert(a.remove(n - 1).to_multiset() == a.to_multiset().remove(a[n - 1]));
        assert(b.remove(n - 1).to_multiset() == b.to_multiset().remove(b[n - 1]));
        assert forall|k: int| 0 <= k < a.drop_last().len() implies all.contains(
            #[trigger] a.drop_last()[k],
        ) by {
            assert(a.drop_last()[k] == a[k]);
        }
        assert forall|k: int, l: int| 0 <= k < l < n - 1 implies !T::before(
            #[trigger] a.drop_last()[l],
            #[trigger] a.drop_last()[k],
        ) by {
            assert(!T::before(a[l], a[k]));
        }
        assert forall|k: int, l: int| 0 <= k < l < n - 1 implies !T::before(
            #[trigger] b.drop_last()[l],
            #[trigger] b.drop_last()[k],
        ) by {
            assert(!T::before(b[l], b[k]));
        }
        lemma_unique_order::<T>(all, a.drop_last(), b.drop_last());
        assert(a =~= a.drop_last().push(a.last()));
        assert(b =~= b.drop_last().push(b.last()));
    } else {
        assert(a =~= b);
    }
}

/// The order in which the items come does not matter where the key tells them apart.
pub proof fn sorting_forgets_order<T: Sortable>(a: Seq<T::V>, b: Seq<T::V>)
    requires
        totally_ordered::<T>(a),
        a.to_multiset() == b.to_multiset(),
    ensures
        sorted::<T>(a) == sorted::<T>(b),
{
    sorting_keeps_items::<T>(a);
    sorting_keeps_items::<T>(b);
    lemma_sorted_in_order::<T>(a, a);
    assert forall|i: int| 0 <= i < b.len() implies a.contains(#[trigger] b[i]) by {
        lemma_same_items(a, b, b[i]);
    }
    lemma_sorted_in_order::<T>(a, b);
    let done = sorted::<T>(a);
    assert forall|i: int| 0 <= i < done.len() implies a.contains(#[trigger] done[i]) by {
        lemma_same_items(done, a, done[i]);
    }
    lemma_unique_order::<T>(a, done, sorted::<T>(b));
}

} // verus!
