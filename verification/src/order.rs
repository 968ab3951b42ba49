//! Stable arrangement of a sequence by an order.
use vstd::prelude::*;

verus! {

/// Whether `before` orders: no two items come before each other, and items that tie with a third
/// tie with each other.
pub open spec fn weak_order<T>(before: spec_fn(T, T) -> bool) -> bool {
    &&& forall|x: T, y: T| #[trigger] before(x, y) ==> !before(y, x)
    &&& forall|x: T, y: T, z: T|
        !(#[trigger] before(x, y)) && !(#[trigger] before(y, z)) ==> !before(x, z)
}

/// `sorted` with `item` put in: behind every item that it does not come before, looking from the
/// end.
pub open spec fn put_in<T>(sorted: Seq<T>, item: T, before: spec_fn(T, T) -> bool) -> Seq<T>
    decreases sorted.len(),
{
    if sorted.len() == 0 || !before(item, sorted.last()) {
        sorted.push(item)
    } else {
        put_in(sorted.drop_last(), item, before).push(sorted.last())
    }
}

/// The items in order; items that tie keep their order of arrival.
pub open spec fn arranged<T>(items: Seq<T>, before: spec_fn(T, T) -> bool) -> Seq<T>
    decreases items.len(),
{
    if items.len() == 0 {
        items
    } else {
        put_in(arranged(items.drop_last(), before), items.last(), before)
    }
}

/// Whether no item comes before one that stands in front of it.
pub open spec fn in_order<T>(items: Seq<T>, before: spec_fn(T, T) -> bool) -> bool {
    forall|i: int, j: int|
        0 <= i < j < items.len() ==> !before(#[trigger] items[j], #[trigger] items[i])
}

/// Whether `x` arrives ahead of `y`.
pub open spec fn arrives_ahead<T>(items: Seq<T>, x: T, y: T) -> bool {
    exists|p: int, q: int|
        0 <= p < q < items.len() && #[trigger] items[p] == x && #[trigger] items[q] == y
}

/// Whether no two items tie.
pub open spec fn tie_free<T>(items: Seq<T>, before: spec_fn(T, T) -> bool) -> bool {
    forall|i: int, j: int|
        0 <= i < j < items.len() ==> before(#[trigger] items[i], #[trigger] items[j]) || before(
            items[j],
            items[i],
        )
}

/// Where an item is put in.
pub proof fn lemma_put_in_place<T>(
    sorted: Seq<T>,
    item: T,
    before: spec_fn(T, T) -> bool,
) -> (p: int)
    ensures
        0 <= p <= sorted.len(),
        put_in(sorted, item, before) == sorted.insert(p, item),
        forall|k: int| p <= k < sorted.len() ==> before(item, #[trigger] sorted[k]),
        p > 0 ==> !before(item, sorted[p - 1]),
    decreases sorted.len(),
{
    if sorted.len() == 0 || !before(item, sorted.last()) {
        assert(sorted.push(item) =~= sorted.insert(sorted.len() as int, item));
        sorted.len() as int
    } else {
        let short = sorted.drop_last();
        let p = lemma_put_in_place(short, item, before);
        assert(short.insert(p, item).push(sorted.last()) =~= sorted.insert(p, item));
        assert forall|k: int| p <= k < sorted.len() implies before(item, #[trigger] sorted[k]) by {
            if k < short.len() {
                assert(short[k] == sorted[k]);
            }
        }
        p
    }
}

/// An item is put in where it comes before all that follows, and not before what it follows.
pub proof fn lemma_put_in_at<T>(sorted: Seq<T>, item: T, before: spec_fn(T, T) -> bool, p: int)
    requires
        0 <= p <= sorted.len(),
        forall|k: int| p <= k < sorted.len() ==> before(item, #[trigger] sorted[k]),
        p > 0 ==> !before(item, sorted[p - 1]),
    ensures
        put_in(sorted, item, before) == sorted.insert(p, item),
{
    let q = lemma_put_in_place(sorted, item, before);
    if q < p {
        assert(before(item, sorted[p - 1]));
    } else if p < q {
        assert(before(item, sorted[q - 1]));
    }
}

/// An arrangement loses no item, invents none, and puts an item in front of another only where it
/// comes before it or arrives ahead of it.
pub proof fn law_an_arrangement_is_a_stable_permutation<T>(
    items: Seq<T>,
    before: spec_fn(T, T) -> bool,
)
    ensures
        arranged(items, before).to_multiset() == items.to_multiset(),
        arranged(items, before).len() == items.len(),
        forall|i: int, j: int|
            0 <= i < j < items.len() ==> before(
                #[trigger] arranged(items, before)[i],
                #[trigger] arranged(items, before)[j],
            ) || arrives_ahead(items, arranged(items, before)[i], arranged(items, before)[j]),
    decreases items.len(),
{
    broadcast use vstd::seq_lib::group_to_multiset_ensures;

    if items.len() > 0 {
        let short = items.drop_last();
        let item = items.last();
        law_an_arrangement_is_a_stable_permutation(short, before);
        let sorted = arranged(short, before);
        let p = lemma_put_in_place(sorted, item, before);
        let all = sorted.insert(p, item);
        assert(short.push(item) =~= items);
        assert(all.to_multiset() =~= sorted.to_multiset().insert(item));
        assert forall|i: int, j: int| 0 <= i < j < all.len() implies before(
            #[trigger] all[i],
            #[trigger] all[j],
        ) || arrives_ahead(items, all[i], all[j]) by {
            if i == p {
                assert(all[j] == sorted[j - 1]);
            } else if j == p {
                assert(all[i] == sorted[i]);
                assert(sorted.contains(sorted[i]));
                assert(short.to_multiset().count(sorted[i]) > 0);
                let a = choose|a: int| 0 <= a < short.len() && short[a] == sorted[i];
                assert(items[a] == all[i] && items[items.len() - 1] == all[j]);
            } else {
                let a = if i < p {
                    i
                } else {
                    i - 1
                };
                let b = if j < p {
                    j
                } else {
                    j - 1
                };
                assert(all[i] == sorted[a] && all[j] == sorted[b]);
                if arrives_ahead(short, sorted[a], sorted[b]) {
                    let (x, y) = choose|x: int, y: int|
                        0 <= x < y < short.len() && #[trigger] short[x] == sorted[a]
                            && #[trigger] short[y] == sorted[b];
                    assert(items[x] == all[i] && items[y] == all[j]);
                }
            }
        }
    }
}

/// An arrangement stands in order.
pub proof fn law_an_arrangement_stands_in_order<T>(items: Seq<T>, before: spec_fn(T, T) -> bool)
    requires
        weak_order(before),
    ensures
        in_order(arranged(items, before), before),
    decreases items.len(),
{
    if items.len() > 0 {
        let short = items.drop_last();
        let item = items.last();
        law_an_arrangement_stands_in_order(short, before);
        let sorted = arranged(short, before);
        let p = lemma_put_in_place(sorted, item, before);
        let all = sorted.insert(p, item);
        assert forall|i: int, j: int| 0 <= i < j < all.len() implies !before(
            #[trigger] all[j],
            #[trigger] all[i],
        ) by {
            if i == p {
                assert(before(item, sorted[j - 1]));
            } else if j == p {
                if i < p - 1 {
                    assert(!before(sorted[p - 1], sorted[i]));
                }
            } else {
                let a = if i < p {
                    i
                } else {
                    i - 1
                };
                let b = if j < p {
                    j
                } else {
                    j - 1
                };
                assert(all[i] == sorted[a] && all[j] == sorted[b]);
            }
        }
    }
}

proof fn lemma_tie_free_permuted<T>(a: Seq<T>, b: Seq<T>, before: spec_fn(T, T) -> bool)
    requires
        weak_order(before),
        a.to_multiset() == b.to_multiset(),
        tie_free(a, before),
    ensures
        tie_free(b, before),
{
    broadcast use vstd::seq_lib::group_to_multiset_ensures;

    assert forall|i: int, j: int| 0 <= i < a.len() && 0 <= j < a.len() && i != j implies a[i]
        != a[j] by {
        let (x, y) = if i < j {
            (i, j)
        } else {
            (j, i)
        };
        assert(before(a[x], a[y]) || before(a[y], a[x]));
    }
    a.lemma_multiset_has_no_duplicates();
    b.lemma_multiset_has_no_duplicates_conv();
    assert forall|i: int, j: int| 0 <= i < j < b.len() implies before(
        #[trigger] b[i],
        #[trigger] b[j],
    ) || before(b[j], b[i]) by {
        assert(b.contains(b[i]) && b.contains(b[j]));
        assert(a.to_multiset().count(b[i]) > 0 && a.to_multiset().count(b[j]) > 0);
        let x = choose|x: int| 0 <= x < a.len() && a[x] == b[i];
        let y = choose|y: int| 0 <= y < a.len() && a[y] == b[j];
        assert(b[i] != b[j]);
        if x < y {
            assert(before(a[x], a[y]) || before(a[y], a[x]));
        } else {
            assert(before(a[y], a[x]) || before(a[x], a[y]));
        }
    }
}

proof fn lemma_one_order<T>(a: Seq<T>, b: Seq<T>, before: spec_fn(T, T) -> bool)
    requires
        weak_order(before),
        a.to_multiset() == b.to_multiset(),
        tie_free(a, before),
        in_order(a, before),
        tie_free(b, before),
        in_order(b, before),
    ensures
        a == b,
    decreases a.len(),
{
    broadcast use vstd::seq_lib::group_to_multiset_ensures;

    assert(a.to_multiset().len() == a.len() && b.to_multiset().len() == b.len());
    if a.len() == 0 {
        assert(a =~= b);
    } else {
        let n = a.len() - 1;
        assert(a.contains(a[n]) && b.contains(b[n]));
        assert(b.to_multiset().count(a[n]) > 0 && a.to_multiset().count(b[n]) > 0);
        let k = choose|k: int| 0 <= k < b.len() && b[k] == a[n];
        let m = choose|m: int| 0 <= m < a.len() && a[m] == b[n];
        if k < n {
            assert(!before(b[n], b[k]) && (before(b[k], b[n]) || before(b[n], b[k])));
            if m < n {
                assert(!before(a[n], a[m]));
            }
            assert(false);
        }
        let (x, y) = (a.drop_last(), b.drop_last());
        assert(x.push(a[n]) =~= a && y.push(a[n]) =~= b);
        assert(x.to_multiset() =~= a.to_multiset().remove(a[n]));
        assert(y.to_multiset() =~= b.to_multiset().remove(a[n]));
        assert forall|i: int, j: int| 0 <= i < j < x.len() implies (before(
            #[trigger] x[i],
            #[trigger] x[j],
        ) || before(x[j], x[i])) && !before(x[j], x[i]) by {
            assert(x[i] == a[i] && x[j] == a[j]);
        }
        assert forall|i: int, j: int| 0 <= i < j < y.len() implies (before(
            #[trigger] y[i],
            #[trigger] y[j],
        ) || before(y[j], y[i])) && !before(y[j], y[i]) by {
            assert(y[i] == b[i] && y[j] == b[j]);
        }
        lemma_one_order(x, y, before);
    }
}

/// Where no two items tie, the order of arrival decides nothing.
pub proof fn law_arrival_decides_ties_only<T>(a: Seq<T>, b: Seq<T>, before: spec_fn(T, T) -> bool)
    requires
        weak_order(before),
        a.to_multiset() == b.to_multiset(),
        tie_free(a, before),
    ensures
        arranged(a, before) == arranged(b, before),
{
    law_an_arrangement_is_a_stable_permutation(a, before);
    law_an_arrangement_is_a_stable_permutation(b, before);
    law_an_arrangement_stands_in_order(a, before);
    law_an_arrangement_stands_in_order(b, before);
    lemma_tie_free_permuted(a, arranged(a, before), before);
    lemma_tie_free_permuted(a, arranged(b, before), before);
    lemma_one_order(arranged(a, before), arranged(b, before), before);
}

} // verus!
