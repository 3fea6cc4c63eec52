//! Stable ordering.
use vstd::prelude::*;

verus! {

/// `x` put into `s` behind everything that it does not come before.
pub open spec fn insert_sorted<T>(s: Seq<T>, x: T, before: spec_fn(T, T) -> bool) -> Seq<T>
    decreases s.len(),
{
    if s.len() == 0 || !before(x, s.last()) {
        s.push(x)
    } else {
        insert_sorted(s.drop_last(), x, before).push(s.last())
    }
}

/// `s` in order; what the order does not tell apart keeps its place.
pub open spec fn sorted<T>(s: Seq<T>, before: spec_fn(T, T) -> bool) -> Seq<T>
    decreases s.len(),
{
    if s.len() == 0 {
        seq![]
    } else {
        insert_sorted(sorted(s.drop_last(), before), s.last(), before)
    }
}

/// Where `x` is put.
pub proof fn lemma_insert_at<T>(s: Seq<T>, x: T, before: spec_fn(T, T) -> bool, at: int)
    requires
        0 <= at <= s.len(),
        forall|j: int| at <= j < s.len() ==> #[trigger] before(x, s[j]),
        at > 0 ==> !before(x, s[at - 1]),
    ensures
        insert_sorted(s, x, before) == s.insert(at, x),
    decreases s.len(),
{
    if at == s.len() {
        assert(s.insert(at, x) == s.push(x));
    } else {
        assert(before(x, s[s.len() - 1]));
        assert forall|j: int| at <= j < s.drop_last().len() implies #[trigger] before(
            x,
            s.drop_last()[j],
        ) by {
            assert(before(x, s[j]));
        }
        lemma_insert_at(s.drop_last(), x, before, at);
        assert(s.drop_last().insert(at, x).push(s.last()) == s.insert(at, x));
    }
}

/// Whether no element stands behind one that it comes before.
pub open spec fn in_order<T>(s: Seq<T>, before: spec_fn(T, T) -> bool) -> bool {
    forall|i: int, j: int| 0 <= i < j < s.len() ==> !before(#[trigger] s[j], #[trigger] s[i])
}

/// Whether `before` orders its elements up to ties.
pub open spec fn orders<T>(before: spec_fn(T, T) -> bool) -> bool {
    &&& forall|a: T, b: T| #[trigger] before(a, b) ==> !before(b, a)
    &&& forall|a: T, b: T, c: T|
        !(#[trigger] before(b, a)) && !(#[trigger] before(c, b)) ==> !before(c, a)
}

/// Insertion loses nothing and adds only what is inserted.
pub proof fn insertion_keeps_elements<T>(s: Seq<T>, x: T, before: spec_fn(T, T) -> bool)
    ensures
        insert_sorted(s, x, before).to_multiset() == s.push(x).to_multiset(),
        insert_sorted(s, x, before).len() == s.len() + 1,
    decreases s.len(),
{
    broadcast use vstd::seq_lib::group_to_multiset_ensures;

    if s.len() == 0 || !before(x, s.last()) {
    } else {
        insertion_keeps_elements(s.drop_last(), x, before);
        assert(s == s.drop_last().push(s.last()));
        assert(insert_sorted(s, x, before).to_multiset() =~= s.push(x).to_multiset());
    }
}

/// An ordered sequence stays ordered.
pub proof fn insertion_keeps_order<T>(s: Seq<T>, x: T, before: spec_fn(T, T) -> bool)
    requires
        orders(before),
        in_order(s, before),
    ensures
        in_order(insert_sorted(s, x, before), before),
        forall|i: int|
            0 <= i < insert_sorted(s, x, before).len() ==> s.contains(
                #[trigger] insert_sorted(s, x, before)[i],
            ) || insert_sorted(s, x, before)[i] == x,
    decreases s.len(),
{
    let r = insert_sorted(s, x, before);
    insertion_keeps_elements(s, x, before);
    if s.len() == 0 || !before(x, s.last()) {
        assert forall|i: int, j: int| 0 <= i < j < r.len() implies !before(
            #[trigger] r[j],
            #[trigger] r[i],
        ) by {
            if j == s.len() {
                if i < s.len() - 1 {
                    assert(!before(s[s.len() - 1], s[i]));
                    assert(!before(x, s.last()));
                }
            }
        }
        assert forall|i: int| 0 <= i < r.len() implies s.contains(#[trigger] r[i]) || r[i]
            == x by {
            if i < s.len() {
                assert(s[i] == r[i]);
            }
        }
    } else {
        let head = s.drop_last();
        let t = insert_sorted(head, x, before);
        insertion_keeps_order(head, x, before);
        insertion_keeps_elements(head, x, before);
        assert forall|i: int, j: int| 0 <= i < j < r.len() implies !before(
            #[trigger] r[j],
            #[trigger] r[i],
        ) by {
            if j == r.len() - 1 {
                assert(r[j] == s.last());
                assert(r[i] == t[i]);
                if head.contains(t[i]) {
                    let k = choose|k: int| 0 <= k < head.len() && head[k] == t[i];
                    assert(s[k] == t[i]);
                    assert(!before(s[s.len() - 1], s[k]));
                }
            } else {
                assert(r[j] == t[j] && r[i] == t[i]);
            }
        }
        assert forall|i: int| 0 <= i < r.len() implies s.contains(#[trigger] r[i]) || r[i]
            == x by {
            if i == r.len() - 1 {
                assert(s[s.len() - 1] == r[i]);
            } else {
                assert(r[i] == t[i]);
                if head.contains(t[i]) {
                    let k = choose|k: int| 0 <= k < head.len() && head[k] == t[i];
                    assert(s[k] == t[i]);
                }
            }
        }
    }
}

/// Sorting loses nothing and adds nothing, whatever it goes by.
pub proof fn sorting_keeps_elements<T>(s: Seq<T>, before: spec_fn(T, T) -> bool)
    ensures
        sorted(s, before).to_multiset() == s.to_multiset(),
        sorted(s, before).len() == s.len(),
    decreases s.len(),
{
    broadcast use vstd::seq_lib::group_to_multiset_ensures;

    if s.len() > 0 {
        sorting_keeps_elements(s.drop_last(), before);
        insertion_keeps_elements(sorted(s.drop_last(), before), s.last(), before);
        assert(s == s.drop_last().push(s.last()));
    } else {
        assert(s == Seq::<T>::empty());
    }
}

/// Sorting puts its elements in order and keeps each of them.
pub proof fn sorting_orders<T>(s: Seq<T>, before: spec_fn(T, T) -> bool)
    requires
        orders(before),
    ensures
        in_order(sorted(s, before), before),
        sorted(s, before).to_multiset() == s.to_multiset(),
        sorted(s, before).len() == s.len(),
    decreases s.len(),
{
    sorting_keeps_elements(s, before);
    if s.len() > 0 {
        sorting_orders(s.drop_last(), before);
        insertion_keeps_order(sorted(s.drop_last(), before), s.last(), before);
    }
}

proof fn insertions_agree<T>(
    s: Seq<T>,
    x: T,
    f: spec_fn(T, T) -> bool,
    g: spec_fn(T, T) -> bool,
)
    requires
        forall|i: int| 0 <= i < s.len() ==> f(x, #[trigger] s[i]) == g(x, s[i]),
    ensures
        insert_sorted(s, x, f) == insert_sorted(s, x, g),
    decreases s.len(),
{
    if s.len() > 0 {
        assert(f(x, s[s.len() - 1]) == g(x, s[s.len() - 1]));
        let head = s.drop_last();
        assert forall|i: int| 0 <= i < head.len() implies f(x, #[trigger] head[i]) == g(
            x,
            head[i],
        ) by {
            assert(head[i] == s[i]);
        }
        insertions_agree(head, x, f, g);
    }
}

/// What two orders agree on they sort alike.
pub proof fn agreeing_orders_sort_alike<T>(
    s: Seq<T>,
    f: spec_fn(T, T) -> bool,
    g: spec_fn(T, T) -> bool,
)
    requires
        forall|i: int, j: int|
            0 <= i < s.len() && 0 <= j < s.len() ==> f(#[trigger] s[i], #[trigger] s[j]) == g(
                s[i],
                s[j],
            ),
    ensures
        sorted(s, f) == sorted(s, g),
    decreases s.len(),
{
    broadcast use vstd::seq_lib::group_to_multiset_ensures;

    if s.len() > 0 {
        let head = s.drop_last();
        let x = s[s.len() - 1];
        assert forall|i: int, j: int| 0 <= i < head.len() && 0 <= j < head.len() implies f(
            #[trigger] head[i],
            #[trigger] head[j],
        ) == g(head[i], head[j]) by {
            assert(head[i] == s[i] && head[j] == s[j]);
        }
        agreeing_orders_sort_alike(head, f, g);
        let t = sorted(head, f);
        sorting_keeps_elements(head, f);
        assert forall|i: int| 0 <= i < t.len() implies f(x, #[trigger] t[i]) == g(x, t[i]) by {
            assert(t.contains(t[i]));
            assert(t.to_multiset().contains(t[i]));
            assert(head.contains(t[i]));
            let k = choose|k: int| 0 <= k < head.len() && head[k] == t[i];
            assert(s[k] == t[i]);
            assert(f(s[s.len() - 1], s[k]) == g(s[s.len() - 1], s[k]));
        }
        insertions_agree(t, x, f, g);
    }
}

} // verus!
