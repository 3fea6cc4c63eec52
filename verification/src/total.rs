//! Sums of lists.
use vstd::prelude::*;

verus! {

/// The sum of a list of numbers.
pub open spec fn total(v: Seq<int>) -> int
    decreases v.len(),
{
    if v.len() == 0 {
        0
    } else {
        total(v.drop_last()) + v.last()
    }
}

/// The sum of one number more.
pub proof fn total_of_one_more(v: Seq<int>, x: int)
    ensures
        total(v.push(x)) == total(v) + x,
{
    assert(v.push(x).drop_last() == v);
}

/// The sum of numbers that are not negative is not less than any of them.
pub proof fn totals_bound_their_parts(v: Seq<int>, i: int)
    requires
        0 <= i < v.len(),
        forall|j: int| 0 <= j < v.len() ==> #[trigger] v[j] >= 0,
    ensures
        0 <= v[i] <= total(v),
    decreases v.len(),
{
    let head = v.drop_last();
    assert forall|j: int| 0 <= j < head.len() implies #[trigger] head[j] >= 0 by {
        assert(head[j] == v[j]);
    }
    totals_are_not_negative(head);
    if i < head.len() {
        totals_bound_their_parts(head, i);
        assert(head[i] == v[i]);
    }
}

/// The sum of numbers that are not negative is not negative.
pub proof fn totals_are_not_negative(v: Seq<int>)
    requires
        forall|j: int| 0 <= j < v.len() ==> #[trigger] v[j] >= 0,
    ensures
        total(v) >= 0,
    decreases v.len(),
{
    if v.len() > 0 {
        let head = v.drop_last();
        assert forall|j: int| 0 <= j < head.len() implies #[trigger] head[j] >= 0 by {
            assert(head[j] == v[j]);
        }
        totals_are_not_negative(head);
        assert(v.last() == v[v.len() - 1]);
    }
}

} // verus!
