//! Stable sorting of numbers.
use vstd::prelude::*;
use vstd::relations::{sorted_by, total_ordering};
use vstd::seq_lib::{group_to_multiset_ensures, lemma_sorted_unique};

use crate::double::Double;
use crate::lists::values;
use crate::order::lemma_one;
use crate::value::{exactly, Value};

verus! {

/// Where a value stands among the infinities and what is not a number.
pub open spec fn rank(v: Value) -> int {
    match v {
        Value::Infinite { neg } => if neg {
            0
        } else {
            2
        },
        Value::Finite { neg, units } => 1,
        Value::Nan => 3,
    }
}

/// Whether `a` is larger than `b`, with what is not a number above all others.
pub open spec fn larger(a: Value, b: Value) -> bool {
    rank(b) < rank(a) || (rank(a) == rank(b) && b.signed() < a.signed())
}

/// Whether, of two places in a list, `i` comes no later than `j` in a stable sort:
/// from the largest down, or from the smallest up.
pub open spec fn no_later(s: Seq<Value>, down: bool, i: int, j: int) -> bool {
    let (a, b) = if down {
        (s[i], s[j])
    } else {
        (s[j], s[i])
    };
    larger(a, b) || (!larger(b, a) && i <= j)
}

/// The places `0..n`.
pub open spec fn places(n: nat) -> Seq<int> {
    Seq::new(n, |i: int| i)
}

/// The places of a list in the order of a stable sort.
pub open spec fn order_of(s: Seq<Value>, down: bool) -> Seq<int> {
    places(s.len()).sort_by(|i: int, j: int| no_later(s, down, i, j))
}

/// The list itself in that order.
pub open spec fn sorted_of(s: Seq<Value>, down: bool) -> Seq<Value> {
    order_of(s, down).map_values(|i: int| s[i])
}

/// The entries of a machine list as places.
pub open spec fn as_places(s: Seq<usize>) -> Seq<int> {
    s.map_values(|i: usize| i as int)
}

/// On numbers, larger is larger.
proof fn lemma_larger(a: Value, b: Value)
    requires
        !(a is Nan),
        !(b is Nan),
    ensures
        larger(a, b) == b.below(a),
{
    reveal(Value::below);
}

/// Whether `a` is larger than `b`, with what is not a number above all others.
fn is_larger(a: Double, b: Double) -> (r: bool)
    ensures
        r == larger(a@, b@),
{
    if a.is_nan() {
        !b.is_nan()
    } else if b.is_nan() {
        false
    } else {
        proof {
            lemma_larger(a@, b@);
        }
        b.below(a)
    }
}

/// The order of a stable sort is total.
proof fn lemma_no_later_total(s: Seq<Value>, down: bool)
    ensures
        total_ordering(|i: int, j: int| no_later(s, down, i, j)),
{
}

/// What a sort of places is.
pub proof fn lemma_order_places(s: Seq<Value>, down: bool)
    ensures
        order_of(s, down).len() == s.len(),
        forall|k: int| 0 <= k < s.len() ==> 0 <= #[trigger] order_of(s, down)[k] < s.len(),
        sorted_by(order_of(s, down), |i: int, j: int| no_later(s, down, i, j)),
        order_of(s, down).to_multiset() == places(s.len()).to_multiset(),
{
    broadcast use group_to_multiset_ensures;

    lemma_no_later_total(s, down);
    let all = places(s.len());
    let sorted = order_of(s, down);
    all.lemma_sort_by_ensures(|i: int, j: int| no_later(s, down, i, j));
    assert(sorted.to_multiset().len() == all.to_multiset().len());
    assert(sorted.len() == all.len());
    assert forall|k: int| 0 <= k < s.len() implies 0 <= #[trigger] sorted[k] < s.len() by {
        assert(sorted.contains(sorted[k]));
        assert(all.contains(sorted[k]));
    }
}

/// The places of a list in the order of a stable sort, from the largest number
/// down or from the smallest up.
pub fn sort_places(list: &[Double], down: bool) -> (r: Vec<usize>)
    ensures
        as_places(r@) == order_of(values(list@), down),
        r@.len() == list@.len(),
        forall|k: int| 0 <= k < r@.len() ==> (#[trigger] r@[k]) < list@.len(),
{
    let ghost s = values(list@);
    let ghost leq = |i: int, j: int| no_later(s, down, i, j);
    let mut order: Vec<usize> = Vec::new();
    let mut n: usize = 0;
    proof {
        assert(as_places(order@) =~= places(0));
    }
    while n < list.len()
        invariant
            n <= list@.len(),
            s == values(list@),
            leq == (|i: int, j: int| no_later(s, down, i, j)),
            order@.len() == n,
            forall|k: int| 0 <= k < n ==> (#[trigger] order@[k]) < n,
            sorted_by(as_places(order@), leq),
            as_places(order@).to_multiset() == places(n as nat).to_multiset(),
        decreases list@.len() - n,
    {
        let mut p: usize = n;
        let mut open: bool = true;
        while open && p > 0
            invariant
                p <= n < list@.len(),
                s == values(list@),
                order@.len() == n,
                forall|k: int| 0 <= k < n ==> (#[trigger] order@[k]) < n,
                forall|k: int| p <= k < n ==> no_later(
                    s,
                    down,
                    n as int,
                    #[trigger] order@[k] as int,
                ),
                !open ==> p > 0 && no_later(s, down, order@[p - 1] as int, n as int),
            decreases
                p,
                if open {
                    1int
                } else {
                    0
                },
        {
            let q: usize = order[p - 1];
            let ahead: bool = if down {
                is_larger(list[n], list[q])
            } else {
                is_larger(list[q], list[n])
            };
            if ahead {
                p = p - 1;
            } else {
                open = false;
            }
        }
        let ghost before = as_places(order@);
        order.insert(p, n);
        proof {
            broadcast use group_to_multiset_ensures;

            let after = as_places(order@);
            assert(after =~= before.insert(p as int, n as int));
            assert(places(n as nat + 1) =~= places(n as nat).push(n as int));
            lemma_no_later_total(s, down);
            if p > 0 {
                assert forall|k: int| 0 <= k < p implies leq(#[trigger] before[k], n as int) by {
                    assert(leq(before[k], before[p - 1]));
                }
            }
            assert(sorted_by(after, leq));
        }
        n = n + 1;
    }
    proof {
        lemma_no_later_total(s, down);
        lemma_order_places(s, down);
        lemma_sorted_unique(as_places(order@), order_of(s, down), leq);
    }
    order
}

/// A list of numbers in order, from the largest down or from the smallest up.
pub fn sorted(list: &[Double], down: bool) -> (r: Vec<Double>)
    ensures
        values(r@) == sorted_of(values(list@), down),
        r@.len() == list@.len(),
{
    let order: Vec<usize> = sort_places(list, down);
    let mut out: Vec<Double> = Vec::new();
    let mut k: usize = 0;
    while k < order.len()
        invariant
            k <= order@.len(),
            as_places(order@) == order_of(values(list@), down),
            order@.len() == list@.len(),
            forall|k: int| 0 <= k < order@.len() ==> (#[trigger] order@[k]) < list@.len(),
            out@.len() == k,
            forall|i: int| 0 <= i < k ==> #[trigger] out@[i] == list@[order@[i] as int],
        decreases order@.len() - k,
    {
        out.push(list[order[k]]);
        k = k + 1;
    }
    proof {
        let s = values(list@);
        assert forall|i: int| 0 <= i < out@.len() implies #[trigger] values(out@)[i] == sorted_of(
            s,
            down,
        )[i] by {
            assert(as_places(order@)[i] == order@[i]);
        }
        assert(order_of(s, down).len() == as_places(order@).len());
        assert(values(out@) =~= sorted_of(s, down));
    }
    out
}

/// A sorted list is in order: no entry is larger than one before it, or, from the
/// smallest up, than one after it.
pub proof fn law_sorted_lists_are_in_order(s: Seq<Value>, down: bool, i: int, j: int)
    requires
        0 <= i < j < s.len(),
    ensures
        down ==> !larger(sorted_of(s, down)[j], sorted_of(s, down)[i]),
        !down ==> !larger(sorted_of(s, down)[i], sorted_of(s, down)[j]),
{
    lemma_order_places(s, down);
    let order = order_of(s, down);
    let leq = |i: int, j: int| no_later(s, down, i, j);
    assert(sorted_by(order, leq));
    assert(leq(order[i], order[j]));
}

/// Lists with the same entries contain the same.
pub proof fn lemma_contained<A>(a: Seq<A>, b: Seq<A>, i: int)
    requires
        a.to_multiset() == b.to_multiset(),
        0 <= i < a.len(),
    ensures
        b.contains(a[i]),
{
    broadcast use group_to_multiset_ensures;

    assert(a.contains(a[i]));
    assert(a.to_multiset().count(a[i]) > 0);
    assert(b.to_multiset().count(a[i]) > 0);
}

/// Lists with the same entries have the same entries under a function.
proof fn lemma_same_entries<A, B>(a: Seq<A>, b: Seq<A>, f: spec_fn(A) -> B)
    requires
        a.to_multiset() == b.to_multiset(),
    ensures
        a.map_values(f).to_multiset() == b.map_values(f).to_multiset(),
    decreases a.len(),
{
    broadcast use group_to_multiset_ensures;

    assert(a.len() == a.to_multiset().len() && b.len() == b.to_multiset().len());
    if a.len() == 0 {
        assert(a =~= b);
    } else {
        let last = a.len() - 1;
        lemma_contained(a, b, last);
        let j = choose|j: int| 0 <= j < b.len() && b[j] == a[last];
        lemma_same_entries(a.remove(last), b.remove(j), f);
        assert(a.remove(last).map_values(f) =~= a.map_values(f).remove(last));
        assert(b.remove(j).map_values(f) =~= b.map_values(f).remove(j));
        assert(a.map_values(f).remove(last).insert(last, f(a[last])) =~= a.map_values(f));
        assert(b.map_values(f).remove(j).insert(j, f(a[last])) =~= b.map_values(f));
    }
}

/// A sort keeps the entries of a list.
pub proof fn law_sorting_keeps_the_entries(s: Seq<Value>, down: bool)
    ensures
        sorted_of(s, down).to_multiset() == s.to_multiset(),
        sorted_of(s, down).len() == s.len(),
{
    lemma_order_places(s, down);
    let f = |i: int| s[i];
    lemma_same_entries(order_of(s, down), places(s.len()), f);
    assert(places(s.len()).map_values(f) =~= s);
}

/// Whether `a` is no smaller than `b`, with the positive one of two zeros first.
spec fn no_smaller(a: Value, b: Value) -> bool {
    larger(a, b) || a == b || (!larger(b, a) && a is Finite && !a->Finite_neg)
}

/// Where no entry is zero, the order that a list is given in is of no matter: two
/// lists of the same entries are the same list when sorted from the largest down.
pub proof fn law_sorting_forgets_the_order(a: Seq<Value>, b: Seq<Value>)
    requires
        a.to_multiset() == b.to_multiset(),
        forall|i: int| 0 <= i < a.len() ==> !(#[trigger] a[i]).equals(exactly(0)),
    ensures
        sorted_of(a, true) == sorted_of(b, true),
{
    let leq = |x: Value, y: Value| no_smaller(x, y);
    assert(total_ordering(leq));
    law_sorting_keeps_the_entries(a, true);
    law_sorting_keeps_the_entries(b, true);
    assert forall|i: int| 0 <= i < b.len() implies !(#[trigger] b[i]).equals(exactly(0)) by {
        lemma_contained(b, a, i);
    }
    lemma_sorted_apart(a);
    lemma_sorted_apart(b);
    lemma_sorted_unique(sorted_of(a, true), sorted_of(b, true), leq);
}

/// Without zeros a sorted list is in order, ties and all.
proof fn lemma_sorted_apart(s: Seq<Value>)
    requires
        forall|i: int| 0 <= i < s.len() ==> !(#[trigger] s[i]).equals(exactly(0)),
    ensures
        sorted_by(sorted_of(s, true), |x: Value, y: Value| no_smaller(x, y)),
{
    law_sorting_keeps_the_entries(s, true);
    let sorted = sorted_of(s, true);
    reveal(Value::equals);
    lemma_one();
    assert forall|i: int, j: int| 0 <= i < j < sorted.len() implies no_smaller(
        sorted[i],
        sorted[j],
    ) by {
        law_sorted_lists_are_in_order(s, true, i, j);
        lemma_contained(sorted, s, i);
        lemma_contained(sorted, s, j);
    }
}

} // verus!
