//! Sums, means and deviations of lists of numbers.
use vstd::prelude::*;

use crate::double::Double;
use crate::operators::whole;
use crate::order::{
    finite, lemma_inside, lemma_minus, lemma_nothing, lemma_one, lemma_order, lemma_over,
    lemma_plus, lemma_settle_fits, lemma_settle_order, lemma_sum, lemma_whole_place, number,
    place,
};
use crate::value::{exactly, one_units, Value};

verus! {

/// The values of a list of numbers.
pub open spec fn values(s: Seq<Double>) -> Seq<Value> {
    s.map_values(|x: Double| x@)
}

/// The sum of a list of numbers, from the left.
pub open spec fn total(s: Seq<Value>) -> Value
    decreases s.len(),
{
    if s.len() == 0 {
        exactly(0)
    } else {
        total(s.drop_last()) + s.last()
    }
}

/// The mean of a list of numbers.
pub open spec fn mean(s: Seq<Value>) -> Value {
    total(s) / exactly(s.len())
}

/// The squares of the distances from `m`.
pub open spec fn squares(s: Seq<Value>, m: Value) -> Seq<Value> {
    s.map_values(|x: Value| (x - m) * (x - m))
}

/// The standard deviation of a list of numbers.
pub open spec fn deviation(s: Seq<Value>) -> Value {
    mean(squares(s, mean(s))).root()
}

/// The mean, the standard deviation and the length of a list; the first two are
/// zero where it has fewer than `least` entries.
pub open spec fn statistics(s: Seq<Value>, least: nat) -> (Value, Value, nat) {
    if s.len() < least {
        (exactly(0), exactly(0), s.len())
    } else {
        (mean(s), deviation(s), s.len())
    }
}

/// The sum of a list of numbers, from the left.
pub fn sum(list: &Vec<Double>) -> (r: Double)
    ensures
        r@ == total(values(list@)),
{
    let mut acc: Double = whole(0);
    let mut i: usize = 0;
    proof {
        assert(values(list@).take(0) =~= seq![]);
    }
    while i < list.len()
        invariant
            i <= list@.len(),
            acc@ == total(values(list@).take(i as int)),
        decreases list@.len() - i,
    {
        proof {
            let next = values(list@).take(i + 1);
            assert(next.drop_last() =~= values(list@).take(i as int));
        }
        acc = acc + list[i];
        i = i + 1;
    }
    proof {
        assert(values(list@).take(i as int) =~= values(list@));
    }
    acc
}

/// The mean of a list of numbers.
pub fn average(list: &Vec<Double>) -> (r: Double)
    ensures
        r@ == mean(values(list@)),
{
    sum(list) / whole(list.len() as u64)
}

/// The standard deviation of a list of numbers around their mean `m`.
pub fn spread(list: &Vec<Double>, m: Double) -> (r: Double)
    requires
        m@ == mean(values(list@)),
    ensures
        r@ == deviation(values(list@)),
{
    let mut squared: Vec<Double> = Vec::new();
    let mut i: usize = 0;
    while i < list.len()
        invariant
            i <= list@.len(),
            squared@.len() == i,
            forall|k: int| 0 <= k < i ==> (#[trigger] squared@[k])@
                == squares(values(list@), m@)[k],
        decreases list@.len() - i,
    {
        let off: Double = list[i] - m;
        squared.push(off * off);
        i = i + 1;
    }
    proof {
        assert(values(squared@) =~= squares(values(list@), m@));
    }
    average(&squared).root()
}

/// The mean, the standard deviation and the length of a list; the first two are
/// zero where it has fewer than `least` entries.
pub fn list_statistics(list: &Vec<Double>, least: usize) -> (r: (Double, Double, usize))
    ensures
        (r.0@, r.1@, r.2 as nat) == statistics(values(list@), least as nat),
{
    if list.len() < least {
        (whole(0), whole(0), list.len())
    } else {
        let m: Double = average(list);
        (m, spread(list, m), list.len())
    }
}

/// A sum of numbers from zero on is at least each of them.
pub proof fn law_sums_have_their_entries(s: Seq<Value>, k: int)
    requires
        0 <= k < s.len(),
        forall|i: int| 0 <= i < s.len() ==> number(#[trigger] s[i]) && exactly(0).at_most(s[i]),
    ensures
        s[k].at_most(total(s)),
{
    lemma_total(s);
    lemma_one();
    lemma_entry(s, k);
    lemma_order(s[k], total(s));
}

/// A sum of numbers from zero on is such a number.
proof fn lemma_total(s: Seq<Value>)
    requires
        forall|i: int| 0 <= i < s.len() ==> number(#[trigger] s[i]) && exactly(0).at_most(s[i]),
    ensures
        number(total(s)),
        0 <= place(total(s)),
    decreases s.len(),
{
    lemma_one();
    if s.len() > 0 {
        let before = s.drop_last();
        assert forall|i: int| 0 <= i < before.len() implies number(#[trigger] before[i])
            && exactly(0).at_most(before[i]) by {
            assert(before[i] == s[i]);
        }
        lemma_total(before);
        assert(s.last() == s[s.len() - 1]);
        lemma_order(exactly(0), s.last());
        lemma_sum(total(before), s.last());
    }
}

/// A sum of numbers from zero on stands no lower than each of them.
proof fn lemma_entry(s: Seq<Value>, k: int)
    requires
        0 <= k < s.len(),
        forall|i: int| 0 <= i < s.len() ==> number(#[trigger] s[i]) && exactly(0).at_most(s[i]),
    ensures
        place(s[k]) <= place(total(s)),
    decreases s.len(),
{
    lemma_one();
    let before = s.drop_last();
    assert forall|i: int| 0 <= i < before.len() implies number(#[trigger] before[i]) && exactly(
        0,
    ).at_most(before[i]) by {
        assert(before[i] == s[i]);
    }
    lemma_total(before);
    assert(s.last() == s[s.len() - 1]);
    lemma_order(exactly(0), s.last());
    lemma_sum(total(before), s.last());
    if k < before.len() {
        lemma_entry(before, k);
        assert(before[k] == s[k]);
    }
}

/// A sum lies between what its least and its largest entry make for each.
proof fn lemma_total_between(s: Seq<Value>, low: nat, high: nat)
    requires
        low <= high <= 0x20_0000_0000_0000,
        s.len() * high <= 0x20_0000_0000_0000,
        forall|i: int|
            0 <= i < s.len() ==> number(#[trigger] s[i]) && exactly(low).at_most(s[i])
                && s[i].at_most(exactly(high)),
    ensures
        finite(total(s)),
        (s.len() * low) * one_units() <= place(total(s)) <= (s.len() * high) * one_units(),
    decreases s.len(),
{
    lemma_one();
    let u = one_units();
    if s.len() == 0 {
        assert((0 * low) * u == 0 && (0 * high) * u == 0) by (nonlinear_arith);
    } else {
        let before = s.drop_last();
        let n = before.len();
        let last = s[s.len() - 1];
        assert(s.last() == last);
        assert(n * high <= s.len() * high && s.len() * low <= s.len() * high) by (nonlinear_arith)
            requires
                n + 1 == s.len(),
                low <= high,
        ;
        assert forall|i: int| 0 <= i < before.len() implies number(#[trigger] before[i]) && exactly(
            low,
        ).at_most(before[i]) && before[i].at_most(exactly(high)) by {
            assert(before[i] == s[i]);
        }
        lemma_total_between(before, low, high);
        lemma_whole_place(low);
        lemma_whole_place(high);
        lemma_order(exactly(low), last);
        lemma_order(last, exactly(high));
        assert(low * u >= 0) by (nonlinear_arith);
        lemma_inside(exactly(high));
        lemma_inside(last);
        lemma_plus(total(before), last);
        lemma_whole_place(s.len() * low);
        lemma_whole_place(s.len() * high);
        lemma_settle_fits(exactly(s.len() * low));
        lemma_settle_fits(exactly(s.len() * high));
        assert((s.len() * low) * u == (n * low) * u + low * u && (s.len() * high) * u == (n * high)
            * u + high * u) by (nonlinear_arith)
            requires
                s.len() == n + 1,
        ;
        let sum = place(total(before)) + place(last);
        lemma_settle_order(((s.len() * low) * u) as int, 1, sum, 1);
        lemma_settle_order(sum, 1, ((s.len() * high) * u) as int, 1);
        assert((s.len() * low) * u >= 0) by (nonlinear_arith);
        lemma_inside(exactly(s.len() * high));
        lemma_inside(total(s));
    }
}

/// A mean lies between the least and the largest entry of a list, as far as they are told
/// in natural numbers.
pub proof fn law_means_lie_between(s: Seq<Value>, low: nat, high: nat)
    requires
        s.len() > 0,
        low <= high <= 0x20_0000_0000_0000,
        s.len() <= 0x20_0000_0000_0000,
        s.len() * high <= 0x20_0000_0000_0000,
        forall|i: int|
            0 <= i < s.len() ==> number(#[trigger] s[i]) && exactly(low).at_most(s[i])
                && s[i].at_most(exactly(high)),
    ensures
        exactly(low).at_most(mean(s)),
        mean(s).at_most(exactly(high)),
{
    lemma_one();
    let u = one_units();
    let n = s.len();
    lemma_total_between(s, low, high);
    lemma_whole_place(n);
    lemma_whole_place(low);
    lemma_whole_place(high);
    assert(n * u > 0) by (nonlinear_arith)
        requires
            n > 0,
            u > 0,
    ;
    lemma_over(total(s), exactly(n));
    let p = place(total(s));
    assert((low * u) * (n * u) <= (p * u) * 1 && (p * u) * 1 <= (high * u) * (n * u))
        by (nonlinear_arith)
        requires
            (n * low) * u <= p <= (n * high) * u,
            u > 0,
    ;
    lemma_settle_fits(exactly(low));
    lemma_settle_fits(exactly(high));
    lemma_settle_order((low * u) as int, 1, p * u, (n * u) as nat);
    lemma_settle_order(p * u, (n * u) as nat, (high * u) as int, 1);
    lemma_order(exactly(low), mean(s));
    lemma_order(mean(s), exactly(high));
}

/// A list of one natural number has that number as its mean and does not deviate.
pub proof fn law_constant_lists_do_not_deviate(s: Seq<Value>, k: nat)
    requires
        s.len() > 0,
        k <= 0x20_0000_0000_0000,
        s.len() <= 0x20_0000_0000_0000,
        s.len() * k <= 0x20_0000_0000_0000,
        forall|i: int| 0 <= i < s.len() ==> #[trigger] s[i] == exactly(k),
    ensures
        mean(s).equals(exactly(k)),
        deviation(s).equals(exactly(0)),
{
    lemma_one();
    lemma_whole_place(k);
    lemma_order(exactly(k), exactly(k));
    lemma_total_between(s, k, k);
    law_means_lie_between(s, k, k);
    let m = mean(s);
    lemma_mean_is_a_number(s);
    lemma_order(exactly(k), m);
    lemma_order(m, exactly(k));
    lemma_inside(exactly(k));
    lemma_inside(m);
    let list = squares(s, m);
    lemma_minus(exactly(k), m);
    lemma_settle_fits(exactly(0));
    let off = exactly(k) - m;
    lemma_inside(exactly(0));
    lemma_inside(off);
    lemma_nothing(off, off);
    assert forall|i: int| 0 <= i < list.len() implies number(#[trigger] list[i]) && exactly(
        0,
    ).at_most(list[i]) && list[i].at_most(exactly(0)) by {
        assert(list[i] == off * off);
        lemma_order(exactly(0), list[i]);
        lemma_order(list[i], exactly(0));
    }
    assert(list.len() * 0 == 0) by (nonlinear_arith);
    lemma_total_between(list, 0, 0);
    law_means_lie_between(list, 0, 0);
    lemma_mean_is_a_number(list);
    lemma_order(exactly(0), mean(list));
    lemma_order(mean(list), exactly(0));
    lemma_inside(mean(list));
    reveal(Value::root);
    reveal(Value::equals);
}

/// The mean of a list with a finite sum is a number.
proof fn lemma_mean_is_a_number(s: Seq<Value>)
    requires
        0 < s.len() <= 0x20_0000_0000_0000,
        finite(total(s)),
    ensures
        number(mean(s)),
{
    lemma_one();
    lemma_whole_place(s.len());
    let (n, u) = (s.len(), one_units());
    assert(n * u > 0) by (nonlinear_arith)
        requires
            n > 0,
            u > 0,
    ;
    lemma_over(total(s), exactly(n));
}

} // verus!
