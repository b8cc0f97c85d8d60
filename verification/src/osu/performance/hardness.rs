//! What strain peaks are worth at least, and at most.
use vstd::prelude::*;

use crate::bits::law_lists_are_values;
use crate::double::Double;
use crate::lists::values;
use crate::order::{
    finite, lemma_dyadic, lemma_inside, lemma_lesser, lemma_minus, lemma_near_place,
    lemma_near_places, lemma_one, lemma_order, lemma_plus, lemma_settle_fits, lemma_settle_order,
    lemma_sum, lemma_sum_order, lemma_times_one, lemma_times_share, lemma_whole_place, number,
    place, proper,
};
use crate::osu::performance::marathon::{peak_scale_of, peaks_difficulty_of, scaled_of};
use crate::osu::performance::peaks::{
    between_of, decayed, difficulty_value_of, lemma_positive_top, positive_of, reduced_of,
    section_scale_of, star_of_performance_of,
};
use crate::powers::roots_grow;
use crate::query::{law_answers_are_values, Math, Query, Table};
use crate::signs::{
    from_on, lemma_commutes, lemma_factor_order, lemma_multiply_from, lemma_part_from,
};
use crate::sorting::{
    law_sorted_lists_are_in_order, law_sorting_keeps_the_entries, lemma_contained, sorted_of,
};
use crate::value::{exactly, near, one_units, Value};

verus! {

/// The weight of a reduced peak lies between three quarters and one.
proof fn lemma_weight(scale: Value)
    requires
        proper(scale),
    ensures
        ({
            let held = scale.absolute().lesser(exactly(1));
            let r = near(75, 100) + (exactly(1) - near(75, 100)) * held;
            finite(r) && place(near(75, 100)) <= place(r) <= one_units()
        }),
        finite(near(75, 100)),
        0 < place(near(75, 100)) <= one_units(),
{
    lemma_one();
    lemma_near_place(75, 100);
    lemma_near_places(75, 100, 48, 64);
    lemma_near_places(48, 64, 75, 100);
    lemma_dyadic(48);
    lemma_dyadic(16);
    let held = scale.absolute().lesser(exactly(1));
    reveal(Value::absolute);
    reveal(Value::lesser);
    if !(scale is Nan) {
        lemma_lesser(scale.absolute(), exactly(1));
        lemma_inside(exactly(1));
        lemma_inside(held);
    }
    let rest = exactly(1) - near(75, 100);
    lemma_minus(exactly(1), near(75, 100));
    lemma_settle_fits(near(16, 64));
    lemma_inside(near(16, 64));
    lemma_inside(rest);
    lemma_times_share(rest, held);
    lemma_sum(near(75, 100), rest * held);
    lemma_plus(near(75, 100), rest * held);
    lemma_settle_fits(exactly(1));
    lemma_settle_order(place(near(75, 100)) + place(rest * held), 1, one_units() as int, 1);
    lemma_inside(exactly(1));
    lemma_inside(near(75, 100) + rest * held);
}

/// A longer part of a list of positive numbers adds up to no less.
proof fn lemma_decayed_grows(s: Seq<Value>, m: nat, n: nat)
    requires
        m <= n <= s.len(),
        forall|i: int| 0 <= i < s.len() ==> number(#[trigger] s[i]) && 0 < place(s[i]),
    ensures
        ({
            let (sum, weight) = decayed(s, n);
            &&& number(sum) && 0 <= place(decayed(s, m).0) <= place(sum)
            &&& finite(weight) && 0 <= place(weight) <= one_units()
        }),
    decreases n,
{
    lemma_one();
    if n > 0 {
        let k = (n - 1) as nat;
        lemma_decayed_grows(
            s,
            if m < n {
                m
            } else {
                k
            },
            k,
        );
        let (sum, weight) = decayed(s, k);
        let entry = s[n - 1];
        lemma_near_place(9, 10);
        lemma_near_places(9, 10, 1, 1);
        lemma_times_share(weight, near(9, 10));
        lemma_weighted(entry, weight, k, s);
        lemma_sum(sum, entry * weight);
    }
}

/// A weight is positive, so that what it weighs is a number.
proof fn lemma_weighted(entry: Value, weight: Value, k: nat, s: Seq<Value>)
    requires
        number(entry),
        0 < place(entry),
        weight == decayed(s, k).1,
    ensures
        number(entry * weight),
        0 <= place(entry * weight),
{
    lemma_weight_is_positive(s, k);
    lemma_commutes(entry, weight);
    lemma_factor_order(weight, entry, entry);
}

/// However many entries come before it, an entry has some weight.
proof fn lemma_weight_is_positive(s: Seq<Value>, k: nat)
    ensures
        finite(decayed(s, k).1),
        0 < place(decayed(s, k).1) <= one_units(),
    decreases k,
{
    lemma_one();
    if k > 0 {
        lemma_weight_is_positive(s, (k - 1) as nat);
        let weight = decayed(s, (k - 1) as nat).1;
        crate::order::lemma_near_large(9, 10);
        lemma_near_places(9, 10, 1, 1);
        crate::order::lemma_large_share(weight, near(9, 10));
        lemma_times_share(weight, near(9, 10));
    }
}

/// What a list adds up to, once it is sorted, is at least each of its entries, at least
/// what its two least make together, and that of one entry is that entry.
proof fn lemma_decayed_bounds(r: Seq<Value>, j: int, low: Value)
    requires
        0 <= j < r.len(),
        number(low),
        0 <= place(low),
        forall|i: int|
            0 <= i < r.len() ==> number(#[trigger] r[i]) && 0 < place(r[i]) && place(low) <= place(
                r[i],
            ),
    ensures
        ({
            let s = sorted_of(r, true);
            let d = decayed(s, s.len()).0;
            &&& number(d)
            &&& place(r[j]) <= place(d)
            &&& r.len() == 1 ==> place(d) <= place(r[j])
            &&& r.len() > 1 ==> number(low + low * near(9, 10)) && place(low + low * near(9, 10))
                <= place(d)
        }),
{
    let s = sorted_of(r, true);
    law_sorting_keeps_the_entries(r, true);
    assert forall|i: int| 0 <= i < s.len() implies number(#[trigger] s[i]) && 0 < place(s[i])
        && place(low) <= place(s[i]) by {
        lemma_contained(s, r, i);
    }
    lemma_one();
    lemma_contained(r, s, j);
    let i = choose|i: int| 0 <= i < s.len() && s[i] == r[j];
    if i > 0 {
        law_sorted_lists_are_in_order(r, true, 0, i);
        assert(place(s[i]) <= place(s[0]));
    }
    let first = s[0];
    lemma_times_one(first);
    lemma_sum(exactly(0), first);
    lemma_commutes(exactly(0), first);
    lemma_plus(first, exactly(0));
    if finite(first) {
        lemma_settle_fits(first);
    }
    reveal_with_fuel(decayed, 3);
    assert(decayed(s, 0) == (exactly(0), exactly(1)));
    assert(decayed(s, 1).0 == exactly(0) + first * exactly(1));
    lemma_weight_is_positive(s, 0);
    lemma_factor_order(exactly(1), first, first);
    lemma_commutes(exactly(1), first);
    assert(place(first) <= place(decayed(s, 1).0)) by {
        crate::signs::lemma_large_times(first, exactly(1));
        lemma_sum(exactly(0), first * exactly(1));
    }
    lemma_decayed_grows(s, 1, s.len());
    if r.len() > 1 {
        let tenths = near(9, 10);
        lemma_near_place(9, 10);
        lemma_near_places(1, 2, 9, 10);
        lemma_near_places(1, 64, 9, 10);
        lemma_dyadic(1);
        lemma_times_one(tenths);
        lemma_commutes(exactly(1), tenths);
        assert(decayed(s, 1).1 == exactly(1) * tenths);
        assert(decayed(s, 2).0 == decayed(s, 1).0 + s[1] * decayed(s, 1).1);
        lemma_weight_is_positive(s, 1);
        let weight = decayed(s, 1).1;
        lemma_factor_order(weight, low, s[1]);
        lemma_commutes(weight, low);
        lemma_commutes(weight, s[1]);
        lemma_sum(low, low * tenths);
        lemma_sum_order(low, low * tenths, decayed(s, 1).0, s[1] * weight);
        lemma_decayed_grows(s, 2, s.len());
    }
}

/// Whether `y` is what a weight between three quarters and one leaves of `x`.
spec fn weighed(x: Value, y: Value) -> bool {
    y == x || exists|w: Value|
        #![trigger x * w]
        y == x * w && finite(w) && place(near(75, 100)) <= place(w) <= one_units()
}

/// What lists of strain peaks are worth once the highest are reduced by weights between
/// three quarters and one.
proof fn lemma_peaks_bounds(peaks: Seq<Value>, r: Seq<Value>, k: int, low: Value)
    requires
        forall|i: int| 0 <= i < peaks.len() ==> proper(#[trigger] peaks[i]),
        0 <= k < peaks.len(),
        exactly(0).below(peaks[k]),
        number(low),
        0 <= place(low),
        forall|i: int|
            0 <= i < peaks.len() && exactly(0).below(peaks[i]) ==> low.at_most(#[trigger] peaks[i]),
        r.len() == positive_of(peaks).len(),
        forall|i: int|
            0 <= i < r.len() ==> weighed(sorted_of(positive_of(peaks), true)[i], #[trigger] r[i]),
    ensures
        ({
            let s = sorted_of(r, true);
            let d = decayed(s, s.len()).0;
            let least = low * near(75, 100);
            &&& (peaks[k] * near(75, 100)).at_most(d)
            &&& positive_of(peaks).len() == 1 ==> d.at_most(peaks[k])
            &&& positive_of(peaks).len() > 1 ==> (least + least * near(9, 10)).at_most(d)
        }),
{
    let p = |x: Value| exactly(0).below(x);
    let top = sorted_of(positive_of(peaks), true);
    let part = near(75, 100);
    lemma_one();
    lemma_weight(exactly(1));
    lemma_positive_top(peaks);
    law_sorting_keeps_the_entries(positive_of(peaks), true);
    peaks.lemma_filter_contains(p, k);
    let i = choose|i: int| 0 <= i < positive_of(peaks).len() && positive_of(peaks)[i] == peaks[k];
    lemma_contained(positive_of(peaks), top, i);
    let j = choose|j: int| 0 <= j < top.len() && top[j] == peaks[k];
    let least = low * part;
    lemma_commutes(low, part);
    lemma_factor_order(part, low, low);
    assert forall|i: int| 0 <= i < r.len() implies number(#[trigger] r[i]) && 0 < place(r[i])
        && place(top[i] * part) <= place(r[i]) && place(least) <= place(r[i]) && (finite(top[i])
        ==> place(r[i]) <= place(top[i])) by {
        let x = top[i];
        let w = choose|w: Value|
            #![trigger x * w]
            r[i] == x * w && finite(w) && place(near(75, 100)) <= place(w) <= one_units();
        lemma_contained(top, positive_of(peaks), i);
        lemma_low(peaks, x, low);
        lemma_inside(x);
        assert(from_on(x, x));
        if r[i] == x {
            lemma_part_from(x, x, part);
            lemma_factor_order(part, x, x);
        } else {
            lemma_multiply_from(x, x, w, part);
            lemma_commutes(x, w);
            lemma_factor_order(w, x, x);
            if finite(x) {
                lemma_times_share(x, w);
            }
        }
        lemma_commutes(x, part);
        lemma_factor_order(part, low, x);
        lemma_some_part(x);
    }
    assert forall|i: int| 0 <= i < r.len() implies number(#[trigger] r[i]) && 0 < place(r[i])
        && place(least) <= place(r[i]) by {
    }
    lemma_decayed_bounds(r, j, least);
    let s = sorted_of(r, true);
    let d = decayed(s, s.len()).0;
    lemma_commutes(peaks[k], part);
    lemma_factor_order(part, peaks[k], peaks[k]);
    lemma_order(peaks[k] * part, d);
    if positive_of(peaks).len() == 1 {
        lemma_inside(peaks[k]);
        lemma_inside(d);
        lemma_order(d, peaks[k]);
    } else {
        lemma_order(least + least * near(9, 10), d);
    }
}

/// Three quarters of a positive number are positive.
proof fn lemma_some_part(x: Value)
    requires
        number(x),
        0 < place(x),
    ensures
        number(x * near(75, 100)),
        0 < place(x * near(75, 100)),
{
    lemma_one();
    lemma_weight(exactly(1));
    crate::order::lemma_near_large(75, 100);
    crate::order::lemma_large_share(x, near(75, 100));
}

/// What no positive peak is below, none of them from the top is below.
proof fn lemma_low(peaks: Seq<Value>, x: Value, low: Value)
    requires
        positive_of(peaks).contains(x),
        number(x),
        number(low),
        forall|i: int|
            0 <= i < peaks.len() && exactly(0).below(peaks[i]) ==> low.at_most(#[trigger] peaks[i]),
    ensures
        place(low) <= place(x),
{
    let p = |x: Value| exactly(0).below(x);
    let i = choose|i: int| 0 <= i < positive_of(peaks).len() && positive_of(peaks)[i] == x;
    crate::osu::performance::peaks::lemma_positive(peaks);
    assert(peaks.contains(positive_of(peaks)[i]));
    let k = choose|k: int| 0 <= k < peaks.len() && peaks[k] == x;
    assert(exactly(0).below(peaks[k]));
    lemma_order(low, x);
}

/// Every strain peak counts: the difficulty of a list is at least three quarters of each
/// of its peaks. A single peak is worth no more than itself, and where there are more,
/// the second adds nine tenths of what it is worth.
pub proof fn law_every_peak_counts<F: Fn(Query<Double>) -> Double>(
    math: &Math<F>,
    peaks: Seq<Double>,
    k: int,
    low: Value,
)
    requires
        0 <= k < peaks.len(),
        exactly(0).below(peaks[k]@),
        number(low),
        exactly(0).at_most(low),
        forall|i: int|
            0 <= i < peaks.len() && exactly(0).below((#[trigger] peaks[i])@) ==> low.at_most(
                peaks[i]@,
            ),
    ensures
        ({
            let d = difficulty_value_of(math@, values(peaks));
            let least = low * near(75, 100);
            &&& (peaks[k]@ * near(75, 100)).at_most(d)
            &&& positive_of(values(peaks)).len() == 1 ==> d.at_most(peaks[k]@)
            &&& positive_of(values(peaks)).len() > 1 ==> (least + least * near(9, 10)).at_most(d)
        }),
{
    let t = math@;
    let v = values(peaks);
    let top = sorted_of(positive_of(v), true);
    law_lists_are_values(peaks);
    law_answers_are_values(math);
    law_sorting_keeps_the_entries(positive_of(v), true);
    lemma_one();
    lemma_order(exactly(0), low);
    let r = reduced_of(t, top);
    assert forall|i: int| 0 <= i < r.len() implies weighed(top[i], #[trigger] r[i]) by {
        if i < 10 {
            let share = exactly(i as nat) / exactly(10);
            lemma_weight(t.log10(between_of(exactly(1), near(75, 100), share)));
            let w = section_scale_of(t, i as nat);
            assert(r[i] == top[i] * w);
        }
    }
    assert forall|i: int| 0 <= i < v.len() && exactly(0).below(v[i]) implies low.at_most(
        #[trigger] v[i],
    ) by {
        assert(v[i] == peaks[i]@);
    }
    lemma_peaks_bounds(v, r, k, low);
}

/// The same of the peaks of one minute of a long map.
pub proof fn law_every_peak_counts_in_marathons<F: Fn(Query<Double>) -> Double>(
    math: &Math<F>,
    peaks: Seq<Double>,
    k: int,
    low: Value,
)
    requires
        0 <= k < peaks.len(),
        exactly(0).below(peaks[k]@),
        number(low),
        exactly(0).at_most(low),
        forall|i: int|
            0 <= i < peaks.len() && exactly(0).below((#[trigger] peaks[i])@) ==> low.at_most(
                peaks[i]@,
            ),
    ensures
        ({
            let d = peaks_difficulty_of(math@, values(peaks));
            let least = low * near(75, 100);
            &&& (peaks[k]@ * near(75, 100)).at_most(d)
            &&& positive_of(values(peaks)).len() == 1 ==> d.at_most(peaks[k]@)
            &&& positive_of(values(peaks)).len() > 1 ==> (least + least * near(9, 10)).at_most(d)
        }),
{
    let t = math@;
    let v = values(peaks);
    let top = sorted_of(positive_of(v), true);
    law_lists_are_values(peaks);
    law_answers_are_values(math);
    law_sorting_keeps_the_entries(positive_of(v), true);
    lemma_one();
    lemma_order(exactly(0), low);
    let r = scaled_of(t, top);
    assert forall|i: int| 0 <= i < r.len() implies weighed(top[i], #[trigger] r[i]) by {
        if i < 10 {
            let share = exactly(i as nat) / exactly(10);
            lemma_weight(t.log10(exactly(1) - (exactly(1) - near(75, 100)) * share));
            let w = peak_scale_of(t, i as nat);
            assert(r[i] == top[i] * w);
        }
    }
    assert forall|i: int| 0 <= i < v.len() && exactly(0).below(v[i]) implies low.at_most(
        #[trigger] v[i],
    ) by {
        assert(v[i] == peaks[i]@);
    }
    lemma_peaks_bounds(v, r, k, low);
}

/// What the stars of a performance are the cube root of.
pub open spec fn under_root_of(t: Table, performance: Value) -> Value {
    exactly(100_000) / t.power(exactly(2), exactly(1) / near(11, 10)) * performance
}

/// Whether the constants that the stars of a part are made of are positive numbers.
pub open spec fn makes_stars(t: Table) -> bool {
    let inner = exactly(100_000) / t.power(exactly(2), exactly(1) / near(11, 10));
    let outer = t.cbrt(near(92, 100)) * near(27, 1000);
    finite(inner) && 0 < place(inner) && finite(outer) && 0 < place(outer)
}

/// The stars of a part of a map do not fall where its performance rises, and are
/// positive where that is not tiny.
pub proof fn law_harder_parts_have_more_stars(t: Table, less: Value, more: Value)
    requires
        makes_stars(t),
        number(less),
        number(more),
        exactly(0).at_most(less),
        less.at_most(more),
        roots_grow(t, under_root_of(t, less), under_root_of(t, more)),
    ensures
        star_of_performance_of(t, less).at_most(star_of_performance_of(t, more)),
        near(1, 100_000).below(more) ==> exactly(0).below(star_of_performance_of(t, more)),
{
    lemma_one();
    lemma_near_place(1, 100_000);
    lemma_whole_place(4);
    lemma_order(exactly(0), less);
    lemma_order(less, more);
    lemma_order(less, near(1, 100_000));
    lemma_order(more, near(1, 100_000));
    lemma_order(near(1, 100_000), more);
    lemma_order(exactly(0), exactly(0));
    let inner = exactly(100_000) / t.power(exactly(2), exactly(1) / near(11, 10));
    let outer = t.cbrt(near(92, 100)) * near(27, 1000);
    lemma_factor_order(inner, less, more);
    let (a, b) = (t.cbrt(inner * less), t.cbrt(inner * more));
    lemma_sum(a, exactly(4));
    lemma_sum(b, exactly(4));
    lemma_sum_order(a, exactly(4), b, exactly(4));
    lemma_factor_order(outer, a + exactly(4), b + exactly(4));
    let (r, s) = (outer * (a + exactly(4)), outer * (b + exactly(4)));
    lemma_order(r, s);
    lemma_order(exactly(0), s);
}

} // verus!
