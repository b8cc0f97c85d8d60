//! Stars of lists of strain peaks, minute by minute.
use vstd::prelude::*;

use crate::bits::law_lists_are_values;
use crate::double::Double;
use crate::lists::values;
use crate::operators::{ratio, whole};
use crate::order::{
    finite, lemma_inside, lemma_large_share, lemma_left_of_one, lemma_lesser, lemma_near_large,
    lemma_near_places, lemma_one, lemma_order, lemma_plus, lemma_plus_order, lemma_settle_fits,
    lemma_sum, lemma_times, lemma_times_one, lemma_times_share, lemma_whole_place, number, place,
    proper,
};
use crate::query::{law_answers_are_values, Math, Query, Table};
use crate::sorting::{
    law_sorting_forgets_the_order, law_sorting_keeps_the_entries, lemma_contained, sorted,
    sorted_of,
};
use crate::value::{exactly, near, one_units, Value};

verus! {

/// The number of sections that a minute is rated in.
pub const SUBSECTIONS_PER_MINUTE: usize = 4;

/// The factor that keeps performance values at their usual scale.
pub open spec fn base_multiplier() -> Value {
    near(92, 100)
}

/// The number that is `share` of the way from `a` to `b`.
pub open spec fn between_of(a: Value, b: Value, share: Value) -> Value {
    a + (b - a) * share
}

/// The number that is `share` of the way from `a` to `b`.
pub fn between(a: Double, b: Double, share: Double) -> (r: Double)
    ensures
        r@ == between_of(a@, b@, share@),
{
    a + (b - a) * share
}

/// The peaks above zero.
pub open spec fn positive_of(peaks: Seq<Value>) -> Seq<Value> {
    peaks.filter(|x: Value| exactly(0).below(x))
}

/// The peaks above zero.
pub fn positive(peaks: &[Double]) -> (r: Vec<Double>)
    ensures
        values(r@) == positive_of(values(peaks@)),
        r@.len() <= peaks@.len(),
{
    let ghost p = |x: Value| exactly(0).below(x);
    let ghost s = values(peaks@);
    let mut out: Vec<Double> = Vec::new();
    let mut i: usize = 0;
    proof {
        reveal(Seq::filter);
        assert(s.take(0) =~= seq![]);
        assert(values(out@) =~= seq![]);
    }
    while i < peaks.len()
        invariant
            i <= peaks@.len(),
            out@.len() <= i,
            s == values(peaks@),
            p == (|x: Value| exactly(0).below(x)),
            values(out@) == s.take(i as int).filter(p),
        decreases peaks@.len() - i,
    {
        proof {
            reveal(Seq::filter);
            assert(s.take(i + 1).drop_last() =~= s.take(i as int));
        }
        if whole(0).below(peaks[i]) {
            let ghost before = out@;
            out.push(peaks[i]);
            proof {
                assert(values(out@) =~= values(before).push(peaks@[i as int]@));
            }
        }
        i = i + 1;
    }
    proof {
        assert(s.take(i as int) =~= s);
    }
    out
}

/// The sum of a list in which each entry weighs nine tenths of the one before
/// it, over the first `n` entries, and the weight of the next one.
pub open spec fn decayed(s: Seq<Value>, n: nat) -> (Value, Value)
    decreases n,
{
    if n == 0 {
        (exactly(0), exactly(1))
    } else {
        let (sum, weight) = decayed(s, (n - 1) as nat);
        (sum + s[n - 1] * weight, weight * near(9, 10))
    }
}

/// The sum of a list in which each entry weighs nine tenths of the one before
/// it.
pub fn decayed_sum(list: &Vec<Double>) -> (r: Double)
    ensures
        r@ == decayed(values(list@), list@.len()).0,
{
    let mut difficulty = whole(0);
    let mut weight = whole(1);
    let mut i: usize = 0;
    while i < list.len()
        invariant
            i <= list@.len(),
            (difficulty@, weight@) == decayed(values(list@), i as nat),
        decreases list@.len() - i,
    {
        difficulty = difficulty + list[i] * weight;
        weight = weight * ratio(9, 10);
        i = i + 1;
    }
    difficulty
}

/// How much of the peak at place `i` from the top counts: the ten highest are
/// reduced.
pub open spec fn section_scale_of(t: Table, i: nat) -> Value {
    let share = exactly(i) / exactly(10);
    let scale = t.log10(between_of(exactly(1), near(75, 100), share)).absolute();
    between_of(near(75, 100), exactly(1), scale.lesser(exactly(1)))
}

/// How much of the peak at place `i` from the top counts: the ten highest are
/// reduced.
pub fn section_scale<F: Fn(Query<Double>) -> Double>(math: &Math<F>, i: usize) -> (r: Double)
    requires
        math.sound(),
    ensures
        r@ == section_scale_of(math@, i as nat),
{
    let share = whole(i as u64) / whole(10);
    let scale = math.log10(between(whole(1), ratio(75, 100), share)).absolute();
    between(ratio(75, 100), whole(1), scale.lesser(whole(1)))
}

/// A list from the top with its ten highest entries reduced.
pub open spec fn reduced_of(t: Table, s: Seq<Value>) -> Seq<Value> {
    Seq::new(
        s.len(),
        |i: int|
            if i < 10 {
                s[i] * section_scale_of(t, i as nat)
            } else {
                s[i]
            },
    )
}

/// The difficulty of a list of strain peaks: the positive ones from the top,
/// the ten highest reduced, each worth nine tenths of the one before.
pub open spec fn difficulty_value_of(t: Table, peaks: Seq<Value>) -> Value {
    let reduced = sorted_of(reduced_of(t, sorted_of(positive_of(peaks), true)), true);
    decayed(reduced, reduced.len()).0
}

/// The difficulty of a list of strain peaks: the positive ones from the top,
/// the ten highest reduced, each worth nine tenths of the one before.
pub fn difficulty_value_from_peaks<F: Fn(Query<Double>) -> Double>(
    math: &Math<F>,
    peaks: &[Double],
) -> (r: Double)
    requires
        math.sound(),
    ensures
        r@ == difficulty_value_of(math@, values(peaks@)),
        exactly(0).below(r@) <==> positive_of(values(peaks@)).len() > 0,
        positive_of(values(peaks@)).len() == 0 ==> r@ == exactly(0),
{
    proof {
        law_difficulty_needs_a_peak(math, peaks@);
    }
    let top = sorted(positive(peaks).as_slice(), true);
    let ghost s = values(top@);
    let mut out: Vec<Double> = Vec::new();
    let mut i: usize = 0;
    while i < top.len()
        invariant
            math.sound(),
            i <= top@.len(),
            s == values(top@),
            out@.len() == i,
            forall|k: int| 0 <= k < i ==> (#[trigger] out@[k])@ == reduced_of(math@, s)[k],
        decreases top@.len() - i,
    {
        let peak = if i < 10 {
            top[i] * section_scale(math, i)
        } else {
            top[i]
        };
        out.push(peak);
        i = i + 1;
    }
    proof {
        assert(values(out@) =~= reduced_of(math@, s));
    }
    decayed_sum(&sorted(out.as_slice(), true))
}

/// The stars of a performance value.
pub open spec fn star_of_performance_of(t: Table, perf: Value) -> Value {
    if perf.at_most(near(1, 100_000)) {
        exactly(0)
    } else {
        t.cbrt(base_multiplier()) * near(27, 1000) * (t.cbrt(
            exactly(100_000) / t.power(exactly(2), exactly(1) / near(11, 10)) * perf,
        ) + exactly(4))
    }
}

/// The stars of a performance value.
pub fn star_of_performance<F: Fn(Query<Double>) -> Double>(
    math: &Math<F>,
    perf: Double,
) -> (r: Double)
    requires
        math.sound(),
    ensures
        r@ == star_of_performance_of(math@, perf@),
{
    if perf.at_most(ratio(1, 100_000)) {
        whole(0)
    } else {
        math.cbrt(ratio(92, 100)) * ratio(27, 1000) * (math.cbrt(
            whole(100_000) / math.power(whole(2), whole(1) / ratio(11, 10)) * perf,
        ) + whole(4))
    }
}

/// The rating of a difficulty value.
pub open spec fn strain_rating_of(value: Value) -> Value {
    value.root() * near(675, 10_000)
}

/// The rating of a difficulty value.
pub fn strain_rating(value: Double) -> (r: Double)
    ensures
        r@ == strain_rating_of(value@),
{
    value.root() * ratio(675, 10_000)
}

/// The performance of a list of strain peaks.
pub open spec fn peak_performance_of(t: Table, peaks: Seq<Value>) -> Value {
    t.strain_performance(strain_rating_of(difficulty_value_of(t, peaks)))
}

/// The performance of a list of strain peaks.
pub fn peak_performance<F: Fn(Query<Double>) -> Double>(
    math: &Math<F>,
    peaks: &[Double],
) -> (r: Double)
    requires
        math.sound(),
    ensures
        r@ == peak_performance_of(math@, values(peaks@)),
{
    math.strain_performance(strain_rating(difficulty_value_from_peaks(math, peaks)))
}

/// The stars of a list of strain peaks.
pub open spec fn star_from_peaks_of(t: Table, peaks: Seq<Value>) -> Value {
    star_of_performance_of(t, peak_performance_of(t, peaks))
}

/// The stars of a list of strain peaks.
pub fn star_from_peaks<F: Fn(Query<Double>) -> Double>(
    math: &Math<F>,
    peaks: &[Double],
) -> (r: Double)
    requires
        math.sound(),
    ensures
        r@ == star_from_peaks_of(math@, values(peaks@)),
{
    star_of_performance(math, peak_performance(math, peaks))
}

/// Where section `k` of `parts` begins in a list of `len` entries: the first
/// `len % parts` sections have one entry more than the others.
pub open spec fn section_start(len: nat, parts: nat, k: nat) -> nat {
    k * (len / parts) + if k < len % parts {
        k
    } else {
        len % parts
    }
}

/// The sections that a list of `len` entries is cut into.
pub open spec fn sections_of(len: nat, parts: nat) -> Seq<(nat, nat)> {
    Seq::new(
        if len == 0 {
            0
        } else {
            parts
        },
        |k: int| (section_start(len, parts, k as nat), section_start(len, parts, (k + 1) as nat)),
    )
}

/// A pair of places.
pub open spec fn as_section(p: (usize, usize)) -> (nat, nat) {
    (p.0 as nat, p.1 as nat)
}

/// Where sections begin grows with their number.
proof fn lemma_section_start(len: nat, parts: nat, k: nat)
    requires
        k < parts,
    ensures
        section_start(len, parts, 0) == 0,
        section_start(len, parts, parts) == len,
        section_start(len, parts, k + 1) == section_start(len, parts, k) + len / parts + if k < len
            % parts {
            1nat
        } else {
            0
        },
        section_start(len, parts, k + 1) <= len,
{
    let base = len / parts;
    vstd::arithmetic::div_mod::lemma_fundamental_div_mod(len as int, parts as int);
    assert((k + 1) * base == k * base + base) by (nonlinear_arith);
    assert(0 * base == 0) by (nonlinear_arith);
    assert(parts * base == parts * (len / parts));
    assert((k + 1) * base <= parts * base) by (nonlinear_arith)
        requires
            k + 1 <= parts,
    ;
    assert(len % parts < parts);
    if k + 1 < len % parts {
        assert(section_start(len, parts, k + 1) == (k + 1) * base + k + 1);
    }
}

/// Cuts a list of `len` entries into `parts` sections that are equally long, or
/// longer by one at the front.
pub fn partition_sections(len: usize, parts: usize) -> (r: Vec<(usize, usize)>)
    ensures
        r@.map_values(|p: (usize, usize)| as_section(p)) == sections_of(len as nat, parts as nat),
        r@.len() == (if len == 0 {
            0
        } else {
            parts as nat
        }),
        forall|k: int|
            0 <= k < r@.len() ==> (#[trigger] r@[k]).0 <= r@[k].1 <= len,
{
    let mut sections: Vec<(usize, usize)> = Vec::new();
    if parts == 0 || len == 0 {
        proof {
            assert(sections@.map_values(|p: (usize, usize)| as_section(p)) =~= sections_of(
                len as nat,
                parts as nat,
            ));
        }
        return sections;
    }
    let base: usize = len / parts;
    let remainder: usize = len % parts;
    let mut offset: usize = 0;
    let mut part: usize = 0;
    proof {
        lemma_section_start(len as nat, parts as nat, 0);
    }
    while part < parts
        invariant
            0 < parts,
            0 < len,
            part <= parts,
            base == len / parts,
            remainder == len % parts,
            offset == section_start(len as nat, parts as nat, part as nat),
            sections@.len() == part,
            forall|k: int|
                0 <= k < part ==> as_section(#[trigger] sections@[k]) == sections_of(
                    len as nat,
                    parts as nat,
                )[k] && sections@[k].0 <= sections@[k].1 <= len,
        decreases parts - part,
    {
        proof {
            lemma_section_start(len as nat, parts as nat, part as nat);
        }
        let size: usize = if part < remainder {
            base + 1
        } else {
            base
        };
        sections.push((offset, offset + size));
        offset = offset + size;
        part = part + 1;
    }
    proof {
        assert(sections@.map_values(|p: (usize, usize)| as_section(p)) =~= sections_of(
            len as nat,
            parts as nat,
        ));
    }
    sections
}

/// The sections cover a list without a gap: the first one begins at zero, each
/// one begins where the one before it ends, and the last one ends at `len`.
pub proof fn law_sections_cover(len: nat, parts: nat)
    requires
        len > 0,
        parts > 0,
    ensures
        sections_of(len, parts).len() == parts,
        sections_of(len, parts)[0].0 == 0,
        sections_of(len, parts)[parts - 1].1 == len,
        forall|k: int|
            0 <= k < parts - 1 ==> (#[trigger] sections_of(len, parts)[k]).1 == sections_of(
                len,
                parts,
            )[k + 1].0,
{
    lemma_section_start(len, parts, 0);
}

/// No two sections differ in length by more than one, and none is shorter than
/// one that comes after it.
pub proof fn law_sections_are_even(len: nat, parts: nat, i: int, j: int)
    requires
        0 <= i <= j < sections_of(len, parts).len(),
    ensures
        ({
            let (a, b) = sections_of(len, parts)[i];
            let (c, d) = sections_of(len, parts)[j];
            0 <= (b - a) - (d - c) <= 1
        }),
{
    lemma_section_start(len, parts, i as nat);
    lemma_section_start(len, parts, j as nat);
}

/// The number of minutes that `len` peaks take, one every 400 ms.
pub open spec fn minutes_of(len: nat) -> nat {
    (len + 149) / 150
}

/// The peaks of minute `k`.
pub open spec fn minute_of(peaks: Seq<Value>, k: nat) -> Seq<Value> {
    peaks.subrange(
        (k * 150) as int,
        if (k + 1) * 150 < peaks.len() {
            ((k + 1) * 150) as int
        } else {
            peaks.len() as int
        },
    )
}

/// The number of minutes that `len` peaks take.
pub fn minutes(len: usize) -> (r: usize)
    ensures
        r == minutes_of(len as nat),
{
    len / 150 + if len % 150 > 0 {
        1
    } else {
        0
    }
}

/// The values of a part of a list.
pub proof fn lemma_values_subrange(s: Seq<Double>, i: int, j: int)
    requires
        0 <= i <= j <= s.len(),
    ensures
        values(s.subrange(i, j)) == values(s).subrange(i, j),
{
    assert(values(s.subrange(i, j)) =~= values(s).subrange(i, j));
}

/// The place after the last peak of minute `k`.
pub fn minute_end(len: usize, k: usize) -> (r: usize)
    requires
        k * 150 < len,
    ensures
        k * 150 <= r <= len,
        r == if (k + 1) * 150 < len {
            (k + 1) * 150
        } else {
            len as int
        },
{
    if len - k * 150 > 150 {
        k * 150 + 150
    } else {
        len
    }
}

/// Positive peaks are not zero.
pub proof fn lemma_positive(peaks: Seq<Value>)
    ensures
        forall|i: int|
            0 <= i < positive_of(peaks).len() ==> {
                &&& exactly(0).below(#[trigger] positive_of(peaks)[i])
                &&& !positive_of(peaks)[i].equals(exactly(0))
                &&& peaks.contains(positive_of(peaks)[i])
            },
    decreases peaks.len(),
{
    reveal(Seq::filter);
    reveal(Value::below);
    reveal(Value::equals);
    if peaks.len() > 0 {
        let before = peaks.drop_last();
        lemma_positive(before);
        assert forall|i: int| 0 <= i < positive_of(peaks).len() implies {
            &&& exactly(0).below(#[trigger] positive_of(peaks)[i])
            &&& !positive_of(peaks)[i].equals(exactly(0))
            &&& peaks.contains(positive_of(peaks)[i])
        } by {
            if i < positive_of(before).len() {
                let x = positive_of(before)[i];
                assert(positive_of(peaks)[i] == x);
                let k = choose|k: int| 0 <= k < before.len() && before[k] == x;
                assert(peaks[k] == x);
            } else {
                assert(positive_of(peaks)[i] == peaks[peaks.len() - 1]);
            }
        }
    }
}

/// Lists with the same positive peaks have the same positive peaks from the top.
pub proof fn lemma_same_peaks(a: Seq<Value>, b: Seq<Value>)
    requires
        positive_of(a).to_multiset() == positive_of(b).to_multiset(),
    ensures
        sorted_of(positive_of(a), true) == sorted_of(positive_of(b), true),
{
    lemma_positive(a);
    law_sorting_forgets_the_order(positive_of(a), positive_of(b));
}

/// The difficulty of a list of strain peaks depends on nothing but which positive
/// peaks there are, and how often each: their order is of no matter, nor is what
/// is not positive.
pub proof fn law_difficulty_forgets_the_order(t: Table, a: Seq<Value>, b: Seq<Value>)
    requires
        positive_of(a).to_multiset() == positive_of(b).to_multiset(),
    ensures
        difficulty_value_of(t, a) == difficulty_value_of(t, b),
{
    lemma_same_peaks(a, b);
}

/// Where the weight of a reduced peak stands: above a half.
pub proof fn lemma_reduction(scale: Value)
    requires
        proper(scale),
    ensures
        ({
            let held = scale.absolute().lesser(exactly(1));
            let r = near(75, 100) + (exactly(1) - near(75, 100)) * held;
            finite(r) && one_units() < 2 * place(r)
        }),
{
    lemma_one();
    lemma_whole_place(2);
    lemma_near_large(75, 100);
    lemma_near_places(75, 100, 1, 1);
    let held = scale.absolute().lesser(exactly(1));
    reveal(Value::absolute);
    reveal(Value::lesser);
    if !(scale is Nan) {
        lemma_lesser(scale.absolute(), exactly(1));
        lemma_inside(exactly(1));
        lemma_inside(held);
    }
    lemma_left_of_one(near(75, 100));
    let rest = exactly(1) - near(75, 100);
    lemma_times_share(rest, held);
    lemma_sum(near(75, 100), rest * held);
    lemma_plus_order(near(75, 100), rest * held, exactly(1), exactly(1));
    lemma_plus(exactly(1), exactly(1));
    lemma_settle_fits(exactly(2));
    lemma_inside(exactly(2));
    lemma_inside(near(75, 100) + rest * held);
}

/// A sorted list of positive numbers has a positive sum, however its entries
/// decay, and an empty one has none.
pub proof fn lemma_decayed_sum(s: Seq<Value>)
    requires
        forall|i: int| 0 <= i < s.len() ==> number(#[trigger] s[i]) && 0 < place(s[i]),
    ensures
        ({
            let top = sorted_of(s, true);
            let r = decayed(top, top.len()).0;
            &&& top.len() == s.len()
            &&& number(r)
            &&& s.len() > 0 ==> 0 < place(r)
            &&& s.len() == 0 ==> r == exactly(0)
        }),
{
    let top = sorted_of(s, true);
    law_sorting_keeps_the_entries(s, true);
    assert forall|i: int| 0 <= i < top.len() implies number(#[trigger] top[i]) && 0 < place(
        top[i],
    ) by {
        lemma_contained(top, s, i);
    }
    lemma_one();
    lemma_decayed(top, top.len());
}

/// What a part of such a list adds up to, and the weight that is left.
proof fn lemma_decayed(s: Seq<Value>, n: nat)
    requires
        n <= s.len(),
        forall|i: int| 0 <= i < s.len() ==> number(#[trigger] s[i]) && 0 < place(s[i]),
    ensures
        ({
            let (sum, weight) = decayed(s, n);
            &&& number(sum) && 0 <= place(sum)
            &&& n > 0 ==> 0 < place(sum)
            &&& finite(weight) && 0 < place(weight) <= one_units()
        }),
    decreases n,
{
    lemma_one();
    if n > 0 {
        lemma_decayed(s, (n - 1) as nat);
        let (sum, weight) = decayed(s, (n - 1) as nat);
        let entry = s[n - 1];
        lemma_near_large(9, 10);
        lemma_near_places(9, 10, 1, 1);
        lemma_large_share(weight, near(9, 10));
        lemma_times_share(weight, near(9, 10));
        if n == 1 {
            lemma_times_one(entry);
        } else if finite(entry) {
            lemma_times(entry, weight);
        } else {
            reveal(Value::times);
        }
        lemma_sum(sum, entry * weight);
    }
}

/// A list of strain peaks has difficulty exactly where one of them is positive,
/// whatever is answered for logarithms.
pub proof fn law_difficulty_needs_a_peak<F: Fn(Query<Double>) -> Double>(
    math: &Math<F>,
    peaks: Seq<Double>,
)
    ensures
        exactly(0).below(difficulty_value_of(math@, values(peaks))) <==> positive_of(
            values(peaks),
        ).len() > 0,
        positive_of(values(peaks)).len() == 0 ==> difficulty_value_of(math@, values(peaks))
            == exactly(0),
{
    let t = math@;
    let top = sorted_of(positive_of(values(peaks)), true);
    law_lists_are_values(peaks);
    law_answers_are_values(math);
    lemma_positive_top(values(peaks));
    let reduced = reduced_of(t, top);
    assert forall|i: int| 0 <= i < reduced.len() implies number(#[trigger] reduced[i]) && 0 < place(
        reduced[i],
    ) by {
        if i < 10 {
            let share = exactly(i as nat) / exactly(10);
            lemma_reduction(t.log10(between_of(exactly(1), near(75, 100), share)));
            lemma_large_share(top[i], section_scale_of(t, i as nat));
        }
    }
    lemma_decayed_sum(reduced);
    lemma_one();
    lemma_order(exactly(0), difficulty_value_of(t, values(peaks)));
}

/// The positive peaks from the top are positive.
pub proof fn lemma_positive_top(peaks: Seq<Value>)
    requires
        forall|i: int| 0 <= i < peaks.len() ==> proper(#[trigger] peaks[i]),
    ensures
        ({
            let top = sorted_of(positive_of(peaks), true);
            &&& top.len() == positive_of(peaks).len()
            &&& forall|i: int| 0 <= i < top.len() ==> number(#[trigger] top[i]) && 0 < place(top[i])
        }),
{
    let top = sorted_of(positive_of(peaks), true);
    law_sorting_keeps_the_entries(positive_of(peaks), true);
    lemma_positive(peaks);
    lemma_one();
    assert forall|i: int| 0 <= i < top.len() implies number(#[trigger] top[i]) && 0 < place(
        top[i],
    ) by {
        lemma_contained(top, positive_of(peaks), i);
        assert(exactly(0).below(top[i])) by {
            let k = choose|k: int|
                0 <= k < positive_of(peaks).len() && positive_of(peaks)[k] == top[i];
            assert(exactly(0).below(positive_of(peaks)[k]));
        }
        assert(peaks.contains(top[i]));
        assert(!(top[i] is Nan)) by {
            reveal(Value::below);
        }
        lemma_order(exactly(0), top[i]);
    }
}

} // verus!
