//! What holds of the speeds of osu!taiko maps.
use vstd::prelude::*;

use crate::lists::{law_means_lie_between, values};
use crate::order::{
    finite, lemma_clamped, lemma_greater, lemma_lesser, lemma_near_place, lemma_near_places,
    lemma_one, lemma_order, lemma_over, lemma_proper, lemma_settle_fits, lemma_settle_order,
    lemma_whole_place, number, place,
};
use crate::signs::{lemma_commutes, lemma_factor_order};
use crate::taiko::performance::calculator::{
    closest, highest, largest, lowest, TaikoPerformanceCalculator,
};
use crate::value::{exactly, near, one_units, Value};

verus! {

/// Where the speed of a gap stands.
proof fn lemma_speed(gap: Value)
    requires
        number(gap),
    ensures
        ({
            let speed = TaikoPerformanceCalculator::delta_to_effective_speed_of(gap);
            &&& finite(speed)
            &&& place(gap) <= 0 ==> place(speed) == 0
            &&& 0 < place(gap) ==> 80 * one_units() <= place(speed) <= 320 * one_units()
        }),
{
    lemma_one();
    lemma_whole_place(80);
    lemma_whole_place(320);
    lemma_whole_place(15_000);
    lemma_order(gap, exactly(0));
    if 0 < place(gap) {
        let raw = exactly(15_000) / gap;
        lemma_proper(exactly(15_000), gap);
        if finite(gap) {
            lemma_over(exactly(15_000), gap);
        } else {
            assert(number(raw)) by {
                reveal(Value::over);
            }
        }
        lemma_clamped(raw, exactly(80), exactly(320));
    }
}

/// Shorter gaps are no slower: one of 46 ms and less takes the highest speed, and one of
/// 188 ms and more the lowest.
pub proof fn law_shorter_gaps_are_faster(short: Value, long: Value)
    requires
        finite(short) && finite(long),
        exactly(0).below(short),
        short.at_most(long),
    ensures
        ({
            let fast = TaikoPerformanceCalculator::delta_to_effective_speed_of(short);
            let slow = TaikoPerformanceCalculator::delta_to_effective_speed_of(long);
            &&& slow.at_most(fast)
            &&& short.at_most(exactly(46)) ==> exactly(320).at_most(fast)
            &&& exactly(188).at_most(long) ==> slow.at_most(exactly(80))
        }),
{
    lemma_one();
    let u = one_units();
    lemma_whole_place(46);
    lemma_whole_place(80);
    lemma_whole_place(188);
    lemma_whole_place(320);
    lemma_whole_place(15_000);
    lemma_order(exactly(0), short);
    lemma_order(short, exactly(0));
    lemma_order(short, long);
    lemma_order(long, exactly(0));
    lemma_order(short, exactly(46));
    lemma_order(exactly(188), long);
    let fast = TaikoPerformanceCalculator::delta_to_effective_speed_of(short);
    let slow = TaikoPerformanceCalculator::delta_to_effective_speed_of(long);
    let (p, q) = (place(short), place(long));
    lemma_over(exactly(15_000), short);
    lemma_over(exactly(15_000), long);
    let n = ((15_000 * u) * u) as int;
    assert(n * p <= n * q) by (nonlinear_arith)
        requires
            n >= 0,
            p <= q,
    ;
    lemma_settle_order(n, q as nat, n, p as nat);
    lemma_settle_fits(exactly(80));
    lemma_settle_fits(exactly(320));
    if p <= 46 * u {
        assert((320 * u) * p <= n * 1) by (nonlinear_arith)
            requires
                p <= 46 * u,
                u > 0,
                n == (15_000 * u) * u,
        ;
        lemma_settle_order((320 * u) as int, 1, n, p as nat);
    }
    if 188 * u <= q {
        assert(n * 1 <= (80 * u) * q) by (nonlinear_arith)
            requires
                188 * u <= q,
                u > 0,
                n == (15_000 * u) * u,
        ;
        lemma_settle_order(n, q as nat, (80 * u) as int, 1);
    }
    lemma_clamped(exactly(15_000) / short, exactly(80), exactly(320));
    lemma_clamped(exactly(15_000) / long, exactly(80), exactly(320));
    lemma_order(slow, fast);
    lemma_order(exactly(320), fast);
    lemma_order(slow, exactly(80));
}

/// The speeds of a map whose notes have finite times are finite, from zero to 320.
proof fn lemma_speeds(score: TaikoPerformanceCalculator)
    requires
        forall|i: int|
            0 <= i < score.object_timestamps@.len() ==> finite(
                (#[trigger] score.object_timestamps@[i])@,
            ),
    ensures
        score.compute_all_effective_speeds_of().len() > 0,
        forall|i: int|
            0 <= i < score.compute_all_effective_speeds_of().len() ==> {
                let speed = #[trigger] score.compute_all_effective_speeds_of()[i];
                finite(speed) && 0 <= place(speed) <= 320 * one_units()
            },
{
    lemma_one();
    lemma_whole_place(80);
    let s = score.compute_all_effective_speeds_of();
    let times = values(score.object_timestamps@);
    assert forall|i: int| 0 <= i < s.len() implies finite(#[trigger] s[i]) && 0 <= place(s[i])
        <= 320 * one_units() by {
        if times.len() >= 2 {
            assert(times[i] == score.object_timestamps@[i]@);
            assert(times[i + 1] == score.object_timestamps@[i + 1]@);
            lemma_proper(times[i + 1], times[i]);
            lemma_speed(times[i + 1] - times[i]);
        }
    }
}

/// The highest of numbers is no smaller than any, and is one of them or what it is at
/// least.
proof fn lemma_highest(from: Value, s: Seq<Value>)
    requires
        number(from),
        forall|i: int| 0 <= i < s.len() ==> number(#[trigger] s[i]),
    ensures
        number(highest(from, s)),
        place(from) <= place(highest(from, s)),
        forall|i: int| 0 <= i < s.len() ==> place(#[trigger] s[i]) <= place(highest(from, s)),
        highest(from, s) == from || s.contains(highest(from, s)),
    decreases s.len(),
{
    if s.len() > 0 {
        let before = s.drop_last();
        let last = s[s.len() - 1];
        assert forall|i: int| 0 <= i < before.len() implies number(#[trigger] before[i]) by {
            assert(before[i] == s[i]);
        }
        lemma_highest(from, before);
        let top = highest(from, before);
        lemma_greater(top, last);
        assert forall|i: int| 0 <= i < s.len() implies place(#[trigger] s[i]) <= place(
            highest(from, s),
        ) by {
            if i < before.len() {
                assert(before[i] == s[i]);
            }
        }
        reveal(Value::greater);
        if highest(from, s) == top && top != from {
            let k = choose|k: int| 0 <= k < before.len() && before[k] == top;
            assert(s[k] == top);
        }
    }
}

/// The lowest of numbers is no larger than any, and is one of them or what it is at most.
proof fn lemma_lowest(from: Value, s: Seq<Value>)
    requires
        number(from),
        forall|i: int| 0 <= i < s.len() ==> number(#[trigger] s[i]),
    ensures
        number(lowest(from, s)),
        place(lowest(from, s)) <= place(from),
        forall|i: int| 0 <= i < s.len() ==> place(lowest(from, s)) <= place(#[trigger] s[i]),
        lowest(from, s) == from || s.contains(lowest(from, s)),
    decreases s.len(),
{
    if s.len() > 0 {
        let before = s.drop_last();
        let last = s[s.len() - 1];
        assert forall|i: int| 0 <= i < before.len() implies number(#[trigger] before[i]) by {
            assert(before[i] == s[i]);
        }
        lemma_lowest(from, before);
        let bottom = lowest(from, before);
        lemma_lesser(bottom, last);
        assert forall|i: int| 0 <= i < s.len() implies place(lowest(from, s)) <= place(
            #[trigger] s[i],
        ) by {
            if i < before.len() {
                assert(before[i] == s[i]);
            }
        }
        reveal(Value::lesser);
        if lowest(from, s) == bottom && bottom != from {
            let k = choose|k: int| 0 <= k < before.len() && before[k] == bottom;
            assert(s[k] == bottom);
        }
    }
}

/// No speed of a map is above its highest nor below its lowest, which are speeds of it or
/// the least and the largest that there are, and its mean lies in the range of speeds.
pub proof fn law_speeds_lie_between(score: TaikoPerformanceCalculator, k: int)
    requires
        forall|i: int|
            0 <= i < score.object_timestamps@.len() ==> finite(
                (#[trigger] score.object_timestamps@[i])@,
            ),
        score.object_timestamps@.len() <= 0x1000_0000_0000,
        0 <= k < score.compute_all_effective_speeds_of().len(),
    ensures
        ({
            let s = score.compute_all_effective_speeds_of();
            let (low, high) = (
                score.lowest_effective_speed_of(),
                score.estimate_peak_effective_speed_of(),
            );
            &&& low.at_most(s[k]) && s[k].at_most(high)
            &&& high == exactly(80) || s.contains(high)
            &&& low == exactly(320) || s.contains(low)
            &&& exactly(0).at_most(score.estimate_average_effective_speed_of())
            &&& score.estimate_average_effective_speed_of().at_most(exactly(320))
        }),
{
    lemma_one();
    lemma_whole_place(80);
    lemma_whole_place(320);
    let s = score.compute_all_effective_speeds_of();
    lemma_speeds(score);
    lemma_highest(exactly(80), s);
    lemma_lowest(exactly(320), s);
    lemma_order(score.lowest_effective_speed_of(), s[k]);
    lemma_order(s[k], score.estimate_peak_effective_speed_of());
    assert forall|i: int| 0 <= i < s.len() implies number(#[trigger] s[i]) && exactly(0).at_most(
        s[i],
    ) && s[i].at_most(exactly(320)) by {
        lemma_order(exactly(0), s[i]);
        lemma_order(s[i], exactly(320));
    }
    law_means_lie_between(s, 0, 320);
}

/// How far the middle of gap `i` is from a time.
pub open spec fn distance_of(times: Seq<Value>, time: Value, i: int) -> Value {
    (time - (times[i] + times[i + 1]) / exactly(2)).absolute()
}

/// The gap of a map that counts for a time is one that is no farther from it than any:
/// its speed is the one that is found. Where none is a finite way off, it is 80.
pub proof fn law_the_closest_gap_counts(times: Seq<Value>, time: Value, n: nat)
    requires
        n < times.len(),
    ensures
        ({
            let (speed, least) = closest(times, time, n);
            &&& forall|i: int| 0 <= i < n ==> !(#[trigger] distance_of(times, time, i)).below(least)
            &&& (speed, least) == (exactly(80), largest()) || exists|i: int|
                0 <= i < n && #[trigger] distance_of(times, time, i) == least && speed
                    == TaikoPerformanceCalculator::delta_to_effective_speed_of(
                    times[i + 1] - times[i],
                )
        }),
    decreases n,
{
    if n > 0 {
        let k = n - 1;
        law_the_closest_gap_counts(times, time, k as nat);
        let (speed, least) = closest(times, time, k as nat);
        let (found, now) = closest(times, time, n);
        let here = distance_of(times, time, k);
        assert forall|i: int| 0 <= i < n implies !(#[trigger] distance_of(times, time, i)).below(
            now,
        ) by {
            if here.below(least) {
                lemma_below(distance_of(times, time, i), here, least);
            }
        }
        if !here.below(least) && (speed, least) != (exactly(80), largest()) {
            let i = choose|i: int|
                0 <= i < k && #[trigger] distance_of(times, time, i) == least && speed
                    == TaikoPerformanceCalculator::delta_to_effective_speed_of(
                    times[i + 1] - times[i],
                );
            assert(distance_of(times, time, i) == now);
        } else if here.below(least) {
            assert(distance_of(times, time, k) == now);
        }
    }
}

/// What is not below a number is not below a smaller one, and nothing is below itself.
proof fn lemma_below(x: Value, small: Value, large: Value)
    requires
        small.below(large),
        !x.below(large) || x == small,
    ensures
        !x.below(small),
{
    reveal(Value::below);
}

/// Misses where a map is slowest are in a slow section.
pub proof fn law_the_slowest_sections_are_slow(score: TaikoPerformanceCalculator, time: Value)
    requires
        forall|i: int|
            0 <= i < score.object_timestamps@.len() ==> finite(
                (#[trigger] score.object_timestamps@[i])@,
            ),
        score.object_timestamps@.len() >= 2,
        score.closest_speed_of(time).at_most(score.lowest_effective_speed_of()),
    ensures
        score.is_miss_on_slow_section_of(time),
{
    lemma_one();
    lemma_whole_place(320);
    let s = score.compute_all_effective_speeds_of();
    lemma_speeds(score);
    lemma_lowest(exactly(320), s);
    let low = score.lowest_effective_speed_of();
    let speed = score.closest_speed_of(time);
    assert(0 <= place(low)) by {
        if low != exactly(320) {
            let k = choose|k: int| 0 <= k < s.len() && s[k] == low;
        }
    }
    assert(number(speed)) by {
        lemma_closest(score, time);
        assert(!(speed is Nan)) by {
            reveal(Value::at_most);
        }
    }
    lemma_order(speed, low);
    lemma_near_place(115, 100);
    lemma_near_places(1, 1, 115, 100);
    lemma_more(low);
    lemma_order(speed, low * near(115, 100));
}

/// A number from zero on is no larger than 115% of it.
proof fn lemma_more(x: Value)
    requires
        number(x),
        0 <= place(x),
    ensures
        number(x * near(115, 100)),
        place(x) <= place(x * near(115, 100)),
{
    lemma_one();
    lemma_near_place(115, 100);
    lemma_near_places(1, 1, 115, 100);
    lemma_commutes(x, near(115, 100));
    lemma_factor_order(near(115, 100), x, x);
    if 0 < place(x) {
        crate::signs::lemma_large_times(x, near(115, 100));
    }
}

/// The speed that counts for a time is one that binary64 has.
proof fn lemma_closest(score: TaikoPerformanceCalculator, time: Value)
    requires
        forall|i: int|
            0 <= i < score.object_timestamps@.len() ==> finite(
                (#[trigger] score.object_timestamps@[i])@,
            ),
        score.object_timestamps@.len() >= 2,
    ensures
        number(score.closest_speed_of(time)),
{
    lemma_one();
    lemma_whole_place(80);
    let times = values(score.object_timestamps@);
    let n = (times.len() - 1) as nat;
    law_the_closest_gap_counts(times, time, n);
    let (speed, least) = closest(times, time, n);
    if (speed, least) != (exactly(80), largest()) {
        let i = choose|i: int|
            0 <= i < n && #[trigger] distance_of(times, time, i) == least && speed
                == TaikoPerformanceCalculator::delta_to_effective_speed_of(times[i + 1] - times[i]);
        assert(times[i] == score.object_timestamps@[i]@);
        assert(times[i + 1] == score.object_timestamps@[i + 1]@);
        lemma_proper(times[i + 1], times[i]);
        lemma_speed(times[i + 1] - times[i]);
    }
}

} // verus!
