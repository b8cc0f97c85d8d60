//! What density and consistency make of the objects of a map.
use vstd::arithmetic::power2::pow2;
use vstd::prelude::*;

use crate::order::{
    finite, lemma_clamped, lemma_dyadic, lemma_fraction, lemma_inside, lemma_is_one, lemma_minus,
    lemma_minus_order, lemma_near_place, lemma_near_places, lemma_negated, lemma_nothing,
    lemma_one, lemma_order, lemma_over, lemma_over_order, lemma_plus, lemma_settle_dyadic,
    lemma_settle_fits, lemma_settle_order, lemma_sum, lemma_times, lemma_times_one,
    lemma_times_share, lemma_whole_place, number, place,
};
use crate::osu::difficulty::skills::consistency::strictness_of;
use crate::osu::difficulty::skills::density::{
    close_penalty, density_level, effect_total, repeated_penalty, section_effect_of,
    spacing_level, speed_level, wide_bonus, DensityState,
};
use crate::signs::lemma_commutes;
use crate::value::{exactly, near, one_units, Value};

verus! {

/// A section with objects every 100 ms and more often is as dense as can be.
proof fn lemma_dense(interval: Value)
    requires
        finite(interval),
        0 < place(interval) <= 100 * one_units(),
    ensures
        density_level(interval) == exactly(1),
{
    lemma_one();
    let u = one_units();
    lemma_whole_place(2);
    lemma_whole_place(8);
    lemma_whole_place(10);
    lemma_whole_place(20);
    lemma_whole_place(1000);
    lemma_over(exactly(1000), interval);
    lemma_settle_fits(exactly(10));
    assert((10 * u) * place(interval) <= ((1000 * u) * u) * 1) by (nonlinear_arith)
        requires
            place(interval) <= 100 * u,
            u > 0,
    ;
    lemma_settle_order((10 * u) as int, 1, ((1000 * u) * u) as int, place(interval) as nat);
    let many = (exactly(1000) / interval).clamped(exactly(0), exactly(20));
    lemma_clamped(exactly(1000) / interval, exactly(0), exactly(20));
    lemma_minus_order(exactly(10), many, exactly(2));
    lemma_minus(exactly(10), exactly(2));
    lemma_minus(many, exactly(2));
    lemma_settle_fits(exactly(8));
    lemma_over_order(exactly(8), many - exactly(2), exactly(8));
    lemma_fraction(8, 8);
    lemma_over(many - exactly(2), exactly(8));
    lemma_clamped((many - exactly(2)) / exactly(8), exactly(0), exactly(1));
    lemma_is_one(density_level(interval));
}

/// A section with objects every 50 ms and more often is as fast as can be.
proof fn lemma_fast(interval: Value)
    requires
        finite(interval),
        0 < place(interval) <= 50 * one_units(),
    ensures
        speed_level(interval) == exactly(1),
{
    lemma_one();
    let u = one_units();
    lemma_whole_place(100);
    lemma_whole_place(150);
    lemma_minus(exactly(150), interval);
    lemma_settle_fits(exactly(100));
    lemma_settle_order((100 * u) as int, 1, 150 * u - place(interval), 1);
    let rest = exactly(150) - interval;
    lemma_over_order(exactly(100), rest, exactly(100));
    lemma_fraction(100, 100);
    lemma_over(rest, exactly(100));
    lemma_clamped(rest / exactly(100), exactly(0), exactly(1));
    lemma_is_one(speed_level(interval));
}

/// Three quarters and five quarters are exact.
proof fn lemma_quarters()
    ensures
        finite(near(75, 100)),
        finite(near(125, 100)),
        place(near(75, 100)) == 48 * pow2(1068),
        place(near(125, 100)) == 80 * pow2(1068),
        one_units() == 64 * pow2(1068),
        0 < pow2(1068),
{
    lemma_near_place(75, 100);
    lemma_near_place(125, 100);
    lemma_near_places(75, 100, 48, 64);
    lemma_near_places(48, 64, 75, 100);
    lemma_near_places(125, 100, 80, 64);
    lemma_near_places(80, 64, 125, 100);
    lemma_dyadic(48);
    lemma_dyadic(80);
}

/// A section with jumps of two diameters is as wide as can be.
proof fn lemma_wide(distance: Value)
    requires
        number(distance),
        200 * one_units() <= place(distance),
    ensures
        spacing_level(distance) == exactly(1),
{
    lemma_one();
    lemma_quarters();
    let (u, q) = (one_units(), pow2(1068) as int);
    lemma_whole_place(100);
    lemma_whole_place(200);
    lemma_whole_place(2);
    lemma_over_order(exactly(200), distance, exactly(100));
    lemma_over(distance, exactly(100));
    lemma_fraction(200, 100);
    lemma_settle_fits(exactly(2));
    lemma_settle_order((2 * u) as int, 1, (200 * u) as int, 100);
    let x = distance / exactly(100);
    lemma_minus_order(exactly(2), x, near(75, 100));
    lemma_minus(exactly(2), near(75, 100));
    lemma_minus(x, near(75, 100));
    lemma_settle_fits(near(125, 100));
    assert(2 * u - 48 * q == 80 * q);
    let y = x - near(75, 100);
    lemma_over_order(near(125, 100), y, near(125, 100));
    lemma_over(near(125, 100), near(125, 100));
    lemma_over(y, near(125, 100));
    lemma_settle_fits(exactly(1));
    lemma_settle_order(u as int, 1, (80 * q) * u, (80 * q) as nat);
    lemma_clamped(y / near(125, 100), exactly(0), exactly(1));
    lemma_is_one(spacing_level(distance));
}

/// A section with jumps of up to three quarters of a diameter is not wide at all.
proof fn lemma_narrow(distance: Value)
    requires
        finite(distance),
        place(distance) <= 75 * one_units(),
    ensures
        finite(spacing_level(distance)),
        place(spacing_level(distance)) == 0,
{
    lemma_one();
    lemma_quarters();
    let (u, q) = (one_units(), pow2(1068) as int);
    lemma_whole_place(100);
    lemma_whole_place(75);
    lemma_over_order(distance, exactly(75), exactly(100));
    lemma_over(distance, exactly(100));
    lemma_fraction(75, 100);
    lemma_settle_fits(near(75, 100));
    lemma_settle_order((75 * u) as int, 100, 48 * q, 1);
    let x = distance / exactly(100);
    lemma_minus_order(x, near(75, 100), near(75, 100));
    lemma_minus(near(75, 100), near(75, 100));
    lemma_minus(x, near(75, 100));
    lemma_settle_fits(exactly(0));
    let y = x - near(75, 100);
    lemma_over(y, near(125, 100));
    lemma_clamped(y / near(125, 100), exactly(0), exactly(1));
}

/// Wide, dense and fast sections without close objects raise the worth of aim.
pub proof fn law_wide_fast_sections_gain(objects: nat, interval: Value, distance: Value)
    requires
        0 < objects <= 0x20_0000_0000_0000,
        finite(interval),
        number(distance),
        exactly(0).below(interval),
        interval.at_most(exactly(50)),
        exactly(200).at_most(distance),
    ensures
        near(2, 64).at_most(section_effect_of(objects, interval, distance, 0, 0)),
{
    lemma_one();
    lemma_whole_place(50);
    lemma_whole_place(200);
    lemma_order(exactly(0), interval);
    lemma_order(interval, exactly(50));
    lemma_order(exactly(200), distance);
    lemma_dense(interval);
    lemma_fast(interval);
    lemma_wide(distance);
    lemma_near_place(32, 1000);
    lemma_near_place(8, 1000);
    lemma_near_place(10, 100);
    lemma_near_places(2, 64, 32, 1000);
    lemma_near_places(2, 64, 10, 100);
    lemma_near_places(8, 1000, 1, 1);
    lemma_near_places(32, 1000, 1, 1);
    lemma_near_place(2, 64);
    lemma_times_one(near(32, 1000));
    let sum = near(8, 1000) + near(32, 1000);
    lemma_sum(near(8, 1000), near(32, 1000));
    lemma_plus(near(8, 1000), near(32, 1000));
    lemma_whole_place(2);
    lemma_settle_fits(exactly(2));
    lemma_settle_order(
        place(near(8, 1000)) + place(near(32, 1000)),
        1,
        (2 * one_units()) as int,
        1,
    );
    lemma_inside(exactly(2));
    lemma_inside(sum);
    lemma_times_one(sum);
    lemma_commutes(sum, exactly(1));
    assert(wide_bonus(interval, distance) == sum);
    lemma_fraction(0, objects);
    let none = exactly(0) / exactly(objects);
    lemma_nothing(none, exactly(1));
    lemma_nothing(none * exactly(1), near(10, 100));
    lemma_near_place(4, 100);
    lemma_nothing(none, near(4, 100));
    let close = close_penalty(objects, interval, 0);
    let repeated = repeated_penalty(objects, 0);
    lemma_settle_fits(sum);
    lemma_minus(sum, close);
    lemma_inside(sum - close);
    lemma_minus(sum - close, repeated);
    lemma_negated(near(10, 100));
    lemma_clamped(sum - close - repeated, near(10, 100).negated(), near(10, 100));
    lemma_order(near(2, 64), section_effect_of(objects, interval, distance, 0, 0));
}

/// Dense sections of nothing but close objects lower the worth of aim.
pub proof fn law_close_dense_sections_lose(
    objects: nat,
    interval: Value,
    distance: Value,
    repeated: nat,
)
    requires
        0 < objects <= 0x20_0000_0000_0000,
        repeated <= objects,
        finite(interval),
        finite(distance),
        exactly(0).below(interval),
        interval.at_most(exactly(100)),
        distance.at_most(exactly(75)),
    ensures
        section_effect_of(objects, interval, distance, objects, repeated).at_most(
            near(6, 64).negated(),
        ),
{
    lemma_one();
    lemma_whole_place(100);
    lemma_whole_place(75);
    lemma_whole_place(150);
    lemma_order(exactly(0), interval);
    lemma_order(interval, exactly(100));
    lemma_order(distance, exactly(75));
    lemma_dense(interval);
    lemma_narrow(distance);
    lemma_near_place(32, 1000);
    lemma_near_place(8, 1000);
    lemma_near_place(10, 100);
    lemma_near_place(4, 100);
    lemma_near_place(6, 64);
    lemma_near_places(6, 64, 10, 100);
    lemma_near_places(4, 100, 1, 1);
    lemma_near_places(10, 100, 1, 1);
    lemma_near_places(8, 1000, 1, 1);
    lemma_near_places(32, 1000, 1, 1);
    // The bonus is nothing.
    lemma_minus(exactly(150), interval);
    lemma_over(exactly(150) - interval, exactly(100));
    lemma_clamped((exactly(150) - interval) / exactly(100), exactly(0), exactly(1));
    let speed = speed_level(interval);
    lemma_times_one(near(32, 1000));
    lemma_times_share(near(32, 1000), speed);
    let some = near(8, 1000) + near(32, 1000) * speed;
    lemma_sum(near(8, 1000), near(32, 1000) * speed);
    lemma_plus(near(8, 1000), near(32, 1000) * speed);
    lemma_whole_place(2);
    lemma_settle_fits(exactly(2));
    lemma_settle_order(
        place(near(8, 1000)) + place(near(32, 1000) * speed),
        1,
        (2 * one_units()) as int,
        1,
    );
    lemma_inside(exactly(2));
    lemma_inside(some);
    lemma_nothing(spacing_level(distance), some);
    let bonus = wide_bonus(interval, distance);
    // The penalties take a tenth and more.
    lemma_fraction(objects, objects);
    lemma_is_one(exactly(objects) / exactly(objects));
    lemma_times_one(exactly(1));
    lemma_times_one(near(10, 100));
    lemma_commutes(exactly(1), near(10, 100));
    let close = close_penalty(objects, interval, objects);
    assert(close == near(10, 100));
    lemma_fraction(repeated, objects);
    let again = repeated_penalty(objects, repeated);
    lemma_times_share(near(4, 100), exactly(repeated) / exactly(objects));
    lemma_commutes(near(4, 100), exactly(repeated) / exactly(objects));
    lemma_negated(near(10, 100));
    lemma_negated(near(6, 64));
    lemma_minus(bonus, close);
    lemma_settle_fits(near(10, 100).negated());
    let rest = bonus - close;
    lemma_inside(rest);
    lemma_inside(near(10, 100));
    lemma_minus(rest, again);
    lemma_settle_order(
        place(rest) - place(again),
        1,
        place(near(10, 100).negated()),
        1,
    );
    lemma_clamped(rest - again, near(10, 100).negated(), near(10, 100));
    lemma_order(
        section_effect_of(objects, interval, distance, objects, repeated),
        near(6, 64).negated(),
    );
}

/// A number of 64ths.
pub open spec fn sixty_fourths(m: int) -> Value {
    if m >= 0 {
        near(m as nat, 64)
    } else {
        near((-m) as nat, 64).negated()
    }
}

/// Where 64ths stand.
proof fn lemma_sixty_fourths(m: int)
    requires
        -0x1_0000 <= m <= 0x1_0000,
    ensures
        finite(sixty_fourths(m)),
        place(sixty_fourths(m)) == m * pow2(1068),
{
    if m >= 0 {
        lemma_dyadic(m as nat);
    } else {
        lemma_dyadic((-m) as nat);
        lemma_negated(near((-m) as nat, 64));
        assert(-((-m) * (pow2(1068) as int)) == m * pow2(1068)) by (nonlinear_arith);
    }
}

/// Effects that lie between `low` and `high` 64ths add up to what they make for every
/// object.
proof fn lemma_effects_between(s: Seq<(Value, nat)>, low: int, high: int)
    requires
        -6 <= low <= high <= 6,
        effect_total(s).1 <= 0x8000_0000_0000,
        forall|i: int|
            0 <= i < s.len() ==> {
                &&& finite((#[trigger] s[i]).0)
                &&& low * pow2(1068) <= place(s[i].0) <= high * pow2(1068)
            },
    ensures
        ({
            let (sum, count) = effect_total(s);
            let q = pow2(1068) as int;
            finite(sum) && (low * count) * q <= place(sum) <= (high * count) * q
        }),
    decreases s.len(),
{
    lemma_one();
    let q = pow2(1068) as int;
    if s.len() == 0 {
        assert((low * 0) * q == 0 && (high * 0) * q == 0) by (nonlinear_arith);
    } else {
        let (effect, n) = s.last();
        let (sum, count) = effect_total(s.drop_last());
        assert(s.last() == s[s.len() - 1]);
        lemma_effects_between(s.drop_last(), low, high);
        let u = one_units();
        assert(-6 * n <= low * n <= high * n <= 6 * n) by (nonlinear_arith)
            requires
                -6 <= low <= high <= 6,
        ;
        assert(-6 * (count + n) <= low * (count + n) <= high * (count + n) <= 6 * (count + n))
            by (nonlinear_arith)
            requires
                -6 <= low <= high <= 6,
        ;
        lemma_settle_dyadic(low * n);
        lemma_settle_dyadic(high * n);
        lemma_settle_dyadic(low * (count + n));
        lemma_settle_dyadic(high * (count + n));
        lemma_whole_place(n);
        lemma_times(effect, exactly(n));
        let p = place(effect);
        assert(((low * n) * q) * u <= (p * (n * u)) * 1 && (p * (n * u)) * 1 <= ((high * n) * q)
            * u) by (nonlinear_arith)
            requires
                low * q <= p <= high * q,
                u > 0,
        ;
        lemma_settle_order((low * n) * q, 1, p * (n * u), u);
        lemma_settle_order(p * (n * u), u, (high * n) * q, 1);
        let part = effect * exactly(n);
        lemma_settle_dyadic(-6 * n);
        lemma_settle_dyadic((6 * n) as int);
        lemma_settle_dyadic((6 * (count + n)) as int);
        assert(6 * n * q >= (high * n) * q && (low * n) * q >= -(6 * n * q)) by (nonlinear_arith)
            requires
                -6 * n <= low * n,
                high * n <= 6 * n,
                q > 0,
        ;
        lemma_inside(part);
        lemma_plus(sum, part);
        assert((low * (count + n)) * q == (low * count) * q + (low * n) * q) by (nonlinear_arith);
        assert((high * (count + n)) * q == (high * count) * q + (high * n) * q)
            by (nonlinear_arith);
        lemma_settle_order((low * (count + n)) * q, 1, place(sum) + place(part), 1);
        lemma_settle_order(place(sum) + place(part), 1, (high * (count + n)) * q, 1);
        assert(6 * (count + n) * q >= (high * (count + n)) * q && (low * (count + n)) * q >= -(6
            * (count + n) * q)) by (nonlinear_arith)
            requires
                -6 * (count + n) <= low * (count + n),
                high * (count + n) <= 6 * (count + n),
                q > 0,
        ;
        lemma_inside(sum + part);
    }
}

/// The factor on aim follows the sections of a map: where the effects of all of them
/// lie between `low` and `high` 64ths, it lies as far from one.
pub proof fn law_multiplier_follows_the_sections(state: DensityState, low: int, high: int)
    requires
        -6 <= low <= high <= 6,
        0 < effect_total(state.finished().section_effects).1 <= 0x8000_0000_0000,
        forall|i: int|
            0 <= i < state.finished().section_effects.len() ==> {
                let effect = (#[trigger] state.finished().section_effects[i]).0;
                finite(effect) && sixty_fourths(low).at_most(effect) && effect.at_most(
                    sixty_fourths(high),
                )
            },
    ensures
        sixty_fourths(64 + low).at_most(state.multiplier()),
        state.multiplier().at_most(sixty_fourths(64 + high)),
{
    lemma_one();
    let s = state.finished().section_effects;
    let (sum, count) = effect_total(s);
    let (u, q) = (one_units(), pow2(1068) as int);
    lemma_sixty_fourths(low);
    lemma_sixty_fourths(high);
    lemma_sixty_fourths(64 + low);
    lemma_sixty_fourths(64 + high);
    assert forall|i: int| 0 <= i < s.len() implies finite((#[trigger] s[i]).0) && low * q <= place(
        s[i].0,
    ) <= high * q by {
        lemma_order(sixty_fourths(low), s[i].0);
        lemma_order(s[i].0, sixty_fourths(high));
    }
    lemma_effects_between(s, low, high);
    lemma_settle_dyadic(low);
    lemma_settle_dyadic(high);
    lemma_settle_dyadic(64 + low);
    lemma_settle_dyadic(64 + high);
    lemma_whole_place(count);
    let p = place(sum);
    assert(count * u > 0) by (nonlinear_arith)
        requires
            count > 0,
            u > 0,
    ;
    lemma_over(sum, exactly(count));
    assert((low * q) * (count * u) <= (p * u) * 1 && (p * u) * 1 <= (high * q) * (count * u))
        by (nonlinear_arith)
        requires
            (low * count) * q <= p <= (high * count) * q,
            u > 0,
    ;
    lemma_settle_order(low * q, 1, p * u, (count * u) as nat);
    lemma_settle_order(p * u, (count * u) as nat, high * q, 1);
    let mean = sum / exactly(count);
    lemma_inside(sixty_fourths(low));
    lemma_inside(sixty_fourths(high));
    lemma_inside(mean);
    lemma_plus(exactly(1), mean);
    assert((64 + low) * q == 64 * q + low * q && (64 + high) * q == 64 * q + high * q)
        by (nonlinear_arith);
    lemma_settle_order((64 + low) * q, 1, u + place(mean), 1);
    lemma_settle_order(u + place(mean), 1, (64 + high) * q, 1);
    lemma_near_place(90, 100);
    lemma_near_place(110, 100);
    lemma_near_places(90, 100, 58, 64);
    lemma_near_places(70, 64, 110, 100);
    lemma_near_places(90, 100, 110, 100);
    lemma_dyadic(58);
    lemma_dyadic(70);
    assert(58 * q <= (64 + low) * q && (64 + low) * q <= (64 + high) * q && (64 + high) * q <= 70
        * q) by (nonlinear_arith)
        requires
            -6 <= low <= high <= 6,
            q > 0,
    ;
    lemma_clamped(exactly(1) + mean, near(90, 100), near(110, 100));
    lemma_order(sixty_fourths(64 + low), state.multiplier());
    lemma_order(state.multiplier(), sixty_fourths(64 + high));
}

/// The strictness of a map is the mean of that of its objects: on one side of a 64th
/// where their sum is on that side of as much for every object.
pub proof fn law_strictness_is_the_mean(sum: Value, count: nat, m: nat)
    requires
        number(sum),
        m <= 64,
        0 < count <= 0x8000_0000_0000,
    ensures
        (exactly(m * count) / exactly(64)).at_most(sum) ==> near(m, 64).at_most(
            strictness_of(sum, count),
        ),
        sum.at_most(exactly(m * count) / exactly(64)) ==> strictness_of(sum, count).at_most(
            near(m, 64),
        ),
{
    lemma_one();
    let (u, q) = (one_units(), pow2(1068) as int);
    assert(m * count <= 64 * count) by (nonlinear_arith)
        requires
            m <= 64,
    ;
    lemma_dyadic(m);
    lemma_settle_dyadic((m * count) as int);
    lemma_settle_dyadic(m as int);
    lemma_fraction(m * count, 64);
    let mark = exactly(m * count) / exactly(64);
    assert(((m * count) * u) * 1 == ((m * count) * q) * 64) by (nonlinear_arith)
        requires
            u == 64 * q,
    ;
    lemma_settle_order(((m * count) * u) as int, 64, (m * count) * q, 1);
    lemma_settle_order((m * count) * q, 1, ((m * count) * u) as int, 64);
    lemma_whole_place(count);
    assert(count * u > 0) by (nonlinear_arith)
        requires
            count > 0,
            u > 0,
    ;
    lemma_over(sum, exactly(count));
    lemma_inside(sum);
    lemma_inside(mark);
    lemma_over(mark, exactly(count));
    let p = (m * count) * q;
    assert((p * u) * 1 == (m * q) * (count * u)) by (nonlinear_arith)
        requires
            p == (m * count) * q,
    ;
    lemma_settle_order(p * u, (count * u) as nat, m * q, 1);
    lemma_settle_order(m * q, 1, p * u, (count * u) as nat);
    lemma_order(mark, sum);
    lemma_order(sum, mark);
    if place(mark) <= place(sum) {
        lemma_over_order(mark, sum, exactly(count));
    }
    if place(sum) <= place(mark) {
        lemma_over_order(sum, mark, exactly(count));
    }
    assert(0 <= m * q <= 64 * q) by (nonlinear_arith)
        requires
            m <= 64,
            q > 0,
    ;
    lemma_clamped(sum / exactly(count), exactly(0), exactly(1));
    lemma_order(near(m, 64), strictness_of(sum, count));
    lemma_order(strictness_of(sum, count), near(m, 64));
}

} // verus!
