//! What patterns cost and earn under Relax.
use vstd::arithmetic::power2::pow2;
use vstd::prelude::*;

use crate::lists::{deviation, law_constant_lists_do_not_deviate, mean, squares, total};
use crate::order::{
    finite, lemma_clamped, lemma_dyadic, lemma_fraction, lemma_greater, lemma_inside, lemma_is_one,
    lemma_left_of_one, lemma_minus, lemma_minus_order, lemma_near_place, lemma_near_places,
    lemma_one, lemma_order, lemma_over, lemma_over_order, lemma_plus, lemma_proper,
    lemma_settle_dyadic, lemma_settle_fits, lemma_settle_order, lemma_times_one, lemma_times_order,
    lemma_times_share, lemma_whole_place, number, place,
};
use crate::osu::difficulty::evaluators::aim_rx::{
    alternating_severity_of, combine_farm_severity_of, cross_screen_nerf_of, farm_nerf_of,
    is_farm_of, less_dense_of, recent_farm_streak_of, recent_no_followpoint_streak_of,
    slop_severity_of, tech_boost_of,
};
use crate::osu::difficulty::evaluators::bonuses::{bpm_fade_of, uniformity_of};
use crate::osu::difficulty::evaluators::laws::is_share;
use crate::osu::difficulty::evaluators::windows::{
    alternation, every_second, pi, windowed_angle_stats_of, windowed_vel_stats_of, ANGLE_WINDOW,
};
use crate::osu::difficulty::object::{object_before, OsuDifficultyObject};
use crate::query::Table;
use crate::signs::lemma_commutes;
use crate::value::{exactly, near, one_units, Value};

verus! {

/// Where a share stands.
proof fn lemma_share(x: Value)
    requires
        is_share(x),
    ensures
        finite(x),
        0 <= place(x) <= one_units(),
{
    lemma_one();
    lemma_order(exactly(0), x);
    lemma_order(x, exactly(1));
    lemma_inside(exactly(0));
    lemma_inside(exactly(1));
    lemma_inside(x);
}

/// What is left of one after `m` 64ths and more.
proof fn lemma_left(x: Value, m: nat)
    requires
        finite(x),
        m <= 64,
        0 <= place(x) <= one_units(),
    ensures
        finite(exactly(1) - x),
        0 <= place(exactly(1) - x) <= one_units(),
        m * pow2(1068) <= place(x) ==> place(exactly(1) - x) <= (64 - m) * pow2(1068),
        place(x) <= m * pow2(1068) ==> (64 - m) * pow2(1068) <= place(exactly(1) - x),
{
    lemma_one();
    let (u, q) = (one_units() as int, pow2(1068) as int);
    lemma_settle_dyadic(64 - m);
    lemma_left_of_one(x);
    lemma_minus(exactly(1), x);
    assert((64 - m) * q == 64 * q - m * q) by (nonlinear_arith);
    if m * q <= place(x) {
        lemma_settle_order(u - place(x), 1, (64 - m) * q, 1);
    }
    if place(x) <= m * q {
        lemma_settle_order((64 - m) * q, 1, u - place(x), 1);
    }
}

/// Every severity counts: several together are at least each of them, to a 64th.
pub proof fn law_every_severity_counts(nx: Value, slop: Value, cross: Value, m: nat)
    requires
        is_share(nx),
        is_share(slop),
        is_share(cross),
        m <= 64,
        near(m, 64).at_most(nx) || near(m, 64).at_most(slop) || near(m, 64).at_most(cross),
    ensures
        near(m, 64).at_most(combine_farm_severity_of(nx, slop, cross)),
{
    lemma_one();
    lemma_share(nx);
    lemma_share(slop);
    lemma_share(cross);
    lemma_dyadic(m);
    lemma_order(near(m, 64), nx);
    lemma_order(near(m, 64), slop);
    lemma_order(near(m, 64), cross);
    lemma_left(nx, m);
    lemma_left(slop, m);
    lemma_left(cross, m);
    let (a, b, c) = (exactly(1) - nx, exactly(1) - slop, exactly(1) - cross);
    lemma_times_share(a, b);
    lemma_times_share(b, a);
    lemma_commutes(a, b);
    lemma_times_share(a * b, c);
    lemma_times_share(c, a * b);
    lemma_commutes(a * b, c);
    let q = pow2(1068) as int;
    assert(place(a * b * c) <= (64 - m) * q);
    lemma_left(a * b * c, (64 - m) as nat);
    lemma_order(near(m, 64), combine_farm_severity_of(nx, slop, cross));
}

/// What does not spread is uniform, what spreads by `scale` and more is not, and what
/// spreads more is no more uniform.
pub proof fn law_spread_takes_uniformity(less: Value, more: Value, scale: Value)
    requires
        number(less) && number(more),
        finite(scale),
        exactly(0).below(scale),
        exactly(0).at_most(less),
        less.at_most(more),
    ensures
        uniformity_of(more, scale).at_most(uniformity_of(less, scale)),
        less.at_most(exactly(0)) ==> exactly(1).at_most(uniformity_of(less, scale)),
        scale.at_most(more) ==> uniformity_of(more, scale).at_most(exactly(0)),
{
    lemma_one();
    let u = one_units();
    lemma_order(exactly(0), scale);
    lemma_order(exactly(0), less);
    lemma_order(less, exactly(0));
    lemma_order(less, more);
    lemma_order(scale, more);
    lemma_over(less, scale);
    lemma_over(more, scale);
    lemma_over_order(less, more, scale);
    lemma_clamped(less / scale, exactly(0), exactly(1));
    lemma_clamped(more / scale, exactly(0), exactly(1));
    let (a, b) = (
        (less / scale).clamped(exactly(0), exactly(1)),
        (more / scale).clamped(exactly(0), exactly(1)),
    );
    lemma_left(a, 0);
    lemma_left(b, 64);
    lemma_minus(exactly(1), a);
    lemma_minus(exactly(1), b);
    lemma_settle_order(u - place(b), 1, u - place(a), 1);
    lemma_greater(exactly(1) - a, exactly(0));
    lemma_greater(exactly(1) - b, exactly(0));
    if place(scale) <= place(more) {
        lemma_over_order(scale, more, scale);
        lemma_over(scale, scale);
        lemma_settle_fits(exactly(1));
        assert(u * place(scale) == (place(scale) * u) * 1) by (nonlinear_arith);
        lemma_settle_order(u as int, 1, place(scale) * u, place(scale) as nat);
        lemma_dyadic(64);
    }
    lemma_settle_dyadic(0);
    lemma_order(uniformity_of(more, scale), uniformity_of(less, scale));
    lemma_order(exactly(1), uniformity_of(less, scale));
    lemma_order(uniformity_of(more, scale), exactly(0));
}

/// A tempo up to `from` leaves all of a nerf, and one from `from + over` on nothing.
pub proof fn law_fast_tempos_fade_nerfs(eff_bpm: Value, from: nat, over: nat)
    requires
        number(eff_bpm),
        from <= 1000,
        0 < over <= 1000,
    ensures
        eff_bpm.at_most(exactly(from)) ==> exactly(1).at_most(
            bpm_fade_of(eff_bpm, exactly(from), exactly(over)),
        ),
        exactly(from + over).at_most(eff_bpm) ==> bpm_fade_of(
            eff_bpm,
            exactly(from),
            exactly(over),
        ).at_most(exactly(0)),
{
    lemma_one();
    let u = one_units();
    lemma_whole_place(from);
    lemma_whole_place(over);
    lemma_whole_place(from + over);
    assert((from + over) * u == from * u + over * u && 0 < over * u) by (nonlinear_arith)
        requires
            0 < over,
            u > 0,
    ;
    lemma_order(eff_bpm, exactly(from));
    lemma_order(exactly(from + over), eff_bpm);
    let rest = eff_bpm - exactly(from);
    lemma_minus(eff_bpm, exactly(from));
    lemma_over(rest, exactly(over));
    lemma_clamped(rest / exactly(over), exactly(0), exactly(1));
    let held = (rest / exactly(over)).clamped(exactly(0), exactly(1));
    lemma_settle_fits(exactly(0));
    lemma_settle_fits(exactly(over));
    if place(eff_bpm) <= from * u {
        lemma_minus_order(eff_bpm, exactly(from), exactly(from));
        lemma_minus(exactly(from), exactly(from));
    }
    if (from + over) * u <= place(eff_bpm) {
        lemma_minus_order(exactly(from + over), eff_bpm, exactly(from));
        lemma_minus(exactly(from + over), exactly(from));
        lemma_over_order(exactly(over), rest, exactly(over));
        lemma_fraction(over, over);
    }
    lemma_left(held, 0);
    lemma_left(held, 64);
    lemma_settle_dyadic(0);
    let r = bpm_fade_of(eff_bpm, exactly(from), exactly(over));
    lemma_order(exactly(1), r);
    lemma_order(r, exactly(0));
}

/// Farm is nerfed: on circles that are not small, alternating or constant motion takes
/// its severity of 35%, to a 64th.
pub proof fn law_farm_is_nerfed(
    t: Table,
    curr: OsuDifficultyObject,
    last: OsuDifficultyObject,
    objects: Seq<OsuDifficultyObject>,
    eff_bpm: Value,
    m: nat,
)
    requires
        m <= 64,
        number(curr.circle_radius@),
        near(369, 10).at_most(curr.circle_radius@),
        is_share(alternating_severity_of(curr, objects, eff_bpm)),
        is_share(slop_severity_of(curr, objects, eff_bpm)),
        is_share(cross_screen_nerf_of(curr, last) / near(15, 100)),
        near(m, 64).at_most(alternating_severity_of(curr, objects, eff_bpm)) || near(m, 64).at_most(
            slop_severity_of(curr, objects, eff_bpm),
        ),
    ensures
        (near(35, 100) * near(m, 64)).at_most(
            farm_nerf_of(t, curr, last, objects, eff_bpm, true),
        ),
{
    lemma_one();
    let (nx, slop, cross) = (
        alternating_severity_of(curr, objects, eff_bpm),
        slop_severity_of(curr, objects, eff_bpm),
        cross_screen_nerf_of(curr, last) / near(15, 100),
    );
    law_every_severity_counts(nx, slop, cross, m);
    crate::osu::difficulty::evaluators::laws::law_farm_severity_is_a_share(nx, slop, cross);
    let severity = combine_farm_severity_of(nx, slop, cross);
    lemma_share(severity);
    lemma_dyadic(m);
    lemma_order(near(m, 64), severity);
    lemma_near_place(35, 100);
    lemma_times_share(near(35, 100), severity);
    lemma_times_order(near(35, 100), near(m, 64), near(35, 100), severity);
    lemma_times_share_of(m);
    lemma_clamped(near(35, 100) * severity, exactly(0), near(35, 100));
    let held = (near(35, 100) * severity).clamped(exactly(0), near(35, 100));
    lemma_times_one(held);
    lemma_order(near(35, 100) * near(m, 64), held);
}

/// A number of 64ths of 35% is a number.
proof fn lemma_times_share_of(m: nat)
    requires
        m <= 64,
    ensures
        finite(near(35, 100) * near(m, 64)),
{
    lemma_one();
    lemma_near_place(35, 100);
    lemma_dyadic(m);
    lemma_near_places(m, 64, 1, 1);
    lemma_times_share(near(35, 100), near(m, 64));
}

/// Crossing the screen between 80 and 150 at a constant distance and no high tempo
/// takes three quarters of its nerf and more.
pub proof fn law_even_crossings_are_nerfed(curr: OsuDifficultyObject, last: OsuDifficultyObject)
    requires
        curr.lazy_jump_dist@ == last.lazy_jump_dist@,
        finite(curr.lazy_jump_dist@),
        exactly(80).below(curr.lazy_jump_dist@),
        curr.lazy_jump_dist@.at_most(exactly(150)),
        near(857, 10).at_most(curr.adjusted_delta_time@),
    ensures
        (near(15, 100) * near(48, 64)).at_most(cross_screen_nerf_of(curr, last)),
{
    lemma_one();
    let (u, q) = (one_units(), pow2(1068) as int);
    let d = curr.lazy_jump_dist@;
    lemma_whole_place(80);
    lemma_whole_place(70);
    lemma_whole_place(150);
    lemma_whole_place(280);
    lemma_whole_place(360);
    lemma_order(exactly(80), d);
    lemma_order(d, exactly(150));
    lemma_order(exactly(360), d);
    lemma_order(exactly(0), d);
    assert(d.greater(d) == d && d.lesser(d) == d) by {
        reveal(Value::greater);
        reveal(Value::lesser);
    }
    lemma_near_place(18, 100);
    lemma_near_places(1, 64, 18, 100);
    lemma_near_place(15, 100);
    lemma_near_places(15, 100, 1, 1);
    lemma_dyadic(1);
    lemma_dyadic(48);
    let none = d - d;
    lemma_minus(d, d);
    lemma_settle_fits(exactly(0));
    lemma_inside(exactly(0));
    lemma_inside(none);
    let ratio = none / d;
    lemma_over(none, d);
    lemma_inside(ratio);
    lemma_order(ratio, near(18, 100));
    let part = ratio / near(18, 100);
    lemma_over(ratio, near(18, 100));
    lemma_inside(part);
    lemma_left(part, 0);
    lemma_is_one(exactly(1) - part);
    let rest = d - exactly(80);
    lemma_minus(d, exactly(80));
    lemma_settle_fits(exactly(70));
    lemma_settle_order(place(d) - 80 * u, 1, (70 * u) as int, 1);
    lemma_settle_order(0, 1, place(d) - 80 * u, 1);
    let range = exactly(360) - exactly(80);
    lemma_minus(exactly(360), exactly(80));
    lemma_settle_fits(exactly(280));
    lemma_inside(exactly(280));
    lemma_inside(range);
    lemma_over(rest, range);
    lemma_inside(exactly(70));
    lemma_inside(rest);
    let p = place(rest);
    assert((p * u) * 1 <= (16 * q) * (280 * u)) by (nonlinear_arith)
        requires
            0 <= p <= 70 * u,
            u == 64 * q,
            q > 0,
    ;
    lemma_settle_dyadic(16);
    lemma_settle_order(p * u, (280 * u) as nat, 16 * q, 1);
    lemma_clamped(rest / range, exactly(0), exactly(1));
    let held = (rest / range).clamped(exactly(0), exactly(1));
    lemma_left(held, 16);
    let far = exactly(1) - held;
    lemma_times_one(far);
    lemma_commutes(exactly(1), far);
    lemma_times_share(near(15, 100), far);
    lemma_times_share(near(15, 100), near(48, 64));
    lemma_times_order(near(15, 100), near(48, 64), near(15, 100), far);
    lemma_order(near(15, 100) * near(48, 64), cross_screen_nerf_of(curr, last));
}

/// Dense streams lose more than half: where the tempo counts in full and the spacing is
/// as tight as can be, 29 64ths of the strain remain at most.
pub proof fn law_dense_streams_lose_most(t: Table, strain: Value, curr: OsuDifficultyObject)
    requires
        finite(strain),
        exactly(0).at_most(strain),
        exactly(0).below(curr.adjusted_delta_time@),
        t.reverse_lerp(
            t.milliseconds_to_bpm(curr.adjusted_delta_time@, None),
            exactly(200),
            exactly(280),
        ) == exactly(1),
        t.reverse_lerp(curr.lazy_jump_dist@, exactly(80), exactly(170)) == exactly(0),
    ensures
        less_dense_of(t, strain, curr).at_most(strain * near(29, 64)),
{
    lemma_one();
    lemma_order(exactly(0), strain);
    lemma_order(exactly(0), exactly(1));
    lemma_settle_dyadic(64);
    lemma_left(exactly(0), 0);
    lemma_is_one(exactly(1) - exactly(0));
    lemma_times_one(exactly(1));
    lemma_near_place(55, 100);
    lemma_near_places(35, 64, 55, 100);
    lemma_near_places(55, 100, 1, 1);
    lemma_dyadic(35);
    lemma_dyadic(29);
    lemma_times_one(near(55, 100));
    lemma_left(near(55, 100), 35);
    let left = exactly(1) - near(55, 100);
    lemma_near_places(29, 64, 1, 1);
    lemma_times_share(strain, left);
    lemma_times_share(strain, near(29, 64));
    lemma_times_order(strain, left, strain, near(29, 64));
    lemma_order(strain * left, strain * near(29, 64));
}

/// Technique is boosted in full where the angles deviate by one and more and the speeds
/// by half of their mean.
pub proof fn law_technique_is_boosted(
    curr: OsuDifficultyObject,
    objects: Seq<OsuDifficultyObject>,
)
    requires
        ({
            let (_mean, spread, n) = windowed_angle_stats_of(curr, objects, ANGLE_WINDOW as nat);
            n >= 4 && number(spread) && near(65, 64).at_most(spread)
        }),
        ({
            let (mean, spread, n) = windowed_vel_stats_of(curr, objects, ANGLE_WINDOW as nat);
            n >= 4 && exactly(0).below(mean) && number(spread / mean) && near(5, 10).at_most(
                spread / mean,
            )
        }),
    ensures
        tech_boost_of(curr, objects) == near(8, 100),
{
    lemma_one();
    let (u, q) = (one_units(), pow2(1068) as int);
    let (_mean, spread, n) = windowed_angle_stats_of(curr, objects, ANGLE_WINDOW as nat);
    let (mean, vel_spread, m) = windowed_vel_stats_of(curr, objects, ANGLE_WINDOW as nat);
    let cv = vel_spread / mean;
    lemma_near_place(5, 10);
    lemma_near_place(25, 100);
    lemma_near_place(6, 10);
    lemma_near_place(4, 10);
    lemma_near_place(8, 100);
    lemma_near_places(32, 64, 5, 10);
    lemma_near_places(16, 64, 25, 100);
    lemma_near_places(25, 100, 16, 64);
    lemma_near_places(6, 10, 39, 64);
    lemma_near_places(4, 10, 26, 64);
    lemma_near_places(1, 64, 4, 10);
    lemma_dyadic(1);
    lemma_dyadic(16);
    lemma_dyadic(26);
    lemma_dyadic(32);
    lemma_dyadic(39);
    lemma_dyadic(65);
    lemma_order(near(65, 64), spread);
    lemma_order(near(5, 10), cv);
    // The angles.
    lemma_minus_order(near(65, 64), spread, near(6, 10));
    lemma_minus(near(65, 64), near(6, 10));
    lemma_minus(spread, near(6, 10));
    lemma_settle_dyadic(26);
    lemma_settle_order(26 * q, 1, 65 * q - place(near(6, 10)), 1);
    let off = spread - near(6, 10);
    lemma_at_least_one(off, near(4, 10));
    lemma_clamped(off / near(4, 10), exactly(0), exactly(1));
    lemma_is_one((off / near(4, 10)).clamped(exactly(0), exactly(1)));
    // The speeds.
    lemma_minus_order(near(5, 10), cv, near(25, 100));
    lemma_minus(near(5, 10), near(25, 100));
    lemma_minus(cv, near(25, 100));
    lemma_settle_dyadic(16);
    lemma_settle_order(16 * q, 1, place(near(5, 10)) - place(near(25, 100)), 1);
    let fast = cv - near(25, 100);
    lemma_at_least_one(fast, near(25, 100));
    lemma_clamped(fast / near(25, 100), exactly(0), exactly(1));
    lemma_is_one((fast / near(25, 100)).clamped(exactly(0), exactly(1)));
    lemma_times_one(exactly(1));
    lemma_times_one(near(8, 100));
}

/// A number over one that is no larger is one at least.
proof fn lemma_at_least_one(x: Value, y: Value)
    requires
        number(x),
        finite(y),
        0 < place(y) <= place(x),
    ensures
        number(x / y),
        one_units() <= place(x / y),
{
    lemma_one();
    let u = one_units();
    lemma_over(x, y);
    lemma_over_order(y, x, y);
    lemma_over(y, y);
    lemma_settle_fits(exactly(1));
    assert(u * place(y) == (place(y) * u) * 1) by (nonlinear_arith);
    lemma_settle_order(u as int, 1, place(y) * u, place(y) as nat);
}

/// A streak of farm or of close objects goes on as long as they are, and ends where one
/// is not.
pub proof fn law_streaks_end_where_patterns_do(
    object: OsuDifficultyObject,
    objects: Seq<OsuDifficultyObject>,
    window: nat,
)
    requires
        window > 0,
    ensures
        recent_farm_streak_of(Some(object), objects, window) > 0 <==> is_farm_of(object, objects),
        recent_no_followpoint_streak_of(Some(object), objects, window) > 0
            <==> object.lazy_jump_dist@.at_most(exactly(112)),
        window > 1 ==> (recent_farm_streak_of(Some(object), objects, window) > 1 <==> {
            &&& is_farm_of(object, objects)
            &&& object_before(object, 0, objects) matches Some(before)
            &&& is_farm_of(before, objects)
        }),
{
    reveal_with_fuel(recent_farm_streak_of, 3);
}

/// Angles that alternate between two natural numbers are found to: the more, the farther
/// apart they are.
pub proof fn law_alternating_angles_are_found(angles: Seq<Value>, a: nat, b: nat)
    requires
        4 <= angles.len() <= 0x1_0000,
        a != b,
        a <= 0x1_0000 && b <= 0x1_0000,
        forall|i: int|
            0 <= i < angles.len() ==> #[trigger] angles[i] == if i % 2 == 0 {
                exactly(a)
            } else {
                exactly(b)
            },
    ensures
        near(20, 64).at_most(alternation(angles)),
{
    lemma_one();
    let (u, q) = (one_units(), pow2(1068) as int);
    let (evens, odds) = (every_second(angles, 0), every_second(angles, 1));
    lemma_constant(evens, a);
    lemma_constant(odds, b);
    lemma_whole_place(a);
    lemma_whole_place(b);
    let (m, n) = (mean(evens), mean(odds));
    lemma_minus(m, n);
    lemma_settle_fits(exactly(1));
    crate::order::lemma_negated(exactly(1));
    lemma_settle_fits(exactly(1).negated());
    assert((a > b ==> a * u - b * u >= u) && (a < b ==> a * u - b * u <= -u)) by (nonlinear_arith)
        requires
            u > 0,
    ;
    if a > b {
        lemma_settle_order(u as int, 1, a * u - b * u, 1);
    } else {
        lemma_settle_order(a * u - b * u, 1, -(u as int), 1);
    }
    let gap = (m - n).absolute();
    assert(number(gap) && u <= place(gap)) by {
        reveal(Value::absolute);
    }
    lemma_near_place(25, 100);
    lemma_near_place(3, 10);
    lemma_near_place(50, 100);
    lemma_near_places(1, 64, 25, 100);
    lemma_near_places(1, 64, 50, 100);
    lemma_near_places(3, 10, 63, 64);
    lemma_dyadic(1);
    lemma_dyadic(20);
    lemma_dyadic(63);
    lemma_dyadic(202);
    let (d, e) = (deviation(evens), deviation(odds));
    lemma_order(d, near(25, 100));
    lemma_order(e, near(25, 100));
    lemma_order(near(3, 10), gap);
    lemma_plus(d, e);
    lemma_settle_fits(exactly(0));
    lemma_over(d + e, near(50, 100));
    lemma_clamped((d + e) / near(50, 100), exactly(0), exactly(1));
    let spread = ((d + e) / near(50, 100)).clamped(exactly(0), exactly(1));
    lemma_settle_dyadic(64);
    lemma_left(spread, 0);
    lemma_is_one(exactly(1) - spread);
    lemma_near_place(884_279_719_003_555, 281_474_976_710_656);
    lemma_near_places(884_279_719_003_555, 281_474_976_710_656, 202, 64);
    lemma_near_places(1, 64, 884_279_719_003_555, 281_474_976_710_656);
    lemma_over(gap, pi());
    lemma_over_order(exactly(1), gap, pi());
    lemma_over(exactly(1), pi());
    let c = place(pi());
    lemma_settle_dyadic(20);
    assert((20 * q) * c <= (u * u) * 1) by (nonlinear_arith)
        requires
            0 < c <= 202 * q,
            u == 64 * q,
            q > 0,
    {
        assert((20 * q) * c <= (20 * q) * (202 * q));
        assert((20 * q) * (202 * q) == 4040 * (q * q));
        assert(u * u == 4096 * (q * q));
    };
    lemma_settle_order(20 * q, 1, (u * u) as int, c as nat);
    lemma_clamped(gap / pi(), exactly(0), exactly(1));
    let separation = (gap / pi()).clamped(exactly(0), exactly(1));
    lemma_times_one(separation);
    lemma_commutes(exactly(1), separation);
    lemma_order(near(20, 64), alternation(angles));
}

/// Where the mean and the deviation of a constant list stand.
proof fn lemma_constant(s: Seq<Value>, k: nat)
    requires
        0 < s.len() <= 0x1_0000,
        k <= 0x1_0000,
        forall|i: int| 0 <= i < s.len() ==> #[trigger] s[i] == exactly(k),
    ensures
        finite(mean(s)) && place(mean(s)) == k * one_units(),
        finite(deviation(s)) && place(deviation(s)) == 0,
{
    lemma_one();
    lemma_whole_place(k);
    let n = s.len();
    assert(n * k <= 0x1_0000_0000) by (nonlinear_arith)
        requires
            n <= 0x1_0000,
            k <= 0x1_0000,
    ;
    law_constant_lists_do_not_deviate(s, k);
    reveal(Value::equals);
    lemma_proper(total(s), exactly(n));
    lemma_proper(total(squares(s, mean(s))), exactly(n));
    reveal(Value::root);
}

} // verus!
