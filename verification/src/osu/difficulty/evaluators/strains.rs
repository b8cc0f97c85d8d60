//! Strain is not negative, and every part of it counts.
use vstd::arithmetic::power2::{
    lemma2_to64, lemma_pow2_adds, lemma_pow2_pos, lemma_pow2_strictly_increases,
};
use vstd::prelude::*;

use crate::double::Double;
use crate::lists::{deviation, mean, total};
use crate::order::{
    finite, lemma_clamped, lemma_dyadic, lemma_fits, lemma_greater, lemma_inside, lemma_large_share,
    lemma_minus, lemma_minus_least, lemma_minus_order, lemma_nan, lemma_near_place,
    lemma_near_places, lemma_negated, lemma_one, lemma_order, lemma_over, lemma_plus, lemma_proper,
    lemma_settle_fits, lemma_settle_order, lemma_sum, lemma_times, lemma_times_one,
    lemma_times_share, lemma_whole_place, number, place, proper, settle,
};
use crate::osu::difficulty::evaluators::aim::{aim_strain_of, angle_bonuses_of, chained_strain_of};
use crate::osu::difficulty::evaluators::aim_rx::{
    alternating_severity_of, combine_farm_severity_of, cross_screen_nerf_of, farm_nerf_of,
    flow_nerf_of, less_dense_of, patterned_strain_of, raw_strain_of,
    recent_no_followpoint_streak_of, relax_angle_bonuses_of, relax_repeat_nerf_radius_factor_of,
    relax_strain_of, slider_bonus_of, slop_severity_of, tech_boost_of,
};
use crate::osu::difficulty::evaluators::bonuses::{
    acute_angle_bonus_of, bpm_fade_of, calc_acute_angle_bonus_of, calc_wide_angle_bonus_of,
    less_on_return_of, longer_time_of, nx_severity_of, radians_of, shorter_time_of,
    uniform_motion_of, uniformity_of, velocity_change_bonus_of, velocity_of, wiggle_share_of,
};
use crate::osu::difficulty::evaluators::windows::{
    alternation, angles_of, detect_nx_pattern_of, distances_of, every_second,
    law_alternation_is_a_share, pi, windowed_angle_stats_of, windowed_dist_stats_of,
    windowed_vel_stats_of, ANGLE_WINDOW,
};
use crate::osu::difficulty::object::{
    object_before, trail_of, NORMALIZED_DIAMETER, OsuDifficultyObject,
};
use crate::query::{law_answers_are_told, Math, Query, Table};
use crate::signs::{
    from_on, lemma_add, lemma_add_from, lemma_commutes, lemma_divide, lemma_factor_order,
    lemma_from_zero, lemma_held_up_to, lemma_left, lemma_left_from, lemma_magnitude,
    lemma_minus_proper, lemma_multiply, lemma_multiply_from, lemma_multiply_same, lemma_not_below,
    lemma_part_from, lemma_part_of, lemma_part_within, lemma_pick, lemma_small_over,
    lemma_up_to_one, not_negative, up_to,
};
use crate::value::{exactly, near, one_units, Value};

verus! {

/// What an answer has to be for strain not to be negative: that of a curve a share,
/// and a positive power of what is not negative not negative either. It need not be
/// a number.
pub open spec fn is_tame(q: Query<Value>, v: Value) -> bool {
    match q {
        Query::Smoothstep { x, start, end } => up_to(v, exactly(1)),
        Query::Smootherstep { x, start, end } => up_to(v, exactly(1)),
        Query::ReverseLerp { x, start, end } => up_to(v, exactly(1)),
        Query::Power { base, exponent } => not_negative(base) && number(exponent) && 0 <= place(
            exponent,
        ) ==> not_negative(v),
        Query::Exp { x } => proper(x) && (x is Nan || place(x) <= 0) ==> up_to(v, exactly(1)),
        Query::Distance { from_x, from_y, to_x, to_y } => not_negative(v),
        Query::ShortOfOne { distance } => not_negative(distance) && distance.below(exactly(1))
            ==> up_to(v, exactly(1)),
        _ => true,
    }
}

/// Whether every answer of a function is like that.
pub open spec fn answers_tamely<F: Fn(Query<Double>) -> Double>(f: F) -> bool {
    forall|query: Query<Double>, r: Double|
        #[trigger] call_ensures(f, (query,), r) ==> is_tame(query@, r@)
}

/// Whether every answer of a table is like that.
spec fn curves_are_tame(t: Table) -> bool {
    forall|q: Query<Value>| is_tame(q, #[trigger] (t.answer)(q))
}

/// The table of a function that answers tamely is tame.
proof fn lemma_tame<F: Fn(Query<Double>) -> Double>(math: &Math<F>)
    requires
        answers_tamely(math.ask),
    ensures
        curves_are_tame(math@),
{
    let p = |q: Query<Value>, v: Value| is_tame(q, v);
    lemma_one();
    law_answers_are_told(math, p);
    assert forall|q: Query<Value>| is_tame(q, #[trigger] (math@.answer)(q)) by {
        assert(p(q, (math@.answer)(q)));
    }
}

/// Whether the distances of an object are finite and not negative, and its times
/// positive.
pub open spec fn measured(object: OsuDifficultyObject) -> bool {
    &&& finite(object.lazy_jump_dist@) && 0 <= place(object.lazy_jump_dist@)
    &&& finite(object.travel_dist@) && 0 <= place(object.travel_dist@)
    &&& finite(object.min_jump_dist@) && 0 <= place(object.min_jump_dist@)
    &&& finite(object.small_circle_bonus@) && 0 <= place(object.small_circle_bonus@)
    &&& finite(object.adjusted_delta_time@) && 0 < place(object.adjusted_delta_time@)
    &&& finite(object.min_jump_time@) && 0 < place(object.min_jump_time@)
    &&& object.is_slider ==> finite(object.travel_time@) && 0 < place(object.travel_time@)
}

/// Velocities are not negative.
proof fn lemma_velocity(
    curr: OsuDifficultyObject,
    before: OsuDifficultyObject,
    with_sliders: bool,
)
    requires
        measured(curr),
        measured(before),
    ensures
        not_negative(velocity_of(curr, before, with_sliders)),
{
    lemma_divide(curr.lazy_jump_dist@, curr.adjusted_delta_time@);
    if before.is_slider && with_sliders {
        lemma_divide(before.travel_dist@, before.travel_time@);
        lemma_divide(curr.min_jump_dist@, curr.min_jump_time@);
        let travel_vel = before.travel_dist@ / before.travel_time@;
        let movement_vel = curr.min_jump_dist@ / curr.min_jump_time@;
        lemma_add(movement_vel, travel_vel);
        lemma_pick(curr.lazy_jump_dist@ / curr.adjusted_delta_time@, movement_vel + travel_vel);
    }
}

/// The bonus of an acute angle is not negative.
proof fn lemma_acute(
    t: Table,
    curr: OsuDifficultyObject,
    last: OsuDifficultyObject,
    curr_angle: Value,
    last_angle: Value,
    angle_bonus: Value,
)
    requires
        curves_are_tame(t),
        not_negative(angle_bonus),
    ensures
        not_negative(
            acute_angle_bonus_of(t, curr, last, curr_angle, last_angle, angle_bonus),
        ),
{
    lemma_one();
    lemma_whole_place(3);
    lemma_near_place(8, 100);
    lemma_near_place(92, 100);
    let raw = calc_acute_angle_bonus_of(t, curr_angle);
    let before = t.power(calc_acute_angle_bonus_of(t, last_angle), exactly(3));
    let least = raw.lesser(before);
    let rest = near(8, 100) + near(92, 100) * (exactly(1) - least);
    let faded = raw * rest;
    let tempo = t.smootherstep(
        t.milliseconds_to_bpm(curr.adjusted_delta_time@, Some(2)),
        exactly(300),
        exactly(400),
    );
    let spacing = t.smootherstep(
        curr.lazy_jump_dist@,
        exactly(NORMALIZED_DIAMETER as nat),
        exactly((NORMALIZED_DIAMETER * 2) as nat),
    );
    lemma_multiply(angle_bonus, tempo);
    lemma_multiply(angle_bonus * tempo, spacing);
    if raw is Nan {
        lemma_nan(raw, rest);
        lemma_nan(faded, angle_bonus * tempo * spacing);
    } else {
        assert(up_to(least, exactly(1))) by {
            reveal(Value::lesser);
            reveal(Value::below);
            if !(before is Nan) {
                lemma_order(before, raw);
            }
        }
        lemma_left(exactly(1), least);
        lemma_multiply(near(92, 100), exactly(1) - least);
        lemma_add(near(8, 100), near(92, 100) * (exactly(1) - least));
        lemma_multiply(raw, rest);
        lemma_multiply(faded, angle_bonus * tempo * spacing);
    }
}

/// A share of a wiggle is not negative.
proof fn lemma_wiggle_share(t: Table, share: Value, object: OsuDifficultyObject, angle: Value)
    requires
        curves_are_tame(t),
        not_negative(share),
    ensures
        not_negative(wiggle_share_of(t, share, object, angle)),
{
    lemma_near_place(18, 10);
    let spacing = t.smootherstep(object.lazy_jump_dist@, exactly(50), exactly(100));
    let far = t.reverse_lerp(object.lazy_jump_dist@, exactly(300), exactly(100));
    let turn = t.smootherstep(angle, radians_of(110), radians_of(60));
    lemma_multiply(share, spacing);
    lemma_multiply(share * spacing, t.power(far, near(18, 10)));
    lemma_multiply(share * spacing * t.power(far, near(18, 10)), turn);
}

/// A wide bonus is not negative where the object before the last one is looked at.
proof fn lemma_less_on_return(
    t: Table,
    wide: Value,
    curr: OsuDifficultyObject,
    last: OsuDifficultyObject,
    objects: Seq<OsuDifficultyObject>,
)
    requires
        curves_are_tame(t),
        not_negative(wide),
    ensures
        not_negative(less_on_return_of(t, wide, curr, last, objects)),
{
    lemma_one();
    lemma_near_place(35, 100);
    lemma_near_places(35, 100, 1, 1);
    match object_before(curr, 2, objects) {
        Some(older) => {
            let distance = t.distance(last.pos_x@, last.pos_y@, older.pos_x@, older.pos_y@);
            if distance.below(exactly(1)) {
                let short = t.short_of_one(distance);
                lemma_part_of(near(35, 100), short);
                lemma_left(exactly(1), near(35, 100) * short);
                lemma_multiply(wide, exactly(1) - near(35, 100) * short);
            }
        },
        None => {},
    }
}

/// The longer and the shorter of two positive times are positive.
proof fn lemma_times_between(curr: OsuDifficultyObject, last: OsuDifficultyObject)
    requires
        measured(curr),
        measured(last),
    ensures
        number(longer_time_of(curr, last)) && 0 < place(longer_time_of(curr, last)),
        number(shorter_time_of(curr, last)) && 0 < place(shorter_time_of(curr, last)),
{
    reveal(Value::greater);
    reveal(Value::lesser);
}

/// The bonus for a change of speed is not negative.
proof fn lemma_velocity_change(
    t: Table,
    curr: OsuDifficultyObject,
    last: OsuDifficultyObject,
    last_last: OsuDifficultyObject,
    curr_vel: Value,
    prev_vel: Value,
)
    requires
        curves_are_tame(t),
        measured(curr),
        measured(last),
        measured(last_last),
    ensures
        not_negative(velocity_change_bonus_of(t, curr, last, last_last, curr_vel, prev_vel)),
{
    lemma_one();
    lemma_whole_place(2);
    lemma_whole_place(100);
    lemma_near_place(125, 100);
    lemma_times_between(curr, last);
    let before = (last.lazy_jump_dist@ + last_last.travel_dist@) / last.adjusted_delta_time@;
    let now = (curr.lazy_jump_dist@ + last.travel_dist@) / curr.adjusted_delta_time@;
    lemma_add(last.lazy_jump_dist@, last_last.travel_dist@);
    lemma_divide(last.lazy_jump_dist@ + last_last.travel_dist@, last.adjusted_delta_time@);
    lemma_add(curr.lazy_jump_dist@, last.travel_dist@);
    lemma_divide(curr.lazy_jump_dist@ + last.travel_dist@, curr.adjusted_delta_time@);
    let change = (before - now).absolute();
    lemma_minus_proper(before, now);
    lemma_magnitude(before - now);
    let dist_ratio = t.smoothstep(change / before.greater(now), exactly(0), exactly(1));
    let width = exactly(100) * near(125, 100);
    lemma_multiply(exactly(100), near(125, 100));
    lemma_divide(width, shorter_time_of(curr, last));
    let buff = (width / shorter_time_of(curr, last)).lesser(change);
    lemma_pick(width / shorter_time_of(curr, last), change);
    let bonus_base = shorter_time_of(curr, last) / longer_time_of(curr, last);
    lemma_divide(shorter_time_of(curr, last), longer_time_of(curr, last));
    lemma_multiply(buff, dist_ratio);
    lemma_multiply(buff * dist_ratio, t.power(bonus_base, exactly(2)));
}

/// The bonus for following a slider is not negative.
proof fn lemma_slider(last: OsuDifficultyObject)
    requires
        measured(last),
    ensures
        not_negative(slider_bonus_of(last)),
{
    lemma_one();
    lemma_near_place(55, 100);
    lemma_near_place(45, 100);
    if last.is_slider {
        let travel_vel = last.travel_dist@ / last.travel_time@;
        lemma_divide(last.travel_dist@, last.travel_time@);
        lemma_proper(travel_vel, near(55, 100));
        lemma_held_up_to(travel_vel / near(55, 100), exactly(1));
        let share = (travel_vel / near(55, 100)).clamped(exactly(0), exactly(1));
        lemma_multiply(near(45, 100), share);
        lemma_add(near(55, 100), near(45, 100) * share);
        lemma_multiply(travel_vel, near(55, 100) + near(45, 100) * share);
    }
}

/// How a strain is put together of its parts: none makes it negative.
proof fn lemma_combined(
    curr_vel: Value,
    wiggle: Value,
    change: Value,
    turn: Value,
    circle: Value,
    slider: Value,
    factors: (Value, Value, Value),
)
    requires
        not_negative(curr_vel),
        not_negative(wiggle),
        not_negative(change),
        not_negative(turn),
        not_negative(circle),
        not_negative(slider),
        not_negative(factors.0),
        not_negative(factors.1),
        not_negative(factors.2),
    ensures
        ({
            let moved = curr_vel + wiggle * factors.0 + change * factors.1;
            let turned = (moved + turn) * circle;
            not_negative(turned) && not_negative(turned + slider * factors.2)
        }),
{
    lemma_multiply(wiggle, factors.0);
    lemma_add(curr_vel, wiggle * factors.0);
    lemma_multiply(change, factors.1);
    let moved = curr_vel + wiggle * factors.0 + change * factors.1;
    lemma_add(curr_vel + wiggle * factors.0, change * factors.1);
    lemma_add(moved, turn);
    lemma_multiply(moved + turn, circle);
    lemma_multiply(slider, factors.2);
    lemma_add((moved + turn) * circle, slider * factors.2);
}

/// The bonuses of angles under Relax are not negative.
proof fn lemma_relax_angles(
    t: Table,
    curr: OsuDifficultyObject,
    last: OsuDifficultyObject,
    objects: Seq<OsuDifficultyObject>,
    curr_angle: Value,
    last_angle: Value,
    angle_bonus: Value,
)
    requires
        curves_are_tame(t),
        not_negative(angle_bonus),
    ensures
        ({
            let r = relax_angle_bonuses_of(
                t,
                curr,
                last,
                objects,
                curr_angle,
                last_angle,
                angle_bonus,
            );
            not_negative(r.0) && not_negative(r.1) && not_negative(r.2)
        }),
{
    lemma_one();
    lemma_near_place(25, 100);
    let (_mean, win_stddev, win_n) = windowed_angle_stats_of(curr, objects, ANGLE_WINDOW as nat);
    lemma_proper(win_stddev, near(12, 10));
    lemma_held_up_to(win_stddev / near(12, 10), exactly(1));
    let variance_factor = if win_n >= 3 {
        (win_stddev / near(12, 10)).clamped(exactly(0), exactly(1))
    } else {
        exactly(1)
    };
    lemma_left(exactly(1), variance_factor);
    let nerf = (exactly(1) - variance_factor) * near(25, 100);
    lemma_multiply(exactly(1) - variance_factor, near(25, 100));
    lemma_minus_proper(exactly(1), nerf);
    lemma_from_zero(exactly(1) - nerf);
    let spacing = t.smootherstep(curr.lazy_jump_dist@, exactly(0), exactly(100));
    lemma_multiply(angle_bonus, spacing);
    let kept = (exactly(1) - nerf).greater(exactly(0));
    lemma_multiply(angle_bonus * spacing, kept);
    let bonus = calc_wide_angle_bonus_of(t, curr_angle);
    lemma_multiply(bonus, angle_bonus * spacing * kept);
    lemma_less_on_return(t, bonus * (angle_bonus * spacing * kept), curr, last, objects);
    lemma_acute(t, curr, last, curr_angle, last_angle, angle_bonus);
    lemma_wiggle_share(t, angle_bonus, curr, curr_angle);
    lemma_wiggle_share(
        t,
        wiggle_share_of(t, angle_bonus, curr, curr_angle),
        last,
        last_angle,
    );
}

/// The strain before what is easy with Relax is taken off is not negative.
proof fn lemma_raw_strain(
    t: Table,
    curr: OsuDifficultyObject,
    last: OsuDifficultyObject,
    last_last: OsuDifficultyObject,
    objects: Seq<OsuDifficultyObject>,
    with_sliders: bool,
)
    requires
        curves_are_tame(t),
        measured(curr),
        measured(last),
        measured(last_last),
    ensures
        not_negative(raw_strain_of(t, curr, last, last_last, objects, with_sliders)),
{
    lemma_one();
    lemma_near_place(81, 100);
    lemma_near_place(85, 100);
    lemma_near_place(115, 100);
    lemma_near_place(55, 100);
    let curr_vel = velocity_of(curr, last, with_sliders);
    let prev_vel = velocity_of(last, last_last, with_sliders);
    lemma_velocity(curr, last, with_sliders);
    lemma_velocity(last, last_last, with_sliders);
    lemma_pick(curr_vel, prev_vel);
    let (wide, acute, wiggle) = match (curr.angle, last.angle) {
        (Some(curr_angle), Some(last_angle)) => {
            lemma_relax_angles(
                t,
                curr,
                last,
                objects,
                curr_angle@,
                last_angle@,
                curr_vel.lesser(prev_vel),
            );
            relax_angle_bonuses_of(
                t,
                curr,
                last,
                objects,
                curr_angle@,
                last_angle@,
                curr_vel.lesser(prev_vel),
            )
        },
        _ => (exactly(0), exactly(0), exactly(0)),
    };
    let change = velocity_change_bonus_of(t, curr, last, last_last, curr_vel, prev_vel);
    lemma_velocity_change(t, curr, last, last_last, curr_vel, prev_vel);
    lemma_multiply(acute, exactly(1));
    lemma_multiply(wide, near(115, 100));
    lemma_pick(acute * exactly(1), wide * near(115, 100));
    lemma_slider(last);
    lemma_combined(
        curr_vel,
        wiggle,
        change,
        (acute * exactly(1)).greater(wide * near(115, 100)),
        curr.small_circle_bonus@,
        slider_bonus_of(last),
        (near(81, 100), near(85, 100), near(55, 100)),
    );
}

/// A spacing between 50 and 97, as a share of the way between them.
proof fn lemma_spacing_share(dist: Value)
    requires
        proper(dist),
        !dist.at_most(exactly(50)),
        !exactly(97).at_most(dist),
    ensures
        up_to((dist - exactly(50)) / (exactly(97) - exactly(50)), exactly(1)),
{
    lemma_one();
    lemma_whole_place(50);
    lemma_whole_place(97);
    lemma_whole_place(47);
    let all = exactly(97) - exactly(50);
    lemma_minus(exactly(97), exactly(50));
    lemma_settle_fits(exactly(47));
    lemma_inside(exactly(47));
    lemma_inside(all);
    if dist is Nan {
        lemma_nan(dist, exactly(50));
        lemma_nan(dist - exactly(50), all);
    } else {
        lemma_order(dist, exactly(50));
        lemma_order(exactly(97), dist);
        lemma_minus(dist, exactly(50));
        lemma_minus_order(dist, exactly(97), exactly(50));
        lemma_minus_order(exactly(50), dist, exactly(50));
        lemma_minus(exactly(50), exactly(50));
        lemma_settle_fits(exactly(0));
        lemma_inside(dist - exactly(50));
        lemma_small_over(dist - exactly(50), all);
    }
}

/// The nerf for an extreme flow takes off no more than a half.
proof fn lemma_flow(curr: OsuDifficultyObject, objects: Seq<OsuDifficultyObject>)
    ensures
        up_to(flow_nerf_of(curr, objects), near(50, 100)),
{
    lemma_one();
    lemma_near_place(50, 100);
    lemma_near_place(5, 10);
    lemma_near_places(5, 10, 1, 1);
    lemma_near_place(3, 10);
    let angles = angles_of(trail_of(curr, objects, ANGLE_WINDOW as nat));
    let (flow_mean, flow_stddev, flow_n) = windowed_angle_stats_of(
        curr,
        objects,
        ANGLE_WINDOW as nat,
    );
    if flow_n >= 4 && exactly(2).at_most(flow_mean) && flow_stddev.at_most(near(3, 10)) {
        assert(flow_stddev == deviation(angles));
        assert(flow_stddev is Finite && 0 <= flow_stddev.signed() <= place(near(3, 10))) by {
            reveal(Value::root);
            reveal(Value::below);
            reveal(Value::equals);
        }
        lemma_near_positive(3, 10);
        lemma_small_over(flow_stddev, near(3, 10));
        let evenness = exactly(1) - flow_stddev / near(3, 10);
        lemma_left(exactly(1), flow_stddev / near(3, 10));
        lemma_part_within(evenness, exactly(1), evenness);
        let turn = (flow_mean - exactly(2)) / (pi() - exactly(2));
        lemma_proper(flow_mean - exactly(2), pi() - exactly(2));
        lemma_held_up_to(turn, exactly(1));
        let mean_severity = turn.clamped(exactly(0), exactly(1));
        lemma_part_within(evenness * evenness, exactly(1), mean_severity);
        let severity = evenness * evenness * mean_severity;
        let dists = distances_of(trail_of(curr, objects, ANGLE_WINDOW as nat));
        let (avg_dist, _stddev, dist_n) = windowed_dist_stats_of(
            curr,
            objects,
            ANGLE_WINDOW as nat,
        );
        lemma_proper(total(dists), exactly(dists.len()));
        let dist_factor = if dist_n < 3 {
            near(5, 10)
        } else if avg_dist.at_most(exactly(50)) {
            exactly(1)
        } else if exactly(97).at_most(avg_dist) {
            exactly(0)
        } else {
            exactly(1) - (avg_dist - exactly(50)) / (exactly(97) - exactly(50))
        };
        assert(up_to(dist_factor, exactly(1))) by {
            if dist_n >= 3 && !avg_dist.at_most(exactly(50)) && !exactly(97).at_most(avg_dist) {
                lemma_spacing_share(avg_dist);
                lemma_left(
                    exactly(1),
                    (avg_dist - exactly(50)) / (exactly(97) - exactly(50)),
                );
            }
        }
        lemma_part_within(severity, exactly(1), dist_factor);
        lemma_part_of(near(50, 100), severity * dist_factor);
    }
}

/// A decimal fraction is positive.
proof fn lemma_near_positive(a: nat, b: nat)
    requires
        0 < b <= 1000,
        0 < a <= u64::MAX,
    ensures
        finite(near(a, b)),
        0 < place(near(a, b)),
{
    lemma_near_place(a, b);
    lemma_pow2_pos(1074);
    lemma2_to64();
    lemma_pow2_adds(10, 1064);
    lemma_pow2_pos(1064);
    lemma_fits(1, 0);
    let u = one_units();
    assert(1 * b <= (a * u) as int * 1) by (nonlinear_arith)
        requires
            b <= 1000,
            a >= 1,
            u >= 1024,
    ;
    assert(settle(1, 1) == 1) by {
        lemma_pow2_strictly_increases(0, 2098);
    }
    lemma_settle_order(1, 1, (a * u) as int, b);
}

/// How much of the nerf for repetition remains is a share.
proof fn lemma_radius(t: Table, circle_radius: Value)
    requires
        curves_are_tame(t),
    ensures
        up_to(relax_repeat_nerf_radius_factor_of(t, circle_radius), exactly(1)),
{
    lemma_one();
    lemma_whole_place(9);
    lemma_negated(exactly(9));
    let x = (near(369, 10) - circle_radius) / (near(369, 10) - near(244, 10));
    lemma_proper(near(369, 10) - circle_radius, near(369, 10) - near(244, 10));
    lemma_held_up_to(x, exactly(1));
    let share = x.clamped(exactly(0), exactly(1));
    let power = exactly(9).negated() * share;
    lemma_proper(exactly(9).negated(), share);
    if share is Nan {
        lemma_nan(exactly(9).negated(), share);
    } else {
        lemma_inside(exactly(1));
        lemma_inside(share);
        lemma_times(exactly(9).negated(), share);
        let (p, q) = (place(exactly(9).negated()), place(share));
        assert(p * q <= 0) by (nonlinear_arith)
            requires
                p <= 0,
                q >= 0,
        ;
        lemma_settle_fits(exactly(0));
        lemma_settle_order(p * q, one_units(), 0, 1);
    }
    assert(up_to(t.exp(power), exactly(1)));
}

/// The nerf for farm takes off no more than 35%.
proof fn lemma_farm(
    t: Table,
    curr: OsuDifficultyObject,
    last: OsuDifficultyObject,
    objects: Seq<OsuDifficultyObject>,
    eff_bpm: Value,
    detect: bool,
)
    requires
        curves_are_tame(t),
    ensures
        up_to(farm_nerf_of(t, curr, last, objects, eff_bpm, detect), near(35, 100)),
{
    let nx_severity = if detect {
        alternating_severity_of(curr, objects, eff_bpm)
    } else {
        exactly(0)
    };
    let slop = if detect {
        slop_severity_of(curr, objects, eff_bpm)
    } else {
        exactly(0)
    };
    let cross = if detect {
        cross_screen_nerf_of(curr, last)
    } else {
        exactly(0)
    };
    let severity = combine_farm_severity_of(nx_severity, slop, cross / near(15, 100));
    lemma_near_place(35, 100);
    lemma_proper(near(35, 100), severity);
    lemma_held_up_to(near(35, 100) * severity, near(35, 100));
    lemma_radius(t, curr.circle_radius@);
    lemma_part_within(
        (near(35, 100) * severity).clamped(exactly(0), near(35, 100)),
        near(35, 100),
        relax_repeat_nerf_radius_factor_of(t, curr.circle_radius@),
    );
}

/// The nerfs for flow and farm and the boost for technique turn no strain
/// negative.
proof fn lemma_patterned(
    t: Table,
    strain: Value,
    curr: OsuDifficultyObject,
    last: OsuDifficultyObject,
    objects: Seq<OsuDifficultyObject>,
)
    requires
        curves_are_tame(t),
        not_negative(strain),
    ensures
        not_negative(patterned_strain_of(t, strain, curr, last, objects)),
{
    lemma_one();
    lemma_near_place(50, 100);
    lemma_near_place(35, 100);
    lemma_near_place(75, 100);
    lemma_near_places(35, 100, 75, 100);
    lemma_near_place(108, 100);
    let eff_bpm = exactly(30_000) / curr.adjusted_delta_time@;
    let detect = recent_no_followpoint_streak_of(Some(curr), objects, 6) >= 6;
    let flow = if near(21025, 100).below(eff_bpm) && detect {
        flow_nerf_of(curr, objects)
    } else {
        exactly(0)
    };
    let farm = farm_nerf_of(t, curr, last, objects, eff_bpm, detect);
    lemma_flow(curr, objects);
    lemma_left(near(50, 100), flow);
    lemma_multiply(strain, near(50, 100) - flow);
    lemma_farm(t, curr, last, objects, eff_bpm, detect);
    lemma_left(near(75, 100), farm);
    let nerfed = strain * (near(75, 100) - farm);
    lemma_multiply(strain, near(75, 100) - farm);
    let boost = if detect {
        tech_boost_of(curr, objects)
    } else {
        exactly(0)
    };
    lemma_boost(curr, objects);
    lemma_add(exactly(1), boost);
    lemma_pick(exactly(1) + boost, near(108, 100));
    lemma_multiply(nerfed, (exactly(1) + boost).lesser(near(108, 100)));
}

/// The boost for technique is not negative.
proof fn lemma_boost(curr: OsuDifficultyObject, objects: Seq<OsuDifficultyObject>)
    ensures
        not_negative(tech_boost_of(curr, objects)),
{
    lemma_one();
    let (_angle, angle_stddev, angle_n) = windowed_angle_stats_of(
        curr,
        objects,
        ANGLE_WINDOW as nat,
    );
    let (vel_mean, vel_stddev, vel_n) = windowed_vel_stats_of(curr, objects, ANGLE_WINDOW as nat);
    let vel_cv = if exactly(0).below(vel_mean) {
        vel_stddev / vel_mean
    } else {
        exactly(0)
    };
    let x = (angle_stddev - near(6, 10)) / near(4, 10);
    let y = (vel_cv - near(25, 100)) / near(25, 100);
    lemma_proper(angle_stddev - near(6, 10), near(4, 10));
    lemma_proper(vel_cv - near(25, 100), near(25, 100));
    lemma_held_up_to(x, exactly(1));
    lemma_held_up_to(y, exactly(1));
    let (a, b) = (x.clamped(exactly(0), exactly(1)), y.clamped(exactly(0), exactly(1)));
    lemma_near_place(8, 100);
    lemma_multiply(a, b);
    lemma_multiply(near(8, 100), a * b);
}

/// The nerf for dense streams turns no strain negative.
proof fn lemma_less_dense(t: Table, strain: Value, curr: OsuDifficultyObject)
    requires
        curves_are_tame(t),
        not_negative(strain),
    ensures
        not_negative(less_dense_of(t, strain, curr)),
{
    lemma_one();
    lemma_near_place(55, 100);
    lemma_near_places(55, 100, 1, 1);
    let weight = t.reverse_lerp(
        t.milliseconds_to_bpm(curr.adjusted_delta_time@, None),
        exactly(200),
        exactly(280),
    );
    let spaced = t.reverse_lerp(curr.lazy_jump_dist@, exactly(80), exactly(170));
    lemma_left(exactly(1), spaced);
    lemma_part_within(weight, exactly(1), exactly(1) - spaced);
    let severity = weight * (exactly(1) - spaced);
    lemma_part_of(near(55, 100), severity);
    lemma_left(exactly(1), near(55, 100) * severity);
    lemma_multiply(strain, exactly(1) - near(55, 100) * severity);
}

/// The strain of an object under Relax is not negative, where it is a number, on
/// objects with distances that are not negative and times that are positive, where
/// the curves are answered with shares.
pub proof fn law_relax_strain_is_not_negative<F: Fn(Query<Double>) -> Double>(
    math: &Math<F>,
    curr: OsuDifficultyObject,
    objects: Seq<OsuDifficultyObject>,
    with_sliders: bool,
)
    requires
        answers_tamely(math.ask),
        measured(curr),
        forall|i: int| 0 <= i < objects.len() ==> measured(#[trigger] objects[i]),
    ensures
        ({
            let r = relax_strain_of(math@, curr, objects, with_sliders);
            !r.below(exactly(0)) && (!(r is Nan) ==> exactly(0).at_most(r))
        }),
{
    let t = math@;
    lemma_one();
    lemma_tame(math);
    match (object_before(curr, 1, objects), object_before(curr, 0, objects)) {
        (Some(last_last), Some(last)) => {
            let raw = raw_strain_of(t, curr, last, last_last, objects, with_sliders);
            lemma_raw_strain(t, curr, last, last_last, objects, with_sliders);
            lemma_patterned(t, raw, curr, last, objects);
            let patterned = patterned_strain_of(t, raw, curr, last, objects);
            lemma_less_dense(t, patterned, curr);
            lemma_multiply(less_dense_of(t, patterned, curr), exactly(1));
        },
        _ => {},
    }
    lemma_not_below(relax_strain_of(t, curr, objects, with_sliders));
}

/// The bonuses of angles without Relax are not negative.
proof fn lemma_angles(
    t: Table,
    curr: OsuDifficultyObject,
    last: OsuDifficultyObject,
    objects: Seq<OsuDifficultyObject>,
    curr_angle: Value,
    last_angle: Value,
    angle_bonus: Value,
)
    requires
        curves_are_tame(t),
        not_negative(angle_bonus),
    ensures
        ({
            let r = angle_bonuses_of(
                t,
                curr,
                last,
                objects,
                curr_angle,
                last_angle,
                angle_bonus,
            );
            not_negative(r.0) && not_negative(r.1) && not_negative(r.2)
        }),
{
    lemma_one();
    lemma_near_place(5, 10);
    let acute = acute_angle_bonus_of(t, curr, last, curr_angle, last_angle, angle_bonus);
    lemma_acute(t, curr, last, curr_angle, last_angle, angle_bonus);
    let wide = calc_wide_angle_bonus_of(t, curr_angle);
    let eff_bpm = exactly(30_000) / curr.adjusted_delta_time@;
    let high_bpm_t = ((eff_bpm - exactly(410)) / exactly(90)).clamped(exactly(0), exactly(1));
    let (_mean, win_stddev, win_n) = windowed_angle_stats_of(curr, objects, ANGLE_WINDOW as nat);
    let variance_factor = if win_n >= 3 {
        (win_stddev / near(12, 10)).clamped(exactly(0), exactly(1))
    } else {
        exactly(1)
    };
    let rep_strength = exactly(1) - variance_factor;
    let wide_rep_raw = wide.lesser(t.power(calc_wide_angle_bonus_of(t, last_angle), exactly(3)));
    let wide_mix = rep_strength * near(7, 10) + wide_rep_raw * near(3, 10);
    let wide_penalty = wide_mix * (exactly(1) - high_bpm_t);
    let wide_rep_buff = high_bpm_t * near(15, 100);
    lemma_proper(wide_mix, exactly(1) - high_bpm_t);
    lemma_proper(high_bpm_t, near(15, 100));
    lemma_minus_proper(exactly(1), wide_penalty);
    lemma_proper(exactly(1) - wide_penalty, wide_rep_buff);
    let wide_kept = exactly(1) - wide_penalty + wide_rep_buff;
    lemma_from_zero(wide_kept);
    let spacing = t.smootherstep(curr.lazy_jump_dist@, exactly(0), exactly(100));
    lemma_multiply(angle_bonus, spacing);
    lemma_multiply(angle_bonus * spacing, wide_kept.greater(exactly(0)));
    let held = angle_bonus * spacing * wide_kept.greater(exactly(0));
    lemma_multiply(wide, held);
    lemma_less_on_return(t, wide * held, curr, last, objects);
    let acute_rep_raw = acute.lesser(t.power(calc_acute_angle_bonus_of(t, last_angle), exactly(3)));
    let acute_mix = rep_strength * near(5, 10) + acute_rep_raw * near(5, 10);
    let acute_penalty = acute_mix * (exactly(1) - high_bpm_t);
    let acute_rep_buff = high_bpm_t * near(10, 100);
    lemma_proper(acute_mix, exactly(1) - high_bpm_t);
    lemma_proper(high_bpm_t, near(10, 100));
    lemma_proper(near(5, 10), exactly(1) - acute_penalty);
    let half = near(5, 10) * (exactly(1) - acute_penalty);
    lemma_proper(near(5, 10), half);
    lemma_proper(near(5, 10) + half, acute_rep_buff);
    let acute_kept = near(5, 10) + half + acute_rep_buff;
    lemma_from_zero(acute_kept);
    lemma_multiply(acute, acute_kept.greater(exactly(0)));
    lemma_wiggle_share(t, angle_bonus, curr, curr_angle);
    lemma_wiggle_share(
        t,
        wiggle_share_of(t, angle_bonus, curr, curr_angle),
        last,
        last_angle,
    );
}

/// How uniform something is, is a share.
proof fn lemma_uniformity(spread: Value, scale: Value)
    ensures
        up_to(uniformity_of(spread, scale), exactly(1)),
{
    lemma_one();
    lemma_proper(spread, scale);
    lemma_held_up_to(spread / scale, exactly(1));
    let held = (spread / scale).clamped(exactly(0), exactly(1));
    lemma_left(exactly(1), held);
    reveal(Value::greater);
}

/// What a tempo leaves of a nerf is a share.
proof fn lemma_fade(eff_bpm: Value, from: Value, over: Value)
    ensures
        up_to(bpm_fade_of(eff_bpm, from, over), exactly(1)),
{
    lemma_one();
    lemma_proper(eff_bpm - from, over);
    lemma_held_up_to((eff_bpm - from) / over, exactly(1));
    lemma_left(exactly(1), ((eff_bpm - from) / over).clamped(exactly(0), exactly(1)));
}

/// How strongly angles alternate while it counts is a share.
proof fn lemma_alternating(
    curr: OsuDifficultyObject,
    objects: Seq<OsuDifficultyObject>,
    eff_bpm: Value,
)
    ensures
        ({
            let nx_strength = detect_nx_pattern_of(curr, objects, ANGLE_WINDOW as nat);
            up_to(
                nx_severity_of(nx_strength, curr, objects, eff_bpm, exactly(300), exactly(200)),
                exactly(1),
            )
        }),
{
    lemma_one();
    let angles = angles_of(trail_of(curr, objects, ANGLE_WINDOW as nat));
    let nx_strength = detect_nx_pattern_of(curr, objects, ANGLE_WINDOW as nat);
    law_alternation_is_a_share(angles);
    assert(proper(alternation(angles))) by {
        let evens = every_second(angles, 0);
        let odds = every_second(angles, 1);
        let gap = (mean(evens) - mean(odds)).absolute();
        let tightness = exactly(1) - ((deviation(evens) + deviation(odds)) / near(50, 100)).clamped(
            exactly(0),
            exactly(1),
        );
        lemma_proper(tightness, (gap / pi()).clamped(exactly(0), exactly(1)));
    }
    lemma_up_to_one(nx_strength);
    let (dist_mean, dist_stddev, dist_n) = windowed_dist_stats_of(
        curr,
        objects,
        ANGLE_WINDOW as nat,
    );
    let dist_cv = if exactly(0).below(dist_mean) && dist_n >= 3 {
        dist_stddev / dist_mean
    } else {
        exactly(1)
    };
    lemma_uniformity(dist_cv, near(20, 100));
    lemma_part_within(nx_strength, exactly(1), uniformity_of(dist_cv, near(20, 100)));
    lemma_fade(eff_bpm, exactly(300), exactly(200));
    lemma_part_within(
        nx_strength * uniformity_of(dist_cv, near(20, 100)),
        exactly(1),
        bpm_fade_of(eff_bpm, exactly(300), exactly(200)),
    );
}

/// How constant a motion is, is a share.
proof fn lemma_uniform_motion(curr: OsuDifficultyObject, objects: Seq<OsuDifficultyObject>)
    ensures
        uniform_motion_of(curr, objects) matches Some(severity) ==> up_to(severity, exactly(1)),
{
    lemma_one();
    let (_mean, angle_stddev, angle_n) = windowed_angle_stats_of(
        curr,
        objects,
        ANGLE_WINDOW as nat,
    );
    let (dist_mean, dist_stddev, dist_n) = windowed_dist_stats_of(
        curr,
        objects,
        ANGLE_WINDOW as nat,
    );
    let (vel_mean, vel_stddev, vel_n) = windowed_vel_stats_of(curr, objects, ANGLE_WINDOW as nat);
    let dist_cv = if exactly(0).below(dist_mean) {
        dist_stddev / dist_mean
    } else {
        exactly(1)
    };
    let vel_cv = if exactly(0).below(vel_mean) {
        vel_stddev / vel_mean
    } else {
        exactly(1)
    };
    let a = uniformity_of(angle_stddev, near(3, 10));
    let b = uniformity_of(dist_cv, near(15, 100));
    let c = uniformity_of(vel_cv, near(15, 100));
    lemma_uniformity(angle_stddev, near(3, 10));
    lemma_uniformity(dist_cv, near(15, 100));
    lemma_uniformity(vel_cv, near(15, 100));
    lemma_part_within(a, exactly(1), b);
    lemma_part_within(a * b, exactly(1), c);
}

/// The strain of an object that follows two others is not negative.
proof fn lemma_chained(
    t: Table,
    curr: OsuDifficultyObject,
    last: OsuDifficultyObject,
    last_last: OsuDifficultyObject,
    objects: Seq<OsuDifficultyObject>,
    with_sliders: bool,
)
    requires
        curves_are_tame(t),
        measured(curr),
        measured(last),
        measured(last_last),
    ensures
        not_negative(chained_strain_of(t, curr, last, last_last, objects, with_sliders)),
{
    lemma_one();
    lemma_near_place(81, 100);
    lemma_near_place(80, 100);
    lemma_near_place(85, 100);
    lemma_near_place(70, 100);
    lemma_near_place(87, 100);
    lemma_near_place(22, 100);
    lemma_near_place(60, 100);
    lemma_near_places(22, 100, 87, 100);
    let curr_vel = velocity_of(curr, last, with_sliders);
    let prev_vel = velocity_of(last, last_last, with_sliders);
    lemma_velocity(curr, last, with_sliders);
    lemma_velocity(last, last_last, with_sliders);
    lemma_pick(curr_vel, prev_vel);
    let (wide, acute, wiggle) = match (curr.angle, last.angle) {
        (Some(curr_angle), Some(last_angle)) => {
            lemma_angles(
                t,
                curr,
                last,
                objects,
                curr_angle@,
                last_angle@,
                curr_vel.lesser(prev_vel),
            );
            angle_bonuses_of(
                t,
                curr,
                last,
                objects,
                curr_angle@,
                last_angle@,
                curr_vel.lesser(prev_vel),
            )
        },
        _ => (exactly(0), exactly(0), exactly(0)),
    };
    let change = velocity_change_bonus_of(t, curr, last, last_last, curr_vel, prev_vel);
    lemma_velocity_change(t, curr, last, last_last, curr_vel, prev_vel);
    lemma_multiply(acute, near(85, 100));
    lemma_multiply(wide, exactly(1));
    lemma_pick(acute * near(85, 100), wide * exactly(1));
    let slider = if last.is_slider {
        last.travel_dist@ / last.travel_time@
    } else {
        exactly(0)
    };
    if last.is_slider {
        lemma_divide(last.travel_dist@, last.travel_time@);
    }
    let turn = (acute * near(85, 100)).greater(wide * exactly(1));
    lemma_combined(
        curr_vel,
        wiggle,
        change,
        turn,
        curr.small_circle_bonus@,
        slider,
        (near(81, 100), near(80, 100), near(70, 100)),
    );
    let moved = curr_vel + wiggle * near(81, 100) + change * near(80, 100);
    let turned = (moved + turn) * curr.small_circle_bonus@;
    let combined = if with_sliders {
        turned + slider * near(70, 100)
    } else {
        turned
    };
    let eff_bpm = exactly(30_000) / curr.adjusted_delta_time@;
    let nx_strength = detect_nx_pattern_of(curr, objects, ANGLE_WINDOW as nat);
    let severity = nx_severity_of(
        nx_strength,
        curr,
        objects,
        eff_bpm,
        exactly(300),
        exactly(200),
    );
    lemma_alternating(curr, objects, eff_bpm);
    lemma_part_of(near(22, 100), severity);
    lemma_left(near(87, 100), near(22, 100) * severity);
    lemma_multiply(combined, near(87, 100) - near(22, 100) * severity);
    let less_alternating = if near(1, 10).below(nx_strength) {
        combined * (near(87, 100) - near(22, 100) * severity)
    } else {
        combined
    };
    let slop_nerf = match uniform_motion_of(curr, objects) {
        Some(severity) => {
            lemma_uniform_motion(curr, objects);
            lemma_part_of(near(22, 100), severity);
            lemma_fade(eff_bpm, exactly(400), exactly(150));
            lemma_part_within(
                near(22, 100) * severity,
                near(22, 100),
                bpm_fade_of(eff_bpm, exactly(400), exactly(150)),
            );
            near(22, 100) * severity * bpm_fade_of(eff_bpm, exactly(400), exactly(150))
        },
        None => exactly(0),
    };
    lemma_left(near(87, 100), slop_nerf);
    lemma_multiply(less_alternating, near(87, 100) - slop_nerf);
    lemma_multiply(less_alternating * (near(87, 100) - slop_nerf), near(60, 100));
}

/// The strain of an object without Relax is not negative, where it is a number, on
/// objects with distances that are not negative and times that are positive, where
/// the curves are answered with shares.
pub proof fn law_aim_strain_is_not_negative<F: Fn(Query<Double>) -> Double>(
    math: &Math<F>,
    curr: OsuDifficultyObject,
    objects: Seq<OsuDifficultyObject>,
    with_sliders: bool,
)
    requires
        answers_tamely(math.ask),
        measured(curr),
        forall|i: int| 0 <= i < objects.len() ==> measured(#[trigger] objects[i]),
    ensures
        ({
            let r = aim_strain_of(math@, curr, objects, with_sliders);
            !r.below(exactly(0)) && (!(r is Nan) ==> exactly(0).at_most(r))
        }),
{
    let t = math@;
    lemma_one();
    lemma_tame(math);
    match (object_before(curr, 1, objects), object_before(curr, 0, objects)) {
        (Some(last_last), Some(last)) => {
            lemma_chained(t, curr, last, last_last, objects, with_sliders);
        },
        _ => {},
    }
    lemma_not_below(aim_strain_of(t, curr, objects, with_sliders));
}

/// A velocity is at least that of the jump.
proof fn lemma_velocity_from(
    curr: OsuDifficultyObject,
    before: OsuDifficultyObject,
    with_sliders: bool,
)
    requires
        measured(curr),
        measured(before),
    ensures
        from_on(
            velocity_of(curr, before, with_sliders),
            curr.lazy_jump_dist@ / curr.adjusted_delta_time@,
        ),
{
    let jump = curr.lazy_jump_dist@ / curr.adjusted_delta_time@;
    lemma_over(curr.lazy_jump_dist@, curr.adjusted_delta_time@);
    if before.is_slider && with_sliders {
        let travel_vel = before.travel_dist@ / before.travel_time@;
        let movement_vel = curr.min_jump_dist@ / curr.min_jump_time@;
        lemma_divide(before.travel_dist@, before.travel_time@);
        lemma_divide(curr.min_jump_dist@, curr.min_jump_time@);
        lemma_add(movement_vel, travel_vel);
        reveal(Value::greater);
        if !((movement_vel + travel_vel) is Nan) {
            lemma_order(jump, movement_vel + travel_vel);
        }
    }
}

/// How a strain is put together of its parts: none takes anything off another.
proof fn lemma_combined_from(
    curr_vel: Value,
    low: Value,
    wiggle: Value,
    change: Value,
    turn: Value,
    circle: Value,
    slider: Value,
    factors: (Value, Value, Value),
)
    requires
        from_on(curr_vel, low),
        not_negative(wiggle),
        not_negative(change),
        not_negative(turn),
        finite(circle),
        0 <= place(circle),
        not_negative(slider),
        not_negative(factors.0),
        not_negative(factors.1),
        not_negative(factors.2),
    ensures
        ({
            let moved = curr_vel + wiggle * factors.0 + change * factors.1;
            let turned = (moved + turn) * circle;
            let slid = turned + slider * factors.2;
            &&& from_on(turned, low * circle) && from_on(slid, low * circle)
            &&& from_on(turned, wiggle * factors.0 * circle)
            &&& from_on(slid, wiggle * factors.0 * circle)
            &&& from_on(turned, change * factors.1 * circle)
            &&& from_on(slid, change * factors.1 * circle)
            &&& from_on(turned, turn * circle) && from_on(slid, turn * circle)
            &&& from_on(slid, slider * factors.2)
        }),
{
    let (a, b, c) = (wiggle * factors.0, change * factors.1, slider * factors.2);
    lemma_multiply(wiggle, factors.0);
    lemma_multiply(change, factors.1);
    lemma_multiply(slider, factors.2);
    let moved = curr_vel + a + b;
    let turned = (moved + turn) * circle;
    lemma_add_from(curr_vel, low, a);
    lemma_add_from(curr_vel + a, low, b);
    lemma_add_from(moved, low, turn);
    lemma_multiply_same(moved + turn, low, circle);
    lemma_add_from(turned, low * circle, c);
    // The wiggle.
    lemma_commutes(curr_vel, a);
    lemma_add_from(a, a, curr_vel);
    lemma_add_from(curr_vel + a, a, b);
    lemma_add_from(moved, a, turn);
    lemma_multiply_same(moved + turn, a, circle);
    lemma_add_from(turned, a * circle, c);
    // The change of speed.
    lemma_commutes(curr_vel + a, b);
    lemma_add(curr_vel, a);
    lemma_add_from(b, b, curr_vel + a);
    lemma_add_from(moved, b, turn);
    lemma_multiply_same(moved + turn, b, circle);
    lemma_add_from(turned, b * circle, c);
    // The turn.
    lemma_commutes(moved, turn);
    lemma_add(curr_vel + a, b);
    lemma_add_from(turn, turn, moved);
    lemma_multiply_same(moved + turn, turn, circle);
    lemma_add_from(turned, turn * circle, c);
    // The slider.
    lemma_add(moved, turn);
    lemma_multiply(moved + turn, circle);
    lemma_commutes(turned, c);
    lemma_add_from(c, c, turned);
}

/// What the nerfs of patterns leave at least, without Relax and under it.
proof fn lemma_least_left()
    ensures
        finite(near(6, 10)),
        one_units() < 2 * place(near(6, 10)),
        place(near(6, 10)) <= one_units(),
        finite(near(87, 100)),
        finite(near(22, 100)),
        0 <= place(near(22, 100)) <= place(near(87, 100)) <= one_units(),
        finite(near(87, 100) - near(22, 100)),
        place(near(6, 10)) <= place(near(87, 100) - near(22, 100)),
        place(near(6, 10)) <= place(near(60, 100)),
        finite(near(3, 10)),
        0 < place(near(3, 10)) <= one_units(),
        finite(near(75, 100) - near(35, 100)),
        place(near(3, 10)) <= place(near(75, 100) - near(35, 100)),
        finite(exactly(1) - near(55, 100)),
        place(near(3, 10)) <= place(exactly(1) - near(55, 100)),
{
    lemma_one();
    lemma_near_place(6, 10);
    lemma_near_place(60, 100);
    lemma_near_place(22, 100);
    lemma_near_place(87, 100);
    lemma_near_place(3, 10);
    lemma_near_place(35, 100);
    lemma_near_place(75, 100);
    lemma_near_place(55, 100);
    lemma_near_places(6, 10, 1, 1);
    lemma_near_places(3, 10, 1, 1);
    lemma_near_places(87, 100, 1, 1);
    lemma_near_places(6, 10, 60, 100);
    lemma_near_places(22, 100, 15, 64);
    lemma_near_places(55, 64, 87, 100);
    lemma_near_places(6, 10, 40, 64);
    lemma_near_places(35, 64, 6, 10);
    lemma_near_places(35, 100, 23, 64);
    lemma_near_places(48, 64, 75, 100);
    lemma_near_places(55, 100, 36, 64);
    lemma_near_places(3, 10, 20, 64);
    lemma_near_places(1, 64, 3, 10);
    lemma_dyadic(1);
    lemma_dyadic(15);
    lemma_dyadic(20);
    lemma_dyadic(23);
    lemma_dyadic(25);
    lemma_dyadic(28);
    lemma_dyadic(35);
    lemma_dyadic(36);
    lemma_dyadic(40);
    lemma_dyadic(48);
    lemma_dyadic(55);
    lemma_minus_least(near(87, 100), near(22, 100), near(40, 64));
    lemma_minus_least(near(75, 100), near(35, 100), near(25, 64));
    lemma_minus_least(exactly(1), near(55, 100), near(28, 64));
}

/// The wide, the acute and the wiggle bonus of an object, if it has angles.
pub open spec fn bonuses_of(
    t: Table,
    curr: OsuDifficultyObject,
    last: OsuDifficultyObject,
    last_last: OsuDifficultyObject,
    objects: Seq<OsuDifficultyObject>,
    with_sliders: bool,
) -> (Value, Value, Value) {
    match (curr.angle, last.angle) {
        (Some(curr_angle), Some(last_angle)) => angle_bonuses_of(
            t,
            curr,
            last,
            objects,
            curr_angle@,
            last_angle@,
            velocity_of(curr, last, with_sliders).lesser(
                velocity_of(last, last_last, with_sliders),
            ),
        ),
        _ => (exactly(0), exactly(0), exactly(0)),
    }
}

/// The change of speed at an object.
pub open spec fn change_of(
    t: Table,
    curr: OsuDifficultyObject,
    last: OsuDifficultyObject,
    last_last: OsuDifficultyObject,
    with_sliders: bool,
) -> Value {
    velocity_change_bonus_of(
        t,
        curr,
        last,
        last_last,
        velocity_of(curr, last, with_sliders),
        velocity_of(last, last_last, with_sliders),
    )
}

/// The speed of the slider before an object.
pub open spec fn slide_of(last: OsuDifficultyObject) -> Value {
    if last.is_slider {
        last.travel_dist@ / last.travel_time@
    } else {
        exactly(0)
    }
}

/// The strain before patterns are nerfed.
spec fn combined_of(
    t: Table,
    curr: OsuDifficultyObject,
    last: OsuDifficultyObject,
    last_last: OsuDifficultyObject,
    objects: Seq<OsuDifficultyObject>,
    with_sliders: bool,
) -> Value {
    let (wide, acute, wiggle) = bonuses_of(t, curr, last, last_last, objects, with_sliders);
    let moved = velocity_of(curr, last, with_sliders) + wiggle * near(81, 100) + change_of(
        t,
        curr,
        last,
        last_last,
        with_sliders,
    ) * near(80, 100);
    let turned = (moved + (acute * near(85, 100)).greater(wide * exactly(1)))
        * curr.small_circle_bonus@;
    if with_sliders {
        turned + slide_of(last) * near(70, 100)
    } else {
        turned
    }
}

/// The strain before patterns are nerfed is at least that of each of its parts.
proof fn lemma_parts_from(
    t: Table,
    curr: OsuDifficultyObject,
    last: OsuDifficultyObject,
    last_last: OsuDifficultyObject,
    objects: Seq<OsuDifficultyObject>,
    with_sliders: bool,
)
    requires
        curves_are_tame(t),
        measured(curr),
        measured(last),
        measured(last_last),
    ensures
        ({
            let combined = combined_of(t, curr, last, last_last, objects, with_sliders);
            let circle = curr.small_circle_bonus@;
            let (wide, acute, wiggle) = bonuses_of(t, curr, last, last_last, objects, with_sliders);
            let change = change_of(t, curr, last, last_last, with_sliders);
            let turn = (acute * near(85, 100)).greater(wide * exactly(1));
            &&& from_on(combined, curr.lazy_jump_dist@ / curr.adjusted_delta_time@ * circle)
            &&& from_on(combined, wiggle * near(81, 100) * circle)
            &&& from_on(combined, change * near(80, 100) * circle)
            &&& from_on(combined, turn * circle)
            &&& with_sliders ==> from_on(combined, slide_of(last) * near(70, 100))
        }),
{
    lemma_one();
    lemma_least_left();
    lemma_near_place(81, 100);
    lemma_near_place(80, 100);
    lemma_near_place(85, 100);
    lemma_near_place(70, 100);
    lemma_near_place(60, 100);
    let low = curr.lazy_jump_dist@ / curr.adjusted_delta_time@;
    let curr_vel = velocity_of(curr, last, with_sliders);
    let prev_vel = velocity_of(last, last_last, with_sliders);
    lemma_velocity(curr, last, with_sliders);
    lemma_velocity(last, last_last, with_sliders);
    lemma_velocity_from(curr, last, with_sliders);
    lemma_pick(curr_vel, prev_vel);
    let (wide, acute, wiggle) = match (curr.angle, last.angle) {
        (Some(curr_angle), Some(last_angle)) => {
            lemma_angles(
                t,
                curr,
                last,
                objects,
                curr_angle@,
                last_angle@,
                curr_vel.lesser(prev_vel),
            );
            angle_bonuses_of(
                t,
                curr,
                last,
                objects,
                curr_angle@,
                last_angle@,
                curr_vel.lesser(prev_vel),
            )
        },
        _ => (exactly(0), exactly(0), exactly(0)),
    };
    let change = velocity_change_bonus_of(t, curr, last, last_last, curr_vel, prev_vel);
    lemma_velocity_change(t, curr, last, last_last, curr_vel, prev_vel);
    lemma_multiply(acute, near(85, 100));
    lemma_multiply(wide, exactly(1));
    lemma_pick(acute * near(85, 100), wide * exactly(1));
    let slider = if last.is_slider {
        last.travel_dist@ / last.travel_time@
    } else {
        exactly(0)
    };
    if last.is_slider {
        lemma_divide(last.travel_dist@, last.travel_time@);
    }
    let turn = (acute * near(85, 100)).greater(wide * exactly(1));
    let circle = curr.small_circle_bonus@;
    lemma_combined_from(
        curr_vel,
        low,
        wiggle,
        change,
        turn,
        circle,
        slider,
        (near(81, 100), near(80, 100), near(70, 100)),
    );
}

/// What patterns leave of a strain is at least a share of what it is at least.
proof fn lemma_nerfs_leave(
    t: Table,
    curr: OsuDifficultyObject,
    last: OsuDifficultyObject,
    last_last: OsuDifficultyObject,
    objects: Seq<OsuDifficultyObject>,
    with_sliders: bool,
    low: Value,
)
    requires
        from_on(combined_of(t, curr, last, last_last, objects, with_sliders), low),
    ensures
        from_on(
            chained_strain_of(t, curr, last, last_last, objects, with_sliders),
            low * near(6, 10) * near(6, 10) * near(6, 10),
        ),
{
    lemma_one();
    lemma_least_left();
    lemma_near_place(60, 100);
    let combined = combined_of(t, curr, last, last_last, objects, with_sliders);
    let eff_bpm = exactly(30_000) / curr.adjusted_delta_time@;
    let nx_strength = detect_nx_pattern_of(curr, objects, ANGLE_WINDOW as nat);
    let severity = nx_severity_of(
        nx_strength,
        curr,
        objects,
        eff_bpm,
        exactly(300),
        exactly(200),
    );
    let least = near(6, 10);
    lemma_alternating(curr, objects, eff_bpm);
    lemma_part_of(near(22, 100), severity);
    lemma_left_from(near(87, 100), near(22, 100) * severity, near(22, 100));
    lemma_multiply_from(
        combined,
        low,
        near(87, 100) - near(22, 100) * severity,
        least,
    );
    lemma_part_from(combined, low, least);
    let less_alternating = if near(1, 10).below(nx_strength) {
        combined * (near(87, 100) - near(22, 100) * severity)
    } else {
        combined
    };
    let slop_nerf = match uniform_motion_of(curr, objects) {
        Some(severity) => {
            lemma_uniform_motion(curr, objects);
            lemma_part_of(near(22, 100), severity);
            lemma_fade(eff_bpm, exactly(400), exactly(150));
            lemma_part_within(
                near(22, 100) * severity,
                near(22, 100),
                bpm_fade_of(eff_bpm, exactly(400), exactly(150)),
            );
            near(22, 100) * severity * bpm_fade_of(eff_bpm, exactly(400), exactly(150))
        },
        None => exactly(0),
    };
    lemma_left_from(near(87, 100), slop_nerf, near(22, 100));
    lemma_multiply_from(
        less_alternating,
        low * least,
        near(87, 100) - slop_nerf,
        least,
    );
    lemma_multiply_from(
        less_alternating * (near(87, 100) - slop_nerf),
        low * least * least,
        near(60, 100),
        least,
    );
}

/// The strain of an object that follows two others is at least a share of the
/// velocity of its jump.
proof fn lemma_chained_from(
    t: Table,
    curr: OsuDifficultyObject,
    last: OsuDifficultyObject,
    last_last: OsuDifficultyObject,
    objects: Seq<OsuDifficultyObject>,
    with_sliders: bool,
)
    requires
        curves_are_tame(t),
        measured(curr),
        measured(last),
        measured(last_last),
    ensures
        from_on(
            chained_strain_of(t, curr, last, last_last, objects, with_sliders),
            curr.lazy_jump_dist@ / curr.adjusted_delta_time@ * curr.small_circle_bonus@ * near(
                6,
                10,
            ) * near(6, 10) * near(6, 10),
        ),
{
    lemma_parts_from(t, curr, last, last_last, objects, with_sliders);
    lemma_nerfs_leave(
        t,
        curr,
        last,
        last_last,
        objects,
        with_sliders,
        curr.lazy_jump_dist@ / curr.adjusted_delta_time@ * curr.small_circle_bonus@,
    );
}

/// What is at least a positive number, less its half three times, is positive.
proof fn lemma_thrice_positive(low: Value)
    requires
        number(low),
        0 < place(low),
    ensures
        number(low * near(6, 10) * near(6, 10) * near(6, 10)),
        0 < place(low * near(6, 10) * near(6, 10) * near(6, 10)),
{
    lemma_least_left();
    lemma_large_share(low, near(6, 10));
    lemma_large_share(low * near(6, 10), near(6, 10));
    lemma_large_share(low * near(6, 10) * near(6, 10), near(6, 10));
}

/// The strain of an object that follows two others, neither it nor the last one a
/// spinner, is at least a fixed share of the velocity of its jump, where it is a
/// number. So it is positive where that velocity is.
pub proof fn law_jumps_have_strain<F: Fn(Query<Double>) -> Double>(
    math: &Math<F>,
    curr: OsuDifficultyObject,
    objects: Seq<OsuDifficultyObject>,
    with_sliders: bool,
)
    requires
        answers_tamely(math.ask),
        measured(curr),
        forall|i: int| 0 <= i < objects.len() ==> measured(#[trigger] objects[i]),
        object_before(curr, 1, objects) is Some,
        object_before(curr, 0, objects) matches Some(last) && !last.is_spinner,
        !curr.is_spinner,
    ensures
        ({
            let r = aim_strain_of(math@, curr, objects, with_sliders);
            let velocity = curr.lazy_jump_dist@ / curr.adjusted_delta_time@;
            let circle = curr.small_circle_bonus@;
            let least = near(6, 10);
            &&& !(r is Nan) ==> (velocity * circle * least * least * least).at_most(r)
            &&& !(r is Nan) && exactly(0).below(velocity) && exactly(1).at_most(circle)
                ==> exactly(0).below(r)
        }),
{
    let t = math@;
    lemma_one();
    lemma_tame(math);
    let r = aim_strain_of(t, curr, objects, with_sliders);
    let velocity = curr.lazy_jump_dist@ / curr.adjusted_delta_time@;
    let circle = curr.small_circle_bonus@;
    let least = near(6, 10);
    let (last_last, last) = (
        object_before(curr, 1, objects)->Some_0,
        object_before(curr, 0, objects)->Some_0,
    );
    lemma_chained_from(t, curr, last, last_last, objects, with_sliders);
    let low = velocity * circle * least * least * least;
    if !(r is Nan) {
        lemma_order(low, r);
        lemma_over(curr.lazy_jump_dist@, curr.adjusted_delta_time@);
        lemma_order(exactly(0), velocity);
        lemma_order(exactly(1), circle);
        lemma_order(exactly(0), r);
        if 0 < place(velocity) && one_units() <= place(circle) {
            lemma_large_share(velocity, circle);
            lemma_thrice_positive(velocity * circle);
        }
    }
}

/// Every part of a strain counts, where it is a number: it is at least a fixed share of the
/// wiggle, of the change of speed, of the wide and of the acute angle, and of the slider
/// before it, where sliders count.
pub proof fn law_every_part_adds_strain<F: Fn(Query<Double>) -> Double>(
    math: &Math<F>,
    curr: OsuDifficultyObject,
    objects: Seq<OsuDifficultyObject>,
    with_sliders: bool,
)
    requires
        answers_tamely(math.ask),
        measured(curr),
        forall|i: int| 0 <= i < objects.len() ==> measured(#[trigger] objects[i]),
        object_before(curr, 1, objects) is Some,
        object_before(curr, 0, objects) matches Some(last) && !last.is_spinner,
        !curr.is_spinner,
    ensures
        ({
            let t = math@;
            let (last_last, last) = (
                object_before(curr, 1, objects)->Some_0,
                object_before(curr, 0, objects)->Some_0,
            );
            let r = aim_strain_of(t, curr, objects, with_sliders);
            let circle = curr.small_circle_bonus@;
            let least = near(6, 10);
            let (wide, acute, wiggle) = bonuses_of(t, curr, last, last_last, objects, with_sliders);
            let change = change_of(t, curr, last, last_last, with_sliders);
            !(r is Nan) ==> {
                &&& (wiggle * near(81, 100) * circle * least * least * least).at_most(r)
                &&& (change * near(80, 100) * circle * least * least * least).at_most(r)
                &&& !(wide is Nan) ==> (wide * circle * least * least * least).at_most(r)
                &&& !(acute is Nan) ==> (acute * near(85, 100) * circle * least * least
                    * least).at_most(r)
                &&& with_sliders ==> (slide_of(last) * near(70, 100) * least * least
                    * least).at_most(r)
            }
        }),
{
    let t = math@;
    lemma_one();
    lemma_tame(math);
    let (last_last, last) = (
        object_before(curr, 1, objects)->Some_0,
        object_before(curr, 0, objects)->Some_0,
    );
    let r = aim_strain_of(t, curr, objects, with_sliders);
    let circle = curr.small_circle_bonus@;
    let least = near(6, 10);
    let (wide, acute, wiggle) = bonuses_of(t, curr, last, last_last, objects, with_sliders);
    let change = change_of(t, curr, last, last_last, with_sliders);
    lemma_parts_from(t, curr, last, last_last, objects, with_sliders);
    let (a, b, c) = (
        wiggle * near(81, 100) * circle,
        change * near(80, 100) * circle,
        slide_of(last) * near(70, 100),
    );
    lemma_nerfs_leave(t, curr, last, last_last, objects, with_sliders, a);
    lemma_nerfs_leave(t, curr, last, last_last, objects, with_sliders, b);
    if with_sliders {
        lemma_nerfs_leave(t, curr, last, last_last, objects, with_sliders, c);
    }
    lemma_bonuses(t, curr, last, last_last, objects, with_sliders);
    lemma_turns_from(
        combined_of(t, curr, last, last_last, objects, with_sliders),
        wide,
        acute,
        circle,
    );
    if !(wide is Nan) {
        lemma_nerfs_leave(t, curr, last, last_last, objects, with_sliders, wide * circle);
    }
    if !(acute is Nan) {
        lemma_nerfs_leave(
            t,
            curr,
            last,
            last_last,
            objects,
            with_sliders,
            acute * near(85, 100) * circle,
        );
    }
    if !(r is Nan) {
        lemma_order(a * least * least * least, r);
        lemma_order(b * least * least * least, r);
        if with_sliders {
            lemma_order(c * least * least * least, r);
        }
        if !(wide is Nan) {
            lemma_order(wide * circle * least * least * least, r);
        }
        if !(acute is Nan) {
            lemma_order(acute * near(85, 100) * circle * least * least * least, r);
        }
    }
}

/// The bonuses of an object are not negative.
proof fn lemma_bonuses(
    t: Table,
    curr: OsuDifficultyObject,
    last: OsuDifficultyObject,
    last_last: OsuDifficultyObject,
    objects: Seq<OsuDifficultyObject>,
    with_sliders: bool,
)
    requires
        curves_are_tame(t),
        measured(curr),
        measured(last),
        measured(last_last),
    ensures
        ({
            let (wide, acute, wiggle) = bonuses_of(t, curr, last, last_last, objects, with_sliders);
            not_negative(wide) && not_negative(acute)
        }),
{
    lemma_one();
    let (curr_vel, prev_vel) = (
        velocity_of(curr, last, with_sliders),
        velocity_of(last, last_last, with_sliders),
    );
    lemma_velocity(curr, last, with_sliders);
    lemma_velocity(last, last_last, with_sliders);
    lemma_pick(curr_vel, prev_vel);
    if let (Some(curr_angle), Some(last_angle)) = (curr.angle, last.angle) {
        lemma_angles(
            t,
            curr,
            last,
            objects,
            curr_angle@,
            last_angle@,
            curr_vel.lesser(prev_vel),
        );
    }
}

/// The better of two angles counts, so neither takes anything off the other.
proof fn lemma_turns_from(combined: Value, wide: Value, acute: Value, circle: Value)
    requires
        not_negative(wide),
        not_negative(acute),
        finite(circle),
        0 <= place(circle),
        from_on(combined, (acute * near(85, 100)).greater(wide * exactly(1)) * circle),
    ensures
        !(wide is Nan) ==> from_on(combined, wide * circle),
        !(acute is Nan) ==> from_on(combined, acute * near(85, 100) * circle),
{
    lemma_one();
    lemma_near_place(85, 100);
    let (x, y) = (acute * near(85, 100), wide * exactly(1));
    lemma_multiply(acute, near(85, 100));
    lemma_multiply(wide, exactly(1));
    let turn = x.greater(y);
    if !(x is Nan) && !(y is Nan) {
        lemma_greater(x, y);
    }
    assert(x is Nan ==> turn == y) by {
        reveal(Value::greater);
    }
    assert(y is Nan ==> turn == x) by {
        reveal(Value::greater);
        reveal(Value::below);
    }
    if !(wide is Nan) {
        lemma_times_one(wide);
        assert(from_on(turn, wide));
        lemma_multiply_same(turn, wide, circle);
    }
    if !(acute is Nan) {
        lemma_near_places(1, 64, 85, 100);
        lemma_dyadic(1);
        lemma_factor_order(near(85, 100), acute, acute);
        lemma_commutes(near(85, 100), acute);
        assert(from_on(turn, x));
        lemma_multiply_same(turn, x, circle);
    }
}

/// The wide, the acute and the wiggle bonus of an object under Relax, if it has angles.
pub open spec fn relax_bonuses_of(
    t: Table,
    curr: OsuDifficultyObject,
    last: OsuDifficultyObject,
    last_last: OsuDifficultyObject,
    objects: Seq<OsuDifficultyObject>,
    with_sliders: bool,
) -> (Value, Value, Value) {
    match (curr.angle, last.angle) {
        (Some(curr_angle), Some(last_angle)) => relax_angle_bonuses_of(
            t,
            curr,
            last,
            objects,
            curr_angle@,
            last_angle@,
            velocity_of(curr, last, with_sliders).lesser(
                velocity_of(last, last_last, with_sliders),
            ),
        ),
        _ => (exactly(0), exactly(0), exactly(0)),
    }
}

/// The strain before what is easy with Relax is taken off is at least that of each of its
/// parts.
proof fn lemma_raw_from(
    t: Table,
    curr: OsuDifficultyObject,
    last: OsuDifficultyObject,
    last_last: OsuDifficultyObject,
    objects: Seq<OsuDifficultyObject>,
    with_sliders: bool,
)
    requires
        curves_are_tame(t),
        measured(curr),
        measured(last),
        measured(last_last),
    ensures
        ({
            let raw = raw_strain_of(t, curr, last, last_last, objects, with_sliders);
            let circle = curr.small_circle_bonus@;
            let (wide, acute, wiggle) = relax_bonuses_of(
                t,
                curr,
                last,
                last_last,
                objects,
                with_sliders,
            );
            let change = change_of(t, curr, last, last_last, with_sliders);
            let turn = (acute * exactly(1)).greater(wide * near(115, 100));
            &&& from_on(raw, curr.lazy_jump_dist@ / curr.adjusted_delta_time@ * circle)
            &&& from_on(raw, wiggle * near(81, 100) * circle)
            &&& from_on(raw, change * near(85, 100) * circle)
            &&& from_on(raw, turn * circle)
            &&& with_sliders ==> from_on(raw, slider_bonus_of(last) * near(55, 100))
        }),
{
    lemma_one();
    lemma_near_place(81, 100);
    lemma_near_place(85, 100);
    lemma_near_place(115, 100);
    lemma_near_place(55, 100);
    let curr_vel = velocity_of(curr, last, with_sliders);
    let prev_vel = velocity_of(last, last_last, with_sliders);
    lemma_velocity(curr, last, with_sliders);
    lemma_velocity(last, last_last, with_sliders);
    lemma_velocity_from(curr, last, with_sliders);
    lemma_pick(curr_vel, prev_vel);
    let (wide, acute, wiggle) = match (curr.angle, last.angle) {
        (Some(curr_angle), Some(last_angle)) => {
            lemma_relax_angles(
                t,
                curr,
                last,
                objects,
                curr_angle@,
                last_angle@,
                curr_vel.lesser(prev_vel),
            );
            relax_angle_bonuses_of(
                t,
                curr,
                last,
                objects,
                curr_angle@,
                last_angle@,
                curr_vel.lesser(prev_vel),
            )
        },
        _ => (exactly(0), exactly(0), exactly(0)),
    };
    let change = velocity_change_bonus_of(t, curr, last, last_last, curr_vel, prev_vel);
    lemma_velocity_change(t, curr, last, last_last, curr_vel, prev_vel);
    lemma_multiply(acute, exactly(1));
    lemma_multiply(wide, near(115, 100));
    lemma_pick(acute * exactly(1), wide * near(115, 100));
    lemma_slider(last);
    lemma_combined_from(
        curr_vel,
        curr.lazy_jump_dist@ / curr.adjusted_delta_time@,
        wiggle,
        change,
        (acute * exactly(1)).greater(wide * near(115, 100)),
        curr.small_circle_bonus@,
        slider_bonus_of(last),
        (near(81, 100), near(85, 100), near(55, 100)),
    );
}

/// The nerf for farm leaves a share of a strain, where there is no extreme flow.
proof fn lemma_patterned_from(
    t: Table,
    strain: Value,
    low: Value,
    curr: OsuDifficultyObject,
    last: OsuDifficultyObject,
    objects: Seq<OsuDifficultyObject>,
)
    requires
        curves_are_tame(t),
        from_on(strain, low),
        !near(21025, 100).below(exactly(30_000) / curr.adjusted_delta_time@) || !exactly(0).below(
            flow_nerf_of(curr, objects),
        ),
    ensures
        from_on(patterned_strain_of(t, strain, curr, last, objects), low * near(3, 10)),
{
    lemma_one();
    lemma_least_left();
    lemma_near_place(35, 100);
    lemma_near_place(75, 100);
    lemma_near_places(35, 100, 75, 100);
    lemma_near_place(108, 100);
    lemma_near_places(1, 1, 108, 100);
    let eff_bpm = exactly(30_000) / curr.adjusted_delta_time@;
    let detect = recent_no_followpoint_streak_of(Some(curr), objects, 6) >= 6;
    assert(!exactly(0).below(exactly(0))) by {
        lemma_order(exactly(0), exactly(0));
    }
    let farm = farm_nerf_of(t, curr, last, objects, eff_bpm, detect);
    lemma_farm(t, curr, last, objects, eff_bpm, detect);
    lemma_left_from(near(75, 100), farm, near(35, 100));
    let nerfed = strain * (near(75, 100) - farm);
    lemma_multiply_from(strain, low, near(75, 100) - farm, near(3, 10));
    let boost = if detect {
        tech_boost_of(curr, objects)
    } else {
        exactly(0)
    };
    lemma_boost(curr, objects);
    lemma_add_from(exactly(1), exactly(1), boost);
    let factor = (exactly(1) + boost).lesser(near(108, 100));
    assert(from_on(factor, exactly(1))) by {
        reveal(Value::lesser);
    }
    lemma_multiply_from(nerfed, low * near(3, 10), factor, exactly(1));
    lemma_proper(low, near(3, 10));
    lemma_times_one(low * near(3, 10));
}

/// What Relax takes off leaves a share of what a strain is at least, where there is no
/// extreme flow.
proof fn lemma_relax_leaves(
    t: Table,
    raw: Value,
    low: Value,
    curr: OsuDifficultyObject,
    last: OsuDifficultyObject,
    objects: Seq<OsuDifficultyObject>,
)
    requires
        curves_are_tame(t),
        from_on(raw, low),
        !near(21025, 100).below(exactly(30_000) / curr.adjusted_delta_time@) || !exactly(0).below(
            flow_nerf_of(curr, objects),
        ),
    ensures
        from_on(
            less_dense_of(t, patterned_strain_of(t, raw, curr, last, objects), curr) * exactly(1),
            low * near(3, 10) * near(3, 10),
        ),
{
    lemma_one();
    lemma_least_left();
    lemma_near_place(55, 100);
    lemma_near_places(55, 100, 1, 1);
    let least = near(3, 10);
    lemma_patterned_from(t, raw, low, curr, last, objects);
    let patterned = patterned_strain_of(t, raw, curr, last, objects);
    let weight = t.reverse_lerp(
        t.milliseconds_to_bpm(curr.adjusted_delta_time@, None),
        exactly(200),
        exactly(280),
    );
    let spaced = t.reverse_lerp(curr.lazy_jump_dist@, exactly(80), exactly(170));
    lemma_left(exactly(1), spaced);
    lemma_part_within(weight, exactly(1), exactly(1) - spaced);
    let severity = weight * (exactly(1) - spaced);
    lemma_part_of(near(55, 100), severity);
    lemma_left_from(exactly(1), near(55, 100) * severity, near(55, 100));
    lemma_multiply_from(
        patterned,
        low * least,
        exactly(1) - near(55, 100) * severity,
        least,
    );
    lemma_part_from(patterned, low * least, least);
    let thinned = less_dense_of(t, patterned, curr);
    lemma_multiply_from(thinned, low * least * least, exactly(1), exactly(1));
    lemma_proper(low * least, least);
    lemma_times_one(low * least * least);
}

/// The strain of an object under Relax that follows two others, neither it nor the
/// last one a spinner, is at least a fixed share of the velocity of its jump, where
/// it is a number and not part of an extreme flow.
pub proof fn law_jumps_have_strain_under_relax<F: Fn(Query<Double>) -> Double>(
    math: &Math<F>,
    curr: OsuDifficultyObject,
    objects: Seq<OsuDifficultyObject>,
    with_sliders: bool,
)
    requires
        answers_tamely(math.ask),
        measured(curr),
        forall|i: int| 0 <= i < objects.len() ==> measured(#[trigger] objects[i]),
        object_before(curr, 1, objects) is Some,
        object_before(curr, 0, objects) matches Some(last) && !last.is_spinner,
        !curr.is_spinner,
        !near(21025, 100).below(exactly(30_000) / curr.adjusted_delta_time@) || !exactly(0).below(
            flow_nerf_of(curr, objects),
        ),
    ensures
        ({
            let r = relax_strain_of(math@, curr, objects, with_sliders);
            let velocity = curr.lazy_jump_dist@ / curr.adjusted_delta_time@;
            let least = near(3, 10);
            !(r is Nan) ==> (velocity * curr.small_circle_bonus@ * least * least).at_most(r)
        }),
{
    let t = math@;
    lemma_one();
    lemma_tame(math);
    let velocity = curr.lazy_jump_dist@ / curr.adjusted_delta_time@;
    let low = velocity * curr.small_circle_bonus@;
    let least = near(3, 10);
    let (last_last, last) = (
        object_before(curr, 1, objects)->Some_0,
        object_before(curr, 0, objects)->Some_0,
    );
    let raw = raw_strain_of(t, curr, last, last_last, objects, with_sliders);
    lemma_raw_from(t, curr, last, last_last, objects, with_sliders);
    lemma_relax_leaves(t, raw, low, curr, last, objects);
    let r = relax_strain_of(t, curr, objects, with_sliders);
    if !(r is Nan) {
        lemma_order(low * least * least, r);
    }
}

/// Every part of a strain counts under Relax, where it is a number and not part of an
/// extreme flow: it is at least a fixed share of the wiggle, of the change of speed, of the
/// wide and of the acute angle, and of the slider before it, where sliders count.
pub proof fn law_every_part_adds_strain_under_relax<F: Fn(Query<Double>) -> Double>(
    math: &Math<F>,
    curr: OsuDifficultyObject,
    objects: Seq<OsuDifficultyObject>,
    with_sliders: bool,
)
    requires
        answers_tamely(math.ask),
        measured(curr),
        forall|i: int| 0 <= i < objects.len() ==> measured(#[trigger] objects[i]),
        object_before(curr, 1, objects) is Some,
        object_before(curr, 0, objects) matches Some(last) && !last.is_spinner,
        !curr.is_spinner,
        !near(21025, 100).below(exactly(30_000) / curr.adjusted_delta_time@) || !exactly(0).below(
            flow_nerf_of(curr, objects),
        ),
    ensures
        ({
            let t = math@;
            let (last_last, last) = (
                object_before(curr, 1, objects)->Some_0,
                object_before(curr, 0, objects)->Some_0,
            );
            let r = relax_strain_of(t, curr, objects, with_sliders);
            let circle = curr.small_circle_bonus@;
            let least = near(3, 10);
            let (wide, acute, wiggle) = relax_bonuses_of(
                t,
                curr,
                last,
                last_last,
                objects,
                with_sliders,
            );
            let change = change_of(t, curr, last, last_last, with_sliders);
            let turn = (acute * exactly(1)).greater(wide * near(115, 100));
            !(r is Nan) ==> {
                &&& (wiggle * near(81, 100) * circle * least * least).at_most(r)
                &&& (change * near(85, 100) * circle * least * least).at_most(r)
                &&& (turn * circle * least * least).at_most(r)
                &&& with_sliders ==> (slider_bonus_of(last) * near(55, 100) * least
                    * least).at_most(r)
            }
        }),
{
    let t = math@;
    lemma_one();
    lemma_tame(math);
    let (last_last, last) = (
        object_before(curr, 1, objects)->Some_0,
        object_before(curr, 0, objects)->Some_0,
    );
    let r = relax_strain_of(t, curr, objects, with_sliders);
    let circle = curr.small_circle_bonus@;
    let least = near(3, 10);
    let (wide, acute, wiggle) = relax_bonuses_of(t, curr, last, last_last, objects, with_sliders);
    let change = change_of(t, curr, last, last_last, with_sliders);
    let turn = (acute * exactly(1)).greater(wide * near(115, 100));
    let raw = raw_strain_of(t, curr, last, last_last, objects, with_sliders);
    lemma_raw_from(t, curr, last, last_last, objects, with_sliders);
    let (a, b, c, d) = (
        wiggle * near(81, 100) * circle,
        change * near(85, 100) * circle,
        turn * circle,
        slider_bonus_of(last) * near(55, 100),
    );
    lemma_relax_leaves(t, raw, a, curr, last, objects);
    lemma_relax_leaves(t, raw, b, curr, last, objects);
    lemma_relax_leaves(t, raw, c, curr, last, objects);
    if with_sliders {
        lemma_relax_leaves(t, raw, d, curr, last, objects);
    }
    if !(r is Nan) {
        lemma_order(a * least * least, r);
        lemma_order(b * least * least, r);
        lemma_order(c * least * least, r);
        if with_sliders {
            lemma_order(d * least * least, r);
        }
    }
}

/// Under Relax following a slider is worth 55% of its speed and more.
pub proof fn law_sliders_are_worth_their_speed(last: OsuDifficultyObject)
    requires
        measured(last),
    ensures
        (slide_of(last) * near(55, 100)).at_most(slider_bonus_of(last)),
{
    lemma_one();
    lemma_near_place(55, 100);
    lemma_near_place(45, 100);
    lemma_near_places(55, 100, 1, 1);
    lemma_near_places(45, 100, 1, 1);
    lemma_near_places(1, 64, 55, 100);
    lemma_dyadic(1);
    let part = near(55, 100);
    if last.is_slider {
        let v = last.travel_dist@ / last.travel_time@;
        lemma_over(last.travel_dist@, last.travel_time@);
        lemma_over(v, part);
        lemma_clamped(v / part, exactly(0), exactly(1));
        let share = (v / part).clamped(exactly(0), exactly(1));
        lemma_multiply(near(45, 100), share);
        lemma_times_share(near(45, 100), share);
        lemma_sum(part, near(45, 100) * share);
        let factor = part + near(45, 100) * share;
        assert(from_on(v, v));
        lemma_multiply_from(v, v, factor, part);
        lemma_part_from(v, v, part);
        lemma_factor_order(part, v, v);
        lemma_commutes(part, v);
        lemma_factor_is_finite(near(45, 100) * share);
        lemma_commutes(factor, v);
        lemma_factor_order(factor, v, v);
        lemma_order(v * part, slider_bonus_of(last));
    } else {
        lemma_times_share(exactly(0), part);
        lemma_order(exactly(0) * part, exactly(0));
    }
}

/// 55% and up to 45% make a finite number.
proof fn lemma_factor_is_finite(x: Value)
    requires
        finite(x),
        0 <= place(x) <= one_units(),
    ensures
        finite(near(55, 100) + x),
        0 < place(near(55, 100) + x),
{
    lemma_one();
    lemma_near_place(55, 100);
    lemma_near_places(55, 100, 1, 1);
    lemma_near_places(1, 64, 55, 100);
    lemma_dyadic(1);
    lemma_whole_place(2);
    lemma_sum(near(55, 100), x);
    lemma_plus(near(55, 100), x);
    lemma_settle_fits(exactly(2));
    lemma_settle_order(place(near(55, 100)) + place(x), 1, (2 * one_units()) as int, 1);
    lemma_inside(exactly(2));
    lemma_inside(near(55, 100) + x);
}

} // verus!
