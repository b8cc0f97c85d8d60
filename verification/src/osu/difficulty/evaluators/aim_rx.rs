//! Aim under Relax.
use vstd::prelude::*;

use crate::double::Double;
use crate::operators::{ratio, whole};
use crate::osu::difficulty::evaluators::bonuses::{
    acute_angle_bonus, acute_angle_bonus_of, bpm_fade, bpm_fade_of, calc_wide_angle_bonus,
    calc_wide_angle_bonus_of, less_on_return, less_on_return_of, nx_severity, nx_severity_of,
    uniform_motion, uniform_motion_of, velocity, velocity_change_bonus, velocity_change_bonus_of,
    velocity_of, wiggle_bonus, wiggle_bonus_of,
};
use crate::osu::difficulty::evaluators::windows::{
    circle_ratio, detect_nx_pattern, detect_nx_pattern_of, pi, windowed_angle_stats,
    windowed_angle_stats_of, windowed_delta_stats, windowed_delta_stats_of, windowed_dist_stats,
    windowed_dist_stats_of, windowed_vel_stats, windowed_vel_stats_of, ANGLE_WINDOW,
};
use crate::osu::difficulty::object::{object_before, OsuDifficultyObject, NORMALIZED_DIAMETER};
use crate::query::{Math, Query, Table};
use crate::value::{exactly, near, Value};

verus! {

/// Whether the last objects are a stream: a consistent and fast rhythm, whatever
/// the spacing.
pub open spec fn is_stream_pattern_of(
    t: Table,
    curr: OsuDifficultyObject,
    objects: Seq<OsuDifficultyObject>,
) -> bool {
    let (delta_mean, delta_stddev, n) = windowed_delta_stats_of(curr, objects, ANGLE_WINDOW as nat);
    if n < 5 || delta_mean.at_most(exactly(0)) {
        false
    } else {
        let eff_bpm = t.milliseconds_to_bpm(delta_mean, None);
        let cv = delta_stddev / delta_mean;
        exactly(180).at_most(eff_bpm) && cv.at_most(near(18, 100))
    }
}

/// How much of the nerf for repetition remains on circles of a radius: all of it
/// from 36.9 on, fading out exponentially to 24.4.
pub open spec fn relax_repeat_nerf_radius_factor_of(t: Table, circle_radius: Value) -> Value {
    if near(369, 10).at_most(circle_radius) {
        exactly(1)
    } else {
        let share = ((near(369, 10) - circle_radius) / (near(369, 10) - near(244, 10))).clamped(
            exactly(0),
            exactly(1),
        );
        t.exp(exactly(9).negated() * share)
    }
}

/// Whether `x` lies between two bounds.
pub open spec fn within_of(x: Value, low: Value, high: Value) -> bool {
    low.at_most(x) && x.at_most(high)
}

/// Whether `x` lies between two bounds.
fn within(x: Double, low: Double, high: Double) -> (r: bool)
    ensures
        r == within_of(x@, low@, high@),
{
    low.at_most(x) && x.at_most(high)
}

/// Whether the last objects are an ordinary flow: evenly spaced, inside one of the
/// usual bands of distance.
pub open spec fn is_neutral_flow_pattern_of(
    curr: OsuDifficultyObject,
    objects: Seq<OsuDifficultyObject>,
) -> bool {
    let (dist_mean, dist_stddev, n) = windowed_dist_stats_of(curr, objects, ANGLE_WINDOW as nat);
    if n < 6 || dist_mean.below(exactly(5)) {
        false
    } else if near(25, 100).below(dist_stddev / dist_mean) {
        false
    } else {
        within_of(dist_mean, exactly(90), exactly(112)) || within_of(
            dist_mean,
            exactly(70),
            exactly(90),
        ) || within_of(dist_mean, exactly(50), exactly(70)) || within_of(
            dist_mean,
            exactly(30),
            exactly(50),
        ) || within_of(dist_mean, exactly(10), exactly(30))
    }
}

/// Whether a jump is about as long as the one before it, both of them long.
pub open spec fn crosses_evenly_of(
    curr: OsuDifficultyObject,
    objects: Seq<OsuDifficultyObject>,
) -> bool {
    match object_before(curr, 0, objects) {
        Some(prev) => {
            let max_d = curr.lazy_jump_dist@.greater(prev.lazy_jump_dist@);
            let min_d = prev.lazy_jump_dist@.lesser(curr.lazy_jump_dist@);
            exactly(80).below(max_d) && ((max_d - min_d) / max_d).below(near(20, 100))
        },
        None => false,
    }
}

/// Whether a jump is about as long as the one before it, both of them long.
fn crosses_evenly(curr: OsuDifficultyObject, objects: &[OsuDifficultyObject]) -> (r: bool)
    ensures
        r == crosses_evenly_of(curr, objects@),
{
    match curr.previous(0, objects) {
        Some(prev) => {
            let max_d = curr.lazy_jump_dist.greater(prev.lazy_jump_dist);
            let min_d = prev.lazy_jump_dist.lesser(curr.lazy_jump_dist);
            whole(80).below(max_d) && ((max_d - min_d) / max_d).below(ratio(20, 100))
        },
        None => false,
    }
}

/// Whether an object is farm: alternating, constant or crossing evenly.
pub open spec fn is_farm_of(curr: OsuDifficultyObject, objects: Seq<OsuDifficultyObject>) -> bool {
    let nx_strength = detect_nx_pattern_of(curr, objects, 4);
    let (_angle, angle_stddev, angle_n) = windowed_angle_stats_of(curr, objects, 4);
    let (dist_mean, dist_stddev, dist_n) = windowed_dist_stats_of(curr, objects, 4);
    let (vel_mean, vel_stddev, vel_n) = windowed_vel_stats_of(curr, objects, 4);
    let slop_like = (angle_n >= 3 && angle_stddev.below(near(30, 100))) || (dist_n >= 3 && exactly(
        0,
    ).below(dist_mean) && (dist_stddev / dist_mean).below(near(16, 100))) || (vel_n >= 3 && exactly(
        0,
    ).below(vel_mean) && (vel_stddev / vel_mean).below(near(16, 100)));
    near(7, 100).below(nx_strength) || slop_like || crosses_evenly_of(curr, objects)
}

/// Whether an object is farm: alternating, constant or crossing evenly.
fn is_farm(curr: OsuDifficultyObject, objects: &[OsuDifficultyObject]) -> (r: bool)
    ensures
        r == is_farm_of(curr, objects@),
{
    let nx_strength = detect_nx_pattern(curr, objects, 4);
    let (_angle, angle_stddev, angle_n) = windowed_angle_stats(curr, objects, 4);
    let (dist_mean, dist_stddev, dist_n) = windowed_dist_stats(curr, objects, 4);
    let (vel_mean, vel_stddev, vel_n) = windowed_vel_stats(curr, objects, 4);
    let slop_like = (angle_n >= 3 && angle_stddev.below(ratio(30, 100))) || (dist_n >= 3 && whole(
        0,
    ).below(dist_mean) && (dist_stddev / dist_mean).below(ratio(16, 100))) || (vel_n >= 3 && whole(
        0,
    ).below(vel_mean) && (vel_stddev / vel_mean).below(ratio(16, 100)));
    ratio(7, 100).below(nx_strength) || slop_like || crosses_evenly(curr, objects)
}

/// How many objects in a row, up to `window` and ending here, are farm. Flow aim
/// is not.
pub open spec fn recent_farm_streak_of(
    current: Option<OsuDifficultyObject>,
    objects: Seq<OsuDifficultyObject>,
    window: nat,
) -> nat
    decreases window,
{
    match current {
        Some(object) => if window > 0 && is_farm_of(object, objects) {
            1 + recent_farm_streak_of(
                object_before(object, 0, objects),
                objects,
                (window - 1) as nat,
            )
        } else {
            0
        },
        None => 0,
    }
}

/// How many objects in a row, up to `window` and ending here, are too close to
/// show follow points.
pub open spec fn recent_no_followpoint_streak_of(
    current: Option<OsuDifficultyObject>,
    objects: Seq<OsuDifficultyObject>,
    window: nat,
) -> nat
    decreases window,
{
    match current {
        Some(object) => if window > 0 && object.lazy_jump_dist@.at_most(exactly(112)) {
            1 + recent_no_followpoint_streak_of(
                object_before(object, 0, objects),
                objects,
                (window - 1) as nat,
            )
        } else {
            0
        },
        None => 0,
    }
}

/// Several severities together: none is one that all of them miss.
pub open spec fn combine_farm_severity_of(
    nx_strength: Value,
    slop_severity: Value,
    cross_severity: Value,
) -> Value {
    exactly(1) - (exactly(1) - nx_strength) * (exactly(1) - slop_severity) * (exactly(1)
        - cross_severity)
}

/// The wide, the acute and the wiggle bonus of an object at the end of two
/// angles.
pub open spec fn relax_angle_bonuses_of(
    t: Table,
    curr: OsuDifficultyObject,
    last: OsuDifficultyObject,
    objects: Seq<OsuDifficultyObject>,
    curr_angle: Value,
    last_angle: Value,
    angle_bonus: Value,
) -> (Value, Value, Value) {
    let (_mean, win_stddev, win_n) = windowed_angle_stats_of(curr, objects, ANGLE_WINDOW as nat);
    let variance_factor = if win_n >= 3 {
        (win_stddev / near(12, 10)).clamped(exactly(0), exactly(1))
    } else {
        exactly(1)
    };
    let wide_rep_nerf = (exactly(1) - variance_factor) * near(25, 100);
    let wide = calc_wide_angle_bonus_of(t, curr_angle) * (angle_bonus * t.smootherstep(
        curr.lazy_jump_dist@,
        exactly(0),
        exactly(NORMALIZED_DIAMETER as nat),
    ) * (exactly(1) - wide_rep_nerf).greater(exactly(0)));
    (
        less_on_return_of(t, wide, curr, last, objects),
        acute_angle_bonus_of(t, curr, last, curr_angle, last_angle, angle_bonus),
        wiggle_bonus_of(t, curr, last, curr_angle, last_angle, angle_bonus),
    )
}

/// The wide, the acute and the wiggle bonus of an object at the end of two
/// angles.
fn relax_angle_bonuses<F: Fn(Query<Double>) -> Double>(
    math: &Math<F>,
    curr: OsuDifficultyObject,
    last: OsuDifficultyObject,
    objects: &[OsuDifficultyObject],
    curr_angle: Double,
    last_angle: Double,
    angle_bonus: Double,
) -> (r: (Double, Double, Double))
    requires
        math.sound(),
    ensures
        (r.0@, r.1@, r.2@) == relax_angle_bonuses_of(
            math@,
            curr,
            last,
            objects@,
            curr_angle@,
            last_angle@,
            angle_bonus@,
        ),
{
    let (_mean, win_stddev, win_n) = windowed_angle_stats(curr, objects, ANGLE_WINDOW);
    let variance_factor = if win_n >= 3 {
        (win_stddev / ratio(12, 10)).clamped(whole(0), whole(1))
    } else {
        whole(1)
    };
    let wide_rep_nerf = (whole(1) - variance_factor) * ratio(25, 100);
    let wide = calc_wide_angle_bonus(math, curr_angle) * (angle_bonus * math.smootherstep(
        curr.lazy_jump_dist,
        whole(0),
        whole(NORMALIZED_DIAMETER as u64),
    ) * (whole(1) - wide_rep_nerf).greater(whole(0)));
    (
        less_on_return(math, wide, curr, last, objects),
        acute_angle_bonus(math, curr, last, curr_angle, last_angle, angle_bonus),
        wiggle_bonus(math, curr, last, curr_angle, last_angle, angle_bonus),
    )
}

/// The bonus for following the slider before an object, tapered on slow ones.
pub open spec fn slider_bonus_of(last: OsuDifficultyObject) -> Value {
    if last.is_slider {
        let travel_vel = last.travel_dist@ / last.travel_time@;
        if travel_vel.below(near(55, 100)) {
            let share = (travel_vel / near(55, 100)).clamped(exactly(0), exactly(1));
            travel_vel * (near(55, 100) + near(45, 100) * share)
        } else {
            travel_vel
        }
    } else {
        exactly(0)
    }
}

/// The bonus for following the slider before an object, tapered on slow ones.
fn slider_bonus(last: OsuDifficultyObject) -> (r: Double)
    ensures
        r@ == slider_bonus_of(last),
{
    if last.is_slider {
        let travel_vel = last.travel_dist / last.travel_time;
        if travel_vel.below(ratio(55, 100)) {
            let share = (travel_vel / ratio(55, 100)).clamped(whole(0), whole(1));
            travel_vel * (ratio(55, 100) + ratio(45, 100) * share)
        } else {
            travel_vel
        }
    } else {
        whole(0)
    }
}

/// The strain before what is easy with Relax is taken off.
pub open spec fn raw_strain_of(
    t: Table,
    curr: OsuDifficultyObject,
    last: OsuDifficultyObject,
    last_last: OsuDifficultyObject,
    objects: Seq<OsuDifficultyObject>,
    with_sliders: bool,
) -> Value {
    let curr_vel = velocity_of(curr, last, with_sliders);
    let prev_vel = velocity_of(last, last_last, with_sliders);
    let (wide, acute, wiggle) = match (curr.angle, last.angle) {
        (Some(curr_angle), Some(last_angle)) => relax_angle_bonuses_of(
            t,
            curr,
            last,
            objects,
            curr_angle@,
            last_angle@,
            curr_vel.lesser(prev_vel),
        ),
        _ => (exactly(0), exactly(0), exactly(0)),
    };
    let vel_change = velocity_change_bonus_of(t, curr, last, last_last, curr_vel, prev_vel);
    let moved = curr_vel + wiggle * near(81, 100) + vel_change * near(85, 100);
    let turned = (moved + (acute * exactly(1)).greater(wide * near(115, 100)))
        * curr.small_circle_bonus@;
    if with_sliders {
        turned + slider_bonus_of(last) * near(55, 100)
    } else {
        turned
    }
}

/// The strain before what is easy with Relax is taken off.
fn raw_strain<F: Fn(Query<Double>) -> Double>(
    math: &Math<F>,
    curr: OsuDifficultyObject,
    last: OsuDifficultyObject,
    last_last: OsuDifficultyObject,
    objects: &[OsuDifficultyObject],
    with_sliders: bool,
) -> (r: Double)
    requires
        math.sound(),
    ensures
        r@ == raw_strain_of(math@, curr, last, last_last, objects@, with_sliders),
{
    let curr_vel = velocity(curr, last, with_sliders);
    let prev_vel = velocity(last, last_last, with_sliders);
    let (wide, acute, wiggle) = match (curr.angle, last.angle) {
        (Some(curr_angle), Some(last_angle)) => relax_angle_bonuses(
            math,
            curr,
            last,
            objects,
            curr_angle,
            last_angle,
            curr_vel.lesser(prev_vel),
        ),
        _ => (whole(0), whole(0), whole(0)),
    };
    let vel_change = velocity_change_bonus(math, curr, last, last_last, curr_vel, prev_vel);
    let moved = curr_vel + wiggle * ratio(81, 100) + vel_change * ratio(85, 100);
    let turned = (moved + (acute * whole(1)).greater(wide * ratio(115, 100)))
        * curr.small_circle_bonus;
    if with_sliders {
        turned + slider_bonus(last) * ratio(55, 100)
    } else {
        turned
    }
}

/// How farm-like alternating angles are.
pub open spec fn alternating_severity_of(
    curr: OsuDifficultyObject,
    objects: Seq<OsuDifficultyObject>,
    eff_bpm: Value,
) -> Value {
    let nx_strength = detect_nx_pattern_of(curr, objects, ANGLE_WINDOW as nat);
    if near(5, 100).below(nx_strength) {
        nx_severity_of(nx_strength, curr, objects, eff_bpm, exactly(350), exactly(150))
    } else {
        exactly(0)
    }
}

/// How farm-like alternating angles are.
fn alternating_severity(
    curr: OsuDifficultyObject,
    objects: &[OsuDifficultyObject],
    eff_bpm: Double,
) -> (r: Double)
    ensures
        r@ == alternating_severity_of(curr, objects@, eff_bpm@),
{
    let nx_strength = detect_nx_pattern(curr, objects, ANGLE_WINDOW);
    if ratio(5, 100).below(nx_strength) {
        nx_severity(nx_strength, curr, objects, eff_bpm, whole(350), whole(150))
    } else {
        whole(0)
    }
}

/// How farm-like a constant motion is.
pub open spec fn slop_severity_of(
    curr: OsuDifficultyObject,
    objects: Seq<OsuDifficultyObject>,
    eff_bpm: Value,
) -> Value {
    match uniform_motion_of(curr, objects) {
        Some(severity) => severity * bpm_fade_of(eff_bpm, exactly(400), exactly(150)),
        None => exactly(0),
    }
}

/// How farm-like a constant motion is.
fn slop_severity(
    curr: OsuDifficultyObject,
    objects: &[OsuDifficultyObject],
    eff_bpm: Double,
) -> (r: Double)
    ensures
        r@ == slop_severity_of(curr, objects@, eff_bpm@),
{
    match uniform_motion(curr, objects) {
        Some(severity) => severity * bpm_fade(eff_bpm, whole(400), whole(150)),
        None => whole(0),
    }
}

/// The nerf for crossing the screen back and forth at a constant distance.
pub open spec fn cross_screen_nerf_of(
    curr: OsuDifficultyObject,
    last: OsuDifficultyObject,
) -> Value {
    let max_d = curr.lazy_jump_dist@.greater(last.lazy_jump_dist@);
    let min_d = curr.lazy_jump_dist@.lesser(last.lazy_jump_dist@);
    if near(857, 10).at_most(curr.adjusted_delta_time@) && exactly(80).below(max_d) {
        let change_ratio = if exactly(0).below(max_d) {
            (max_d - min_d) / max_d
        } else {
            exactly(1)
        };
        if !exactly(360).at_most(max_d) && change_ratio.below(near(18, 100)) {
            let dist_factor = exactly(1) - ((max_d - exactly(80)) / (exactly(360) - exactly(
                80,
            ))).clamped(exactly(0), exactly(1));
            let severity = (exactly(1) - change_ratio / near(18, 100)) * dist_factor;
            near(15, 100) * severity
        } else {
            exactly(0)
        }
    } else {
        exactly(0)
    }
}

/// The nerf for crossing the screen back and forth at a constant distance.
fn cross_screen_nerf(curr: OsuDifficultyObject, last: OsuDifficultyObject) -> (r: Double)
    ensures
        r@ == cross_screen_nerf_of(curr, last),
{
    let max_d = curr.lazy_jump_dist.greater(last.lazy_jump_dist);
    let min_d = curr.lazy_jump_dist.lesser(last.lazy_jump_dist);
    if ratio(857, 10).at_most(curr.adjusted_delta_time) && whole(80).below(max_d) {
        let change_ratio = if whole(0).below(max_d) {
            (max_d - min_d) / max_d
        } else {
            whole(1)
        };
        if !whole(360).at_most(max_d) && change_ratio.below(ratio(18, 100)) {
            let dist_factor = whole(1) - ((max_d - whole(80)) / (whole(360) - whole(
                80,
            ))).clamped(whole(0), whole(1));
            let severity = (whole(1) - change_ratio / ratio(18, 100)) * dist_factor;
            ratio(15, 100) * severity
        } else {
            whole(0)
        }
    } else {
        whole(0)
    }
}

/// The nerf for an extreme flow, by the spread and mean of its angles and its
/// spacing.
pub open spec fn flow_nerf_of(
    curr: OsuDifficultyObject,
    objects: Seq<OsuDifficultyObject>,
) -> Value {
    let (flow_mean, flow_stddev, flow_n) = windowed_angle_stats_of(
        curr,
        objects,
        ANGLE_WINDOW as nat,
    );
    if flow_n >= 4 && exactly(2).at_most(flow_mean) && flow_stddev.at_most(near(3, 10)) {
        let evenness = exactly(1) - flow_stddev / near(3, 10);
        let stddev_severity = evenness * evenness;
        let mean_range = pi() - exactly(2);
        let mean_severity = ((flow_mean - exactly(2)) / mean_range).clamped(exactly(0), exactly(1));
        let angle_severity = stddev_severity * mean_severity;
        let (avg_dist, _stddev, dist_n) = windowed_dist_stats_of(
            curr,
            objects,
            ANGLE_WINDOW as nat,
        );
        let dist_factor = if dist_n < 3 {
            near(5, 10)
        } else if avg_dist.at_most(exactly(50)) {
            exactly(1)
        } else if exactly(97).at_most(avg_dist) {
            exactly(0)
        } else {
            exactly(1) - (avg_dist - exactly(50)) / (exactly(97) - exactly(50))
        };
        near(50, 100) * (angle_severity * dist_factor)
    } else {
        exactly(0)
    }
}

/// The nerf for an extreme flow, by the spread and mean of its angles and its
/// spacing.
fn flow_nerf(curr: OsuDifficultyObject, objects: &[OsuDifficultyObject]) -> (r: Double)
    ensures
        r@ == flow_nerf_of(curr, objects@),
{
    let (flow_mean, flow_stddev, flow_n) = windowed_angle_stats(curr, objects, ANGLE_WINDOW);
    if flow_n >= 4 && whole(2).at_most(flow_mean) && flow_stddev.at_most(ratio(3, 10)) {
        let evenness = whole(1) - flow_stddev / ratio(3, 10);
        let stddev_severity = evenness * evenness;
        let mean_range = circle_ratio() - whole(2);
        let mean_severity = ((flow_mean - whole(2)) / mean_range).clamped(whole(0), whole(1));
        let angle_severity = stddev_severity * mean_severity;
        let (avg_dist, _stddev, dist_n) = windowed_dist_stats(curr, objects, ANGLE_WINDOW);
        let dist_factor = if dist_n < 3 {
            ratio(5, 10)
        } else if avg_dist.at_most(whole(50)) {
            whole(1)
        } else if whole(97).at_most(avg_dist) {
            whole(0)
        } else {
            whole(1) - (avg_dist - whole(50)) / (whole(97) - whole(50))
        };
        ratio(50, 100) * (angle_severity * dist_factor)
    } else {
        whole(0)
    }
}

/// The boost for varied angles at varied speeds.
pub open spec fn tech_boost_of(
    curr: OsuDifficultyObject,
    objects: Seq<OsuDifficultyObject>,
) -> Value {
    let (_angle, angle_stddev, angle_n) = windowed_angle_stats_of(
        curr,
        objects,
        ANGLE_WINDOW as nat,
    );
    let (vel_mean, vel_stddev, vel_n) = windowed_vel_stats_of(curr, objects, ANGLE_WINDOW as nat);
    if angle_n >= 4 && vel_n >= 4 {
        let angle_variety = ((angle_stddev - near(6, 10)) / near(4, 10)).clamped(
            exactly(0),
            exactly(1),
        );
        let vel_cv = if exactly(0).below(vel_mean) {
            vel_stddev / vel_mean
        } else {
            exactly(0)
        };
        let vel_variety = ((vel_cv - near(25, 100))
            / near(25, 100)).clamped(exactly(0), exactly(1));
        near(8, 100) * (angle_variety * vel_variety)
    } else {
        exactly(0)
    }
}

/// The boost for varied angles at varied speeds.
fn tech_boost(curr: OsuDifficultyObject, objects: &[OsuDifficultyObject]) -> (r: Double)
    ensures
        r@ == tech_boost_of(curr, objects@),
{
    let (_angle, angle_stddev, angle_n) = windowed_angle_stats(curr, objects, ANGLE_WINDOW);
    let (vel_mean, vel_stddev, vel_n) = windowed_vel_stats(curr, objects, ANGLE_WINDOW);
    if angle_n >= 4 && vel_n >= 4 {
        let angle_variety = ((angle_stddev - ratio(6, 10)) / ratio(4, 10)).clamped(
            whole(0),
            whole(1),
        );
        let vel_cv = if whole(0).below(vel_mean) {
            vel_stddev / vel_mean
        } else {
            whole(0)
        };
        let vel_variety = ((vel_cv - ratio(25, 100)) / ratio(25, 100)).clamped(whole(0), whole(1));
        ratio(8, 100) * (angle_variety * vel_variety)
    } else {
        whole(0)
    }
}

/// The nerf for farm, all of it only on circles that are not too small.
pub open spec fn farm_nerf_of(
    t: Table,
    curr: OsuDifficultyObject,
    last: OsuDifficultyObject,
    objects: Seq<OsuDifficultyObject>,
    eff_bpm: Value,
    detect: bool,
) -> Value {
    let nx_severity = if detect {
        alternating_severity_of(curr, objects, eff_bpm)
    } else {
        exactly(0)
    };
    let slop = if detect {
        slop_severity_of(curr, objects, eff_bpm)
    } else {
        exactly(0)
    };
    let cross = if detect {
        cross_screen_nerf_of(curr, last)
    } else {
        exactly(0)
    };
    let severity = combine_farm_severity_of(nx_severity, slop, cross / near(15, 100));
    (near(35, 100) * severity).clamped(exactly(0), near(35, 100))
        * relax_repeat_nerf_radius_factor_of(t, curr.circle_radius@)
}

/// The nerf for farm, all of it only on circles that are not too small.
fn farm_nerf<F: Fn(Query<Double>) -> Double>(
    math: &Math<F>,
    curr: OsuDifficultyObject,
    last: OsuDifficultyObject,
    objects: &[OsuDifficultyObject],
    eff_bpm: Double,
    detect: bool,
) -> (r: Double)
    requires
        math.sound(),
    ensures
        r@ == farm_nerf_of(math@, curr, last, objects@, eff_bpm@, detect),
{
    let nx_severity = if detect {
        alternating_severity(curr, objects, eff_bpm)
    } else {
        whole(0)
    };
    let slop = if detect {
        slop_severity(curr, objects, eff_bpm)
    } else {
        whole(0)
    };
    let cross = if detect {
        cross_screen_nerf(curr, last)
    } else {
        whole(0)
    };
    let severity = AimRxEvaluator::combine_farm_severity(nx_severity, slop, cross / ratio(15, 100));
    (ratio(35, 100) * severity).clamped(whole(0), ratio(35, 100))
        * AimRxEvaluator::relax_repeat_nerf_radius_factor(math, curr.circle_radius)
}

/// The strain after the nerfs for flow and farm and the boost for technique. The
/// boost waits out a farm section and spares ordinary flows and streams.
pub open spec fn patterned_strain_of(
    t: Table,
    strain: Value,
    curr: OsuDifficultyObject,
    last: OsuDifficultyObject,
    objects: Seq<OsuDifficultyObject>,
) -> Value {
    let eff_bpm = exactly(30_000) / curr.adjusted_delta_time@;
    let detect = recent_no_followpoint_streak_of(Some(curr), objects, 6) >= 6;
    let flow = if near(21025, 100).below(eff_bpm) && detect {
        flow_nerf_of(curr, objects)
    } else {
        exactly(0)
    };
    let farm = farm_nerf_of(t, curr, last, objects, eff_bpm, detect);
    if exactly(0).below(flow) {
        strain * (near(50, 100) - flow)
    } else {
        let nerfed = strain * (near(75, 100) - farm);
        let after_farm = recent_farm_streak_of(Some(curr), objects, 5) >= 3 && near(12, 100).below(
            farm,
        );
        if !after_farm && !is_neutral_flow_pattern_of(curr, objects) && !is_stream_pattern_of(
            t,
            curr,
            objects,
        ) {
            let boost = if detect {
                tech_boost_of(curr, objects)
            } else {
                exactly(0)
            };
            nerfed * (exactly(1) + boost).lesser(near(108, 100))
        } else {
            nerfed
        }
    }
}

/// The strain after the nerfs for flow and farm and the boost for technique. The
/// boost waits out a farm section and spares ordinary flows and streams.
fn patterned_strain<F: Fn(Query<Double>) -> Double>(
    math: &Math<F>,
    strain: Double,
    curr: OsuDifficultyObject,
    last: OsuDifficultyObject,
    objects: &[OsuDifficultyObject],
) -> (r: Double)
    requires
        math.sound(),
    ensures
        r@ == patterned_strain_of(math@, strain@, curr, last, objects@),
{
    let eff_bpm = whole(30_000) / curr.adjusted_delta_time;
    let detect = AimRxEvaluator::recent_no_followpoint_streak(curr, objects, 6) >= 6;
    let flow = if ratio(21025, 100).below(eff_bpm) && detect {
        flow_nerf(curr, objects)
    } else {
        whole(0)
    };
    let farm = farm_nerf(math, curr, last, objects, eff_bpm, detect);
    if whole(0).below(flow) {
        strain * (ratio(50, 100) - flow)
    } else {
        let nerfed = strain * (ratio(75, 100) - farm);
        let after_farm = AimRxEvaluator::recent_farm_streak(curr, objects, 5) >= 3
            && ratio(12, 100).below(farm);
        if !after_farm && !AimRxEvaluator::is_neutral_flow_pattern(curr, objects)
            && !AimRxEvaluator::is_stream_pattern(math, curr, objects) {
            let boost = if detect {
                tech_boost(curr, objects)
            } else {
                whole(0)
            };
            nerfed * (whole(1) + boost).lesser(ratio(108, 100))
        } else {
            nerfed
        }
    }
}

/// The strain after the nerf for dense streams: up to 55% is taken off what is both
/// fast and tightly spaced, and nothing off jumps at the same tempo.
pub open spec fn less_dense_of(t: Table, strain: Value, curr: OsuDifficultyObject) -> Value {
    if exactly(0).below(curr.adjusted_delta_time@) {
        let eff_bpm = t.milliseconds_to_bpm(curr.adjusted_delta_time@, None);
        let bpm_weight = t.reverse_lerp(eff_bpm, exactly(200), exactly(280));
        if exactly(0).below(bpm_weight) {
            let dist_weight = exactly(1) - t.reverse_lerp(
                curr.lazy_jump_dist@,
                exactly(80),
                exactly(170),
            );
            strain * (exactly(1) - near(55, 100) * (bpm_weight * dist_weight))
        } else {
            strain
        }
    } else {
        strain
    }
}

/// The strain after the nerf for dense streams: up to 55% is taken off what is both
/// fast and tightly spaced, and nothing off jumps at the same tempo.
fn less_dense<F: Fn(Query<Double>) -> Double>(
    math: &Math<F>,
    strain: Double,
    curr: OsuDifficultyObject,
) -> (r: Double)
    requires
        math.sound(),
    ensures
        r@ == less_dense_of(math@, strain@, curr),
{
    if whole(0).below(curr.adjusted_delta_time) {
        let eff_bpm = math.milliseconds_to_bpm(curr.adjusted_delta_time, None);
        let bpm_weight = math.reverse_lerp(eff_bpm, whole(200), whole(280));
        if whole(0).below(bpm_weight) {
            let dist_weight = whole(1) - math.reverse_lerp(
                curr.lazy_jump_dist,
                whole(80),
                whole(170),
            );
            strain * (whole(1) - ratio(55, 100) * (bpm_weight * dist_weight))
        } else {
            strain
        }
    } else {
        strain
    }
}

/// The strain of an object: none before there are two others, and none on or
/// right after a spinner.
pub open spec fn relax_strain_of(
    t: Table,
    curr: OsuDifficultyObject,
    objects: Seq<OsuDifficultyObject>,
    with_sliders: bool,
) -> Value {
    match (object_before(curr, 1, objects), object_before(curr, 0, objects)) {
        (Some(last_last), Some(last)) => if curr.is_spinner || last.is_spinner {
            exactly(0)
        } else {
            let raw = raw_strain_of(t, curr, last, last_last, objects, with_sliders);
            less_dense_of(t, patterned_strain_of(t, raw, curr, last, objects), curr) * exactly(1)
        },
        _ => exactly(0),
    }
}

/// Rates the aim of single objects under Relax, where tapping is free: patterns
/// that are trivial then are nerfed, and technical ones boosted.
pub struct AimRxEvaluator;

impl AimRxEvaluator {
    /// Whether the last objects are a stream: a consistent and fast rhythm, whatever
    /// the spacing.
    pub fn is_stream_pattern<F: Fn(Query<Double>) -> Double>(
        math: &Math<F>,
        curr: OsuDifficultyObject,
        objects: &[OsuDifficultyObject],
    ) -> (r: bool)
        requires
            math.sound(),
        ensures
            r == is_stream_pattern_of(math@, curr, objects@),
    {
        let (delta_mean, delta_stddev, n) = windowed_delta_stats(curr, objects, ANGLE_WINDOW);
        if n < 5 || delta_mean.at_most(whole(0)) {
            false
        } else {
            let eff_bpm = math.milliseconds_to_bpm(delta_mean, None);
            let cv = delta_stddev / delta_mean;
            whole(180).at_most(eff_bpm) && cv.at_most(ratio(18, 100))
        }
    }

    /// How much of the nerf for repetition remains on circles of a radius: all of it
    /// from 36.9 on, fading out exponentially to 24.4.
    pub fn relax_repeat_nerf_radius_factor<F: Fn(Query<Double>) -> Double>(
        math: &Math<F>,
        circle_radius: Double,
    ) -> (r: Double)
        requires
            math.sound(),
        ensures
            r@ == relax_repeat_nerf_radius_factor_of(math@, circle_radius@),
    {
        if ratio(369, 10).at_most(circle_radius) {
            whole(1)
        } else {
            let share = ((ratio(369, 10) - circle_radius)
                / (ratio(369, 10) - ratio(244, 10))).clamped(
                whole(0),
                whole(1),
            );
            math.exp(whole(9).negated() * share)
        }
    }

    /// Whether the last objects are an ordinary flow: evenly spaced, inside one of the
    /// usual bands of distance.
    pub fn is_neutral_flow_pattern(
        curr: OsuDifficultyObject,
        objects: &[OsuDifficultyObject],
    ) -> (r: bool)
        ensures
            r == is_neutral_flow_pattern_of(curr, objects@),
    {
        let (dist_mean, dist_stddev, n) = windowed_dist_stats(curr, objects, ANGLE_WINDOW);
        if n < 6 || dist_mean.below(whole(5)) {
            false
        } else if ratio(25, 100).below(dist_stddev / dist_mean) {
            false
        } else {
            within(dist_mean, whole(90), whole(112)) || within(
                dist_mean,
                whole(70),
                whole(90),
            ) || within(dist_mean, whole(50), whole(70)) || within(
                dist_mean,
                whole(30),
                whole(50),
            ) || within(dist_mean, whole(10), whole(30))
        }
    }

    /// How many objects in a row, up to `window` and ending here, are farm. Flow aim
    /// is not.
    pub fn recent_farm_streak(
        curr: OsuDifficultyObject,
        objects: &[OsuDifficultyObject],
        window: usize,
    ) -> (r: usize)
        ensures
            r == recent_farm_streak_of(Some(curr), objects@, window as nat),
            r <= window,
    {
        let mut streak: usize = 0;
        let mut current: Option<OsuDifficultyObject> = Some(curr);
        let mut open: bool = true;
        while open && streak < window
            invariant
                streak <= window,
                recent_farm_streak_of(Some(curr), objects@, window as nat) == streak + (if open {
                    recent_farm_streak_of(current, objects@, (window - streak) as nat)
                } else {
                    0
                }),
            decreases
                    window - streak,
                    if open {
                        1int
                    } else {
                        0
                    },
        {
            match current {
                Some(object) => {
                    if is_farm(object, objects) {
                        streak = streak + 1;
                        current = object.previous(0, objects);
                    } else {
                        open = false;
                    }
                },
                None => {
                    open = false;
                },
            }
        }
        streak
    }

    /// How many objects in a row, up to `window` and ending here, are too close to
    /// show follow points.
    pub fn recent_no_followpoint_streak(
        curr: OsuDifficultyObject,
        objects: &[OsuDifficultyObject],
        window: usize,
    ) -> (r: usize)
        ensures
            r == recent_no_followpoint_streak_of(Some(curr), objects@, window as nat),
            r <= window,
    {
        let mut streak: usize = 0;
        let mut current: Option<OsuDifficultyObject> = Some(curr);
        let mut open: bool = true;
        while open && streak < window
            invariant
                streak <= window,
                recent_no_followpoint_streak_of(Some(curr), objects@, window as nat) == streak
                    + (if open {
                    recent_no_followpoint_streak_of(current, objects@, (window - streak) as nat)
                } else {
                    0
                }),
            decreases
                    window - streak,
                    if open {
                        1int
                    } else {
                        0
                    },
        {
            match current {
                Some(object) => {
                    if object.lazy_jump_dist.at_most(whole(112)) {
                        streak = streak + 1;
                        current = object.previous(0, objects);
                    } else {
                        open = false;
                    }
                },
                None => {
                    open = false;
                },
            }
        }
        streak
    }

    /// Several severities together: none is one that all of them miss.
    pub fn combine_farm_severity(
        nx_strength: Double,
        slop_severity: Double,
        cross_severity: Double,
    ) -> (r: Double)
        ensures
            r@ == combine_farm_severity_of(nx_strength@, slop_severity@, cross_severity@),
    {
        whole(1) - (whole(1) - nx_strength) * (whole(1) - slop_severity) * (whole(1)
            - cross_severity)
    }

    /// The strain of an object: none before there are two others, and none on or
    /// right after a spinner.
    pub fn evaluate_diff_of<F: Fn(Query<Double>) -> Double>(
        math: &Math<F>,
        curr: &OsuDifficultyObject,
        objects: &[OsuDifficultyObject],
        with_slider_travel_dist: bool,
    ) -> (r: Double)
        requires
            math.sound(),
        ensures
            r@ == relax_strain_of(math@, *curr, objects@, with_slider_travel_dist),
    {
        match (curr.previous(1, objects), curr.previous(0, objects)) {
            (Some(last_last), Some(last)) => {
                if curr.is_spinner || last.is_spinner {
                    whole(0)
                } else {
                    let raw = raw_strain(
                        math,
                        *curr,
                        last,
                        last_last,
                        objects,
                        with_slider_travel_dist,
                    );
                    let patterned = patterned_strain(math, raw, *curr, last, objects);
                    less_dense(math, patterned, *curr) * whole(1)
                }
            },
            _ => whole(0),
        }
    }
}

} // verus!
