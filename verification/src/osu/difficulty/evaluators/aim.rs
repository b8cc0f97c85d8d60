//! Aim without mods that move the cursor.
use vstd::prelude::*;

use crate::double::Double;
use crate::operators::{ratio, whole};
use crate::osu::difficulty::evaluators::bonuses::{
    acute_angle_bonus, acute_angle_bonus_of, bpm_fade, bpm_fade_of, calc_acute_angle_bonus,
    calc_acute_angle_bonus_of, calc_wide_angle_bonus, calc_wide_angle_bonus_of, less_on_return,
    less_on_return_of, nx_severity, nx_severity_of, uniform_motion, uniform_motion_of, velocity,
    velocity_change_bonus, velocity_change_bonus_of, velocity_of, wiggle_bonus, wiggle_bonus_of,
};
use crate::osu::difficulty::evaluators::windows::{
    detect_nx_pattern, detect_nx_pattern_of, windowed_angle_stats, windowed_angle_stats_of,
    ANGLE_WINDOW,
};
use crate::osu::difficulty::object::{object_before, OsuDifficultyObject, NORMALIZED_DIAMETER};
use crate::query::{Math, Query, Table};
use crate::value::{exactly, near, Value};

verus! {

/// The wide, the acute and the wiggle bonus of an object at the end of two
/// angles.
pub open spec fn angle_bonuses_of(
    t: Table,
    curr: OsuDifficultyObject,
    last: OsuDifficultyObject,
    objects: Seq<OsuDifficultyObject>,
    curr_angle: Value,
    last_angle: Value,
    angle_bonus: Value,
) -> (Value, Value, Value) {
    let acute = acute_angle_bonus_of(t, curr, last, curr_angle, last_angle, angle_bonus);
    let wide = calc_wide_angle_bonus_of(t, curr_angle);
    // The penalty for repetition fades with the tempo and turns into a buff.
    let eff_bpm = exactly(30_000) / curr.adjusted_delta_time@;
    let high_bpm_t = ((eff_bpm - exactly(410)) / exactly(90)).clamped(exactly(0), exactly(1));
    let (_mean, win_stddev, win_n) = windowed_angle_stats_of(curr, objects, ANGLE_WINDOW as nat);
    let variance_factor = if win_n >= 3 {
        (win_stddev / near(12, 10)).clamped(exactly(0), exactly(1))
    } else {
        exactly(1)
    };
    let rep_strength = exactly(1) - variance_factor;
    let wide_before = t.power(calc_wide_angle_bonus_of(t, last_angle), exactly(3));
    let wide_rep_raw = wide.lesser(wide_before);
    let wide_penalty = (rep_strength * near(7, 10) + wide_rep_raw * near(3, 10)) * (exactly(1)
        - high_bpm_t);
    let wide_rep_buff = high_bpm_t * near(15, 100);
    let wide_scaled = wide * (angle_bonus * t.smootherstep(
        curr.lazy_jump_dist@,
        exactly(0),
        exactly(NORMALIZED_DIAMETER as nat),
    ) * (exactly(1) - wide_penalty + wide_rep_buff).greater(exactly(0)));
    let acute_before = t.power(calc_acute_angle_bonus_of(t, last_angle), exactly(3));
    let acute_rep_raw = acute.lesser(acute_before);
    let acute_penalty = (rep_strength * near(5, 10) + acute_rep_raw * near(5, 10)) * (exactly(1)
        - high_bpm_t);
    let acute_rep_buff = high_bpm_t * near(10, 100);
    let acute_scaled = acute * (near(5, 10) + near(5, 10) * (exactly(1) - acute_penalty)
        + acute_rep_buff).greater(exactly(0));
    (
        less_on_return_of(t, wide_scaled, curr, last, objects),
        acute_scaled,
        wiggle_bonus_of(t, curr, last, curr_angle, last_angle, angle_bonus),
    )
}

/// The wide, the acute and the wiggle bonus of an object at the end of two
/// angles.
fn angle_bonuses<F: Fn(Query<Double>) -> Double>(
    math: &Math<F>,
    curr: OsuDifficultyObject,
    last: OsuDifficultyObject,
    objects: &[OsuDifficultyObject],
    curr_angle: Double,
    last_angle: Double,
    angle_bonus: Double,
) -> (r: (Double, Double, Double))
    requires
        math.sound(),
    ensures
        (r.0@, r.1@, r.2@) == angle_bonuses_of(
            math@,
            curr,
            last,
            objects@,
            curr_angle@,
            last_angle@,
            angle_bonus@,
        ),
{
    let acute = acute_angle_bonus(math, curr, last, curr_angle, last_angle, angle_bonus);
    let wide = calc_wide_angle_bonus(math, curr_angle);
    // The penalty for repetition fades with the tempo and turns into a buff.
    let eff_bpm = whole(30_000) / curr.adjusted_delta_time;
    let high_bpm_t = ((eff_bpm - whole(410)) / whole(90)).clamped(whole(0), whole(1));
    let (_mean, win_stddev, win_n) = windowed_angle_stats(curr, objects, ANGLE_WINDOW);
    let variance_factor = if win_n >= 3 {
        (win_stddev / ratio(12, 10)).clamped(whole(0), whole(1))
    } else {
        whole(1)
    };
    let rep_strength = whole(1) - variance_factor;
    let wide_before = math.power(calc_wide_angle_bonus(math, last_angle), whole(3));
    let wide_rep_raw = wide.lesser(wide_before);
    let wide_penalty = (rep_strength * ratio(7, 10) + wide_rep_raw * ratio(3, 10)) * (whole(1)
        - high_bpm_t);
    let wide_rep_buff = high_bpm_t * ratio(15, 100);
    let wide_scaled = wide * (angle_bonus * math.smootherstep(
        curr.lazy_jump_dist,
        whole(0),
        whole(NORMALIZED_DIAMETER as u64),
    ) * (whole(1) - wide_penalty + wide_rep_buff).greater(whole(0)));
    let acute_before = math.power(calc_acute_angle_bonus(math, last_angle), whole(3));
    let acute_rep_raw = acute.lesser(acute_before);
    let acute_penalty = (rep_strength * ratio(5, 10) + acute_rep_raw * ratio(5, 10)) * (whole(1)
        - high_bpm_t);
    let acute_rep_buff = high_bpm_t * ratio(10, 100);
    let acute_scaled = acute * (ratio(5, 10) + ratio(5, 10) * (whole(1) - acute_penalty)
        + acute_rep_buff).greater(whole(0));
    (
        less_on_return(math, wide_scaled, curr, last, objects),
        acute_scaled,
        wiggle_bonus(math, curr, last, curr_angle, last_angle, angle_bonus),
    )
}

/// The strain of an object that follows two others, neither it nor the last one a
/// spinner.
pub open spec fn chained_strain_of(
    t: Table,
    curr: OsuDifficultyObject,
    last: OsuDifficultyObject,
    last_last: OsuDifficultyObject,
    objects: Seq<OsuDifficultyObject>,
    with_sliders: bool,
) -> Value {
    let curr_vel = velocity_of(curr, last, with_sliders);
    let prev_vel = velocity_of(last, last_last, with_sliders);
    let (wide, acute, wiggle) = match (curr.angle, last.angle) {
        (Some(curr_angle), Some(last_angle)) => angle_bonuses_of(
            t,
            curr,
            last,
            objects,
            curr_angle@,
            last_angle@,
            curr_vel.lesser(prev_vel),
        ),
        _ => (exactly(0), exactly(0), exactly(0)),
    };
    let vel_change = velocity_change_bonus_of(t, curr, last, last_last, curr_vel, prev_vel);
    let slider = if last.is_slider {
        last.travel_dist@ / last.travel_time@
    } else {
        exactly(0)
    };
    let moved = curr_vel + wiggle * near(81, 100) + vel_change * near(80, 100);
    let turned = (moved + (acute * near(85, 100)).greater(wide * exactly(1)))
        * curr.small_circle_bonus@;
    let combined = if with_sliders {
        turned + slider * near(70, 100)
    } else {
        turned
    };
    let eff_bpm = exactly(30_000) / curr.adjusted_delta_time@;
    let nx_strength = detect_nx_pattern_of(curr, objects, ANGLE_WINDOW as nat);
    let less_alternating = if near(1, 10).below(nx_strength) {
        let severity = nx_severity_of(
            nx_strength,
            curr,
            objects,
            eff_bpm,
            exactly(300),
            exactly(200),
        );
        combined * (near(87, 100) - near(22, 100) * severity)
    } else {
        combined
    };
    let slop_nerf = match uniform_motion_of(curr, objects) {
        Some(severity) => near(22, 100) * severity * bpm_fade_of(
            eff_bpm,
            exactly(400),
            exactly(150),
        ),
        None => exactly(0),
    };
    less_alternating * (near(87, 100) - slop_nerf) * near(60, 100)
}

/// The strain of an object that follows two others, neither it nor the last one a
/// spinner.
fn chained_strain<F: Fn(Query<Double>) -> Double>(
    math: &Math<F>,
    curr: OsuDifficultyObject,
    last: OsuDifficultyObject,
    last_last: OsuDifficultyObject,
    objects: &[OsuDifficultyObject],
    with_sliders: bool,
) -> (r: Double)
    requires
        math.sound(),
    ensures
        r@ == chained_strain_of(math@, curr, last, last_last, objects@, with_sliders),
{
    let curr_vel = velocity(curr, last, with_sliders);
    let prev_vel = velocity(last, last_last, with_sliders);
    let (wide, acute, wiggle) = match (curr.angle, last.angle) {
        (Some(curr_angle), Some(last_angle)) => angle_bonuses(
            math,
            curr,
            last,
            objects,
            curr_angle,
            last_angle,
            curr_vel.lesser(prev_vel),
        ),
        _ => (whole(0), whole(0), whole(0)),
    };
    let vel_change = velocity_change_bonus(math, curr, last, last_last, curr_vel, prev_vel);
    let slider = if last.is_slider {
        last.travel_dist / last.travel_time
    } else {
        whole(0)
    };
    let moved = curr_vel + wiggle * ratio(81, 100) + vel_change * ratio(80, 100);
    let turned = (moved + (acute * ratio(85, 100)).greater(wide * whole(1)))
        * curr.small_circle_bonus;
    let combined = if with_sliders {
        turned + slider * ratio(70, 100)
    } else {
        turned
    };
    let eff_bpm = whole(30_000) / curr.adjusted_delta_time;
    let nx_strength = detect_nx_pattern(curr, objects, ANGLE_WINDOW);
    let less_alternating = if ratio(1, 10).below(nx_strength) {
        let severity = nx_severity(
            nx_strength,
            curr,
            objects,
            eff_bpm,
            whole(300),
            whole(200),
        );
        combined * (ratio(87, 100) - ratio(22, 100) * severity)
    } else {
        combined
    };
    let slop_nerf = match uniform_motion(curr, objects) {
        Some(severity) => ratio(22, 100) * severity * bpm_fade(eff_bpm, whole(400), whole(150)),
        None => whole(0),
    };
    less_alternating * (ratio(87, 100) - slop_nerf) * ratio(60, 100)
}

/// The strain of an object: none before there are two others, and none on or
/// right after a spinner.
pub open spec fn aim_strain_of(
    t: Table,
    curr: OsuDifficultyObject,
    objects: Seq<OsuDifficultyObject>,
    with_sliders: bool,
) -> Value {
    match (object_before(curr, 1, objects), object_before(curr, 0, objects)) {
        (Some(last_last), Some(last)) => if curr.is_spinner || last.is_spinner {
            exactly(0)
        } else {
            chained_strain_of(t, curr, last, last_last, objects, with_sliders)
        },
        _ => exactly(0),
    }
}

/// Rates the aim of single objects.
pub struct AimEvaluator;

impl AimEvaluator {
    /// The strain of an object: none before there are two others, and none on or
    /// right after a spinner.
    pub fn evaluate_diff_of<F: Fn(Query<Double>) -> Double>(
        math: &Math<F>,
        curr: &OsuDifficultyObject,
        objects: &[OsuDifficultyObject],
        with_slider_travel_dist: bool,
    ) -> (r: Double)
        requires
            math.sound(),
        ensures
            r@ == aim_strain_of(math@, *curr, objects@, with_slider_travel_dist),
    {
        match (curr.previous(1, objects), curr.previous(0, objects)) {
            (Some(last_last), Some(last)) => {
                if curr.is_spinner || last.is_spinner {
                    whole(0)
                } else {
                    chained_strain(math, *curr, last, last_last, objects, with_slider_travel_dist)
                }
            },
            _ => whole(0),
        }
    }
}

} // verus!
