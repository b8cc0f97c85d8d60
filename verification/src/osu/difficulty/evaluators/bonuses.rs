//! The parts that both aim evaluators are made of.
use vstd::prelude::*;

use crate::double::Double;
use crate::operators::{ratio, whole};
use crate::osu::difficulty::evaluators::windows::{
    circle_ratio, pi, windowed_angle_stats, windowed_angle_stats_of, windowed_dist_stats,
    windowed_dist_stats_of, windowed_vel_stats, windowed_vel_stats_of, ANGLE_WINDOW,
};
use crate::osu::difficulty::object::{
    object_before, OsuDifficultyObject, NORMALIZED_DIAMETER, NORMALIZED_RADIUS,
};
use crate::query::{optional, Math, Query, Table};
use crate::value::{exactly, near, Value};

verus! {

/// An angle given in degrees.
pub open spec fn radians_of(degrees: nat) -> Value {
    exactly(degrees) * (pi() / exactly(180))
}

/// An angle given in degrees.
pub fn radians(degrees: u64) -> (r: Double)
    ensures
        r@ == radians_of(degrees as nat),
{
    whole(degrees) * (circle_ratio() / whole(180))
}

/// The bonus of a wide angle.
pub open spec fn calc_wide_angle_bonus_of(t: Table, angle: Value) -> Value {
    t.smoothstep(angle, radians_of(40), radians_of(140))
}

/// The bonus of a wide angle.
pub fn calc_wide_angle_bonus<F: Fn(Query<Double>) -> Double>(
    math: &Math<F>,
    angle: Double,
) -> (r: Double)
    requires
        math.sound(),
    ensures
        r@ == calc_wide_angle_bonus_of(math@, angle@),
{
    math.smoothstep(angle, radians(40), radians(140))
}

/// The bonus of an acute angle.
pub open spec fn calc_acute_angle_bonus_of(t: Table, angle: Value) -> Value {
    t.smoothstep(angle, radians_of(140), radians_of(40))
}

/// The bonus of an acute angle.
pub fn calc_acute_angle_bonus<F: Fn(Query<Double>) -> Double>(
    math: &Math<F>,
    angle: Double,
) -> (r: Double)
    requires
        math.sound(),
    ensures
        r@ == calc_acute_angle_bonus_of(math@, angle@),
{
    math.smoothstep(angle, radians(140), radians(40))
}

/// The speed of the cursor on the way to `curr`, counting the slider before it
/// where `with_sliders` holds.
pub open spec fn velocity_of(
    curr: OsuDifficultyObject,
    before: OsuDifficultyObject,
    with_sliders: bool,
) -> Value {
    let jump_vel = curr.lazy_jump_dist@ / curr.adjusted_delta_time@;
    if before.is_slider && with_sliders {
        let travel_vel = before.travel_dist@ / before.travel_time@;
        let movement_vel = curr.min_jump_dist@ / curr.min_jump_time@;
        jump_vel.greater(movement_vel + travel_vel)
    } else {
        jump_vel
    }
}

/// The speed of the cursor on the way to `curr`, counting the slider before it
/// where `with_sliders` holds.
pub fn velocity(
    curr: OsuDifficultyObject,
    before: OsuDifficultyObject,
    with_sliders: bool,
) -> (r: Double)
    ensures
        r@ == velocity_of(curr, before, with_sliders),
{
    let jump_vel = curr.lazy_jump_dist / curr.adjusted_delta_time;
    if before.is_slider && with_sliders {
        let travel_vel = before.travel_dist / before.travel_time;
        let movement_vel = curr.min_jump_dist / curr.min_jump_time;
        jump_vel.greater(movement_vel + travel_vel)
    } else {
        jump_vel
    }
}

/// The longer of the times before two objects.
pub open spec fn longer_time_of(curr: OsuDifficultyObject, last: OsuDifficultyObject) -> Value {
    curr.adjusted_delta_time@.greater(last.adjusted_delta_time@)
}

/// The longer of the times before two objects.
pub fn longer_time(curr: OsuDifficultyObject, last: OsuDifficultyObject) -> (r: Double)
    ensures
        r@ == longer_time_of(curr, last),
{
    curr.adjusted_delta_time.greater(last.adjusted_delta_time)
}

/// The shorter of the times before two objects.
pub open spec fn shorter_time_of(curr: OsuDifficultyObject, last: OsuDifficultyObject) -> Value {
    curr.adjusted_delta_time@.lesser(last.adjusted_delta_time@)
}

/// The shorter of the times before two objects.
pub fn shorter_time(curr: OsuDifficultyObject, last: OsuDifficultyObject) -> (r: Double)
    ensures
        r@ == shorter_time_of(curr, last),
{
    curr.adjusted_delta_time.lesser(last.adjusted_delta_time)
}

/// The bonus for an acute angle after an acute angle in an even rhythm.
pub open spec fn acute_angle_bonus_of(
    t: Table,
    curr: OsuDifficultyObject,
    last: OsuDifficultyObject,
    curr_angle: Value,
    last_angle: Value,
    angle_bonus: Value,
) -> Value {
    if longer_time_of(curr, last).below(near(125, 100) * shorter_time_of(curr, last)) {
        let raw = calc_acute_angle_bonus_of(t, curr_angle);
        let before = t.power(calc_acute_angle_bonus_of(t, last_angle), exactly(3));
        let faded = raw * (near(8, 100) + near(92, 100) * (exactly(1) - raw.lesser(before)));
        faded * (angle_bonus * t.smootherstep(
            t.milliseconds_to_bpm(curr.adjusted_delta_time@, Some(2)),
            exactly(300),
            exactly(400),
        ) * t.smootherstep(
            curr.lazy_jump_dist@,
            exactly(NORMALIZED_DIAMETER as nat),
            exactly((NORMALIZED_DIAMETER * 2) as nat),
        ))
    } else {
        exactly(0)
    }
}

/// The bonus for an acute angle after an acute angle in an even rhythm.
pub fn acute_angle_bonus<F: Fn(Query<Double>) -> Double>(
    math: &Math<F>,
    curr: OsuDifficultyObject,
    last: OsuDifficultyObject,
    curr_angle: Double,
    last_angle: Double,
    angle_bonus: Double,
) -> (r: Double)
    requires
        math.sound(),
    ensures
        r@ == acute_angle_bonus_of(math@, curr, last, curr_angle@, last_angle@, angle_bonus@),
{
    if longer_time(curr, last).below(ratio(125, 100) * shorter_time(curr, last)) {
        let raw = calc_acute_angle_bonus(math, curr_angle);
        let before = math.power(calc_acute_angle_bonus(math, last_angle), whole(3));
        let faded = raw * (ratio(8, 100) + ratio(92, 100) * (whole(1) - raw.lesser(before)));
        faded * (angle_bonus * math.smootherstep(
            math.milliseconds_to_bpm(curr.adjusted_delta_time, Some(2)),
            whole(300),
            whole(400),
        ) * math.smootherstep(
            curr.lazy_jump_dist,
            whole(NORMALIZED_DIAMETER as u64),
            whole((NORMALIZED_DIAMETER * 2) as u64),
        ))
    } else {
        whole(0)
    }
}

/// How much of a wiggle a jump at an angle can be.
pub open spec fn wiggle_share_of(
    t: Table,
    share: Value,
    object: OsuDifficultyObject,
    angle: Value,
) -> Value {
    share * t.smootherstep(
        object.lazy_jump_dist@,
        exactly(NORMALIZED_RADIUS as nat),
        exactly(NORMALIZED_DIAMETER as nat),
    ) * t.power(
        t.reverse_lerp(
            object.lazy_jump_dist@,
            exactly((NORMALIZED_DIAMETER * 3) as nat),
            exactly(NORMALIZED_DIAMETER as nat),
        ),
        near(18, 10),
    ) * t.smootherstep(angle, radians_of(110), radians_of(60))
}

/// How much of a wiggle a jump at an angle can be.
pub fn wiggle_share<F: Fn(Query<Double>) -> Double>(
    math: &Math<F>,
    share: Double,
    object: OsuDifficultyObject,
    angle: Double,
) -> (r: Double)
    requires
        math.sound(),
    ensures
        r@ == wiggle_share_of(math@, share@, object, angle@),
{
    share * math.smootherstep(
        object.lazy_jump_dist,
        whole(NORMALIZED_RADIUS as u64),
        whole(NORMALIZED_DIAMETER as u64),
    ) * math.power(
        math.reverse_lerp(
            object.lazy_jump_dist,
            whole((NORMALIZED_DIAMETER * 3) as u64),
            whole(NORMALIZED_DIAMETER as u64),
        ),
        ratio(18, 10),
    ) * math.smootherstep(angle, radians(110), radians(60))
}

/// The bonus for a wiggle.
pub open spec fn wiggle_bonus_of(
    t: Table,
    curr: OsuDifficultyObject,
    last: OsuDifficultyObject,
    curr_angle: Value,
    last_angle: Value,
    angle_bonus: Value,
) -> Value {
    wiggle_share_of(t, wiggle_share_of(t, angle_bonus, curr, curr_angle), last, last_angle)
}

/// The bonus for a wiggle.
pub fn wiggle_bonus<F: Fn(Query<Double>) -> Double>(
    math: &Math<F>,
    curr: OsuDifficultyObject,
    last: OsuDifficultyObject,
    curr_angle: Double,
    last_angle: Double,
    angle_bonus: Double,
) -> (r: Double)
    requires
        math.sound(),
    ensures
        r@ == wiggle_bonus_of(math@, curr, last, curr_angle@, last_angle@, angle_bonus@),
{
    wiggle_share(math, wiggle_share(math, angle_bonus, curr, curr_angle), last, last_angle)
}

/// The bonus of a wide angle, less where the object before the last one lies on
/// the last one.
pub open spec fn less_on_return_of(
    t: Table,
    wide: Value,
    curr: OsuDifficultyObject,
    last: OsuDifficultyObject,
    objects: Seq<OsuDifficultyObject>,
) -> Value {
    match object_before(curr, 2, objects) {
        Some(older) => {
            let distance = t.distance(last.pos_x@, last.pos_y@, older.pos_x@, older.pos_y@);
            if distance.below(exactly(1)) {
                wide * (exactly(1) - near(35, 100) * t.short_of_one(distance))
            } else {
                wide
            }
        },
        None => wide,
    }
}

/// The bonus of a wide angle, less where the object before the last one lies on
/// the last one.
pub fn less_on_return<F: Fn(Query<Double>) -> Double>(
    math: &Math<F>,
    wide: Double,
    curr: OsuDifficultyObject,
    last: OsuDifficultyObject,
    objects: &[OsuDifficultyObject],
) -> (r: Double)
    requires
        math.sound(),
    ensures
        r@ == less_on_return_of(math@, wide@, curr, last, objects@),
{
    match curr.previous(2, objects) {
        Some(older) => {
            let distance = math.distance(last.pos_x, last.pos_y, older.pos_x, older.pos_y);
            if distance.below(whole(1)) {
                wide * (whole(1) - ratio(35, 100) * math.short_of_one(distance))
            } else {
                wide
            }
        },
        None => wide,
    }
}

/// The bonus for a change of speed.
pub open spec fn velocity_change_bonus_of(
    t: Table,
    curr: OsuDifficultyObject,
    last: OsuDifficultyObject,
    last_last: OsuDifficultyObject,
    curr_vel: Value,
    prev_vel: Value,
) -> Value {
    if t.differs(prev_vel.greater(curr_vel), exactly(0)) {
        let before = (last.lazy_jump_dist@ + last_last.travel_dist@) / last.adjusted_delta_time@;
        let now = (curr.lazy_jump_dist@ + last.travel_dist@) / curr.adjusted_delta_time@;
        let change = (before - now).absolute();
        let dist_ratio = t.smoothstep(change / before.greater(now), exactly(0), exactly(1));
        let overlap_vel_buff = (exactly(NORMALIZED_DIAMETER as nat) * near(125, 100)
            / shorter_time_of(curr, last)).lesser(change);
        let bonus_base = shorter_time_of(curr, last) / longer_time_of(curr, last);
        overlap_vel_buff * dist_ratio * t.power(bonus_base, exactly(2))
    } else {
        exactly(0)
    }
}

/// The bonus for a change of speed.
pub fn velocity_change_bonus<F: Fn(Query<Double>) -> Double>(
    math: &Math<F>,
    curr: OsuDifficultyObject,
    last: OsuDifficultyObject,
    last_last: OsuDifficultyObject,
    curr_vel: Double,
    prev_vel: Double,
) -> (r: Double)
    requires
        math.sound(),
    ensures
        r@ == velocity_change_bonus_of(math@, curr, last, last_last, curr_vel@, prev_vel@),
{
    if math.differs(prev_vel.greater(curr_vel), whole(0)) {
        let before = (last.lazy_jump_dist + last_last.travel_dist) / last.adjusted_delta_time;
        let now = (curr.lazy_jump_dist + last.travel_dist) / curr.adjusted_delta_time;
        let change = (before - now).absolute();
        let dist_ratio = math.smoothstep(change / before.greater(now), whole(0), whole(1));
        let overlap_vel_buff = (whole(NORMALIZED_DIAMETER as u64) * ratio(125, 100)
            / shorter_time(curr, last)).lesser(change);
        let bonus_base = shorter_time(curr, last) / longer_time(curr, last);
        overlap_vel_buff * dist_ratio * math.power(bonus_base, whole(2))
    } else {
        whole(0)
    }
}

/// How little a spread is relative to `scale`, from one at no spread to zero at
/// `scale`.
pub open spec fn uniformity_of(spread: Value, scale: Value) -> Value {
    (exactly(1) - (spread / scale).clamped(exactly(0), exactly(1))).greater(exactly(0))
}

/// How little a spread is relative to `scale`, from one at no spread to zero at
/// `scale`.
pub fn uniformity(spread: Double, scale: Double) -> (r: Double)
    ensures
        r@ == uniformity_of(spread@, scale@),
{
    (whole(1) - (spread / scale).clamped(whole(0), whole(1))).greater(whole(0))
}

/// How far a tempo is from fading out a nerf: one up to `from`, zero from
/// `from + over` on.
pub open spec fn bpm_fade_of(eff_bpm: Value, from: Value, over: Value) -> Value {
    exactly(1) - ((eff_bpm - from) / over).clamped(exactly(0), exactly(1))
}

/// How far a tempo is from fading out a nerf: one up to `from`, zero from
/// `from + over` on.
pub fn bpm_fade(eff_bpm: Double, from: Double, over: Double) -> (r: Double)
    ensures
        r@ == bpm_fade_of(eff_bpm@, from@, over@),
{
    whole(1) - ((eff_bpm - from) / over).clamped(whole(0), whole(1))
}

/// How strongly the last angles alternate while the distances and the tempo allow
/// it to count, with the tempo fading it from `fade_from` over `fade_over`.
pub open spec fn nx_severity_of(
    nx_strength: Value,
    curr: OsuDifficultyObject,
    objects: Seq<OsuDifficultyObject>,
    eff_bpm: Value,
    fade_from: Value,
    fade_over: Value,
) -> Value {
    let (dist_mean, dist_stddev, dist_n) = windowed_dist_stats_of(
        curr,
        objects,
        ANGLE_WINDOW as nat,
    );
    let dist_cv = if exactly(0).below(dist_mean) && dist_n >= 3 {
        dist_stddev / dist_mean
    } else {
        exactly(1)
    };
    let dist_consistency = uniformity_of(dist_cv, near(20, 100));
    nx_strength * dist_consistency * bpm_fade_of(eff_bpm, fade_from, fade_over)
}

/// How strongly the last angles alternate while the distances and the tempo allow
/// it to count, with the tempo fading it from `fade_from` over `fade_over`.
pub fn nx_severity(
    nx_strength: Double,
    curr: OsuDifficultyObject,
    objects: &[OsuDifficultyObject],
    eff_bpm: Double,
    fade_from: Double,
    fade_over: Double,
) -> (r: Double)
    ensures
        r@ == nx_severity_of(nx_strength@, curr, objects@, eff_bpm@, fade_from@, fade_over@),
{
    let (dist_mean, dist_stddev, dist_n) = windowed_dist_stats(curr, objects, ANGLE_WINDOW);
    let dist_cv = if whole(0).below(dist_mean) && dist_n >= 3 {
        dist_stddev / dist_mean
    } else {
        whole(1)
    };
    let dist_consistency = uniformity(dist_cv, ratio(20, 100));
    nx_strength * dist_consistency * bpm_fade(eff_bpm, fade_from, fade_over)
}

/// How constant angles, distances and speeds are together, and whether there are
/// enough of them to tell.
pub open spec fn uniform_motion_of(
    curr: OsuDifficultyObject,
    objects: Seq<OsuDifficultyObject>,
) -> Option<Value> {
    let (_mean, angle_stddev, angle_n) = windowed_angle_stats_of(
        curr,
        objects,
        ANGLE_WINDOW as nat,
    );
    let (dist_mean, dist_stddev, dist_n) = windowed_dist_stats_of(
        curr,
        objects,
        ANGLE_WINDOW as nat,
    );
    let (vel_mean, vel_stddev, vel_n) = windowed_vel_stats_of(curr, objects, ANGLE_WINDOW as nat);
    if angle_n >= 4 && dist_n >= 4 && vel_n >= 4 {
        let angle_uniformity = uniformity_of(angle_stddev, near(3, 10));
        let dist_cv = if exactly(0).below(dist_mean) {
            dist_stddev / dist_mean
        } else {
            exactly(1)
        };
        let vel_cv = if exactly(0).below(vel_mean) {
            vel_stddev / vel_mean
        } else {
            exactly(1)
        };
        Some(
            angle_uniformity * uniformity_of(dist_cv, near(15, 100)) * uniformity_of(
                vel_cv,
                near(15, 100),
            ),
        )
    } else {
        None
    }
}

/// How constant angles, distances and speeds are together, and whether there are
/// enough of them to tell.
pub fn uniform_motion(
    curr: OsuDifficultyObject,
    objects: &[OsuDifficultyObject],
) -> (r: Option<Double>)
    ensures
        optional(r) == uniform_motion_of(curr, objects@),
{
    let (_mean, angle_stddev, angle_n) = windowed_angle_stats(curr, objects, ANGLE_WINDOW);
    let (dist_mean, dist_stddev, dist_n) = windowed_dist_stats(curr, objects, ANGLE_WINDOW);
    let (vel_mean, vel_stddev, vel_n) = windowed_vel_stats(curr, objects, ANGLE_WINDOW);
    if angle_n >= 4 && dist_n >= 4 && vel_n >= 4 {
        let angle_uniformity = uniformity(angle_stddev, ratio(3, 10));
        let dist_cv = if whole(0).below(dist_mean) {
            dist_stddev / dist_mean
        } else {
            whole(1)
        };
        let vel_cv = if whole(0).below(vel_mean) {
            vel_stddev / vel_mean
        } else {
            whole(1)
        };
        Some(
            angle_uniformity * uniformity(dist_cv, ratio(15, 100)) * uniformity(
                vel_cv,
                ratio(15, 100),
            ),
        )
    } else {
        None
    }
}

} // verus!
