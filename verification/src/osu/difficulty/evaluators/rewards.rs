//! What angles and changes of speed are worth.
use vstd::arithmetic::power2::pow2;
use vstd::prelude::*;

use crate::order::{
    finite, lemma_dyadic, lemma_lesser, lemma_minus, lemma_near_place, lemma_near_places, lemma_one,
    lemma_order, lemma_settle_dyadic, lemma_settle_order, lemma_times_one, lemma_times_order,
    lemma_times_share, number, place, proper,
};
use crate::osu::difficulty::evaluators::bonuses::{
    acute_angle_bonus_of, calc_acute_angle_bonus_of, less_on_return_of, longer_time_of,
    radians_of, shorter_time_of, velocity_change_bonus_of, wiggle_bonus_of,
};
use crate::osu::difficulty::object::{object_before, OsuDifficultyObject};
use crate::query::Table;
use crate::signs::{
    from_on, lemma_add_from, lemma_left, lemma_multiply, lemma_multiply_from, lemma_multiply_same,
    not_negative, up_to,
};
use crate::value::{exactly, near, one_units, Value};

verus! {

/// Whether a value is a finite number from zero to one.
pub open spec fn is_part(x: Value) -> bool {
    finite(x) && 0 <= place(x) <= one_units()
}

/// An acute angle in an even rhythm is worth at least a fixed share of what the speed, the
/// tempo and the spacing make of it, however often it was repeated.
pub proof fn law_acute_angles_are_rewarded(
    t: Table,
    curr: OsuDifficultyObject,
    last: OsuDifficultyObject,
    curr_angle: Value,
    last_angle: Value,
    angle_bonus: Value,
)
    requires
        longer_time_of(curr, last).below(near(125, 100) * shorter_time_of(curr, last)),
        is_part(t.smoothstep(curr_angle, radians_of(140), radians_of(40))),
        not_negative(
            t.power(t.smoothstep(last_angle, radians_of(140), radians_of(40)), exactly(3)),
        ),
        finite(angle_bonus) && exactly(0).at_most(angle_bonus),
        is_part(
            t.smootherstep(
                t.milliseconds_to_bpm(curr.adjusted_delta_time@, Some(2)),
                exactly(300),
                exactly(400),
            ),
        ),
        is_part(t.smootherstep(curr.lazy_jump_dist@, exactly(100), exactly(200))),
    ensures
        ({
            let r = acute_angle_bonus_of(t, curr, last, curr_angle, last_angle, angle_bonus);
            let raw = t.smoothstep(curr_angle, radians_of(140), radians_of(40));
            let tempo = t.smootherstep(
                t.milliseconds_to_bpm(curr.adjusted_delta_time@, Some(2)),
                exactly(300),
                exactly(400),
            );
            let spacing = t.smootherstep(curr.lazy_jump_dist@, exactly(100), exactly(200));
            !(r is Nan) ==> (raw * near(8, 100) * (angle_bonus * tempo * spacing)).at_most(r)
        }),
{
    lemma_one();
    lemma_near_place(8, 100);
    lemma_near_place(92, 100);
    lemma_near_places(1, 64, 8, 100);
    lemma_dyadic(1);
    lemma_order(exactly(0), angle_bonus);
    let raw = calc_acute_angle_bonus_of(t, curr_angle);
    let before = t.power(calc_acute_angle_bonus_of(t, last_angle), exactly(3));
    let least = raw.lesser(before);
    assert(up_to(least, exactly(1))) by {
        reveal(Value::lesser);
        reveal(Value::below);
        if !(before is Nan) {
            lemma_lesser(raw, before);
        }
    }
    lemma_left(exactly(1), least);
    let left = exactly(1) - least;
    lemma_multiply(near(92, 100), left);
    assert(from_on(near(8, 100), near(8, 100)));
    lemma_add_from(near(8, 100), near(8, 100), near(92, 100) * left);
    let rest = near(8, 100) + near(92, 100) * left;
    assert(from_on(raw, raw));
    lemma_multiply_from(raw, raw, rest, near(8, 100));
    let tempo = t.smootherstep(
        t.milliseconds_to_bpm(curr.adjusted_delta_time@, Some(2)),
        exactly(300),
        exactly(400),
    );
    let spacing = t.smootherstep(curr.lazy_jump_dist@, exactly(100), exactly(200));
    lemma_times_share(angle_bonus, tempo);
    lemma_times_share(angle_bonus * tempo, spacing);
    lemma_multiply_same(raw * rest, raw * near(8, 100), angle_bonus * tempo * spacing);
    let r = acute_angle_bonus_of(t, curr, last, curr_angle, last_angle, angle_bonus);
    if !(r is Nan) {
        lemma_order(raw * near(8, 100) * (angle_bonus * tempo * spacing), r);
    }
}

/// Whether a jump at an angle can be a wiggle in full.
pub open spec fn wiggles(t: Table, object: OsuDifficultyObject, angle: Value) -> bool {
    let far = t.reverse_lerp(object.lazy_jump_dist@, exactly(300), exactly(100));
    &&& t.smootherstep(object.lazy_jump_dist@, exactly(50), exactly(100)) == exactly(1)
    &&& t.power(far, near(18, 10)) == exactly(1)
    &&& t.smootherstep(angle, radians_of(110), radians_of(60)) == exactly(1)
}

/// Two jumps that can be a wiggle in full are one: it is worth all of the speed.
pub proof fn law_wiggles_are_rewarded(
    t: Table,
    curr: OsuDifficultyObject,
    last: OsuDifficultyObject,
    curr_angle: Value,
    last_angle: Value,
    angle_bonus: Value,
)
    requires
        proper(angle_bonus),
        wiggles(t, curr, curr_angle),
        wiggles(t, last, last_angle),
    ensures
        wiggle_bonus_of(t, curr, last, curr_angle, last_angle, angle_bonus) == angle_bonus,
{
    lemma_times_one(angle_bonus);
}

/// A wide angle keeps 41 64ths of its bonus and more where the cursor returns, and no more
/// than 42 of them where it returns to the very place; elsewhere it keeps all.
pub proof fn law_returns_cost_a_part(
    t: Table,
    wide: Value,
    curr: OsuDifficultyObject,
    last: OsuDifficultyObject,
    objects: Seq<OsuDifficultyObject>,
    older: OsuDifficultyObject,
)
    requires
        finite(wide) && exactly(0).at_most(wide),
        object_before(curr, 2, objects) == Some(older),
        is_part(t.short_of_one(t.distance(last.pos_x@, last.pos_y@, older.pos_x@, older.pos_y@))),
    ensures
        ({
            let r = less_on_return_of(t, wide, curr, last, objects);
            let distance = t.distance(last.pos_x@, last.pos_y@, older.pos_x@, older.pos_y@);
            &&& (wide * near(41, 64)).at_most(r) && r.at_most(wide)
            &&& !distance.below(exactly(1)) ==> r == wide
            &&& distance.below(exactly(1)) && t.short_of_one(distance) == exactly(1)
                ==> r.at_most(wide * near(42, 64))
        }),
{
    lemma_one();
    let (u, q) = (one_units() as int, pow2(1068) as int);
    lemma_order(exactly(0), wide);
    let distance = t.distance(last.pos_x@, last.pos_y@, older.pos_x@, older.pos_y@);
    let short = t.short_of_one(distance);
    let r = less_on_return_of(t, wide, curr, last, objects);
    lemma_near_place(35, 100);
    lemma_near_places(35, 100, 23, 64);
    lemma_near_places(22, 64, 35, 100);
    lemma_dyadic(22);
    lemma_dyadic(23);
    lemma_dyadic(41);
    lemma_dyadic(42);
    lemma_times_share(near(35, 100), short);
    let taken = near(35, 100) * short;
    let left = exactly(1) - taken;
    crate::order::lemma_left_of_one(taken);
    lemma_minus(exactly(1), taken);
    lemma_settle_dyadic(41);
    lemma_settle_dyadic(42);
    lemma_settle_order(41 * q, 1, u - place(taken), 1);
    lemma_times_share(wide, left);
    lemma_times_share(wide, near(41, 64));
    lemma_times_share(wide, near(42, 64));
    lemma_times_order(wide, near(41, 64), wide, left);
    if short == exactly(1) {
        lemma_times_one(near(35, 100));
        lemma_settle_order(u - place(taken), 1, 42 * q, 1);
        lemma_times_order(wide, left, wide, near(42, 64));
        lemma_order(wide * left, wide * near(42, 64));
    }
    lemma_order(wide * near(41, 64), r);
    lemma_order(r, wide);
}

/// A change of speed in an even rhythm is worth the change, up to what a diameter and a
/// quarter in the shorter time make.
pub proof fn law_changes_of_speed_are_rewarded(
    t: Table,
    curr: OsuDifficultyObject,
    last: OsuDifficultyObject,
    last_last: OsuDifficultyObject,
    curr_vel: Value,
    prev_vel: Value,
)
    requires
        t.differs(prev_vel.greater(curr_vel), exactly(0)),
        ({
            let before = (last.lazy_jump_dist@ + last_last.travel_dist@)
                / last.adjusted_delta_time@;
            let now = (curr.lazy_jump_dist@ + last.travel_dist@) / curr.adjusted_delta_time@;
            &&& number((before - now).absolute())
            &&& t.smoothstep(
                (before - now).absolute() / before.greater(now),
                exactly(0),
                exactly(1),
            ) == exactly(1)
        }),
        t.power(shorter_time_of(curr, last) / longer_time_of(curr, last), exactly(2)) == exactly(1),
        number(exactly(100) * near(125, 100) / shorter_time_of(curr, last)),
    ensures
        ({
            let r = velocity_change_bonus_of(t, curr, last, last_last, curr_vel, prev_vel);
            let before = (last.lazy_jump_dist@ + last_last.travel_dist@)
                / last.adjusted_delta_time@;
            let now = (curr.lazy_jump_dist@ + last.travel_dist@) / curr.adjusted_delta_time@;
            let change = (before - now).absolute();
            let most = exactly(100) * near(125, 100) / shorter_time_of(curr, last);
            &&& r.at_most(change) && r.at_most(most)
            &&& change.at_most(r) || most.at_most(r)
        }),
{
    let before = (last.lazy_jump_dist@ + last_last.travel_dist@) / last.adjusted_delta_time@;
    let now = (curr.lazy_jump_dist@ + last.travel_dist@) / curr.adjusted_delta_time@;
    let change = (before - now).absolute();
    let most = exactly(100) * near(125, 100) / shorter_time_of(curr, last);
    lemma_one();
    let r = velocity_change_bonus_of(t, curr, last, last_last, curr_vel, prev_vel);
    let least = most.lesser(change);
    lemma_lesser(most, change);
    lemma_times_one(least);
    assert(r == least);
    lemma_order(r, change);
    lemma_order(r, most);
    lemma_order(change, r);
    lemma_order(most, r);
}

} // verus!
