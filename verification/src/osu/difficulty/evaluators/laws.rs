//! What holds of the strain of objects, whatever the map.
use vstd::prelude::*;

use crate::order::{
    finite, lemma_clamped, lemma_greater, lemma_held, lemma_inside, lemma_left_of_one, lemma_nan,
    lemma_near_place, lemma_near_places, lemma_one, lemma_order, lemma_proper, lemma_settle_fits,
    lemma_settle_order, lemma_times, lemma_times_one, lemma_times_order, lemma_times_share, number,
    place, proper,
};
use crate::osu::difficulty::evaluators::aim::aim_strain_of;
use crate::osu::difficulty::evaluators::aim_rx::{
    combine_farm_severity_of, farm_nerf_of, flow_nerf_of, is_stream_pattern_of, less_dense_of,
    patterned_strain_of, raw_strain_of, recent_farm_streak_of, recent_no_followpoint_streak_of,
    relax_strain_of, tech_boost_of,
};
use crate::osu::difficulty::evaluators::bonuses::{bpm_fade_of, uniformity_of};
use crate::osu::difficulty::evaluators::windows::{
    windowed_angle_stats_of, windowed_vel_stats_of, ANGLE_WINDOW,
};
use crate::osu::difficulty::object::{object_before, OsuDifficultyObject};
use crate::query::Table;
use crate::value::{exactly, near, one_units, Value};

verus! {

/// The first two objects, spinners and what comes right after one have no strain,
/// with Relax or without.
pub proof fn law_starts_and_spinners_have_no_strain(
    t: Table,
    curr: OsuDifficultyObject,
    objects: Seq<OsuDifficultyObject>,
    with_sliders: bool,
)
    requires
        match (object_before(curr, 1, objects), object_before(curr, 0, objects)) {
            (Some(_), Some(last)) => curr.is_spinner || last.is_spinner,
            _ => true,
        },
    ensures
        aim_strain_of(t, curr, objects, with_sliders) == exactly(0),
        relax_strain_of(t, curr, objects, with_sliders) == exactly(0),
{
}

/// A streak of farm is no longer than the window it is looked for in.
pub proof fn law_farm_streaks_fit_their_window(
    current: Option<OsuDifficultyObject>,
    objects: Seq<OsuDifficultyObject>,
    window: nat,
)
    ensures
        recent_farm_streak_of(current, objects, window) <= window,
    decreases window,
{
    match current {
        Some(object) => if window > 0 {
            law_farm_streaks_fit_their_window(
                object_before(object, 0, objects),
                objects,
                (window - 1) as nat,
            );
        },
        None => {},
    }
}

/// A streak without follow points is no longer than the window it is looked for
/// in.
pub proof fn law_close_streaks_fit_their_window(
    current: Option<OsuDifficultyObject>,
    objects: Seq<OsuDifficultyObject>,
    window: nat,
)
    ensures
        recent_no_followpoint_streak_of(current, objects, window) <= window,
    decreases window,
{
    match current {
        Some(object) => if window > 0 {
            law_close_streaks_fit_their_window(
                object_before(object, 0, objects),
                objects,
                (window - 1) as nat,
            );
        },
        None => {},
    }
}

/// Whether a value is a number from zero to one.
pub open spec fn is_share(x: Value) -> bool {
    number(x) && exactly(0).at_most(x) && x.at_most(exactly(1))
}

/// Severities that are shares are a share together.
pub proof fn law_farm_severity_is_a_share(nx: Value, slop: Value, cross: Value)
    requires
        is_share(nx),
        is_share(slop),
        is_share(cross),
    ensures
        is_share(combine_farm_severity_of(nx, slop, cross)),
{
    lemma_share(nx);
    lemma_share(slop);
    lemma_share(cross);
    lemma_left_of_one(nx);
    lemma_left_of_one(slop);
    lemma_left_of_one(cross);
    let (a, b, c) = (exactly(1) - nx, exactly(1) - slop, exactly(1) - cross);
    lemma_times_share(a, b);
    lemma_times_share(a * b, c);
    lemma_left_of_one(a * b * c);
    let r = exactly(1) - a * b * c;
    lemma_one();
    lemma_order(exactly(0), r);
    lemma_order(r, exactly(1));
}

/// Where a share stands.
proof fn lemma_share(x: Value)
    requires
        is_share(x),
    ensures
        finite(x),
        0 <= place(x) <= one_units(),
{
    lemma_one();
    lemma_order(exactly(0), x);
    lemma_order(x, exactly(1));
    lemma_inside(exactly(0));
    lemma_inside(exactly(1));
    lemma_inside(x);
}

/// How uniform something is, is a share, whatever its spread.
pub proof fn law_uniformity_is_a_share(spread: Value, scale: Value)
    ensures
        exactly(0).at_most(uniformity_of(spread, scale)),
        uniformity_of(spread, scale).at_most(exactly(1)),
{
    lemma_one();
    lemma_order(exactly(0), exactly(0));
    lemma_order(exactly(0), exactly(1));
    lemma_proper(spread, scale);
    let x = spread / scale;
    let held = x.clamped(exactly(0), exactly(1));
    lemma_held(x, exactly(0), exactly(1));
    if held is Nan {
        lemma_nan(exactly(1), held);
        reveal(Value::greater);
        reveal(Value::below);
    } else {
        lemma_clamped(x, exactly(0), exactly(1));
        lemma_left_of_one(held);
        let left = exactly(1) - held;
        lemma_greater(left, exactly(0));
        lemma_order(exactly(0), left.greater(exactly(0)));
        lemma_order(left.greater(exactly(0)), exactly(1));
    }
}

/// What a tempo leaves of a nerf is a share, where it is a number.
pub proof fn law_fade_is_a_share(eff_bpm: Value, from: Value, over: Value)
    ensures
        ({
            let r = bpm_fade_of(eff_bpm, from, over);
            !(r is Nan) ==> exactly(0).at_most(r) && r.at_most(exactly(1))
        }),
{
    lemma_one();
    lemma_proper(eff_bpm - from, over);
    let x = (eff_bpm - from) / over;
    let held = x.clamped(exactly(0), exactly(1));
    lemma_held(x, exactly(0), exactly(1));
    if held is Nan {
        lemma_nan(exactly(1), held);
    } else {
        lemma_clamped(x, exactly(0), exactly(1));
        lemma_left_of_one(held);
        lemma_order(exactly(0), exactly(1) - held);
        lemma_order(exactly(1) - held, exactly(1));
    }
}

/// The boost for technique is no more than 8%, where it is a number.
pub proof fn law_tech_boost_is_small(
    curr: OsuDifficultyObject,
    objects: Seq<OsuDifficultyObject>,
)
    ensures
        ({
            let r = tech_boost_of(curr, objects);
            !(r is Nan) ==> exactly(0).at_most(r) && r.at_most(near(8, 100))
        }),
{
    lemma_one();
    lemma_near_place(8, 100);
    lemma_near_places(8, 100, 1, 1);
    lemma_order(exactly(0), exactly(0));
    lemma_order(exactly(0), near(8, 100));
    let (_angle, angle_stddev, angle_n) = windowed_angle_stats_of(
        curr,
        objects,
        ANGLE_WINDOW as nat,
    );
    let (vel_mean, vel_stddev, vel_n) = windowed_vel_stats_of(curr, objects, ANGLE_WINDOW as nat);
    let vel_cv = if exactly(0).below(vel_mean) {
        vel_stddev / vel_mean
    } else {
        exactly(0)
    };
    let x = (angle_stddev - near(6, 10)) / near(4, 10);
    let y = (vel_cv - near(25, 100)) / near(25, 100);
    lemma_proper(angle_stddev - near(6, 10), near(4, 10));
    lemma_proper(vel_cv - near(25, 100), near(25, 100));
    lemma_held(x, exactly(0), exactly(1));
    lemma_held(y, exactly(0), exactly(1));
    let angle_variety = x.clamped(exactly(0), exactly(1));
    let vel_variety = y.clamped(exactly(0), exactly(1));
    if angle_variety is Nan || vel_variety is Nan {
        lemma_nan(angle_variety, vel_variety);
        lemma_nan(near(8, 100), angle_variety * vel_variety);
    } else {
        lemma_clamped(x, exactly(0), exactly(1));
        lemma_clamped(y, exactly(0), exactly(1));
        lemma_times_share(angle_variety, vel_variety);
        lemma_times_share(near(8, 100), angle_variety * vel_variety);
        let r = near(8, 100) * (angle_variety * vel_variety);
        lemma_order(exactly(0), r);
        lemma_order(r, near(8, 100));
    }
}

/// A stream, however spaced, gets no boost for technique: only the nerfs for flow
/// or for farm count.
pub proof fn law_streams_get_no_boost(
    t: Table,
    strain: Value,
    curr: OsuDifficultyObject,
    last: OsuDifficultyObject,
    objects: Seq<OsuDifficultyObject>,
)
    requires
        is_stream_pattern_of(t, curr, objects),
    ensures
        ({
            let eff_bpm = exactly(30_000) / curr.adjusted_delta_time@;
            let close = recent_no_followpoint_streak_of(Some(curr), objects, 6) >= 6;
            let r = patterned_strain_of(t, strain, curr, last, objects);
            r == strain * (near(50, 100) - flow_nerf_of(curr, objects)) || r == strain * (near(
                75,
                100,
            ) - farm_nerf_of(t, curr, last, objects, eff_bpm, close))
        }),
{
    lemma_one();
    lemma_order(exactly(0), exactly(0));
}

/// Jumps are exempt from the nerf for dense streams, whatever the tempo: a note
/// whose spacing is answered with one keeps its strain.
pub proof fn law_jumps_are_no_streams(t: Table, strain: Value, curr: OsuDifficultyObject)
    requires
        proper(strain),
        t.reverse_lerp(curr.lazy_jump_dist@, exactly(80), exactly(170)) == exactly(1),
        finite(
            t.reverse_lerp(
                t.milliseconds_to_bpm(curr.adjusted_delta_time@, None),
                exactly(200),
                exactly(280),
            ),
        ),
    ensures
        less_dense_of(t, strain, curr) == strain,
{
    lemma_one();
    lemma_near_place(55, 100);
    let weight = t.reverse_lerp(
        t.milliseconds_to_bpm(curr.adjusted_delta_time@, None),
        exactly(200),
        exactly(280),
    );
    if exactly(0).below(weight) {
        lemma_order(exactly(0), weight);
        let none = exactly(1) - exactly(1);
        lemma_left_of_one(exactly(1));
        lemma_settle_fits(exactly(0));
        lemma_times_share(weight, none);
        lemma_times_nothing(weight, none);
        lemma_times_nothing(near(55, 100), weight * none);
        let off = near(55, 100) * (weight * none);
        lemma_left_of_nothing(off);
        lemma_times_one(strain);
    }
}

/// The strain of a jump under Relax is what it is without the nerf for dense
/// streams.
pub proof fn law_jumps_keep_their_strain(
    t: Table,
    curr: OsuDifficultyObject,
    last: OsuDifficultyObject,
    last_last: OsuDifficultyObject,
    objects: Seq<OsuDifficultyObject>,
    with_sliders: bool,
)
    requires
        object_before(curr, 0, objects) == Some(last),
        object_before(curr, 1, objects) == Some(last_last),
        !curr.is_spinner,
        !last.is_spinner,
        t.reverse_lerp(curr.lazy_jump_dist@, exactly(80), exactly(170)) == exactly(1),
        finite(
            t.reverse_lerp(
                t.milliseconds_to_bpm(curr.adjusted_delta_time@, None),
                exactly(200),
                exactly(280),
            ),
        ),
    ensures
        relax_strain_of(t, curr, objects, with_sliders) == patterned_strain_of(
            t,
            raw_strain_of(t, curr, last, last_last, objects, with_sliders),
            curr,
            last,
            objects,
        ),
{
    let raw = raw_strain_of(t, curr, last, last_last, objects, with_sliders);
    let patterned = patterned_strain_of(t, raw, curr, last, objects);
    assert(proper(patterned)) by {
        let eff_bpm = exactly(30_000) / curr.adjusted_delta_time@;
        let detect = recent_no_followpoint_streak_of(Some(curr), objects, 6) >= 6;
        let kept = near(75, 100) - farm_nerf_of(t, curr, last, objects, eff_bpm, detect);
        let boost = if detect {
            tech_boost_of(curr, objects)
        } else {
            exactly(0)
        };
        lemma_proper(raw, near(50, 100) - flow_nerf_of(curr, objects));
        lemma_proper(raw, near(50, 100) - exactly(0));
        lemma_proper(raw, kept);
        lemma_proper(raw * kept, (exactly(1) + boost).lesser(near(108, 100)));
    }
    law_jumps_are_no_streams(t, patterned, curr);
    lemma_times_one(patterned);
}

/// A number times nothing is nothing.
proof fn lemma_times_nothing(x: Value, y: Value)
    requires
        finite(x),
        finite(y),
        place(x) >= 0,
        place(y) == 0,
    ensures
        finite(x * y),
        place(x * y) == 0,
{
    lemma_one();
    lemma_times(x, y);
    assert(place(x) * place(y) == 0) by (nonlinear_arith)
        requires
            place(y) == 0,
    ;
    lemma_settle_fits(exactly(0));
    lemma_settle_order(0, one_units(), 0, 1);
    lemma_settle_order(0, 1, 0, one_units());
    lemma_inside(exactly(0));
    lemma_inside(x * y);
}

/// One less nothing is one.
proof fn lemma_left_of_nothing(x: Value)
    requires
        finite(x),
        place(x) == 0,
    ensures
        exactly(1) - x == exactly(1),
{
    lemma_one();
    lemma_left_of_one(x);
    lemma_settle_fits(exactly(1));
    reveal(Value::whole);
}

/// The nerf for dense streams takes off no more than 55%, and so never turns a
/// strain negative, where both curves answer shares.
pub proof fn law_streams_keep_a_part(t: Table, strain: Value, curr: OsuDifficultyObject)
    requires
        finite(strain),
        exactly(0).at_most(strain),
        is_share(
            t.reverse_lerp(
                t.milliseconds_to_bpm(curr.adjusted_delta_time@, None),
                exactly(200),
                exactly(280),
            ),
        ),
        is_share(t.reverse_lerp(curr.lazy_jump_dist@, exactly(80), exactly(170))),
    ensures
        ({
            let r = less_dense_of(t, strain, curr);
            &&& finite(r)
            &&& exactly(0).at_most(r)
            &&& (strain * (exactly(1) - near(55, 100))).at_most(r)
            &&& r.at_most(strain)
        }),
{
    lemma_one();
    lemma_near_place(55, 100);
    lemma_near_places(55, 100, 1, 1);
    lemma_order(exactly(0), strain);
    lemma_order(strain, strain);
    let weight = t.reverse_lerp(
        t.milliseconds_to_bpm(curr.adjusted_delta_time@, None),
        exactly(200),
        exactly(280),
    );
    let spaced = t.reverse_lerp(curr.lazy_jump_dist@, exactly(80), exactly(170));
    lemma_share(weight);
    lemma_share(spaced);
    lemma_left_of_one(spaced);
    let severity = weight * (exactly(1) - spaced);
    lemma_times_share(weight, exactly(1) - spaced);
    lemma_times_share(near(55, 100), severity);
    let off = near(55, 100) * severity;
    lemma_left_of_one(off);
    lemma_left_of_one(near(55, 100));
    lemma_settle_order(one_units() - place(near(55, 100)), 1, one_units() - place(off), 1);
    let most = strain * (exactly(1) - near(55, 100));
    lemma_times_order(strain, exactly(1) - near(55, 100), strain, exactly(1) - off);
    lemma_times_share(strain, exactly(1) - near(55, 100));
    lemma_times_share(strain, exactly(1) - off);
    lemma_order(most, strain);
    lemma_order(most, strain * (exactly(1) - off));
    lemma_order(exactly(0), strain * (exactly(1) - off));
    lemma_order(strain * (exactly(1) - off), strain);
}

} // verus!
