//! Statistics over the last few objects.
use vstd::prelude::*;

use crate::double::Double;
use crate::lists::{average, deviation, list_statistics, mean, spread, statistics, values};
use crate::operators::{ratio, whole};
use crate::order::{
    lemma_clamped, lemma_held, lemma_left_of_one, lemma_nan, lemma_one, lemma_order, lemma_proper,
    lemma_times_share,
};
use crate::osu::difficulty::object::{trail_of, OsuDifficultyObject};
use crate::value::{exactly, near, Value};

verus! {

/// The number of objects before the current one that the statistics look at.
pub const ANGLE_WINDOW: usize = 8;

/// The ratio of a circle's circumference to its diameter.
pub open spec fn pi() -> Value {
    near(884_279_719_003_555, 281_474_976_710_656)
}

/// The ratio of a circle's circumference to its diameter.
pub fn circle_ratio() -> (r: Double)
    ensures
        r@ == pi(),
{
    ratio(884_279_719_003_555, 281_474_976_710_656)
}

/// The angles of those objects that have one.
pub open spec fn angles_of(s: Seq<OsuDifficultyObject>) -> Seq<Value>
    decreases s.len(),
{
    if s.len() == 0 {
        seq![]
    } else {
        match s.last().angle {
            Some(angle) => angles_of(s.drop_last()).push(angle@),
            None => angles_of(s.drop_last()),
        }
    }
}

/// The jump distances.
pub open spec fn distances_of(s: Seq<OsuDifficultyObject>) -> Seq<Value> {
    s.map_values(|object: OsuDifficultyObject| object.lazy_jump_dist@)
}

/// The objects that come after some time.
pub open spec fn timed(s: Seq<OsuDifficultyObject>) -> Seq<OsuDifficultyObject> {
    s.filter(|object: OsuDifficultyObject| exactly(0).below(object.adjusted_delta_time@))
}

/// The speeds of the jumps of those objects that come after some time.
pub open spec fn velocities_of(s: Seq<OsuDifficultyObject>) -> Seq<Value> {
    timed(s).map_values(
        |object: OsuDifficultyObject| object.lazy_jump_dist@ / object.adjusted_delta_time@,
    )
}

/// The times before those objects that come after some time.
pub open spec fn deltas_of(s: Seq<OsuDifficultyObject>) -> Seq<Value> {
    timed(s).map_values(|object: OsuDifficultyObject| object.adjusted_delta_time@)
}

/// Every second entry, from the one at `from` on.
pub open spec fn every_second(s: Seq<Value>, from: nat) -> Seq<Value> {
    Seq::new(
        if s.len() > from {
            ((s.len() - from + 1) / 2) as nat
        } else {
            0
        },
        |i: int| s[from + 2 * i],
    )
}

/// How strongly a list of angles alternates between two values.
pub open spec fn alternation(angles: Seq<Value>) -> Value {
    let evens = every_second(angles, 0);
    let odds = every_second(angles, 1);
    let gap = (mean(evens) - mean(odds)).absolute();
    if angles.len() < 4 {
        exactly(0)
    } else if deviation(evens).below(near(25, 100)) && deviation(odds).below(near(25, 100)) && near(
        3,
        10,
    ).below(gap) {
        let tightness = exactly(1) - ((deviation(evens) + deviation(odds)) / near(50, 100)).clamped(
            exactly(0),
            exactly(1),
        );
        let separation = (gap / pi()).clamped(exactly(0), exactly(1));
        tightness * separation
    } else {
        exactly(0)
    }
}

/// The mean, the deviation and the number of the last angles.
pub open spec fn windowed_angle_stats_of(
    curr: OsuDifficultyObject,
    objects: Seq<OsuDifficultyObject>,
    window: nat,
) -> (Value, Value, nat) {
    statistics(angles_of(trail_of(curr, objects, window)), 3)
}

/// The mean, the deviation and the number of the last jump distances.
pub open spec fn windowed_dist_stats_of(
    curr: OsuDifficultyObject,
    objects: Seq<OsuDifficultyObject>,
    window: nat,
) -> (Value, Value, nat) {
    statistics(distances_of(trail_of(curr, objects, window)), 2)
}

/// The mean, the deviation and the number of the last jump speeds.
pub open spec fn windowed_vel_stats_of(
    curr: OsuDifficultyObject,
    objects: Seq<OsuDifficultyObject>,
    window: nat,
) -> (Value, Value, nat) {
    statistics(velocities_of(trail_of(curr, objects, window)), 2)
}

/// The mean, the deviation and the number of the last gaps between objects.
pub open spec fn windowed_delta_stats_of(
    curr: OsuDifficultyObject,
    objects: Seq<OsuDifficultyObject>,
    window: nat,
) -> (Value, Value, nat) {
    statistics(deltas_of(trail_of(curr, objects, window)), 2)
}

/// How strongly the last angles alternate between two values.
pub open spec fn detect_nx_pattern_of(
    curr: OsuDifficultyObject,
    objects: Seq<OsuDifficultyObject>,
    window: nat,
) -> Value {
    alternation(angles_of(trail_of(curr, objects, window)))
}

/// The angles of those objects that have one.
fn list_angles(list: &Vec<OsuDifficultyObject>) -> (r: Vec<Double>)
    ensures
        values(r@) == angles_of(list@),
        r@.len() <= list@.len(),
{
    let mut out: Vec<Double> = Vec::new();
    let mut i: usize = 0;
    proof {
        assert(values(out@) =~= seq![]);
        assert(list@.take(0) =~= seq![]);
    }
    while i < list.len()
        invariant
            i <= list@.len(),
            out@.len() <= i,
            values(out@) == angles_of(list@.take(i as int)),
        decreases list@.len() - i,
    {
        proof {
            assert(list@.take(i + 1).drop_last() =~= list@.take(i as int));
        }
        let ghost before = out@;
        match list[i].angle {
            Some(angle) => {
                out.push(angle);
                proof {
                    assert(values(out@) =~= values(before).push(angle@));
                }
            },
            None => {},
        }
        i = i + 1;
    }
    proof {
        assert(list@.take(i as int) =~= list@);
    }
    out
}

/// The objects that come after some time.
fn list_timed(list: &Vec<OsuDifficultyObject>) -> (r: Vec<OsuDifficultyObject>)
    ensures
        r@ == timed(list@),
        r@.len() <= list@.len(),
{
    let ghost p = |object: OsuDifficultyObject| exactly(0).below(object.adjusted_delta_time@);
    let mut out: Vec<OsuDifficultyObject> = Vec::new();
    let mut i: usize = 0;
    proof {
        reveal(Seq::filter);
        assert(list@.take(0) =~= seq![]);
    }
    while i < list.len()
        invariant
            i <= list@.len(),
            out@.len() <= i,
            p == (|object: OsuDifficultyObject| exactly(0).below(object.adjusted_delta_time@)),
            out@ == list@.take(i as int).filter(p),
        decreases list@.len() - i,
    {
        proof {
            reveal(Seq::filter);
            assert(list@.take(i + 1).drop_last() =~= list@.take(i as int));
        }
        if whole(0).below(list[i].adjusted_delta_time) {
            out.push(list[i]);
        }
        i = i + 1;
    }
    proof {
        assert(list@.take(i as int) =~= list@);
    }
    out
}

/// The mean, the deviation and the number of the last angles.
pub fn windowed_angle_stats(
    curr: OsuDifficultyObject,
    objects: &[OsuDifficultyObject],
    window: usize,
) -> (r: (Double, Double, usize))
    ensures
        (r.0@, r.1@, r.2 as nat) == windowed_angle_stats_of(
            curr,
            objects@,
            window as nat,
        ),
{
    let angles: Vec<Double> = list_angles(&curr.trail(objects, window));
    list_statistics(&angles, 3)
}

/// The mean, the deviation and the number of the last jump distances.
pub fn windowed_dist_stats(
    curr: OsuDifficultyObject,
    objects: &[OsuDifficultyObject],
    window: usize,
) -> (r: (Double, Double, usize))
    ensures
        (r.0@, r.1@, r.2 as nat) == windowed_dist_stats_of(
            curr,
            objects@,
            window as nat,
        ),
{
    let list: Vec<OsuDifficultyObject> = curr.trail(objects, window);
    let mut dists: Vec<Double> = Vec::new();
    let mut i: usize = 0;
    while i < list.len()
        invariant
            i <= list@.len(),
            dists@.len() == i,
            forall|k: int| 0 <= k < i ==> (#[trigger] dists@[k])@ == distances_of(list@)[k],
        decreases list@.len() - i,
    {
        dists.push(list[i].lazy_jump_dist);
        i = i + 1;
    }
    proof {
        assert(values(dists@) =~= distances_of(list@));
    }
    list_statistics(&dists, 2)
}

/// The mean, the deviation and the number of the last jump speeds.
pub fn windowed_vel_stats(
    curr: OsuDifficultyObject,
    objects: &[OsuDifficultyObject],
    window: usize,
) -> (r: (Double, Double, usize))
    ensures
        (r.0@, r.1@, r.2 as nat) == windowed_vel_stats_of(
            curr,
            objects@,
            window as nat,
        ),
{
    let list: Vec<OsuDifficultyObject> = list_timed(&curr.trail(objects, window));
    let ghost whole_list = velocities_of(trail_of(curr, objects@, window as nat));
    let mut vels: Vec<Double> = Vec::new();
    let mut i: usize = 0;
    while i < list.len()
        invariant
            i <= list@.len(),
            whole_list == list@.map_values(
                |object: OsuDifficultyObject| object.lazy_jump_dist@ / object.adjusted_delta_time@,
            ),
            vels@.len() == i,
            forall|k: int| 0 <= k < i ==> (#[trigger] vels@[k])@ == whole_list[k],
        decreases list@.len() - i,
    {
        vels.push(list[i].lazy_jump_dist / list[i].adjusted_delta_time);
        i = i + 1;
    }
    proof {
        assert(values(vels@) =~= whole_list);
    }
    list_statistics(&vels, 2)
}

/// The mean, the deviation and the number of the last gaps between objects: a
/// consistent and fast rhythm has a short mean and a small deviation.
pub fn windowed_delta_stats(
    curr: OsuDifficultyObject,
    objects: &[OsuDifficultyObject],
    window: usize,
) -> (r: (Double, Double, usize))
    ensures
        (r.0@, r.1@, r.2 as nat) == windowed_delta_stats_of(
            curr,
            objects@,
            window as nat,
        ),
{
    let list: Vec<OsuDifficultyObject> = list_timed(&curr.trail(objects, window));
    let ghost whole_list = deltas_of(trail_of(curr, objects@, window as nat));
    let mut deltas: Vec<Double> = Vec::new();
    let mut i: usize = 0;
    while i < list.len()
        invariant
            i <= list@.len(),
            whole_list == list@.map_values(
                |object: OsuDifficultyObject| object.adjusted_delta_time@,
            ),
            deltas@.len() == i,
            forall|k: int| 0 <= k < i ==> (#[trigger] deltas@[k])@ == whole_list[k],
        decreases list@.len() - i,
    {
        deltas.push(list[i].adjusted_delta_time);
        i = i + 1;
    }
    proof {
        assert(values(deltas@) =~= whole_list);
    }
    list_statistics(&deltas, 2)
}

/// Every second entry, from the one at `from` on.
fn list_every_second(list: &Vec<Double>, from: usize) -> (r: Vec<Double>)
    requires
        from <= 1,
    ensures
        values(r@) == every_second(values(list@), from as nat),
{
    let mut out: Vec<Double> = Vec::new();
    let mut i: usize = 0;
    while i < list.len()
        invariant
            i <= list@.len(),
            from <= 1,
            out@.len() == (if i > from {
                (i - from + 1) / 2
            } else {
                0
            }),
            forall|k: int| 0 <= k < out@.len() ==> #[trigger] out@[k] == list@[from + 2 * k],
        decreases list@.len() - i,
    {
        if i >= from && (i - from) % 2 == 0 {
            out.push(list[i]);
        }
        i = i + 1;
    }
    proof {
        assert(values(out@) =~= every_second(values(list@), from as nat));
    }
    out
}

/// How strongly the last angles alternate between two values: zigzags and
/// crossovers do.
pub fn detect_nx_pattern(
    curr: OsuDifficultyObject,
    objects: &[OsuDifficultyObject],
    window: usize,
) -> (r: Double)
    ensures
        r@ == detect_nx_pattern_of(curr, objects@, window as nat),
{
    let angles: Vec<Double> = list_angles(&curr.trail(objects, window));
    if angles.len() < 4 {
        return whole(0);
    }
    let evens: Vec<Double> = list_every_second(&angles, 0);
    let odds: Vec<Double> = list_every_second(&angles, 1);
    let even_mean: Double = average(&evens);
    let odd_mean: Double = average(&odds);
    let even_stddev: Double = spread(&evens, even_mean);
    let odd_stddev: Double = spread(&odds, odd_mean);
    let gap: Double = (even_mean - odd_mean).absolute();
    let cluster_tight: bool = even_stddev.below(ratio(25, 100)) && odd_stddev.below(ratio(25, 100));
    let clusters_differ: bool = ratio(3, 10).below(gap);
    if cluster_tight && clusters_differ {
        let tightness: Double = whole(1) - ((even_stddev + odd_stddev) / ratio(50, 100)).clamped(
            whole(0),
            whole(1),
        );
        let separation: Double = (gap / circle_ratio()).clamped(whole(0), whole(1));
        tightness * separation
    } else {
        whole(0)
    }
}

/// How strongly angles alternate is a share, where it is a number.
pub proof fn law_alternation_is_a_share(angles: Seq<Value>)
    ensures
        ({
            let r = alternation(angles);
            !(r is Nan) ==> exactly(0).at_most(r) && r.at_most(exactly(1))
        }),
{
    lemma_one();
    lemma_order(exactly(0), exactly(0));
    lemma_order(exactly(0), exactly(1));
    let evens = every_second(angles, 0);
    let odds = every_second(angles, 1);
    let gap = (mean(evens) - mean(odds)).absolute();
    let wide = (deviation(evens) + deviation(odds)) / near(50, 100);
    lemma_proper(deviation(evens) + deviation(odds), near(50, 100));
    lemma_proper(gap, pi());
    lemma_held(wide, exactly(0), exactly(1));
    lemma_held(gap / pi(), exactly(0), exactly(1));
    let taken = wide.clamped(exactly(0), exactly(1));
    let separation = (gap / pi()).clamped(exactly(0), exactly(1));
    let tightness = exactly(1) - taken;
    if taken is Nan {
        lemma_nan(exactly(1), taken);
        lemma_nan(tightness, separation);
    } else if separation is Nan {
        lemma_nan(tightness, separation);
    } else {
        lemma_clamped(wide, exactly(0), exactly(1));
        lemma_clamped(gap / pi(), exactly(0), exactly(1));
        lemma_left_of_one(taken);
        lemma_times_share(tightness, separation);
        lemma_order(exactly(0), tightness * separation);
        lemma_order(tightness * separation, exactly(1));
    }
}

} // verus!
