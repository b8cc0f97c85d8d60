//! Difficulty of osu!standard maps.
pub mod evaluators;
pub mod laws;
pub mod object;
pub mod setup;
pub mod skills;
pub mod steady;
pub mod summary;

use vstd::prelude::*;

use crate::double::Double;
use crate::lists::values;
use crate::operators::{ratio, whole};
use crate::osu::attributes::OsuDifficultyAttributes;
use crate::osu::difficulty::object::OsuDifficultyObject;
use crate::osu::difficulty::setup::{or_zero, or_zero_of, Beatmap, Difficulty, OsuDifficultySetup};
use crate::osu::difficulty::summary::{
    adjusted_times, adjusted_times_of, avg_jump_dist, avg_jump_dist_of, chunk_avg_delta_of,
    chunk_hardness_of, chunks, median, median_of, speed_data, speed_data_of, SpeedObjectData,
};
use crate::osu::performance::{auto_marathon, relax_marathon};
use crate::query::{optional, GameMods, Math, Query, Rating, Table};
use crate::value::{exactly, near, Value};

verus! {

/// The stars of a performance.
pub open spec fn calculate_star_rating_of(t: Table, base_performance: Value) -> Value {
    if base_performance.at_most(near(1, 100_000)) {
        exactly(0)
    } else {
        t.cbrt(near(92, 100)) * near(265, 10_000) * (t.cbrt(
            exactly(100_000) / t.power(exactly(2), exactly(1) / near(11, 10)) * base_performance,
        ) + exactly(4))
    }
}

/// The stars of a performance.
pub fn calculate_star_rating<F: Fn(Query<Double>) -> Double>(
    math: &Math<F>,
    base_performance: Double,
) -> (r: Double)
    requires
        math.sound(),
    ensures
        r@ == calculate_star_rating_of(math@, base_performance@),
{
    if base_performance.at_most(ratio(1, 100_000)) {
        whole(0)
    } else {
        math.cbrt(ratio(92, 100)) * ratio(265, 10_000) * (math.cbrt(
            whole(100_000) / math.power(whole(2), whole(1) / ratio(11, 10)) * base_performance,
        ) + whole(4))
    }
}

/// The stars of aim and speed together.
pub open spec fn calculate_mechanical_difficulty_rating_of(
    t: Table,
    aim_difficulty_value: Value,
    speed_difficulty_value: Value,
) -> Value {
    let aim_value = t.aim_performance(t.difficulty_rating(aim_difficulty_value));
    let speed_value = t.speed_performance(t.difficulty_rating(speed_difficulty_value));
    calculate_star_rating_of(
        t,
        t.power(
            t.power(aim_value, near(11, 10)) + t.power(speed_value, near(11, 10)),
            exactly(1) / near(11, 10),
        ),
    )
}

/// The stars of aim and speed together.
pub fn calculate_mechanical_difficulty_rating<F: Fn(Query<Double>) -> Double>(
    math: &Math<F>,
    aim_difficulty_value: Double,
    speed_difficulty_value: Double,
) -> (r: Double)
    requires
        math.sound(),
    ensures
        r@ == calculate_mechanical_difficulty_rating_of(
            math@,
            aim_difficulty_value@,
            speed_difficulty_value@,
        ),
{
    let aim_value = math.aim_performance(math.difficulty_rating(aim_difficulty_value));
    let speed_value = math.speed_performance(math.difficulty_rating(speed_difficulty_value));
    calculate_star_rating(
        math,
        math.power(
            math.power(aim_value, ratio(11, 10)) + math.power(speed_value, ratio(11, 10)),
            whole(1) / ratio(11, 10),
        ),
    )
}

/// How much the sliders among the hardest notes weigh against the other ones.
pub open spec fn top_weighted_slider_factor_of(slider_count: Value, strain_count: Value) -> Value {
    slider_count / (strain_count - slider_count).greater(exactly(1))
}

/// How much the sliders among the hardest notes weigh against the other ones.
pub fn top_weighted_slider_factor(slider_count: Double, strain_count: Double) -> (r: Double)
    ensures
        r@ == top_weighted_slider_factor_of(slider_count@, strain_count@),
{
    slider_count / (strain_count - slider_count).greater(whole(1))
}

/// How much of aim remains without sliders.
pub open spec fn slider_factor_of(t: Table, aim: Value, aim_no_sliders: Value) -> Value {
    if exactly(0).below(aim) {
        t.difficulty_rating(aim_no_sliders) / t.difficulty_rating(aim)
    } else {
        exactly(1)
    }
}

/// How much of aim remains without sliders.
pub fn slider_factor<F: Fn(Query<Double>) -> Double>(
    math: &Math<F>,
    aim: Double,
    aim_no_sliders: Double,
) -> (r: Double)
    requires
        math.sound(),
    ensures
        r@ == slider_factor_of(math@, aim@, aim_no_sliders@),
{
    if whole(0).below(aim) {
        math.difficulty_rating(aim_no_sliders) / math.difficulty_rating(aim)
    } else {
        whole(1)
    }
}

/// What the skills measured on a map.
#[derive(Clone, Copy, Debug)]
pub struct OsuSkills {
    pub aim_difficulty_value: Double,
    pub aim_difficult_slider_count: Double,
    pub aim_no_sliders_difficulty_value: Double,
    pub speed_difficulty_value: Double,
    pub speed_relevant_note_count: Double,
    pub flashlight_difficulty_value: Double,
}

/// The notes that a skill counts among the hardest, given a difficulty value.
#[derive(Clone, Copy, Debug, PartialEq, Eq, Structural)]
pub enum Counted {
    /// The notes of aim.
    AimStrains,
    /// The notes of aim without sliders.
    AimNoSlidersStrains,
    /// The sliders of aim without sliders.
    AimNoSlidersSliders,
    /// The notes of speed.
    SpeedStrains,
    /// The sliders of speed.
    SpeedSliders,
}

/// How many notes of each kind are among the hardest.
#[derive(Clone, Copy, Debug)]
pub struct SkillCounts {
    pub aim_strains: Double,
    pub aim_no_sliders_strains: Double,
    pub aim_no_sliders_sliders: Double,
    pub speed_strains: Double,
    pub speed_sliders: Double,
}

/// Whether `counts` are the counts of skills, each by the difficulty value of its
/// own skill.
pub open spec fn counted_by<S, U: Fn(&S, Counted, Double) -> Double>(
    count: U,
    skills: &S,
    measured: OsuSkills,
    counts: SkillCounts,
) -> bool {
    let aim = measured.aim_difficulty_value;
    let aim_no_sliders = measured.aim_no_sliders_difficulty_value;
    let speed = measured.speed_difficulty_value;
    &&& call_ensures(count, (skills, Counted::AimStrains, aim), counts.aim_strains)
    &&& call_ensures(
        count,
        (skills, Counted::AimNoSlidersStrains, aim_no_sliders),
        counts.aim_no_sliders_strains,
    )
    &&& call_ensures(
        count,
        (skills, Counted::AimNoSlidersSliders, aim_no_sliders),
        counts.aim_no_sliders_sliders,
    )
    &&& call_ensures(count, (skills, Counted::SpeedStrains, speed), counts.speed_strains)
    &&& call_ensures(count, (skills, Counted::SpeedSliders, speed), counts.speed_sliders)
}

/// The strains that the skills measured on a map.
pub struct SkillStrains {
    /// The speed strain of every object.
    pub object_strains: Vec<Double>,
    /// The peaks of the aim strain.
    pub aim_peaks: Vec<Double>,
    /// The peaks of the speed strain.
    pub speed_peaks: Vec<Double>,
}

/// What the objects of a map amount to.
#[derive(Clone, Copy, Debug)]
pub struct ObjectCounts {
    pub n_circles: u32,
    pub n_sliders: u32,
    pub n_large_ticks: u32,
    pub n_spinners: u32,
    pub n_objects: u32,
    pub max_combo: u32,
}

/// What ratings of the skills are computed from.
pub open spec fn rating_of(
    t: Table,
    attrs: OsuDifficultyAttributes,
    mods: GameMods,
    skills: OsuSkills,
    difficulty_value: Value,
) -> Rating<Value> {
    Rating {
        mods,
        n_objects: attrs.n_objects,
        ar: attrs.ar@,
        od: attrs.od@,
        mechanical_difficulty_rating: calculate_mechanical_difficulty_rating_of(
            t,
            skills.aim_difficulty_value@,
            skills.speed_difficulty_value@,
        ),
        slider_factor: slider_factor_of(
            t,
            skills.aim_difficulty_value@,
            skills.aim_no_sliders_difficulty_value@,
        ),
        difficulty_value,
    }
}

/// Whether `after` is `before` with the ratings of the skills and the stars.
pub open spec fn evaluated(
    t: Table,
    before: OsuDifficultyAttributes,
    after: OsuDifficultyAttributes,
    mods: GameMods,
    skills: OsuSkills,
    counts: SkillCounts,
) -> bool {
    let aim = t.aim_rating(rating_of(t, before, mods, skills, skills.aim_difficulty_value@));
    let speed = t.speed_rating(rating_of(t, before, mods, skills, skills.speed_difficulty_value@));
    let flashlight = if mods.fl {
        t.flashlight_rating(
            rating_of(t, before, mods, skills, skills.flashlight_difficulty_value@),
        )
    } else {
        exactly(0)
    };
    let base_performance = t.power(
        t.power(t.aim_performance(aim), near(11, 10)) + t.power(
            t.speed_performance(speed),
            near(11, 10),
        ) + t.power(t.flashlight_performance(flashlight), near(11, 10)),
        exactly(1) / near(11, 10),
    );
    &&& after.aim@ == aim
    &&& after.speed@ == speed
    &&& after.flashlight@ == flashlight
    &&& after.slider_factor@ == slider_factor_of(
        t,
        skills.aim_difficulty_value@,
        skills.aim_no_sliders_difficulty_value@,
    )
    &&& after.aim_top_weighted_slider_factor@ == top_weighted_slider_factor_of(
        counts.aim_no_sliders_sliders@,
        counts.aim_no_sliders_strains@,
    )
    &&& after.speed_top_weighted_slider_factor@ == top_weighted_slider_factor_of(
        counts.speed_sliders@,
        counts.speed_strains@,
    )
    &&& after.stars@ == calculate_star_rating_of(t, base_performance)
    &&& after == (OsuDifficultyAttributes {
        aim: after.aim,
        aim_difficult_slider_count: skills.aim_difficult_slider_count,
        speed: after.speed,
        flashlight: after.flashlight,
        slider_factor: after.slider_factor,
        aim_top_weighted_slider_factor: after.aim_top_weighted_slider_factor,
        speed_top_weighted_slider_factor: after.speed_top_weighted_slider_factor,
        aim_difficult_strain_count: counts.aim_strains,
        speed_difficult_strain_count: counts.speed_strains,
        stars: after.stars,
        speed_note_count: skills.speed_relevant_note_count,
        ..before
    })
}

/// Whether `after` is `before` with what is said of all objects together: the
/// tempo of the hardest taps and the factors on speed, the stars and the tempo of
/// each minute, and the means over jumps, times and chunks.
pub open spec fn summarized(
    t: Table,
    before: OsuDifficultyAttributes,
    after: OsuDifficultyAttributes,
    objects: Seq<OsuDifficultyObject>,
    strains: SkillStrains,
    dominant_tap_bpm: Double,
    rework: (Double, Double),
) -> bool {
    let aim_peaks = values(strains.aim_peaks@);
    let speed_peaks = values(strains.speed_peaks@);
    &&& values(after.local_sr_per_minute@) == relax_marathon::local_sr_per_minute_of(
        t,
        aim_peaks,
        speed_peaks,
    )
    &&& values(after.local_autopilot_sr_per_minute@) == auto_marathon::stars_per_minute_of(
        t,
        speed_peaks,
    )
    &&& values(after.local_aim_per_minute@) == auto_marathon::stars_per_minute_of(t, aim_peaks)
    &&& values(after.local_bpm_per_minute@) == auto_marathon::local_bpm_per_minute_of(
        objects,
        adjusted_times_of(objects),
    )
    &&& after.avg_jump_dist@ == avg_jump_dist_of(objects)
    &&& after.median_delta_time@ == median_of(objects, before.median_delta_time@)
    &&& values(after.rx_chunk_hardness@) == chunk_hardness_of(objects)
    &&& values(after.rx_chunk_avg_delta@) == chunk_avg_delta_of(objects)
    &&& after == (OsuDifficultyAttributes {
        dominant_tap_bpm,
        speed_rework_mult_vanilla: rework.0,
        speed_rework_mult_autopilot: rework.1,
        local_sr_per_minute: after.local_sr_per_minute,
        local_autopilot_sr_per_minute: after.local_autopilot_sr_per_minute,
        local_aim_per_minute: after.local_aim_per_minute,
        local_bpm_per_minute: after.local_bpm_per_minute,
        avg_jump_dist: after.avg_jump_dist,
        median_delta_time: after.median_delta_time,
        rx_chunk_hardness: after.rx_chunk_hardness,
        rx_chunk_avg_delta: after.rx_chunk_avg_delta,
        ..before
    })
}

/// Whether `objects[i]` is what `new` makes of hit object `i + 1`, the one before
/// it, and the two difficulty objects before it.
pub open spec fn links<O, N: Fn(
    &O,
    &O,
    Option<OsuDifficultyObject>,
    Option<OsuDifficultyObject>,
    Double,
    usize,
    Double,
) -> OsuDifficultyObject>(
    new: N,
    hit_objects: Seq<O>,
    clock_rate: Double,
    cs: Double,
    objects: Seq<OsuDifficultyObject>,
    i: int,
) -> bool {
    call_ensures(
        new,
        (
            &hit_objects[i + 1],
            &hit_objects[i],
            if i > 0 {
                Some(objects[i - 1])
            } else {
                None
            },
            if i > 1 {
                Some(objects[i - 2])
            } else {
                None
            },
            clock_rate,
            i as usize,
            cs,
        ),
        objects[i],
    )
}

/// Whether `objects` are the difficulty objects of a map: one for every hit object
/// but the first, and none where no object was passed.
pub open spec fn chain<O, N: Fn(
    &O,
    &O,
    Option<OsuDifficultyObject>,
    Option<OsuDifficultyObject>,
    Double,
    usize,
    Double,
) -> OsuDifficultyObject>(
    new: N,
    hit_objects: Seq<O>,
    take: usize,
    clock_rate: Double,
    cs: Double,
    objects: Seq<OsuDifficultyObject>,
) -> bool {
    &&& objects.len() == if take > 0 && hit_objects.len() > 0 {
        hit_objects.len() - 1
    } else {
        0
    }
    &&& forall|i: int|
        0 <= i < objects.len() ==> #[trigger] links(new, hit_objects, clock_rate, cs, objects, i)
}

/// Whether each of the `states` but the first can come of the one before it when
/// `process` takes up the object between them.
pub open spec fn follows<S, P: Fn(S, OsuDifficultyObject, &Vec<OsuDifficultyObject>) -> S>(
    process: P,
    objects: &Vec<OsuDifficultyObject>,
    states: Seq<S>,
) -> bool {
    forall|i: int|
        0 <= i < states.len() - 1 ==> call_ensures(
            process,
            (#[trigger] states[i], objects@[i], objects),
            states[i + 1],
        )
}

/// Whether `end` can come of `start` when `process` takes up the first `n`
/// objects in turn.
pub open spec fn runs<S, P: Fn(S, OsuDifficultyObject, &Vec<OsuDifficultyObject>) -> S>(
    process: P,
    objects: &Vec<OsuDifficultyObject>,
    start: S,
    n: nat,
    end: S,
) -> bool {
    exists|states: Seq<S>|
        states.len() == n + 1 && states[0] == start && states[n as int] == end
            && #[trigger] follows(
            process,
            objects,
            states,
        )
}

/// How many difficulty objects the skills take up: the first hit object has none.
pub open spec fn taken_objects_of(n_hit_objects: usize, take: usize) -> nat {
    let n = if n_hit_objects < take {
        n_hit_objects
    } else {
        take
    };
    if n > 0 {
        (n - 1) as nat
    } else {
        0
    }
}

/// The parts of the engine that the calculation builds on.
pub struct Engine<C, N, B, P, R, M, U, T, W, L> {
    /// Converts the objects of a map.
    pub convert: C,
    /// Makes a difficulty object of a hit object and what is before it.
    pub new_object: N,
    /// The skills at the start of a map.
    pub new_skills: B,
    /// The skills after one more object.
    pub process: P,
    /// The strains that the skills measured.
    pub strains: R,
    /// What the skills measured in all.
    pub measure: M,
    /// How many notes of a kind are among the hardest, given a difficulty value.
    pub count: U,
    /// The tempo of the hardest taps.
    pub tap_bpm: T,
    /// The factors on speed, without mods that tap and under Autopilot.
    pub speed_rework: W,
    /// What a perfect play would score in the legacy system.
    pub legacy_score: L,
}

/// What a perfect play of a map scores in the legacy system.
#[derive(Clone, Copy, Debug)]
pub struct LegacyScore {
    pub combo_score: u32,
    pub score_multiplier: Double,
    pub nested_score_per_object: Double,
}

/// What was found out on the way to the difficulty of a map.
pub struct DifficultyValues<O, S> {
    pub osu_objects: Vec<O>,
    pub skills: S,
    pub attrs: OsuDifficultyAttributes,
}

impl<C, N, B, P, R, M, U, T, W, L> Engine<C, N, B, P, R, M, U, T, W, L> {
    /// Whether the parts take all that they can be given. The two skills whose peaks
    /// are rated together see the same sections.
    #[verifier::opaque]
    pub open spec fn sound<O, S>(self) -> bool where
        C: Fn(&Beatmap, GameMods, Double, Double, usize) -> (Vec<O>, ObjectCounts),
        N: Fn(
            &O,
            &O,
            Option<OsuDifficultyObject>,
            Option<OsuDifficultyObject>,
            Double,
            usize,
            Double,
        ) -> OsuDifficultyObject,
        B: Fn(GameMods, Double, Double, Double) -> S,
        P: Fn(S, OsuDifficultyObject, &Vec<OsuDifficultyObject>) -> S,
        R: Fn(&S) -> SkillStrains,
        M: Fn(&S) -> OsuSkills,
        U: Fn(&S, Counted, Double) -> Double,
        T: Fn(&Vec<Double>, &Vec<SpeedObjectData>, Double) -> Double,
        W: Fn(&Vec<SpeedObjectData>, Double) -> (Double, Double),
        L: Fn(&Vec<O>, &Beatmap, usize) -> LegacyScore,
    {
        &&& forall|map: &Beatmap, mods: GameMods, cs: Double, preempt: Double, take: usize|
            call_requires(self.convert, (map, mods, cs, preempt, take))
        &&& forall|
            h: &O,
            last: &O,
            a: Option<OsuDifficultyObject>,
            b: Option<OsuDifficultyObject>,
            clock: Double,
            i: usize,
            cs: Double,
        |
            call_requires(self.new_object, (h, last, a, b, clock, i, cs))
        &&& forall|mods: GameMods, cs: Double, window: Double, preempt: Double|
            call_requires(self.new_skills, (mods, cs, window, preempt))
        &&& forall|s: S, object: OsuDifficultyObject, objects: &Vec<OsuDifficultyObject>|
            call_requires(self.process, (s, object, objects))
        &&& forall|s: &S| call_requires(self.strains, (s,))
        &&& forall|s: &S, out: SkillStrains|
            #[trigger] call_ensures(self.strains, (s,), out) ==> out.aim_peaks@.len()
                <= out.speed_peaks@.len()
        &&& forall|s: &S| call_requires(self.measure, (s,))
        &&& forall|s: &S, kind: Counted, value: Double|
            call_requires(self.count, (s, kind, value))
        &&& forall|strains: &Vec<Double>, data: &Vec<SpeedObjectData>, share: Double|
            call_requires(self.tap_bpm, (strains, data, share))
        &&& forall|data: &Vec<SpeedObjectData>, bpm: Double|
            call_requires(self.speed_rework, (data, bpm))
        &&& forall|objects: &Vec<O>, map: &Beatmap, take: usize|
            call_requires(self.legacy_score, (objects, map, take))
    }

    /// Whether `bpm` is the tempo of the hardest taps: what the engine says of the
    /// hardest tenth, or `otherwise` where there is nothing to tell it by.
    pub open spec fn taps_at(
        self,
        strains: SkillStrains,
        data: &Vec<SpeedObjectData>,
        otherwise: Double,
        bpm: Double,
    ) -> bool where T: Fn(&Vec<Double>, &Vec<SpeedObjectData>, Double) -> Double {
        if strains.object_strains@.len() > 0 && data@.len() > 0 {
            exists|share: Double|
                share@ == near(10, 100) && #[trigger] call_ensures(
                    self.tap_bpm,
                    (&strains.object_strains, data, share),
                    bpm,
                )
        } else {
            bpm == otherwise
        }
    }

    /// Whether `values` is what was found out of a map that was known as `setup`
    /// before its objects were looked at, by way of `steps`.
    #[verifier::opaque]
    pub open spec fn explains<O, S>(
        self,
        t: Table,
        setup: OsuDifficultySetup,
        difficulty: Difficulty,
        map: Beatmap,
        values: DifficultyValues<O, S>,
        steps: Steps<S>,
    ) -> bool where
        C: Fn(&Beatmap, GameMods, Double, Double, usize) -> (Vec<O>, ObjectCounts),
        N: Fn(
            &O,
            &O,
            Option<OsuDifficultyObject>,
            Option<OsuDifficultyObject>,
            Double,
            usize,
            Double,
        ) -> OsuDifficultyObject,
        B: Fn(GameMods, Double, Double, Double) -> S,
        P: Fn(S, OsuDifficultyObject, &Vec<OsuDifficultyObject>) -> S,
        R: Fn(&S) -> SkillStrains,
        M: Fn(&S) -> OsuSkills,
        U: Fn(&S, Counted, Double) -> Double,
        T: Fn(&Vec<Double>, &Vec<SpeedObjectData>, Double) -> Double,
        W: Fn(&Vec<SpeedObjectData>, Double) -> (Double, Double),
        L: Fn(&Vec<O>, &Beatmap, usize) -> LegacyScore,
    {
        &&& call_ensures(
            self.convert,
            (&map, difficulty.mods, setup.cs, setup.time_preempt, difficulty.passed_objects),
            (values.osu_objects, steps.counts),
        )
        &&& chain(
            self.new_object,
            values.osu_objects@,
            difficulty.passed_objects,
            difficulty.clock_rate,
            setup.cs,
            steps.objects@,
        )
        &&& steps.window@ == or_zero_of(optional(setup.map_attrs.od_great))
        &&& call_ensures(
            self.new_skills,
            (difficulty.mods, setup.cs, steps.window, setup.time_preempt),
            steps.start,
        )
        &&& runs(
            self.process,
            &steps.objects,
            steps.start,
            skilled_objects_of(
                map.n_hit_objects,
                difficulty.passed_objects,
                steps.objects@.len(),
            ),
            values.skills,
        )
        &&& call_ensures(self.strains, (&values.skills,), steps.strains)
        &&& steps.data@ == steps.objects@.map_values(
            |object: OsuDifficultyObject| speed_data_of(object),
        )
        &&& self.taps_at(steps.strains, &steps.data, setup.attrs.dominant_tap_bpm, steps.bpm)
        &&& call_ensures(self.speed_rework, (&steps.data, steps.bpm), steps.rework)
        &&& summarized(
            t,
            counted(setup.attrs, steps.counts),
            values.attrs,
            steps.objects@,
            steps.strains,
            steps.bpm,
            steps.rework,
        )
    }
}

/// What comes up while the objects of a map are looked at.
pub struct Steps<S> {
    /// What the objects amount to.
    pub counts: ObjectCounts,
    /// The difficulty objects.
    pub objects: Vec<OsuDifficultyObject>,
    /// The window for Greats.
    pub window: Double,
    /// The skills at the start.
    pub start: S,
    /// The strains that they measured.
    pub strains: SkillStrains,
    /// What the tapping of the objects depends on.
    pub data: Vec<SpeedObjectData>,
    /// The tempo of the hardest taps.
    pub bpm: Double,
    /// The factors on speed.
    pub rework: (Double, Double),
}

/// Whether `setup` is what is known of a map before its objects are looked at.
pub open spec fn sets_up(
    t: Table,
    difficulty: Difficulty,
    map: Beatmap,
    setup: OsuDifficultySetup,
) -> bool {
    &&& setup.cs == map.attributes.cs
    &&& setup.map_attrs == map.attributes
    &&& setup.attrs.starts_at(map.attributes)
    &&& setup.time_preempt@ == t.single(
        or_zero_of(optional(map.attributes.ar_window)) * difficulty.clock_rate@,
    )
}

/// How many of `n` difficulty objects the skills take up.
pub open spec fn skilled_objects_of(n_hit_objects: usize, take: usize, n: nat) -> nat {
    let taken = taken_objects_of(n_hit_objects, take);
    if taken < n {
        taken
    } else {
        n
    }
}

/// Attributes with what the objects of the map amount to.
pub open spec fn counted(
    attrs: OsuDifficultyAttributes,
    counts: ObjectCounts,
) -> OsuDifficultyAttributes {
    OsuDifficultyAttributes {
        n_circles: counts.n_circles,
        n_sliders: counts.n_sliders,
        n_large_ticks: counts.n_large_ticks,
        n_spinners: counts.n_spinners,
        n_objects: counts.n_objects,
        max_combo: counts.max_combo,
        ..attrs
    }
}

/// Puts what is said of all objects together into the attributes of a map.
pub fn summarize<F: Fn(Query<Double>) -> Double>(
    math: &Math<F>,
    attrs: OsuDifficultyAttributes,
    objects: &Vec<OsuDifficultyObject>,
    strains: &SkillStrains,
    dominant_tap_bpm: Double,
    rework: (Double, Double),
) -> (r: OsuDifficultyAttributes)
    requires
        math.sound(),
        strains.aim_peaks@.len() <= strains.speed_peaks@.len(),
    ensures
        summarized(math@, attrs, r, objects@, *strains, dominant_tap_bpm, rework),
{
    let aim_peaks = strains.aim_peaks.as_slice();
    let speed_peaks = strains.speed_peaks.as_slice();
    let delta_times = adjusted_times(objects);
    let (hardness, avg_delta) = chunks(objects);
    let median_delta_time = median(objects, attrs.median_delta_time);
    let mut out = attrs;
    out.dominant_tap_bpm = dominant_tap_bpm;
    out.speed_rework_mult_vanilla = rework.0;
    out.speed_rework_mult_autopilot = rework.1;
    out.local_sr_per_minute = relax_marathon::local_sr_per_minute(math, aim_peaks, speed_peaks);
    out.local_autopilot_sr_per_minute = auto_marathon::local_sr_per_minute(math, speed_peaks);
    out.local_aim_per_minute = auto_marathon::local_aim_per_minute(math, aim_peaks);
    out.local_bpm_per_minute = auto_marathon::compute_local_bpm_per_minute(
        objects.as_slice(),
        delta_times.as_slice(),
    );
    out.avg_jump_dist = avg_jump_dist(objects);
    out.median_delta_time = median_delta_time;
    out.rx_chunk_hardness = hardness;
    out.rx_chunk_avg_delta = avg_delta;
    out
}

impl<O, S> DifficultyValues<O, S> {
    /// Looks at the objects of a map: makes difficulty objects of them, has the
    /// skills take them up, and says what there is to say of all of them together.
    pub fn calculate<F: Fn(Query<Double>) -> Double, C, N, B, P, R, M, U, T, W, L>(
        math: &Math<F>,
        engine: &Engine<C, N, B, P, R, M, U, T, W, L>,
        difficulty: &Difficulty,
        map: &Beatmap,
    ) -> (r: Self) where
        C: Fn(&Beatmap, GameMods, Double, Double, usize) -> (Vec<O>, ObjectCounts),
        N: Fn(
            &O,
            &O,
            Option<OsuDifficultyObject>,
            Option<OsuDifficultyObject>,
            Double,
            usize,
            Double,
        ) -> OsuDifficultyObject,
        B: Fn(GameMods, Double, Double, Double) -> S,
        P: Fn(S, OsuDifficultyObject, &Vec<OsuDifficultyObject>) -> S,
        R: Fn(&S) -> SkillStrains,
        M: Fn(&S) -> OsuSkills,
        U: Fn(&S, Counted, Double) -> Double,
        T: Fn(&Vec<Double>, &Vec<SpeedObjectData>, Double) -> Double,
        W: Fn(&Vec<SpeedObjectData>, Double) -> (Double, Double),
        L: Fn(&Vec<O>, &Beatmap, usize) -> LegacyScore,

        requires
            math.sound(),
            engine.sound::<O, S>(),
        ensures
            exists|setup: OsuDifficultySetup, steps: Steps<S>|
                sets_up(math@, *difficulty, *map, setup) && #[trigger] engine.explains(
                    math@,
                    setup,
                    *difficulty,
                    *map,
                    r,
                    steps,
                ),
    {
        proof {
            reveal(Engine::sound);
            reveal(Engine::explains);
        }
        let take: usize = difficulty.passed_objects;
        let setup = OsuDifficultySetup::new(math, difficulty, map);
        let ghost before = setup;
        let cs = setup.cs;
        let time_preempt = setup.time_preempt;
        let (osu_objects, counts) = (engine.convert)(map, difficulty.mods, cs, time_preempt, take);
        let diff_objects = Self::create_difficulty_objects(
            difficulty,
            cs,
            &osu_objects,
            &engine.new_object,
        );
        let great_hit_window = or_zero(map.attributes.od_great);
        let skills = (engine.new_skills)(difficulty.mods, cs, great_hit_window, time_preempt);
        let ghost start = skills;
        let skills = Self::process_objects(
            &engine.process,
            skills,
            &diff_objects,
            map.n_hit_objects,
            take,
        );
        let strains = (engine.strains)(&skills);
        let data = speed_data(&diff_objects);
        let mut attrs = setup.attrs;
        attrs.n_circles = counts.n_circles;
        attrs.n_sliders = counts.n_sliders;
        attrs.n_large_ticks = counts.n_large_ticks;
        attrs.n_spinners = counts.n_spinners;
        attrs.n_objects = counts.n_objects;
        attrs.max_combo = counts.max_combo;
        let bpm = if strains.object_strains.len() > 0 && data.len() > 0 {
            (engine.tap_bpm)(&strains.object_strains, &data, ratio(10, 100))
        } else {
            attrs.dominant_tap_bpm
        };
        let rework = (engine.speed_rework)(&data, bpm);
        let attrs = summarize(math, attrs, &diff_objects, &strains, bpm, rework);
        let r = DifficultyValues { osu_objects, skills, attrs };
        proof {
            assert(engine.taps_at(strains, &data, before.attrs.dominant_tap_bpm, bpm));
            assert(summarized(
                math@,
                counted(before.attrs, counts),
                r.attrs,
                diff_objects@,
                strains,
                bpm,
                rework,
            ));
            let steps = Steps {
                counts,
                objects: diff_objects,
                window: great_hit_window,
                start,
                strains,
                data,
                bpm,
                rework,
            };
            assert(engine.explains(math@, before, *difficulty, *map, r, steps));
        }
        r
    }

    /// Has the skills take up difficulty objects in turn, as many as were passed.
    pub fn process_objects<P: Fn(S, OsuDifficultyObject, &Vec<OsuDifficultyObject>) -> S>(
        process: &P,
        skills: S,
        objects: &Vec<OsuDifficultyObject>,
        n_hit_objects: usize,
        take: usize,
    ) -> (r: S)
        requires
            forall|s: S, object: OsuDifficultyObject, objects: &Vec<OsuDifficultyObject>|
                call_requires(process, (s, object, objects)),
        ensures
            runs(
                *process,
                objects,
                skills,
                skilled_objects_of(n_hit_objects, take, objects@.len()),
                r,
            ),
    {
        let n: usize = if n_hit_objects < take {
            n_hit_objects
        } else {
            take
        };
        let ghost mut states = seq![skills];
        let ghost start = skills;
        let mut state = skills;
        let mut i: usize = 0;
        while i < objects.len() && i + 1 < n
            invariant
                forall|s: S, object: OsuDifficultyObject, objects: &Vec<OsuDifficultyObject>|
                    call_requires(process, (s, object, objects)),
                i <= objects@.len(),
                i == 0 || i < n,
                states.len() == i + 1,
                states[0] == start,
                states[i as int] == state,
                follows(*process, objects, states),
            decreases objects@.len() - i,
        {
            state = process(state, objects[i], objects);
            proof {
                let longer = states.push(state);
                assert forall|k: int| 0 <= k < longer.len() - 1 implies call_ensures(
                    *process,
                    (#[trigger] longer[k], objects@[k], objects),
                    longer[k + 1],
                ) by {
                    if k < i {
                        assert(states[k] == longer[k]);
                    }
                }
                states = longer;
            }
            i = i + 1;
        }
        proof {
            assert(follows(*process, objects, states));
        }
        state
    }

    /// Makes a difficulty object of every hit object but the first; none where no
    /// object was passed.
    pub fn create_difficulty_objects<
        N: Fn(
            &O,
            &O,
            Option<OsuDifficultyObject>,
            Option<OsuDifficultyObject>,
            Double,
            usize,
            Double,
        ) -> OsuDifficultyObject,
    >(difficulty: &Difficulty, cs: Double, osu_objects: &Vec<O>, new_object: &N) -> (r: Vec<
        OsuDifficultyObject,
    >)
        requires
            forall|
                h: &O,
                last: &O,
                a: Option<OsuDifficultyObject>,
                b: Option<OsuDifficultyObject>,
                clock: Double,
                i: usize,
                cs: Double,
            |
                call_requires(new_object, (h, last, a, b, clock, i, cs)),
        ensures
            chain(
                *new_object,
                osu_objects@,
                difficulty.passed_objects,
                difficulty.clock_rate,
                cs,
                r@,
            ),
    {
        let mut diff_objects: Vec<OsuDifficultyObject> = Vec::new();
        if difficulty.passed_objects == 0 || osu_objects.len() == 0 {
            return diff_objects;
        }
        let clock_rate = difficulty.clock_rate;
        let mut idx: usize = 0;
        while idx < osu_objects.len() - 1
            invariant
                forall|
                    h: &O,
                    last: &O,
                    a: Option<OsuDifficultyObject>,
                    b: Option<OsuDifficultyObject>,
                    clock: Double,
                    i: usize,
                    cs: Double,
                |
                    call_requires(new_object, (h, last, a, b, clock, i, cs)),
                osu_objects@.len() > 0,
                idx <= osu_objects@.len() - 1,
                diff_objects@.len() == idx,
                forall|i: int|
                    0 <= i < idx ==> #[trigger] links(
                        *new_object,
                        osu_objects@,
                        clock_rate,
                        cs,
                        diff_objects@,
                        i,
                    ),
            decreases osu_objects@.len() - idx,
        {
            let last_diff: Option<OsuDifficultyObject> = if idx > 0 {
                Some(diff_objects[idx - 1])
            } else {
                None
            };
            let last_last_diff: Option<OsuDifficultyObject> = if idx > 1 {
                Some(diff_objects[idx - 2])
            } else {
                None
            };
            let diff_object = new_object(
                &osu_objects[idx + 1],
                &osu_objects[idx],
                last_diff,
                last_last_diff,
                clock_rate,
                idx,
                cs,
            );
            let ghost before = diff_objects@;
            diff_objects.push(diff_object);
            proof {
                assert forall|i: int| 0 <= i < idx implies #[trigger] links(
                    *new_object,
                    osu_objects@,
                    clock_rate,
                    cs,
                    diff_objects@,
                    i,
                ) by {
                    assert(links(*new_object, osu_objects@, clock_rate, cs, before, i));
                }
                assert(links(
                    *new_object,
                    osu_objects@,
                    clock_rate,
                    cs,
                    diff_objects@,
                    idx as int,
                ));
            }
            idx = idx + 1;
        }
        diff_objects
    }

    /// Puts the ratings of the skills and the stars into the attributes of a map. Each
    /// count of the skills is asked for by the difficulty value of its own skill.
    pub fn eval<
        F: Fn(Query<Double>) -> Double,
        M: Fn(&S) -> OsuSkills,
        U: Fn(&S, Counted, Double) -> Double,
    >(
        math: &Math<F>,
        attrs: &mut OsuDifficultyAttributes,
        mods: GameMods,
        skills: &S,
        measure: &M,
        count: &U,
    )
        requires
            math.sound(),
            call_requires(*measure, (skills,)),
            forall|kind: Counted, value: Double| call_requires(*count, (skills, kind, value)),
        ensures
            exists|measured: OsuSkills, counts: SkillCounts|
                {
                    &&& call_ensures(*measure, (skills,), measured)
                    &&& counted_by(*count, skills, measured, counts)
                    &&& #[trigger] evaluated(
                        math@,
                        *old(attrs),
                        *final(attrs),
                        mods,
                        measured,
                        counts,
                    )
                },
    {
        let measured = measure(skills);
        let aim = measured.aim_difficulty_value;
        let aim_no_sliders = measured.aim_no_sliders_difficulty_value;
        let speed = measured.speed_difficulty_value;
        let counts = SkillCounts {
            aim_strains: count(skills, Counted::AimStrains, aim),
            aim_no_sliders_strains: count(skills, Counted::AimNoSlidersStrains, aim_no_sliders),
            aim_no_sliders_sliders: count(skills, Counted::AimNoSlidersSliders, aim_no_sliders),
            speed_strains: count(skills, Counted::SpeedStrains, speed),
            speed_sliders: count(skills, Counted::SpeedSliders, speed),
        };
        Self::eval_with(math, attrs, mods, &measured, &counts);
    }

    /// Puts the ratings of the skills and the stars into the attributes of a map, given
    /// what the skills measured and counted.
    pub fn eval_with<F: Fn(Query<Double>) -> Double>(
        math: &Math<F>,
        attrs: &mut OsuDifficultyAttributes,
        mods: GameMods,
        skills: &OsuSkills,
        counts: &SkillCounts,
    )
        requires
            math.sound(),
        ensures
            evaluated(math@, *old(attrs), *final(attrs), mods, *skills, *counts),
    {
        let slider_factor = slider_factor(
            math,
            skills.aim_difficulty_value,
            skills.aim_no_sliders_difficulty_value,
        );
        let aim_top_weighted_slider_factor = top_weighted_slider_factor(
            counts.aim_no_sliders_sliders,
            counts.aim_no_sliders_strains,
        );
        let speed_top_weighted_slider_factor = top_weighted_slider_factor(
            counts.speed_sliders,
            counts.speed_strains,
        );
        let mechanical_difficulty_rating = calculate_mechanical_difficulty_rating(
            math,
            skills.aim_difficulty_value,
            skills.speed_difficulty_value,
        );
        let n_objects: u32 = attrs.n_objects;
        let ar = attrs.ar;
        let od = attrs.od;
        let aim_rating = math.aim_rating(
            Rating {
                mods,
                n_objects,
                ar,
                od,
                mechanical_difficulty_rating,
                slider_factor,
                difficulty_value: skills.aim_difficulty_value,
            },
        );
        let speed_rating = math.speed_rating(
            Rating {
                mods,
                n_objects,
                ar,
                od,
                mechanical_difficulty_rating,
                slider_factor,
                difficulty_value: skills.speed_difficulty_value,
            },
        );
        let flashlight_rating = if mods.fl {
            math.flashlight_rating(
                Rating {
                    mods,
                    n_objects,
                    ar,
                    od,
                    mechanical_difficulty_rating,
                    slider_factor,
                    difficulty_value: skills.flashlight_difficulty_value,
                },
            )
        } else {
            whole(0)
        };
        let base_aim = math.power(math.aim_performance(aim_rating), ratio(11, 10));
        let base_speed = math.power(math.speed_performance(speed_rating), ratio(11, 10));
        let base_flashlight = math.power(
            math.flashlight_performance(flashlight_rating),
            ratio(11, 10),
        );
        let base_performance = math.power(
            base_aim + base_speed + base_flashlight,
            whole(1) / ratio(11, 10),
        );
        attrs.aim = aim_rating;
        attrs.aim_difficult_slider_count = skills.aim_difficult_slider_count;
        attrs.speed = speed_rating;
        attrs.flashlight = flashlight_rating;
        attrs.slider_factor = slider_factor;
        attrs.aim_top_weighted_slider_factor = aim_top_weighted_slider_factor;
        attrs.speed_top_weighted_slider_factor = speed_top_weighted_slider_factor;
        attrs.aim_difficult_strain_count = counts.aim_strains;
        attrs.speed_difficult_strain_count = counts.speed_strains;
        attrs.stars = calculate_star_rating(math, base_performance);
        attrs.speed_note_count = skills.speed_relevant_note_count;
    }
}

/// Whether `after` is `before` with the ratings of the skills, the stars, the
/// legacy score of a perfect play and the circle size.
pub open spec fn finished(
    t: Table,
    before: OsuDifficultyAttributes,
    after: OsuDifficultyAttributes,
    difficulty: Difficulty,
    map: Beatmap,
    skills: OsuSkills,
    counts: SkillCounts,
    score: LegacyScore,
) -> bool {
    &&& evaluated(
        t,
        before,
        OsuDifficultyAttributes {
            maximum_legacy_combo_score: before.maximum_legacy_combo_score,
            legacy_score_base_multiplier: before.legacy_score_base_multiplier,
            nested_score_per_object: before.nested_score_per_object,
            cs: before.cs,
            ..after
        },
        difficulty.mods,
        skills,
        counts,
    )
    &&& after.maximum_legacy_combo_score@ == exactly(score.combo_score as nat)
    &&& after.legacy_score_base_multiplier == score.score_multiplier
    &&& after.nested_score_per_object == score.nested_score_per_object
    &&& after.cs == map.attributes.cs
}

/// What comes up on the way to the difficulty of a map.
pub struct Course<O, S> {
    pub setup: OsuDifficultySetup,
    pub steps: Steps<S>,
    pub values: DifficultyValues<O, S>,
    pub skills: OsuSkills,
    pub counts: SkillCounts,
    pub score: LegacyScore,
}

impl<C, N, B, P, R, M, U, T, W, L> Engine<C, N, B, P, R, M, U, T, W, L> {
    /// Whether `attrs` is the difficulty of a map, by way of `course`.
    #[verifier::opaque]
    pub open spec fn rates<O, S>(
        self,
        t: Table,
        difficulty: Difficulty,
        map: Beatmap,
        attrs: OsuDifficultyAttributes,
        course: Course<O, S>,
    ) -> bool where
        C: Fn(&Beatmap, GameMods, Double, Double, usize) -> (Vec<O>, ObjectCounts),
        N: Fn(
            &O,
            &O,
            Option<OsuDifficultyObject>,
            Option<OsuDifficultyObject>,
            Double,
            usize,
            Double,
        ) -> OsuDifficultyObject,
        B: Fn(GameMods, Double, Double, Double) -> S,
        P: Fn(S, OsuDifficultyObject, &Vec<OsuDifficultyObject>) -> S,
        R: Fn(&S) -> SkillStrains,
        M: Fn(&S) -> OsuSkills,
        U: Fn(&S, Counted, Double) -> Double,
        T: Fn(&Vec<Double>, &Vec<SpeedObjectData>, Double) -> Double,
        W: Fn(&Vec<SpeedObjectData>, Double) -> (Double, Double),
        L: Fn(&Vec<O>, &Beatmap, usize) -> LegacyScore,
    {
        &&& sets_up(t, difficulty, map, course.setup)
        &&& self.explains(t, course.setup, difficulty, map, course.values, course.steps)
        &&& call_ensures(self.measure, (&course.values.skills,), course.skills)
        &&& counted_by(self.count, &course.values.skills, course.skills, course.counts)
        &&& call_ensures(
            self.legacy_score,
            (&course.values.osu_objects, &map, difficulty.passed_objects),
            course.score,
        )
        &&& finished(
            t,
            course.values.attrs,
            attrs,
            difficulty,
            map,
            course.skills,
            course.counts,
            course.score,
        )
    }
}

impl<C, N, B, P, R, M, U, T, W, L> Engine<C, N, B, P, R, M, U, T, W, L> {
    /// Whether `attrs` is a difficulty of a map.
    pub open spec fn can_rate<O, S>(
        self,
        t: Table,
        difficulty: Difficulty,
        map: Beatmap,
        attrs: OsuDifficultyAttributes,
    ) -> bool where
        C: Fn(&Beatmap, GameMods, Double, Double, usize) -> (Vec<O>, ObjectCounts),
        N: Fn(
            &O,
            &O,
            Option<OsuDifficultyObject>,
            Option<OsuDifficultyObject>,
            Double,
            usize,
            Double,
        ) -> OsuDifficultyObject,
        B: Fn(GameMods, Double, Double, Double) -> S,
        P: Fn(S, OsuDifficultyObject, &Vec<OsuDifficultyObject>) -> S,
        R: Fn(&S) -> SkillStrains,
        M: Fn(&S) -> OsuSkills,
        U: Fn(&S, Counted, Double) -> Double,
        T: Fn(&Vec<Double>, &Vec<SpeedObjectData>, Double) -> Double,
        W: Fn(&Vec<SpeedObjectData>, Double) -> (Double, Double),
        L: Fn(&Vec<O>, &Beatmap, usize) -> LegacyScore,
    {
        exists|course: Course<O, S>| #[trigger] self.rates(t, difficulty, map, attrs, course)
    }

    /// Whether `r` is what comes of a map that was made ready, or refused: its
    /// difficulty, or the error.
    pub open spec fn can_answer<O, S, E>(
        self,
        t: Table,
        difficulty: Difficulty,
        prepared: Result<Beatmap, E>,
        r: Result<OsuDifficultyAttributes, E>,
    ) -> bool where
        C: Fn(&Beatmap, GameMods, Double, Double, usize) -> (Vec<O>, ObjectCounts),
        N: Fn(
            &O,
            &O,
            Option<OsuDifficultyObject>,
            Option<OsuDifficultyObject>,
            Double,
            usize,
            Double,
        ) -> OsuDifficultyObject,
        B: Fn(GameMods, Double, Double, Double) -> S,
        P: Fn(S, OsuDifficultyObject, &Vec<OsuDifficultyObject>) -> S,
        R: Fn(&S) -> SkillStrains,
        M: Fn(&S) -> OsuSkills,
        U: Fn(&S, Counted, Double) -> Double,
        T: Fn(&Vec<Double>, &Vec<SpeedObjectData>, Double) -> Double,
        W: Fn(&Vec<SpeedObjectData>, Double) -> (Double, Double),
        L: Fn(&Vec<O>, &Beatmap, usize) -> LegacyScore,
    {
        match (prepared, r) {
            (Ok(map), Ok(attrs)) => self.can_rate::<O, S>(t, difficulty, map, attrs),
            (Err(error), Err(answer)) => answer == error,
            _ => false,
        }
    }

    /// Whether `r` is what comes of a map that was made ready, or refused, and then
    /// checked, or not: its difficulty, or one of the errors.
    pub open spec fn can_answer_checked<O, S, E, K>(
        self,
        t: Table,
        difficulty: Difficulty,
        prepared: Result<Beatmap, E>,
        checked: Result<(), K>,
        r: Result<OsuDifficultyAttributes, CalculateError<E, K>>,
    ) -> bool where
        C: Fn(&Beatmap, GameMods, Double, Double, usize) -> (Vec<O>, ObjectCounts),
        N: Fn(
            &O,
            &O,
            Option<OsuDifficultyObject>,
            Option<OsuDifficultyObject>,
            Double,
            usize,
            Double,
        ) -> OsuDifficultyObject,
        B: Fn(GameMods, Double, Double, Double) -> S,
        P: Fn(S, OsuDifficultyObject, &Vec<OsuDifficultyObject>) -> S,
        R: Fn(&S) -> SkillStrains,
        M: Fn(&S) -> OsuSkills,
        U: Fn(&S, Counted, Double) -> Double,
        T: Fn(&Vec<Double>, &Vec<SpeedObjectData>, Double) -> Double,
        W: Fn(&Vec<SpeedObjectData>, Double) -> (Double, Double),
        L: Fn(&Vec<O>, &Beatmap, usize) -> LegacyScore,
    {
        match (prepared, checked, r) {
            (Ok(map), Ok(_), Ok(attrs)) => self.can_rate::<O, S>(t, difficulty, map, attrs),
            (Ok(_), Err(error), Err(answer)) => answer == CalculateError::<E, K>::Suspicion(error),
            (Err(error), _, Err(answer)) => answer == CalculateError::<E, K>::Convert(error),
            _ => false,
        }
    }

    /// Whether `r` can come of a map that `prepare` makes ready or refuses.
    pub open spec fn may_answer<O, S, Q, E, G: Fn(&Difficulty, &Q) -> Result<Beatmap, E>>(
        self,
        t: Table,
        prepare: G,
        asked: &Difficulty,
        map: &Q,
        r: Result<OsuDifficultyAttributes, E>,
    ) -> bool where
        C: Fn(&Beatmap, GameMods, Double, Double, usize) -> (Vec<O>, ObjectCounts),
        N: Fn(
            &O,
            &O,
            Option<OsuDifficultyObject>,
            Option<OsuDifficultyObject>,
            Double,
            usize,
            Double,
        ) -> OsuDifficultyObject,
        B: Fn(GameMods, Double, Double, Double) -> S,
        P: Fn(S, OsuDifficultyObject, &Vec<OsuDifficultyObject>) -> S,
        R: Fn(&S) -> SkillStrains,
        M: Fn(&S) -> OsuSkills,
        U: Fn(&S, Counted, Double) -> Double,
        T: Fn(&Vec<Double>, &Vec<SpeedObjectData>, Double) -> Double,
        W: Fn(&Vec<SpeedObjectData>, Double) -> (Double, Double),
        L: Fn(&Vec<O>, &Beatmap, usize) -> LegacyScore,
    {
        exists|prepared: Result<Beatmap, E>|
            #[trigger] call_ensures(prepare, (asked, map), prepared) && self.can_answer::<
                O,
                S,
                E,
            >(t, *asked, prepared, r)
    }

    /// Whether `r` can come of a map that `prepare` makes ready or refuses, and that
    /// `check` may find too suspicious.
    pub open spec fn may_answer_checked<
        O,
        S,
        Q,
        E,
        K,
        G: Fn(&Difficulty, &Q) -> Result<Beatmap, E>,
        H: Fn(&Beatmap) -> Result<(), K>,
    >(
        self,
        t: Table,
        prepare: G,
        check: H,
        asked: &Difficulty,
        map: &Q,
        r: Result<OsuDifficultyAttributes, CalculateError<E, K>>,
    ) -> bool where
        C: Fn(&Beatmap, GameMods, Double, Double, usize) -> (Vec<O>, ObjectCounts),
        N: Fn(
            &O,
            &O,
            Option<OsuDifficultyObject>,
            Option<OsuDifficultyObject>,
            Double,
            usize,
            Double,
        ) -> OsuDifficultyObject,
        B: Fn(GameMods, Double, Double, Double) -> S,
        P: Fn(S, OsuDifficultyObject, &Vec<OsuDifficultyObject>) -> S,
        R: Fn(&S) -> SkillStrains,
        M: Fn(&S) -> OsuSkills,
        U: Fn(&S, Counted, Double) -> Double,
        T: Fn(&Vec<Double>, &Vec<SpeedObjectData>, Double) -> Double,
        W: Fn(&Vec<SpeedObjectData>, Double) -> (Double, Double),
        L: Fn(&Vec<O>, &Beatmap, usize) -> LegacyScore,
    {
        exists|prepared: Result<Beatmap, E>, checked: Result<(), K>|
            {
                &&& call_ensures(prepare, (asked, map), prepared)
                &&& prepared matches Ok(ready) ==> call_ensures(check, (&ready,), checked)
                &&& #[trigger] self.can_answer_checked::<O, S, E, K>(
                    t,
                    *asked,
                    prepared,
                    checked,
                    r,
                )
            }
    }
}

/// The difficulty of a map that is ready to be rated.
pub fn calculate_difficulty<F: Fn(Query<Double>) -> Double, O, S, C, N, B, P, R, M, U, T, W, L>(
    math: &Math<F>,
    engine: &Engine<C, N, B, P, R, M, U, T, W, L>,
    difficulty: &Difficulty,
    map: &Beatmap,
) -> (r: OsuDifficultyAttributes) where
    C: Fn(&Beatmap, GameMods, Double, Double, usize) -> (Vec<O>, ObjectCounts),
    N: Fn(
        &O,
        &O,
        Option<OsuDifficultyObject>,
        Option<OsuDifficultyObject>,
        Double,
        usize,
        Double,
    ) -> OsuDifficultyObject,
    B: Fn(GameMods, Double, Double, Double) -> S,
    P: Fn(S, OsuDifficultyObject, &Vec<OsuDifficultyObject>) -> S,
    R: Fn(&S) -> SkillStrains,
    M: Fn(&S) -> OsuSkills,
    U: Fn(&S, Counted, Double) -> Double,
    T: Fn(&Vec<Double>, &Vec<SpeedObjectData>, Double) -> Double,
    W: Fn(&Vec<SpeedObjectData>, Double) -> (Double, Double),
    L: Fn(&Vec<O>, &Beatmap, usize) -> LegacyScore,

    requires
        math.sound(),
        engine.sound::<O, S>(),
    ensures
        engine.can_rate::<O, S>(math@, *difficulty, *map, r),
{
    proof {
        reveal(Engine::sound);
        reveal(Engine::rates);
    }
    let found = DifficultyValues::<O, S>::calculate(math, engine, difficulty, map);
    let ghost whole_found = found;
    let score = (engine.legacy_score)(&found.osu_objects, map, difficulty.passed_objects);
    let mut attrs = found.attrs;
    let ghost before = attrs;
    DifficultyValues::<O, S>::eval(
        math,
        &mut attrs,
        difficulty.mods,
        &found.skills,
        &engine.measure,
        &engine.count,
    );
    let ghost rated = attrs;
    attrs.maximum_legacy_combo_score = whole(score.combo_score as u64);
    attrs.legacy_score_base_multiplier = score.score_multiplier;
    attrs.nested_score_per_object = score.nested_score_per_object;
    attrs.cs = map.attributes.cs;
    proof {
        let (setup, steps) = choose|setup: OsuDifficultySetup, steps: Steps<S>|
            sets_up(math@, *difficulty, *map, setup) && #[trigger] engine.explains(
                math@,
                setup,
                *difficulty,
                *map,
                whole_found,
                steps,
            );
        let (skills, counts) = choose|skills: OsuSkills, counts: SkillCounts|
            {
                &&& call_ensures(engine.measure, (&whole_found.skills,), skills)
                &&& counted_by(engine.count, &whole_found.skills, skills, counts)
                &&& #[trigger] evaluated(math@, before, rated, difficulty.mods, skills, counts)
            };
        let course = Course { setup, steps, values: whole_found, skills, counts, score };
        assert(finished(math@, before, attrs, *difficulty, *map, skills, counts, score));
        assert(engine.rates(math@, *difficulty, *map, attrs, course));
    }
    attrs
}

/// The difficulty of a map, which `prepare` makes ready or refuses.
pub fn difficulty<
    F: Fn(Query<Double>) -> Double,
    O,
    S,
    C,
    N,
    B,
    P,
    R,
    M,
    U,
    T,
    W,
    L,
    Q,
    E,
    G: Fn(&Difficulty, &Q) -> Result<Beatmap, E>,
>(
    math: &Math<F>,
    engine: &Engine<C, N, B, P, R, M, U, T, W, L>,
    prepare: &G,
    asked: &Difficulty,
    map: &Q,
) -> (r: Result<OsuDifficultyAttributes, E>) where
    C: Fn(&Beatmap, GameMods, Double, Double, usize) -> (Vec<O>, ObjectCounts),
    N: Fn(
        &O,
        &O,
        Option<OsuDifficultyObject>,
        Option<OsuDifficultyObject>,
        Double,
        usize,
        Double,
    ) -> OsuDifficultyObject,
    B: Fn(GameMods, Double, Double, Double) -> S,
    P: Fn(S, OsuDifficultyObject, &Vec<OsuDifficultyObject>) -> S,
    R: Fn(&S) -> SkillStrains,
    M: Fn(&S) -> OsuSkills,
    U: Fn(&S, Counted, Double) -> Double,
    T: Fn(&Vec<Double>, &Vec<SpeedObjectData>, Double) -> Double,
    W: Fn(&Vec<SpeedObjectData>, Double) -> (Double, Double),
    L: Fn(&Vec<O>, &Beatmap, usize) -> LegacyScore,

    requires
        math.sound(),
        engine.sound::<O, S>(),
        call_requires(*prepare, (asked, map)),
    ensures
        engine.may_answer::<O, S, Q, E, G>(math@, *prepare, asked, map, r),
{
    let prepared = prepare(asked, map);
    let ghost whole_prepared = prepared;
    let r = match prepared {
        Ok(ready) => Ok(
            calculate_difficulty::<F, O, S, C, N, B, P, R, M, U, T, W, L>(
                math,
                engine,
                asked,
                &ready,
            ),
        ),
        Err(error) => Err(error),
    };
    proof {
        assert(engine.can_answer::<O, S, E>(math@, *asked, whole_prepared, r));
    }
    r
}

/// Why a map is not rated.
#[derive(Debug)]
pub enum CalculateError<E, K> {
    /// It cannot be made ready.
    Convert(E),
    /// It is not worth the time.
    Suspicion(K),
}

/// The difficulty of a map, which `prepare` makes ready or refuses, and which
/// `check` may find too suspicious.
pub fn checked_difficulty<
    F: Fn(Query<Double>) -> Double,
    O,
    S,
    C,
    N,
    B,
    P,
    R,
    M,
    U,
    T,
    W,
    L,
    Q,
    E,
    K,
    G: Fn(&Difficulty, &Q) -> Result<Beatmap, E>,
    H: Fn(&Beatmap) -> Result<(), K>,
>(
    math: &Math<F>,
    engine: &Engine<C, N, B, P, R, M, U, T, W, L>,
    prepare: &G,
    check: &H,
    asked: &Difficulty,
    map: &Q,
) -> (r: Result<OsuDifficultyAttributes, CalculateError<E, K>>) where
    C: Fn(&Beatmap, GameMods, Double, Double, usize) -> (Vec<O>, ObjectCounts),
    N: Fn(
        &O,
        &O,
        Option<OsuDifficultyObject>,
        Option<OsuDifficultyObject>,
        Double,
        usize,
        Double,
    ) -> OsuDifficultyObject,
    B: Fn(GameMods, Double, Double, Double) -> S,
    P: Fn(S, OsuDifficultyObject, &Vec<OsuDifficultyObject>) -> S,
    R: Fn(&S) -> SkillStrains,
    M: Fn(&S) -> OsuSkills,
    U: Fn(&S, Counted, Double) -> Double,
    T: Fn(&Vec<Double>, &Vec<SpeedObjectData>, Double) -> Double,
    W: Fn(&Vec<SpeedObjectData>, Double) -> (Double, Double),
    L: Fn(&Vec<O>, &Beatmap, usize) -> LegacyScore,

    requires
        math.sound(),
        engine.sound::<O, S>(),
        call_requires(*prepare, (asked, map)),
        forall|ready: &Beatmap| call_requires(*check, (ready,)),
    ensures
        engine.may_answer_checked::<O, S, Q, E, K, G, H>(math@, *prepare, *check, asked, map, r),
{
    let prepared = prepare(asked, map);
    let ghost whole_prepared = prepared;
    match prepared {
        Ok(ready) => {
            let checked = check(&ready);
            let ghost whole_checked = checked;
            let r = match checked {
                Ok(_) => Ok(
                    calculate_difficulty::<F, O, S, C, N, B, P, R, M, U, T, W, L>(
                        math,
                        engine,
                        asked,
                        &ready,
                    ),
                ),
                Err(error) => Err(CalculateError::Suspicion(error)),
            };
            proof {
                assert(engine.can_answer_checked::<O, S, E, K>(
                    math@,
                    *asked,
                    whole_prepared,
                    whole_checked,
                    r,
                ));
            }
            r
        },
        Err(error) => {
            let r = Err(CalculateError::Convert(error));
            proof {
                let checked: Result<(), K> = Ok(());
                assert(engine.can_answer_checked::<O, S, E, K>(
                    math@,
                    *asked,
                    whole_prepared,
                    checked,
                    r,
                ));
            }
            r
        },
    }
}

/// Of one answer of the preparation and one of the check: the checked rating of a
/// map is a difficulty exactly where the unchecked one is that and the map passes
/// the check. An error of the preparation comes first.
pub proof fn law_checks_only_refuse<O, S, E, K, C, N, B, P, R, M, U, T, W, L>(
    engine: Engine<C, N, B, P, R, M, U, T, W, L>,
    t: Table,
    asked: Difficulty,
    prepared: Result<Beatmap, E>,
    checked: Result<(), K>,
) where
    C: Fn(&Beatmap, GameMods, Double, Double, usize) -> (Vec<O>, ObjectCounts),
    N: Fn(
        &O,
        &O,
        Option<OsuDifficultyObject>,
        Option<OsuDifficultyObject>,
        Double,
        usize,
        Double,
    ) -> OsuDifficultyObject,
    B: Fn(GameMods, Double, Double, Double) -> S,
    P: Fn(S, OsuDifficultyObject, &Vec<OsuDifficultyObject>) -> S,
    R: Fn(&S) -> SkillStrains,
    M: Fn(&S) -> OsuSkills,
    U: Fn(&S, Counted, Double) -> Double,
    T: Fn(&Vec<Double>, &Vec<SpeedObjectData>, Double) -> Double,
    W: Fn(&Vec<SpeedObjectData>, Double) -> (Double, Double),
    L: Fn(&Vec<O>, &Beatmap, usize) -> LegacyScore,

    ensures
        forall|attrs: OsuDifficultyAttributes|
            #[trigger] engine.can_answer_checked::<O, S, E, K>(
                t,
                asked,
                prepared,
                checked,
                Ok(attrs),
            ) <==> engine.can_answer::<O, S, E>(t, asked, prepared, Ok(attrs)) && checked is Ok,
        forall|error: CalculateError<E, K>|
            #[trigger] engine.can_answer_checked::<O, S, E, K>(
                t,
                asked,
                prepared,
                checked,
                Err(error),
            ) <==> match (prepared, checked) {
                (Err(refusal), _) => error == CalculateError::<E, K>::Convert(refusal),
                (Ok(_), Err(suspicion)) => error == CalculateError::<E, K>::Suspicion(suspicion),
                (Ok(_), Ok(_)) => false,
            },
{
}

/// The checked rating of a map can be a difficulty exactly where the unchecked one
/// can be that and the prepared map can pass the check, of a preparation that gives
/// one answer. Where it refuses the map, its error is the only answer of both.
pub proof fn law_checked_ratings_agree<
    O,
    S,
    Q,
    E,
    K,
    C,
    N,
    B,
    P,
    R,
    M,
    U,
    T,
    W,
    L,
    G: Fn(&Difficulty, &Q) -> Result<Beatmap, E>,
    H: Fn(&Beatmap) -> Result<(), K>,
>(
    engine: Engine<C, N, B, P, R, M, U, T, W, L>,
    t: Table,
    prepare: G,
    check: H,
    asked: &Difficulty,
    map: &Q,
    prepared: Result<Beatmap, E>,
) where
    C: Fn(&Beatmap, GameMods, Double, Double, usize) -> (Vec<O>, ObjectCounts),
    N: Fn(
        &O,
        &O,
        Option<OsuDifficultyObject>,
        Option<OsuDifficultyObject>,
        Double,
        usize,
        Double,
    ) -> OsuDifficultyObject,
    B: Fn(GameMods, Double, Double, Double) -> S,
    P: Fn(S, OsuDifficultyObject, &Vec<OsuDifficultyObject>) -> S,
    R: Fn(&S) -> SkillStrains,
    M: Fn(&S) -> OsuSkills,
    U: Fn(&S, Counted, Double) -> Double,
    T: Fn(&Vec<Double>, &Vec<SpeedObjectData>, Double) -> Double,
    W: Fn(&Vec<SpeedObjectData>, Double) -> (Double, Double),
    L: Fn(&Vec<O>, &Beatmap, usize) -> LegacyScore,

    requires
        call_ensures(prepare, (asked, map), prepared),
        forall|other: Result<Beatmap, E>|
            #[trigger] call_ensures(prepare, (asked, map), other) ==> other == prepared,
    ensures
        forall|attrs: OsuDifficultyAttributes|
            #[trigger] engine.may_answer_checked::<O, S, Q, E, K, G, H>(
                t,
                prepare,
                check,
                asked,
                map,
                Ok(attrs),
            ) <==> engine.may_answer::<O, S, Q, E, G>(t, prepare, asked, map, Ok(attrs)) && (
            prepared matches Ok(ready) && call_ensures(check, (&ready,), Ok::<(), K>(()))),
        prepared matches Err(refusal) ==> forall|
            r: Result<OsuDifficultyAttributes, CalculateError<E, K>>,
        |
            #[trigger] engine.may_answer_checked::<O, S, Q, E, K, G, H>(
                t,
                prepare,
                check,
                asked,
                map,
                r,
            ) <==> r == Err::<OsuDifficultyAttributes, CalculateError<E, K>>(
                CalculateError::Convert(refusal),
            ),
        prepared matches Err(refusal) ==> forall|r: Result<OsuDifficultyAttributes, E>|
            #[trigger] engine.may_answer::<O, S, Q, E, G>(t, prepare, asked, map, r) <==> r
                == Err::<OsuDifficultyAttributes, E>(refusal),
{
    let passed: Result<(), K> = Ok(());
    assert forall|attrs: OsuDifficultyAttributes|
        engine.may_answer::<O, S, Q, E, G>(t, prepare, asked, map, Ok(attrs)) && (
        prepared matches Ok(ready) && call_ensures(check, (&ready,), Ok::<(), K>(())))
            implies #[trigger] engine.may_answer_checked::<O, S, Q, E, K, G, H>(
        t,
        prepare,
        check,
        asked,
        map,
        Ok(attrs),
    ) by {
        assert(engine.can_answer_checked::<O, S, E, K>(t, *asked, prepared, passed, Ok(attrs)));
    }
    assert forall|attrs: OsuDifficultyAttributes|
        #[trigger] engine.may_answer_checked::<O, S, Q, E, K, G, H>(
            t,
            prepare,
            check,
            asked,
            map,
            Ok(attrs),
        ) implies engine.may_answer::<O, S, Q, E, G>(t, prepare, asked, map, Ok(attrs)) && (
    prepared matches Ok(ready) && call_ensures(check, (&ready,), Ok::<(), K>(()))) by {
        let (found, checked) = choose|found: Result<Beatmap, E>, checked: Result<(), K>|
            {
                &&& call_ensures(prepare, (asked, map), found)
                &&& found matches Ok(ready) ==> call_ensures(check, (&ready,), checked)
                &&& #[trigger] engine.can_answer_checked::<O, S, E, K>(
                    t,
                    *asked,
                    found,
                    checked,
                    Ok(attrs),
                )
            };
        match checked {
            Ok(unit) => {
                assert(unit == ());
                assert(checked == passed);
            },
            Err(_) => {},
        }
    }
    if let Err(refusal) = prepared {
        let error: CalculateError<E, K> = CalculateError::Convert(refusal);
        assert(engine.can_answer_checked::<O, S, E, K>(t, *asked, prepared, passed, Err(error)));
    }
}

} // verus!
