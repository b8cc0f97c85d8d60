//! Engines whose parts answer alike each time, and what follows for the difficulty
//! of a map.
use vstd::prelude::*;

use crate::double::Double;
use crate::lists::values;
use crate::osu::attributes::OsuDifficultyAttributes;
use crate::osu::difficulty::object::OsuDifficultyObject;
use crate::osu::difficulty::setup::{Beatmap, BeatmapAttributes, Difficulty};
use crate::osu::difficulty::summary::SpeedObjectData;
use crate::osu::difficulty::{
    chain, counted, evaluated, finished, follows, links, runs, sets_up, skilled_objects_of,
    summarized, CalculateError, Counted, Course, Engine, LegacyScore,
    ObjectCounts, OsuSkills, SkillCounts, SkillStrains,
};
use crate::query::{GameMods, Table};

verus! {

impl OsuDifficultyAttributes {
    /// Whether two difficulties say the same.
    pub open spec fn alike(self, other: OsuDifficultyAttributes) -> bool {
        &&& self.aim@ == other.aim@
        &&& self.aim_difficult_slider_count@ == other.aim_difficult_slider_count@
        &&& self.speed@ == other.speed@
        &&& self.flashlight@ == other.flashlight@
        &&& self.memory@ == other.memory@
        &&& self.slider_factor@ == other.slider_factor@
        &&& self.aim_top_weighted_slider_factor@ == other.aim_top_weighted_slider_factor@
        &&& self.speed_top_weighted_slider_factor@ == other.speed_top_weighted_slider_factor@
        &&& self.speed_note_count@ == other.speed_note_count@
        &&& self.aim_difficult_strain_count@ == other.aim_difficult_strain_count@
        &&& self.speed_difficult_strain_count@ == other.speed_difficult_strain_count@
        &&& self.nested_score_per_object@ == other.nested_score_per_object@
        &&& self.legacy_score_base_multiplier@ == other.legacy_score_base_multiplier@
        &&& self.maximum_legacy_combo_score@ == other.maximum_legacy_combo_score@
        &&& self.ar@ == other.ar@
        &&& self.od@ == other.od@
        &&& self.hp@ == other.hp@
        &&& self.cs@ == other.cs@
        &&& self.great_hit_window@ == other.great_hit_window@
        &&& self.ok_hit_window@ == other.ok_hit_window@
        &&& self.meh_hit_window@ == other.meh_hit_window@
        &&& self.n_circles == other.n_circles
        &&& self.n_sliders == other.n_sliders
        &&& self.n_large_ticks == other.n_large_ticks
        &&& self.n_spinners == other.n_spinners
        &&& self.n_objects == other.n_objects
        &&& self.stars@ == other.stars@
        &&& self.max_combo == other.max_combo
        &&& self.dominant_tap_bpm@ == other.dominant_tap_bpm@
        &&& self.speed_rework_mult_vanilla@ == other.speed_rework_mult_vanilla@
        &&& self.speed_rework_mult_autopilot@ == other.speed_rework_mult_autopilot@
        &&& values(self.local_sr_per_minute@) == values(other.local_sr_per_minute@)
        &&& values(self.local_autopilot_sr_per_minute@) == values(
            other.local_autopilot_sr_per_minute@,
        )
        &&& values(self.local_aim_per_minute@) == values(other.local_aim_per_minute@)
        &&& values(self.local_bpm_per_minute@) == values(other.local_bpm_per_minute@)
        &&& self.avg_jump_dist@ == other.avg_jump_dist@
        &&& self.median_delta_time@ == other.median_delta_time@
        &&& values(self.rx_chunk_hardness@) == values(other.rx_chunk_hardness@)
        &&& values(self.rx_chunk_avg_delta@) == values(other.rx_chunk_avg_delta@)
        &&& self.consistency_strictness@ == other.consistency_strictness@
        &&& self.density_multiplier@ == other.density_multiplier@
    }
}

impl SkillStrains {
    /// Whether two measurements say the same.
    pub open spec fn alike(self, other: SkillStrains) -> bool {
        &&& values(self.object_strains@) == values(other.object_strains@)
        &&& values(self.aim_peaks@) == values(other.aim_peaks@)
        &&& values(self.speed_peaks@) == values(other.speed_peaks@)
    }
}

impl OsuSkills {
    /// Whether two measurements say the same.
    pub open spec fn alike(self, other: OsuSkills) -> bool {
        &&& self.aim_difficulty_value@ == other.aim_difficulty_value@
        &&& self.aim_difficult_slider_count@ == other.aim_difficult_slider_count@
        &&& self.aim_no_sliders_difficulty_value@ == other.aim_no_sliders_difficulty_value@
        &&& self.speed_difficulty_value@ == other.speed_difficulty_value@
        &&& self.speed_relevant_note_count@ == other.speed_relevant_note_count@
        &&& self.flashlight_difficulty_value@ == other.flashlight_difficulty_value@
    }
}

impl SkillCounts {
    /// Whether two counts say the same.
    pub open spec fn alike(self, other: SkillCounts) -> bool {
        &&& self.aim_strains@ == other.aim_strains@
        &&& self.aim_no_sliders_strains@ == other.aim_no_sliders_strains@
        &&& self.aim_no_sliders_sliders@ == other.aim_no_sliders_sliders@
        &&& self.speed_strains@ == other.speed_strains@
        &&& self.speed_sliders@ == other.speed_sliders@
    }
}

impl LegacyScore {
    /// Whether two scores say the same.
    pub open spec fn alike(self, other: LegacyScore) -> bool {
        &&& self.combo_score == other.combo_score
        &&& self.score_multiplier@ == other.score_multiplier@
        &&& self.nested_score_per_object@ == other.nested_score_per_object@
    }
}

/// Whether the objects of a map are converted to the same each time.
#[verifier::opaque]
pub open spec fn converts_steadily<O, C>(convert: C) -> bool where
    C: Fn(&Beatmap, GameMods, Double, Double, usize) -> (Vec<O>, ObjectCounts),
{
    forall|
        map: &Beatmap,
        mods: GameMods,
        cs: Double,
        p: Double,
        q: Double,
        take: usize,
        x: (Vec<O>, ObjectCounts),
        y: (Vec<O>, ObjectCounts),
    |
        p@ == q@ && #[trigger] call_ensures(convert, (map, mods, cs, p, take), x)
            && #[trigger] call_ensures(convert, (map, mods, cs, q, take), y) ==> x.0@ == y.0@
            && x.1 == y.1
}

/// Whether the same difficulty object is made of the same hit objects each time.
#[verifier::opaque]
pub open spec fn links_steadily<O, N>(new: N) -> bool where
    N: Fn(
        &O,
        &O,
        Option<OsuDifficultyObject>,
        Option<OsuDifficultyObject>,
        Double,
        usize,
        Double,
    ) -> OsuDifficultyObject,
{
    forall|
        h: &O,
        last: &O,
        a: Option<OsuDifficultyObject>,
        b: Option<OsuDifficultyObject>,
        clock: Double,
        i: usize,
        cs: Double,
        x: OsuDifficultyObject,
        y: OsuDifficultyObject,
    |
        #[trigger] call_ensures(new, (h, last, a, b, clock, i, cs), x) && #[trigger] call_ensures(
            new,
            (h, last, a, b, clock, i, cs),
            y,
        ) ==> x == y
}

/// Whether the skills start out the same each time.
#[verifier::opaque]
pub open spec fn starts_steadily<S, B>(new: B) -> bool where
    B: Fn(GameMods, Double, Double, Double) -> S,
{
    forall|
        mods: GameMods,
        cs: Double,
        v: Double,
        w: Double,
        p: Double,
        q: Double,
        x: S,
        y: S,
    |
        v@ == w@ && p@ == q@ && #[trigger] call_ensures(new, (mods, cs, v, p), x)
            && #[trigger] call_ensures(new, (mods, cs, w, q), y) ==> x == y
}

/// Whether the skills take up an object the same way each time.
#[verifier::opaque]
pub open spec fn processes_steadily<S, P>(process: P) -> bool where
    P: Fn(S, OsuDifficultyObject, &Vec<OsuDifficultyObject>) -> S,
{
    forall|
        s: S,
        object: OsuDifficultyObject,
        a: &Vec<OsuDifficultyObject>,
        b: &Vec<OsuDifficultyObject>,
        x: S,
        y: S,
    |
        a@ == b@ && #[trigger] call_ensures(process, (s, object, a), x)
            && #[trigger] call_ensures(process, (s, object, b), y) ==> x == y
}

/// Whether the skills say the same of themselves each time.
#[verifier::opaque]
pub open spec fn measures_steadily<S, R, M, U>(strains: R, measure: M, count: U) -> bool where
    R: Fn(&S) -> SkillStrains,
    M: Fn(&S) -> OsuSkills,
    U: Fn(&S, Counted, Double) -> Double,
{
    &&& forall|s: &S, x: SkillStrains, y: SkillStrains|
        #[trigger] call_ensures(strains, (s,), x) && #[trigger] call_ensures(strains, (s,), y)
            ==> x.alike(y)
    &&& forall|s: &S, x: OsuSkills, y: OsuSkills|
        #[trigger] call_ensures(measure, (s,), x) && #[trigger] call_ensures(measure, (s,), y)
            ==> x.alike(y)
    &&& forall|s: &S, kind: Counted, v: Double, w: Double, x: Double, y: Double|
        v@ == w@ && #[trigger] call_ensures(count, (s, kind, v), x) && #[trigger] call_ensures(
            count,
            (s, kind, w),
            y,
        ) ==> x@ == y@
}

/// Whether the same is said of the tapping of objects each time.
#[verifier::opaque]
pub open spec fn taps_steadily<T, W>(tap_bpm: T, speed_rework: W) -> bool where
    T: Fn(&Vec<Double>, &Vec<SpeedObjectData>, Double) -> Double,
    W: Fn(&Vec<SpeedObjectData>, Double) -> (Double, Double),
{
    &&& forall|
        a: &Vec<Double>,
        b: &Vec<Double>,
        c: &Vec<SpeedObjectData>,
        d: &Vec<SpeedObjectData>,
        v: Double,
        w: Double,
        x: Double,
        y: Double,
    |
        values(a@) == values(b@) && c@ == d@ && v@ == w@ && #[trigger] call_ensures(
            tap_bpm,
            (a, c, v),
            x,
        ) && #[trigger] call_ensures(tap_bpm, (b, d, w), y) ==> x@ == y@
    &&& forall|
        c: &Vec<SpeedObjectData>,
        d: &Vec<SpeedObjectData>,
        v: Double,
        w: Double,
        x: (Double, Double),
        y: (Double, Double),
    |
        c@ == d@ && v@ == w@ && #[trigger] call_ensures(speed_rework, (c, v), x)
            && #[trigger] call_ensures(speed_rework, (d, w), y) ==> x.0@ == y.0@ && x.1@ == y.1@
}

/// Whether a perfect play scores the same each time.
#[verifier::opaque]
pub open spec fn scores_steadily<O, L>(legacy_score: L) -> bool where
    L: Fn(&Vec<O>, &Beatmap, usize) -> LegacyScore,
{
    forall|
        a: &Vec<O>,
        b: &Vec<O>,
        map: &Beatmap,
        take: usize,
        x: LegacyScore,
        y: LegacyScore,
    |
        a@ == b@ && #[trigger] call_ensures(legacy_score, (a, map, take), x)
            && #[trigger] call_ensures(legacy_score, (b, map, take), y) ==> x.alike(y)
}

impl<C, N, B, P, R, M, U, T, W, L> Engine<C, N, B, P, R, M, U, T, W, L> {
    /// Whether every part answers alike each time that it is given the same. A number
    /// counts by its value, and a list by what it holds.
    #[verifier::opaque]
    pub open spec fn steady<O, S>(self) -> bool where
        C: Fn(&Beatmap, GameMods, Double, Double, usize) -> (Vec<O>, ObjectCounts),
        N: Fn(
            &O,
            &O,
            Option<OsuDifficultyObject>,
            Option<OsuDifficultyObject>,
            Double,
            usize,
            Double,
        ) -> OsuDifficultyObject,
        B: Fn(GameMods, Double, Double, Double) -> S,
        P: Fn(S, OsuDifficultyObject, &Vec<OsuDifficultyObject>) -> S,
        R: Fn(&S) -> SkillStrains,
        M: Fn(&S) -> OsuSkills,
        U: Fn(&S, Counted, Double) -> Double,
        T: Fn(&Vec<Double>, &Vec<SpeedObjectData>, Double) -> Double,
        W: Fn(&Vec<SpeedObjectData>, Double) -> (Double, Double),
        L: Fn(&Vec<O>, &Beatmap, usize) -> LegacyScore,
    {
        &&& converts_steadily(self.convert)
        &&& links_steadily(self.new_object)
        &&& starts_steadily(self.new_skills)
        &&& processes_steadily(self.process)
        &&& measures_steadily(self.strains, self.measure, self.count)
        &&& taps_steadily(self.tap_bpm, self.speed_rework)
        &&& scores_steadily(self.legacy_score)
    }
}

/// The first `n` difficulty objects of two chains over the same hit objects are the
/// same.
proof fn lemma_same_links<O, N: Fn(
    &O,
    &O,
    Option<OsuDifficultyObject>,
    Option<OsuDifficultyObject>,
    Double,
    usize,
    Double,
) -> OsuDifficultyObject>(
    new: N,
    hit_objects: Seq<O>,
    take: usize,
    clock_rate: Double,
    cs: Double,
    a: Seq<OsuDifficultyObject>,
    b: Seq<OsuDifficultyObject>,
    n: nat,
)
    requires
        links_steadily(new),
        chain(new, hit_objects, take, clock_rate, cs, a),
        chain(new, hit_objects, take, clock_rate, cs, b),
        n <= a.len(),
    ensures
        forall|i: int| 0 <= i < n ==> a[i] == b[i],
    decreases n,
{
    reveal(links_steadily);
    if n > 0 {
        lemma_same_links(new, hit_objects, take, clock_rate, cs, a, b, (n - 1) as nat);
        assert(links(new, hit_objects, clock_rate, cs, a, n - 1));
        assert(links(new, hit_objects, clock_rate, cs, b, n - 1));
    }
}

/// The first `n` states of two runs over the same objects are the same.
proof fn lemma_same_states<S, P: Fn(S, OsuDifficultyObject, &Vec<OsuDifficultyObject>) -> S>(
    process: P,
    a: &Vec<OsuDifficultyObject>,
    b: &Vec<OsuDifficultyObject>,
    x: Seq<S>,
    y: Seq<S>,
    n: nat,
)
    requires
        processes_steadily(process),
        a@ == b@,
        follows(process, a, x),
        follows(process, b, y),
        x.len() == y.len(),
        x.len() > 0,
        x[0] == y[0],
        n < x.len(),
    ensures
        x[n as int] == y[n as int],
    decreases n,
{
    reveal(processes_steadily);
    if n > 0 {
        lemma_same_states(process, a, b, x, y, (n - 1) as nat);
        assert(call_ensures(process, (x[n - 1], a@[n - 1], a), x[n - 1 + 1]));
        assert(call_ensures(process, (y[n - 1], b@[n - 1], b), y[n - 1 + 1]));
    }
}

/// Two runs over the same objects end the same.
proof fn lemma_same_end<S, P: Fn(S, OsuDifficultyObject, &Vec<OsuDifficultyObject>) -> S>(
    process: P,
    a: &Vec<OsuDifficultyObject>,
    b: &Vec<OsuDifficultyObject>,
    start: S,
    n: nat,
    x: S,
    y: S,
)
    requires
        processes_steadily(process),
        a@ == b@,
        runs(process, a, start, n, x),
        runs(process, b, start, n, y),
    ensures
        x == y,
{
    let p = choose|states: Seq<S>|
        states.len() == n + 1 && states[0] == start && states[n as int] == x && #[trigger] follows(
            process,
            a,
            states,
        );
    let q = choose|states: Seq<S>|
        states.len() == n + 1 && states[0] == start && states[n as int] == y && #[trigger] follows(
            process,
            b,
            states,
        );
    lemma_same_states(process, a, b, p, q, n);
}

/// The tempo of the hardest of the same taps is the same.
proof fn lemma_same_taps<C, N, B, P, R, M, U, T, W, L>(
    engine: Engine<C, N, B, P, R, M, U, T, W, L>,
    p: SkillStrains,
    q: SkillStrains,
    c: &Vec<SpeedObjectData>,
    d: &Vec<SpeedObjectData>,
    v: Double,
    w: Double,
    x: Double,
    y: Double,
) where
    T: Fn(&Vec<Double>, &Vec<SpeedObjectData>, Double) -> Double,
    W: Fn(&Vec<SpeedObjectData>, Double) -> (Double, Double),

    requires
        taps_steadily(engine.tap_bpm, engine.speed_rework),
        p.alike(q),
        c@ == d@,
        v@ == w@,
        engine.taps_at(p, c, v, x),
        engine.taps_at(q, d, w, y),
    ensures
        x@ == y@,
{
    reveal(taps_steadily);
    assert(values(p.object_strains@).len() == p.object_strains@.len());
    assert(values(q.object_strains@).len() == q.object_strains@.len());
}

/// What is known of a map before its objects are looked at is alike each time.
proof fn lemma_same_start(
    map: BeatmapAttributes,
    a: OsuDifficultyAttributes,
    b: OsuDifficultyAttributes,
)
    requires
        a.starts_at(map),
        b.starts_at(map),
    ensures
        a.alike(b),
{
    assert(values(a.local_sr_per_minute@) =~= values(b.local_sr_per_minute@));
    assert(values(a.local_autopilot_sr_per_minute@) =~= values(b.local_autopilot_sr_per_minute@));
    assert(values(a.local_aim_per_minute@) =~= values(b.local_aim_per_minute@));
    assert(values(a.local_bpm_per_minute@) =~= values(b.local_bpm_per_minute@));
    assert(values(a.rx_chunk_hardness@) =~= values(b.rx_chunk_hardness@));
    assert(values(a.rx_chunk_avg_delta@) =~= values(b.rx_chunk_avg_delta@));
}

/// What is said of the same objects together is alike.
proof fn lemma_same_summary(
    t: Table,
    a: OsuDifficultyAttributes,
    b: OsuDifficultyAttributes,
    x: OsuDifficultyAttributes,
    y: OsuDifficultyAttributes,
    objects: Seq<OsuDifficultyObject>,
    p: SkillStrains,
    q: SkillStrains,
    v: Double,
    w: Double,
    c: (Double, Double),
    d: (Double, Double),
)
    requires
        a.alike(b),
        p.alike(q),
        v@ == w@,
        c.0@ == d.0@,
        c.1@ == d.1@,
        summarized(t, a, x, objects, p, v, c),
        summarized(t, b, y, objects, q, w, d),
    ensures
        x.alike(y),
{
}

/// The ratings of the same skills are alike.
proof fn lemma_same_ratings(
    t: Table,
    a: OsuDifficultyAttributes,
    b: OsuDifficultyAttributes,
    x: OsuDifficultyAttributes,
    y: OsuDifficultyAttributes,
    mods: GameMods,
    p: OsuSkills,
    q: OsuSkills,
    m: SkillCounts,
    n: SkillCounts,
)
    requires
        a.alike(b),
        p.alike(q),
        m.alike(n),
        evaluated(t, a, x, mods, p, m),
        evaluated(t, b, y, mods, q, n),
    ensures
        x.alike(y),
{
}

/// The difficulty objects of a map are the same each time.
proof fn lemma_same_objects<O, S, C, N, B, P, R, M, U, T, W, L>(
    engine: Engine<C, N, B, P, R, M, U, T, W, L>,
    t: Table,
    difficulty: Difficulty,
    map: Beatmap,
    a: Course<O, S>,
    b: Course<O, S>,
) where
    C: Fn(&Beatmap, GameMods, Double, Double, usize) -> (Vec<O>, ObjectCounts),
    N: Fn(
        &O,
        &O,
        Option<OsuDifficultyObject>,
        Option<OsuDifficultyObject>,
        Double,
        usize,
        Double,
    ) -> OsuDifficultyObject,
    B: Fn(GameMods, Double, Double, Double) -> S,
    P: Fn(S, OsuDifficultyObject, &Vec<OsuDifficultyObject>) -> S,
    R: Fn(&S) -> SkillStrains,
    M: Fn(&S) -> OsuSkills,
    U: Fn(&S, Counted, Double) -> Double,
    T: Fn(&Vec<Double>, &Vec<SpeedObjectData>, Double) -> Double,
    W: Fn(&Vec<SpeedObjectData>, Double) -> (Double, Double),
    L: Fn(&Vec<O>, &Beatmap, usize) -> LegacyScore,

    requires
        engine.steady::<O, S>(),
        engine.explains(t, a.setup, difficulty, map, a.values, a.steps),
        engine.explains(t, b.setup, difficulty, map, b.values, b.steps),
        sets_up(t, difficulty, map, a.setup),
        sets_up(t, difficulty, map, b.setup),
    ensures
        a.values.osu_objects@ == b.values.osu_objects@,
        a.steps.counts == b.steps.counts,
        a.steps.objects@ == b.steps.objects@,
{
    reveal(Engine::steady);
    reveal(Engine::explains);
    reveal(converts_steadily);
    lemma_same_links(
        engine.new_object,
        a.values.osu_objects@,
        difficulty.passed_objects,
        difficulty.clock_rate,
        map.attributes.cs,
        a.steps.objects@,
        b.steps.objects@,
        a.steps.objects@.len(),
    );
}

/// The skills after a map are the same each time.
proof fn lemma_same_skills<O, S, C, N, B, P, R, M, U, T, W, L>(
    engine: Engine<C, N, B, P, R, M, U, T, W, L>,
    t: Table,
    difficulty: Difficulty,
    map: Beatmap,
    a: Course<O, S>,
    b: Course<O, S>,
) where
    C: Fn(&Beatmap, GameMods, Double, Double, usize) -> (Vec<O>, ObjectCounts),
    N: Fn(
        &O,
        &O,
        Option<OsuDifficultyObject>,
        Option<OsuDifficultyObject>,
        Double,
        usize,
        Double,
    ) -> OsuDifficultyObject,
    B: Fn(GameMods, Double, Double, Double) -> S,
    P: Fn(S, OsuDifficultyObject, &Vec<OsuDifficultyObject>) -> S,
    R: Fn(&S) -> SkillStrains,
    M: Fn(&S) -> OsuSkills,
    U: Fn(&S, Counted, Double) -> Double,
    T: Fn(&Vec<Double>, &Vec<SpeedObjectData>, Double) -> Double,
    W: Fn(&Vec<SpeedObjectData>, Double) -> (Double, Double),
    L: Fn(&Vec<O>, &Beatmap, usize) -> LegacyScore,

    requires
        engine.steady::<O, S>(),
        engine.explains(t, a.setup, difficulty, map, a.values, a.steps),
        engine.explains(t, b.setup, difficulty, map, b.values, b.steps),
        sets_up(t, difficulty, map, a.setup),
        sets_up(t, difficulty, map, b.setup),
        a.steps.objects@ == b.steps.objects@,
    ensures
        a.values.skills == b.values.skills,
{
    reveal(Engine::steady);
    reveal(Engine::explains);
    assert(a.steps.start == b.steps.start) by {
        reveal(starts_steadily);
    }
    lemma_same_end(
        engine.process,
        &a.steps.objects,
        &b.steps.objects,
        a.steps.start,
        skilled_objects_of(map.n_hit_objects, difficulty.passed_objects, a.steps.objects@.len()),
        a.values.skills,
        b.values.skills,
    );
}

/// What the same skills measured is alike.
proof fn lemma_same_measure<O, S, C, N, B, P, R, M, U, T, W, L>(
    engine: Engine<C, N, B, P, R, M, U, T, W, L>,
    t: Table,
    difficulty: Difficulty,
    map: Beatmap,
    a: Course<O, S>,
    b: Course<O, S>,
) where
    C: Fn(&Beatmap, GameMods, Double, Double, usize) -> (Vec<O>, ObjectCounts),
    N: Fn(
        &O,
        &O,
        Option<OsuDifficultyObject>,
        Option<OsuDifficultyObject>,
        Double,
        usize,
        Double,
    ) -> OsuDifficultyObject,
    B: Fn(GameMods, Double, Double, Double) -> S,
    P: Fn(S, OsuDifficultyObject, &Vec<OsuDifficultyObject>) -> S,
    R: Fn(&S) -> SkillStrains,
    M: Fn(&S) -> OsuSkills,
    U: Fn(&S, Counted, Double) -> Double,
    T: Fn(&Vec<Double>, &Vec<SpeedObjectData>, Double) -> Double,
    W: Fn(&Vec<SpeedObjectData>, Double) -> (Double, Double),
    L: Fn(&Vec<O>, &Beatmap, usize) -> LegacyScore,

    requires
        engine.steady::<O, S>(),
        engine.explains(t, a.setup, difficulty, map, a.values, a.steps),
        engine.explains(t, b.setup, difficulty, map, b.values, b.steps),
        sets_up(t, difficulty, map, a.setup),
        sets_up(t, difficulty, map, b.setup),
        a.steps.objects@ == b.steps.objects@,
        a.values.skills == b.values.skills,
    ensures
        a.steps.strains.alike(b.steps.strains),
        a.steps.bpm@ == b.steps.bpm@,
        a.steps.rework.0@ == b.steps.rework.0@,
        a.steps.rework.1@ == b.steps.rework.1@,
{
    reveal(Engine::steady);
    reveal(Engine::explains);
    assert(a.steps.strains.alike(b.steps.strains)) by {
        reveal(measures_steadily);
    }
    assert(a.steps.data@ == b.steps.data@);
    lemma_same_taps(
        engine,
        a.steps.strains,
        b.steps.strains,
        &a.steps.data,
        &b.steps.data,
        a.setup.attrs.dominant_tap_bpm,
        b.setup.attrs.dominant_tap_bpm,
        a.steps.bpm,
        b.steps.bpm,
    );
    reveal(taps_steadily);
}

/// What is found out of a map on the way is alike each time.
proof fn lemma_same_course<O, S, C, N, B, P, R, M, U, T, W, L>(
    engine: Engine<C, N, B, P, R, M, U, T, W, L>,
    t: Table,
    difficulty: Difficulty,
    map: Beatmap,
    a: Course<O, S>,
    b: Course<O, S>,
) where
    C: Fn(&Beatmap, GameMods, Double, Double, usize) -> (Vec<O>, ObjectCounts),
    N: Fn(
        &O,
        &O,
        Option<OsuDifficultyObject>,
        Option<OsuDifficultyObject>,
        Double,
        usize,
        Double,
    ) -> OsuDifficultyObject,
    B: Fn(GameMods, Double, Double, Double) -> S,
    P: Fn(S, OsuDifficultyObject, &Vec<OsuDifficultyObject>) -> S,
    R: Fn(&S) -> SkillStrains,
    M: Fn(&S) -> OsuSkills,
    U: Fn(&S, Counted, Double) -> Double,
    T: Fn(&Vec<Double>, &Vec<SpeedObjectData>, Double) -> Double,
    W: Fn(&Vec<SpeedObjectData>, Double) -> (Double, Double),
    L: Fn(&Vec<O>, &Beatmap, usize) -> LegacyScore,

    requires
        engine.steady::<O, S>(),
        engine.explains(t, a.setup, difficulty, map, a.values, a.steps),
        engine.explains(t, b.setup, difficulty, map, b.values, b.steps),
        sets_up(t, difficulty, map, a.setup),
        sets_up(t, difficulty, map, b.setup),
    ensures
        a.values.osu_objects@ == b.values.osu_objects@,
        a.values.skills == b.values.skills,
        a.values.attrs.alike(b.values.attrs),
{
    lemma_same_objects(engine, t, difficulty, map, a, b);
    lemma_same_skills(engine, t, difficulty, map, a, b);
    lemma_same_measure(engine, t, difficulty, map, a, b);
    let before = counted(a.setup.attrs, a.steps.counts);
    let other = counted(b.setup.attrs, b.steps.counts);
    lemma_same_start(map.attributes, a.setup.attrs, b.setup.attrs);
    assert(summarized(
        t,
        before,
        a.values.attrs,
        a.steps.objects@,
        a.steps.strains,
        a.steps.bpm,
        a.steps.rework,
    ) && summarized(
        t,
        other,
        b.values.attrs,
        b.steps.objects@,
        b.steps.strains,
        b.steps.bpm,
        b.steps.rework,
    )) by {
        reveal(Engine::explains);
    }
    lemma_same_summary(
        t,
        before,
        other,
        a.values.attrs,
        b.values.attrs,
        a.steps.objects@,
        a.steps.strains,
        b.steps.strains,
        a.steps.bpm,
        b.steps.bpm,
        a.steps.rework,
        b.steps.rework,
    );
}

/// An engine whose parts answer alike each time gives one difficulty to a map.
pub proof fn law_a_map_has_one_difficulty<O, S, C, N, B, P, R, M, U, T, W, L>(
    engine: Engine<C, N, B, P, R, M, U, T, W, L>,
    t: Table,
    difficulty: Difficulty,
    map: Beatmap,
    x: OsuDifficultyAttributes,
    y: OsuDifficultyAttributes,
) where
    C: Fn(&Beatmap, GameMods, Double, Double, usize) -> (Vec<O>, ObjectCounts),
    N: Fn(
        &O,
        &O,
        Option<OsuDifficultyObject>,
        Option<OsuDifficultyObject>,
        Double,
        usize,
        Double,
    ) -> OsuDifficultyObject,
    B: Fn(GameMods, Double, Double, Double) -> S,
    P: Fn(S, OsuDifficultyObject, &Vec<OsuDifficultyObject>) -> S,
    R: Fn(&S) -> SkillStrains,
    M: Fn(&S) -> OsuSkills,
    U: Fn(&S, Counted, Double) -> Double,
    T: Fn(&Vec<Double>, &Vec<SpeedObjectData>, Double) -> Double,
    W: Fn(&Vec<SpeedObjectData>, Double) -> (Double, Double),
    L: Fn(&Vec<O>, &Beatmap, usize) -> LegacyScore,

    requires
        engine.steady::<O, S>(),
        engine.can_rate::<O, S>(t, difficulty, map, x),
        engine.can_rate::<O, S>(t, difficulty, map, y),
    ensures
        x.alike(y),
{
    let a = choose|course: Course<O, S>| #[trigger] engine.rates(t, difficulty, map, x, course);
    let b = choose|course: Course<O, S>| #[trigger] engine.rates(t, difficulty, map, y, course);
    reveal(Engine::steady);
    reveal(Engine::rates);
    lemma_same_course(engine, t, difficulty, map, a, b);
    assert(a.skills.alike(b.skills) && a.counts.alike(b.counts)) by {
        reveal(measures_steadily);
    }
    assert(a.score.alike(b.score)) by {
        reveal(scores_steadily);
    }
    lemma_same_finish(t, difficulty, map, x, y, a, b);
}

/// What the same course ends in is alike.
proof fn lemma_same_finish<O, S>(
    t: Table,
    difficulty: Difficulty,
    map: Beatmap,
    x: OsuDifficultyAttributes,
    y: OsuDifficultyAttributes,
    a: Course<O, S>,
    b: Course<O, S>,
)
    requires
        a.values.attrs.alike(b.values.attrs),
        a.skills.alike(b.skills),
        a.counts.alike(b.counts),
        a.score.alike(b.score),
        finished(t, a.values.attrs, x, difficulty, map, a.skills, a.counts, a.score),
        finished(t, b.values.attrs, y, difficulty, map, b.skills, b.counts, b.score),
    ensures
        x.alike(y),
{
    let rated = |before: OsuDifficultyAttributes, after: OsuDifficultyAttributes|
        OsuDifficultyAttributes {
            maximum_legacy_combo_score: before.maximum_legacy_combo_score,
            legacy_score_base_multiplier: before.legacy_score_base_multiplier,
            nested_score_per_object: before.nested_score_per_object,
            cs: before.cs,
            ..after
        };
    lemma_same_ratings(
        t,
        a.values.attrs,
        b.values.attrs,
        rated(a.values.attrs, x),
        rated(b.values.attrs, y),
        difficulty.mods,
        a.skills,
        b.skills,
        a.counts,
        b.counts,
    );
}

/// With an engine, a preparation and a check that answer alike each time: the checked
/// rating of a map is a difficulty exactly where the unchecked one is a difficulty and
/// the map passes the check, and then they are the same difficulty.
pub proof fn law_checked_ratings_are_the_ratings<
    O,
    S,
    Q,
    E,
    K,
    C,
    N,
    B,
    P,
    R,
    M,
    U,
    T,
    W,
    L,
    G: Fn(&Difficulty, &Q) -> Result<Beatmap, E>,
    H: Fn(&Beatmap) -> Result<(), K>,
>(
    engine: Engine<C, N, B, P, R, M, U, T, W, L>,
    t: Table,
    prepare: G,
    check: H,
    asked: &Difficulty,
    map: &Q,
    x: Result<OsuDifficultyAttributes, CalculateError<E, K>>,
    y: Result<OsuDifficultyAttributes, E>,
) where
    C: Fn(&Beatmap, GameMods, Double, Double, usize) -> (Vec<O>, ObjectCounts),
    N: Fn(
        &O,
        &O,
        Option<OsuDifficultyObject>,
        Option<OsuDifficultyObject>,
        Double,
        usize,
        Double,
    ) -> OsuDifficultyObject,
    B: Fn(GameMods, Double, Double, Double) -> S,
    P: Fn(S, OsuDifficultyObject, &Vec<OsuDifficultyObject>) -> S,
    R: Fn(&S) -> SkillStrains,
    M: Fn(&S) -> OsuSkills,
    U: Fn(&S, Counted, Double) -> Double,
    T: Fn(&Vec<Double>, &Vec<SpeedObjectData>, Double) -> Double,
    W: Fn(&Vec<SpeedObjectData>, Double) -> (Double, Double),
    L: Fn(&Vec<O>, &Beatmap, usize) -> LegacyScore,

    requires
        engine.steady::<O, S>(),
        forall|p: Result<Beatmap, E>, q: Result<Beatmap, E>|
            #[trigger] call_ensures(prepare, (asked, map), p) && #[trigger] call_ensures(
                prepare,
                (asked, map),
                q,
            ) ==> p == q,
        forall|ready: &Beatmap, p: Result<(), K>, q: Result<(), K>|
            #[trigger] call_ensures(check, (ready,), p) && #[trigger] call_ensures(
                check,
                (ready,),
                q,
            ) ==> (p is Ok) == (q is Ok),
        engine.may_answer_checked::<O, S, Q, E, K, G, H>(t, prepare, check, asked, map, x),
        engine.may_answer::<O, S, Q, E, G>(t, prepare, asked, map, y),
    ensures
        x is Ok <==> y is Ok && passes(prepare, check, asked, map),
        x is Ok ==> x->Ok_0.alike(y->Ok_0),
{
    let (p, checked) = choose|p: Result<Beatmap, E>, checked: Result<(), K>|
        {
            &&& call_ensures(prepare, (asked, map), p)
            &&& p matches Ok(ready) ==> call_ensures(check, (&ready,), checked)
            &&& #[trigger] engine.can_answer_checked::<O, S, E, K>(t, *asked, p, checked, x)
        };
    let q = choose|q: Result<Beatmap, E>|
        #[trigger] call_ensures(prepare, (asked, map), q) && engine.can_answer::<O, S, E>(
            t,
            *asked,
            q,
            y,
        );
    assert(p == q);
    if let Ok(ready) = p {
        if let Ok(found) = x {
            assert(passed(prepare, check, asked, map, ready, checked));
            law_a_map_has_one_difficulty::<O, S, C, N, B, P, R, M, U, T, W, L>(
                engine,
                t,
                *asked,
                ready,
                found,
                y->Ok_0,
            );
        }
    }
}

/// Whether `ready` is the map made ready, and `checked` an answer of the check to it
/// that lets it pass.
pub open spec fn passed<
    Q,
    E,
    K,
    G: Fn(&Difficulty, &Q) -> Result<Beatmap, E>,
    H: Fn(&Beatmap) -> Result<(), K>,
>(
    prepare: G,
    check: H,
    asked: &Difficulty,
    map: &Q,
    ready: Beatmap,
    checked: Result<(), K>,
) -> bool {
    &&& call_ensures(prepare, (asked, map), Ok::<Beatmap, E>(ready))
    &&& call_ensures(check, (&ready,), checked)
    &&& checked is Ok
}

/// Whether a map passes the check once it is made ready.
pub open spec fn passes<
    Q,
    E,
    K,
    G: Fn(&Difficulty, &Q) -> Result<Beatmap, E>,
    H: Fn(&Beatmap) -> Result<(), K>,
>(prepare: G, check: H, asked: &Difficulty, map: &Q) -> bool {
    exists|ready: Beatmap, checked: Result<(), K>|
        #[trigger] passed(prepare, check, asked, map, ready, checked)
}

} // verus!
