use ccv3_pp::double::Double;
use ccv3_pp::osu::difficulty::object::OsuDifficultyObject;
use ccv3_pp::osu::difficulty::setup::{
    Beatmap, BeatmapAttributes, Difficulty, OsuDifficultySetup,
};
use ccv3_pp::osu::difficulty::summary::SpeedObjectData;
use ccv3_pp::osu::difficulty::{
    calculate_star_rating, checked_difficulty, difficulty, CalculateError, Counted,
    DifficultyValues, Engine, LegacyScore, ObjectCounts, OsuSkills, SkillStrains,
};
use ccv3_pp::query::{GameMods, Math, Query};

fn soft(x: f64) -> Double {
    Double { bits: x.to_bits() }
}

fn hard(x: Double) -> f64 {
    f64::from_bits(x.bits)
}

fn performance(rating: f64) -> f64 {
    (5.0 * (rating / 0.0675).max(1.0) - 4.0).powf(3.0) / 100_000.0
}

fn rating(value: f64) -> f64 {
    value.sqrt() * 0.0675
}

fn answer(query: Query<Double>) -> Double {
    match query {
        Query::Power { base, exponent } => soft(hard(base).powf(hard(exponent))),
        Query::Cbrt { x } => soft(hard(x).cbrt()),
        Query::Log10 { x } => soft(hard(x).log10()),
        Query::Single { x } => soft(f64::from(hard(x) as f32)),
        Query::StrainPerformance { rating } => soft(performance(hard(rating))),
        Query::AimPerformance { rating } => soft(performance(hard(rating))),
        Query::SpeedPerformance { rating } => soft(performance(hard(rating))),
        Query::FlashlightPerformance { rating } => soft(25.0 * hard(rating) * hard(rating)),
        Query::DifficultyRating { difficulty_value } => soft(rating(hard(difficulty_value))),
        Query::AimRating { of } => {
            soft(rating(hard(of.difficulty_value)) * hard(of.slider_factor) + hard(of.ar) * 0.01)
        }
        Query::SpeedRating { of } => {
            soft(rating(hard(of.difficulty_value)) + hard(of.od) * 0.01 + of.n_objects as f64 * 0.001)
        }
        Query::FlashlightRating { of } => {
            soft(rating(hard(of.difficulty_value)) + hard(of.mechanical_difficulty_rating) * 0.1)
        }
        _ => soft(0.0),
    }
}

const NO_MODS: GameMods = GameMods {
    nf: false,
    ez: false,
    td: false,
    hd: false,
    rx: false,
    ap: false,
    fl: false,
    so: false,
    bl: false,
    tc: false,
    mr: false,
};

fn map(n: usize) -> Beatmap {
    Beatmap {
        n_hit_objects: n,
        attributes: BeatmapAttributes {
            ar: soft(9.0),
            od: soft(8.0),
            cs: soft(4.2),
            hp: soft(5.0),
            ar_window: Some(soft(600.1)),
            od_great: Some(soft(32.0)),
            od_ok: None,
            od_meh: Some(soft(120.0)),
        },
    }
}

fn asked(passed_objects: usize) -> Difficulty {
    Difficulty { mods: NO_MODS, passed_objects, clock_rate: soft(1.5) }
}

/// Hit objects stand for their times.
fn convert(
    map: &Beatmap,
    _mods: GameMods,
    _cs: Double,
    _preempt: Double,
    take: usize,
) -> (Vec<f64>, ObjectCounts) {
    let n = map.n_hit_objects;
    let counts = ObjectCounts {
        n_circles: n as u32,
        n_sliders: 1,
        n_large_ticks: 2,
        n_spinners: 3,
        n_objects: n.min(take) as u32,
        max_combo: 2 * n as u32,
    };
    ((0..n).map(|i| (i * i) as f64 * 10.0).collect(), counts)
}

fn new_object(
    time: &f64,
    last: &f64,
    before: Option<OsuDifficultyObject>,
    before_that: Option<OsuDifficultyObject>,
    clock_rate: Double,
    idx: usize,
    cs: Double,
) -> OsuDifficultyObject {
    assert_eq!(before.is_some(), idx > 0);
    assert_eq!(before_that.is_some(), idx > 1);
    if let Some(before) = before {
        assert_eq!(before.idx, idx - 1);
    }
    if let Some(before_that) = before_that {
        assert_eq!(before_that.idx, idx - 2);
    }
    let delta = (time - last) / hard(clock_rate);
    OsuDifficultyObject {
        idx,
        start_time: soft(time / hard(clock_rate)),
        base_start_time: soft(*time),
        delta_time: soft(delta),
        adjusted_delta_time: soft(delta.max(25.0)),
        small_circle_bonus: soft(1.0),
        circle_radius: cs,
        travel_dist: soft(0.0),
        travel_time: soft(0.0),
        lazy_jump_dist: soft(if idx % 2 == 0 { 100.0 + idx as f64 } else { 0.0 }),
        min_jump_dist: soft(0.0),
        min_jump_time: soft(0.0),
        angle: None,
        pos_x: soft(idx as f64),
        pos_y: soft(2.0),
        is_slider: false,
        is_spinner: false,
    }
}

/// Skills that count what they take up.
fn new_skills(_mods: GameMods, cs: Double, window: Double, preempt: Double) -> Vec<f64> {
    assert_eq!((hard(cs), hard(window)), (4.2, 32.0));
    assert_eq!(hard(preempt), f64::from((600.1_f64 * 1.5) as f32));
    Vec::new()
}

fn process(
    mut skills: Vec<f64>,
    object: OsuDifficultyObject,
    objects: &Vec<OsuDifficultyObject>,
) -> Vec<f64> {
    assert!(object.idx < objects.len());
    skills.push(hard(object.delta_time));
    skills
}

fn strains(skills: &Vec<f64>) -> SkillStrains {
    let list: Vec<Double> = skills.iter().map(|x| soft(*x)).collect();
    SkillStrains { object_strains: list.clone(), aim_peaks: list.clone(), speed_peaks: list }
}

fn measure(skills: &Vec<f64>) -> OsuSkills {
    let sum: f64 = skills.iter().sum();
    OsuSkills {
        aim_difficulty_value: soft(sum),
        aim_difficult_slider_count: soft(12.0),
        aim_no_sliders_difficulty_value: soft(sum * 0.9),
        speed_difficulty_value: soft(sum * 0.5),
        speed_relevant_note_count: soft(77.0),
        flashlight_difficulty_value: soft(sum * 0.1),
    }
}

/// Each count is asked of the value of the skill that it counts.
fn count(skills: &Vec<f64>, kind: Counted, value: Double) -> Double {
    let sum: f64 = skills.iter().sum();
    let (own, counted) = match kind {
        Counted::AimStrains => (sum, 11.0),
        Counted::AimNoSlidersStrains => (sum * 0.9, 15.0),
        Counted::AimNoSlidersSliders => (sum * 0.9, 3.0),
        Counted::SpeedStrains => (sum * 0.5, 4.5),
        Counted::SpeedSliders => (sum * 0.5, 4.0),
    };
    assert_eq!(hard(value), own);
    soft(counted)
}

fn tap_bpm(strains: &Vec<Double>, data: &Vec<SpeedObjectData>, share: Double) -> Double {
    assert_eq!(hard(share), 0.10);
    soft((strains.len() + 100 * data.len()) as f64)
}

fn speed_rework(data: &Vec<SpeedObjectData>, bpm: Double) -> (Double, Double) {
    (soft(hard(bpm) + 0.5), soft(data.len() as f64))
}

fn legacy_score(objects: &Vec<f64>, map: &Beatmap, take: usize) -> LegacyScore {
    assert_eq!(objects.len(), map.n_hit_objects);
    LegacyScore {
        combo_score: 4_000_000_000,
        score_multiplier: soft(take as f64),
        nested_score_per_object: soft(3.25),
    }
}

fn stars(performance: f64) -> f64 {
    if performance <= 0.00001 {
        0.0
    } else {
        0.92_f64.cbrt()
            * 0.0265
            * ((100_000.0 / 2.0_f64.powf(1.0 / 1.1) * performance).cbrt() + 4.0)
    }
}

fn rate(
    n: usize,
    take: usize,
    mods: GameMods,
) -> ccv3_pp::osu::attributes::OsuDifficultyAttributes {
    let math = Math { ask: answer };
    let engine = Engine {
        convert,
        new_object,
        new_skills,
        process,
        strains,
        measure,
        count,
        tap_bpm,
        speed_rework,
        legacy_score,
    };
    let asked = Difficulty { mods, ..asked(take) };
    let prepare = |_: &Difficulty, n: &usize| -> Result<Beatmap, String> { Ok(map(*n)) };
    difficulty(&math, &engine, &prepare, &asked, &n).unwrap()
}

#[test]
fn maps_are_rated() {
    let mods = GameMods { fl: true, ..NO_MODS };
    let attrs = rate(10, 100, mods);
    // The times between the objects: 10 (2 i + 1) at a rate of 1.5.
    let deltas: Vec<f64> =
        (0..9).map(|i| (((i + 1) * (i + 1)) as f64 * 10.0 - (i * i) as f64 * 10.0) / 1.5).collect();
    let sum: f64 = deltas.iter().sum();
    let slider = rating(sum * 0.9) / rating(sum);
    let aim = rating(sum) * slider + 9.0 * 0.01;
    let speed = rating(sum * 0.5) + 8.0 * 0.01 + 10.0 * 0.001;
    let mechanical = stars(
        (performance(rating(sum)).powf(1.1) + performance(rating(sum * 0.5)).powf(1.1))
            .powf(1.0 / 1.1),
    );
    let flashlight = rating(sum * 0.1) + mechanical * 0.1;
    assert_eq!(hard(attrs.slider_factor), slider);
    assert_eq!(hard(attrs.aim), aim);
    assert_eq!(hard(attrs.speed), speed);
    assert_eq!(hard(attrs.flashlight), flashlight);
    let base = (performance(aim).powf(1.1)
        + performance(speed).powf(1.1)
        + (25.0 * flashlight * flashlight).powf(1.1))
    .powf(1.0 / 1.1);
    assert_eq!(hard(attrs.stars), stars(base));
    assert_eq!(hard(attrs.aim_top_weighted_slider_factor), 3.0 / 12.0);
    assert_eq!(hard(attrs.speed_top_weighted_slider_factor), 4.0 / 1.0);
    assert_eq!(hard(attrs.aim_difficult_strain_count), 11.0);
    assert_eq!(hard(attrs.aim_difficult_slider_count), 12.0);
    assert_eq!(hard(attrs.speed_note_count), 77.0);
    assert_eq!(hard(attrs.maximum_legacy_combo_score), 4_000_000_000.0);
    assert_eq!(hard(attrs.legacy_score_base_multiplier), 100.0);
    assert_eq!(hard(attrs.nested_score_per_object), 3.25);
    assert_eq!(hard(attrs.cs), 4.2);
    assert_eq!((attrs.n_circles, attrs.n_objects, attrs.max_combo), (10, 10, 20));
    assert_eq!(hard(attrs.great_hit_window), 32.0);
    assert_eq!(hard(attrs.ok_hit_window), 0.0);
    assert_eq!(hard(attrs.dominant_tap_bpm), 909.0);
    assert_eq!(hard(attrs.speed_rework_mult_vanilla), 909.5);
    assert_eq!(hard(attrs.speed_rework_mult_autopilot), 9.0);
    assert_eq!(hard(attrs.avg_jump_dist), (100.0 + 102.0 + 104.0 + 106.0 + 108.0) / 5.0);
    assert_eq!(hard(attrs.median_delta_time), deltas[4]);
    let hardness: Vec<f64> = attrs.rx_chunk_hardness.iter().map(|x| hard(*x)).collect();
    let chunk = |list: &[f64]| list.iter().fold(0.0, |sum, x| sum + 1.0 / x);
    assert_eq!(hardness, vec![chunk(&deltas[0..4]), chunk(&deltas[4..8]), chunk(&deltas[8..])]);
    let means: Vec<f64> = attrs.rx_chunk_avg_delta.iter().map(|x| hard(*x)).collect();
    assert_eq!(
        means,
        vec![
            deltas[0..4].iter().sum::<f64>() / 4.0,
            deltas[4..8].iter().sum::<f64>() / 4.0,
            deltas[8]
        ]
    );
    assert_eq!(attrs.local_bpm_per_minute.len(), 1);
    assert_eq!(attrs.local_sr_per_minute.len(), 1);
    assert_eq!(attrs.local_aim_per_minute.len(), 1);
    assert_eq!(attrs.local_autopilot_sr_per_minute.len(), 1);
}

#[test]
fn passed_objects_limit_the_skills() {
    let attrs = rate(10, 4, NO_MODS);
    // Three objects are taken up, and all are summed up.
    assert_eq!(hard(attrs.dominant_tap_bpm), 903.0);
    assert_eq!(hard(attrs.flashlight), 0.0);
    let attrs = rate(10, 0, NO_MODS);
    assert_eq!(hard(attrs.dominant_tap_bpm), 0.0);
    assert_eq!(hard(attrs.avg_jump_dist), 0.0);
    assert_eq!(hard(attrs.median_delta_time), 0.0);
    assert_eq!(hard(attrs.slider_factor), 1.0);
    let attrs = rate(0, 10, NO_MODS);
    assert!(attrs.rx_chunk_hardness.is_empty());
    let attrs = rate(3, 10, NO_MODS);
    let deltas = [10.0 / 1.5, 30.0 / 1.5];
    assert_eq!(hard(attrs.median_delta_time), (deltas[0] + deltas[1]) / 2.0);
}

#[test]
fn difficulty_objects_follow_the_hit_objects() {
    let objects = vec![0.0, 100.0, 250.0];
    let list = DifficultyValues::<f64, Vec<f64>>::create_difficulty_objects(
        &asked(9),
        soft(4.2),
        &objects,
        &new_object,
    );
    assert_eq!(list.len(), 2);
    assert_eq!(hard(list[1].delta_time), 100.0);
    let list = DifficultyValues::<f64, Vec<f64>>::create_difficulty_objects(
        &asked(0),
        soft(4.2),
        &objects,
        &new_object,
    );
    assert!(list.is_empty());
}

#[test]
fn maps_can_be_refused() {
    let math = Math { ask: answer };
    let engine = Engine {
        convert,
        new_object,
        new_skills,
        process,
        strains,
        measure,
        count,
        tap_bpm,
        speed_rework,
        legacy_score,
    };
    let prepare = |_: &Difficulty, n: &usize| {
        if *n > 1000 {
            Err("mode")
        } else {
            Ok(map(*n))
        }
    };
    let check = |map: &Beatmap| if map.n_hit_objects > 20 { Err(7) } else { Ok(()) };
    let r = checked_difficulty(&math, &engine, &prepare, &check, &asked(9), &10);
    assert_eq!(r.map(|attrs| attrs.n_circles).ok(), Some(10));
    let r = checked_difficulty(&math, &engine, &prepare, &check, &asked(9), &30);
    assert!(matches!(r, Err(CalculateError::Suspicion(7))));
    let r = checked_difficulty(&math, &engine, &prepare, &check, &asked(9), &3000);
    assert!(matches!(r, Err(CalculateError::Convert("mode"))));
    let r = difficulty(&math, &engine, &prepare, &asked(9), &3000);
    assert!(matches!(r, Err("mode")));
    let checked = checked_difficulty(&math, &engine, &prepare, &check, &asked(9), &10).unwrap();
    let unchecked = difficulty(&math, &engine, &prepare, &asked(9), &10).unwrap();
    assert_eq!(format!("{:?}", checked), format!("{:?}", unchecked));
    assert!(difficulty(&math, &engine, &prepare, &asked(9), &30).is_ok());
}

#[test]
fn setups_start_from_the_map() {
    let math = Math { ask: answer };
    let setup = OsuDifficultySetup::new(&math, &asked(9), &map(5));
    assert_eq!(hard(setup.time_preempt), f64::from((600.1_f64 * 1.5) as f32));
    assert_eq!((hard(setup.attrs.ar), hard(setup.attrs.hp)), (9.0, 5.0));
    assert_eq!(hard(setup.attrs.meh_hit_window), 120.0);
    assert_eq!(hard(setup.attrs.stars), 0.0);
}

#[test]
fn tiny_performances_have_no_stars() {
    let math = Math { ask: answer };
    assert_eq!(hard(calculate_star_rating(&math, soft(0.00001))), 0.0);
    assert_eq!(hard(calculate_star_rating(&math, soft(12.5))), stars(12.5));
}

#[test]
fn maps_have_one_difficulty() {
    let mods = GameMods { fl: true, ..NO_MODS };
    assert_eq!(format!("{:?}", rate(12, 9, mods)), format!("{:?}", rate(12, 9, mods)));
    assert_ne!(format!("{:?}", rate(12, 9, mods)), format!("{:?}", rate(13, 9, mods)));
}
