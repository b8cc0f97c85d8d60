use ccv3_pp::double::Double;
use ccv3_pp::osu::difficulty::object::OsuDifficultyObject;
use ccv3_pp::osu::difficulty::skills::consistency::Consistency;
use ccv3_pp::osu::difficulty::skills::density::Density;
use ccv3_pp::osu::difficulty::skills::memory::Memory;
use ccv3_pp::osu::difficulty::summary::chunks;
use ccv3_pp::query::{Math, Query};

fn soft(x: f64) -> Double {
    Double { bits: x.to_bits() }
}

fn hard(x: Double) -> f64 {
    f64::from_bits(x.bits)
}

fn answer(query: Query<Double>) -> Double {
    match query {
        Query::Power { base, exponent } => soft(hard(base).powf(hard(exponent))),
        Query::Ln { x } => soft(hard(x).ln()),
        Query::Distance { from_x, from_y, to_x, to_y } => {
            let (dx, dy) = (hard(to_x) - hard(from_x), hard(to_y) - hard(from_y));
            soft((dx * dx + dy * dy).sqrt())
        }
        _ => soft(0.0),
    }
}

fn object(delta_time: f64, jump: f64, x: f64, y: f64, start_time: f64) -> OsuDifficultyObject {
    OsuDifficultyObject {
        idx: 0,
        start_time: soft(start_time),
        base_start_time: soft(start_time),
        delta_time: soft(delta_time),
        adjusted_delta_time: soft(delta_time.max(25.0)),
        small_circle_bonus: soft(1.0),
        circle_radius: soft(32.0),
        travel_dist: soft(0.0),
        travel_time: soft(0.0),
        lazy_jump_dist: soft(jump),
        min_jump_dist: soft(jump),
        min_jump_time: soft(delta_time),
        angle: None,
        pos_x: soft(x),
        pos_y: soft(y),
        is_slider: false,
        is_spinner: false,
    }
}

#[test]
fn slower_patterns_are_more_strict() {
    let fast = Consistency::object_strictness(soft(80.0), soft(40.0));
    let slow = Consistency::object_strictness(soft(240.0), soft(40.0));

    assert!(hard(slow) > hard(fast));
}

#[test]
fn long_jumps_are_less_strict() {
    let tight = Consistency::object_strictness(soft(240.0), soft(40.0));
    let jump = Consistency::object_strictness(soft(240.0), soft(220.0));

    assert!(hard(jump) < hard(tight));
}

#[test]
fn dense_wide_sections_get_more_than_sparse_wide_sections() {
    let sparse_wide = Density::section_effect(8, soft(300.0), soft(150.0), 0, 0);
    let dense_wide = Density::section_effect(8, soft(75.0), soft(150.0), 0, 0);

    assert!(hard(sparse_wide) > 0.0);
    assert!(hard(dense_wide) > hard(sparse_wide));
}

#[test]
fn dense_close_sections_are_reduced() {
    let effect = Density::section_effect(8, soft(75.0), soft(20.0), 8, 0);

    assert!(hard(effect) < 0.0);
}

#[test]
fn repeated_positions_never_receive_a_bonus() {
    let effect = Density::section_effect(8, soft(300.0), soft(0.0), 8, 8);

    assert!(hard(effect) <= 0.0);
}

#[test]
fn short_maps_have_almost_no_memory_value() {
    let math = Math { ask: answer };
    assert_eq!(hard(Memory::new(false).difficulty(&math)), 0.0);
}

#[test]
fn hidden_long_maps_have_more_memory_value() {
    assert!(hard(Memory::hidden_multiplier(true)) > hard(Memory::hidden_multiplier(false)));
}

#[test]
fn memory_performance_scales_with_play_quality() {
    let math = Math { ask: answer };
    let perfect = Memory::performance_value(
        &math,
        soft(1.0),
        soft(1.0),
        soft(1000.0),
        soft(1000.0),
        soft(0.0),
        soft(1000.0),
    );
    let imperfect = Memory::performance_value(
        &math,
        soft(1.0),
        soft(0.95),
        soft(800.0),
        soft(1000.0),
        soft(2.0),
        soft(1000.0),
    );

    assert!(hard(perfect) > hard(imperfect));
}

#[test]
fn strictness_of_objects() {
    let strictness = |delta: f64, jump: f64| {
        hard(Consistency::object_strictness(soft(delta), soft(jump)))
    };
    assert_eq!(strictness(100.0, 0.0), 0.35);
    assert_eq!(strictness(200.0, 50.0), 0.35 + 0.65 * 0.5);
    assert_eq!(strictness(300.0, 220.0), (0.35 + 0.65) * (1.0 - 0.65));
    let slow: f64 = (240.0 - 100.0) / 200.0;
    let relief = ((160.0 - 100.0) / 120.0) * ((240.0 - 150.0) / 150.0);
    assert_eq!(strictness(240.0, 160.0), (0.35 + 0.65 * slow) * (1.0 - 0.65 * relief));
}

#[test]
fn strictness_of_maps() {
    assert_eq!(hard(Consistency::new().strictness()), 0.5);
    let mut consistency = Consistency::new();
    let objects = [object(100.0, 0.0, 0.0, 0.0, 0.0), object(200.0, 50.0, 0.0, 0.0, 0.0)];
    for item in &objects {
        consistency.process(item, &objects);
    }
    consistency.process(&object(0.0, 50.0, 0.0, 0.0, 0.0), &objects);
    assert_eq!(hard(consistency.strictness()), (0.35 + (0.35 + 0.65 * 0.5)) / 2.0);
}

/// The effect of a section, by levels.
fn effect(n: f64, interval: f64, distance: f64, close: f64, repeated: f64) -> f64 {
    let density = ((1000.0 / interval).clamp(0.0, 20.0) - 2.0) / 8.0;
    let density = density.clamp(0.0, 1.0);
    let speed = ((150.0 - interval) / 100.0).clamp(0.0, 1.0);
    let spacing = ((distance / 100.0 - 0.75) / 1.25).clamp(0.0, 1.0);
    let bonus = spacing * (0.008 + 0.032 * density * speed);
    (bonus - close / n * density * 0.10 - repeated / n * 0.04).clamp(-0.10, 0.10)
}

#[test]
fn effects_of_sections() {
    for (n, interval, distance, close, repeated) in [
        (8, 300.0, 150.0, 0, 0),
        (8, 75.0, 150.0, 1, 0),
        (5, 75.0, 20.0, 5, 3),
        (4, 40.0, 400.0, 0, 0),
        (4, 1.0, 0.0, 4, 4),
    ] {
        assert_eq!(
            hard(Density::section_effect(n, soft(interval), soft(distance), close, repeated)),
            effect(n as f64, interval, distance, close as f64, repeated as f64)
        );
    }
}

#[test]
fn density_of_maps() {
    assert_eq!(hard(Density::new().multiplier()), 1.0);
    let mut density = Density::new();
    let objects = [
        object(100.0, 200.0, 0.0, 0.0, 850.0),
        object(100.0, 40.0, 0.0, 0.0, 950.0),
        object(0.0, 40.0, 0.0, 0.0, 950.0),
        object(200.0, 4.0, 0.0, 0.0, 1250.0),
        object(60.0, 300.0, 0.0, 0.0, 2500.0),
    ];
    for item in &objects {
        density.process(item, &objects);
    }
    let first = effect(2.0, 100.0, 120.0, 1.0, 0.0);
    let second = effect(1.0, 200.0, 4.0, 1.0, 1.0);
    let third = effect(1.0, 60.0, 300.0, 0.0, 0.0);
    let expected = 1.0 + (first * 2.0 + second * 1.0 + third * 1.0) / 4.0;
    assert_eq!(hard(density.multiplier()), expected.clamp(0.90, 1.10));
}

#[test]
fn memory_of_long_maps() {
    let math = Math { ask: answer };
    let mut memory = Memory::new(true);
    let mut complexity = 0.0;
    let mut before: Option<(f64, f64)> = None;
    let n = 600;
    for i in 0..n {
        let delta = 100.0 + (i % 7) as f64 * 40.0;
        let x = ((i * 53) % 400) as f64;
        memory.process(&math, &object(delta, 0.0, x, 0.0, 0.0), &[]);
        if let Some((last_delta, last_x)) = before {
            let rhythm = (delta.max(1.0) / f64::max(last_delta, 1.0)).ln().abs().clamp(0.0, 2.0) / 2.0;
            let movement = (x - last_x).abs();
            complexity += 0.6 * rhythm + 0.4 * (movement / (movement + 80.0)).clamp(0.0, 1.0);
        }
        before = Some((delta, x));
    }
    let length: f64 = (n as f64 - 100.0) / 1900.0;
    let pattern = 1.0 + 0.35 * (complexity / (n as f64 - 1.0)).clamp(0.0, 1.0);
    assert_eq!(hard(memory.difficulty(&math)), length.powf(1.35) * 1.65 * pattern);
}

#[test]
fn memory_is_worth_performance() {
    let math = Math { ask: answer };
    assert_eq!(hard(Memory::difficulty_to_performance(&math, soft(2.0))), 100.0);
    let value = |acc: f64, combo: f64, misses: f64| {
        hard(Memory::performance_value(
            &math,
            soft(1.5),
            soft(acc),
            soft(combo),
            soft(1000.0),
            soft(misses),
            soft(900.0),
        ))
    };
    let base = 25.0 * 1.5_f64.powf(2.0);
    assert_eq!(value(1.0, 1000.0, 0.0), base * 1.0 * 1.0 * 1.0);
    let accuracy = (0.4 + 0.6 * 0.97_f64).powf(1.5);
    let combo = (0.5 + 0.5 * 0.6_f64).powf(0.8);
    let misses = 0.97 * (1.0 - 9.0 / 900.0_f64).powf(0.8);
    assert_eq!(value(0.97, 600.0, 9.0), base * accuracy * combo * misses);
}

#[test]
fn sections_gain_by_width_and_density() {
    let effect = |interval: f64, distance: f64, close: usize, repeated: usize| {
        hard(Density::section_effect(8, soft(interval), soft(distance), close, repeated))
    };
    for pair in [0.0, 60.0, 75.0, 90.0, 140.0, 200.0, 260.0, f64::INFINITY].windows(2) {
        assert!(effect(90.0, pair[0], 3, 1) <= effect(90.0, pair[1], 3, 1));
    }
    for pair in [1.0, 50.0, 75.0, 110.0, 160.0, 400.0, 900.0].windows(2) {
        assert!(effect(pair[1], 180.0, 0, 2) <= effect(pair[0], 180.0, 0, 2));
    }
    for n in 0..8 {
        assert!(effect(90.0, 180.0, n + 1, n) <= effect(90.0, 180.0, n, n));
        assert!(effect(90.0, 180.0, n, n + 1) <= effect(90.0, 180.0, n, n));
    }
}

#[test]
fn four_notes_make_a_chunk() {
    for n in 0..14 {
        let mut objects = vec![object(0.0, 0.0, 0.0, 0.0, 0.0)];
        for i in 0..n {
            objects.push(object(100.0 + i as f64, 0.0, 0.0, 0.0, 0.0));
        }
        let (hardness, avg_delta) = chunks(&objects);
        assert_eq!(hardness.len(), (n + 3) / 4);
        assert_eq!(avg_delta.len(), (n + 3) / 4);
        if n >= 4 {
            assert_eq!(hard(avg_delta[0]), 101.5);
            assert_eq!(hard(hardness[0]), 1.0 / 100.0 + 1.0 / 101.0 + 1.0 / 102.0 + 1.0 / 103.0);
        }
    }
}
