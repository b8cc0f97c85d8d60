use ccv3_pp::double::Double;
use ccv3_pp::osu::difficulty::evaluators::{AimEvaluator, AimRxEvaluator};
use ccv3_pp::osu::difficulty::object::OsuDifficultyObject;
use ccv3_pp::query::{Math, Query};

fn soft(x: f64) -> Double {
    Double { bits: x.to_bits() }
}

fn hard(x: Double) -> f64 {
    f64::from_bits(x.bits)
}

fn share(x: f64, start: f64, end: f64) -> f64 {
    ((x - start) / (end - start)).clamp(0.0, 1.0)
}

fn step(x: f64, start: f64, end: f64) -> f64 {
    let t = share(x, start, end);
    t * t * (3.0 - 2.0 * t)
}

fn smoother(x: f64, start: f64, end: f64) -> f64 {
    let t = share(x, start, end);
    t * t * t * (t * (6.0 * t - 15.0) + 10.0)
}

fn tempo(ms: f64, delimiter: Option<u32>) -> f64 {
    60_000.0 / (ms * f64::from(delimiter.unwrap_or(4)))
}

fn distance(from: (f64, f64), to: (f64, f64)) -> f32 {
    let (x, y) = (from.0 as f32 - to.0 as f32, from.1 as f32 - to.1 as f32);
    ((x * x + y * y) as f64).sqrt() as f32
}

fn answer(query: Query<Double>) -> Double {
    let yes = |x: bool| soft(if x { 1.0 } else { 0.0 });
    match query {
        Query::Power { base, exponent } => soft(hard(base).powf(hard(exponent))),
        Query::Exp { x } => soft(hard(x).exp()),
        Query::Smoothstep { x, start, end } => soft(step(hard(x), hard(start), hard(end))),
        Query::Smootherstep { x, start, end } => soft(smoother(hard(x), hard(start), hard(end))),
        Query::ReverseLerp { x, start, end } => soft(share(hard(x), hard(start), hard(end))),
        Query::MillisecondsToBpm { ms, delimiter } => soft(tempo(hard(ms), delimiter)),
        Query::Distance { from_x, from_y, to_x, to_y } => {
            soft(f64::from(distance((hard(from_x), hard(from_y)), (hard(to_x), hard(to_y)))))
        }
        Query::ShortOfOne { distance } => soft(f64::from(1.0 - hard(distance) as f32)),
        Query::Differs { a, b } => yes((hard(a) - hard(b)).abs() > f64::EPSILON),
        Query::Same { a, b } => yes((hard(a) - hard(b)).abs() <= f64::EPSILON),
        _ => soft(0.0),
    }
}

/// An object in hardware numbers.
#[derive(Clone, Copy)]
struct Note {
    time: f64,
    jump: f64,
    least_jump: f64,
    least_time: f64,
    travel: f64,
    travel_time: f64,
    angle: Option<f64>,
    radius: f64,
    small: f64,
    x: f64,
    y: f64,
    slider: bool,
    spinner: bool,
}

fn objects(notes: &[Note]) -> Vec<OsuDifficultyObject> {
    notes
        .iter()
        .enumerate()
        .map(|(idx, note)| OsuDifficultyObject {
            idx,
            start_time: soft(0.0),
            base_start_time: soft(0.0),
            delta_time: soft(note.time),
            adjusted_delta_time: soft(note.time),
            small_circle_bonus: soft(note.small),
            circle_radius: soft(note.radius),
            travel_dist: soft(note.travel),
            travel_time: soft(note.travel_time),
            lazy_jump_dist: soft(note.jump),
            min_jump_dist: soft(note.least_jump),
            min_jump_time: soft(note.least_time),
            angle: note.angle.map(soft),
            pos_x: soft(note.x),
            pos_y: soft(note.y),
            is_slider: note.slider,
            is_spinner: note.spinner,
        })
        .collect()
}

/// The note at a place and the ones before it, the nearest first.
fn trail(notes: &[Note], i: usize, window: usize) -> Vec<Note> {
    (0..=window.min(i)).map(|back| notes[i - back]).collect()
}

fn mean_and_spread(list: &[f64]) -> (f64, f64) {
    let mean = list.iter().sum::<f64>() / list.len() as f64;
    let squares = list.iter().map(|x| (x - mean) * (x - mean)).sum::<f64>();
    (mean, (squares / list.len() as f64).sqrt())
}

fn statistics(list: &[f64], least: usize) -> (f64, f64, usize) {
    if list.len() < least {
        (0.0, 0.0, list.len())
    } else {
        let (mean, spread) = mean_and_spread(list);
        (mean, spread, list.len())
    }
}

fn angles(notes: &[Note], i: usize, window: usize) -> Vec<f64> {
    trail(notes, i, window).iter().filter_map(|note| note.angle).collect()
}

fn angle_stats(notes: &[Note], i: usize, window: usize) -> (f64, f64, usize) {
    statistics(&angles(notes, i, window), 3)
}

fn jump_stats(notes: &[Note], i: usize, window: usize) -> (f64, f64, usize) {
    let list: Vec<f64> = trail(notes, i, window).iter().map(|note| note.jump).collect();
    statistics(&list, 2)
}

fn speed_stats(notes: &[Note], i: usize, window: usize) -> (f64, f64, usize) {
    let list: Vec<f64> = trail(notes, i, window)
        .iter()
        .filter(|note| note.time > 0.0)
        .map(|note| note.jump / note.time)
        .collect();
    statistics(&list, 2)
}

fn time_stats(notes: &[Note], i: usize, window: usize) -> (f64, f64, usize) {
    let list: Vec<f64> =
        trail(notes, i, window).iter().map(|note| note.time).filter(|time| *time > 0.0).collect();
    statistics(&list, 2)
}

fn alternation(notes: &[Note], i: usize, window: usize) -> f64 {
    let list = angles(notes, i, window);
    if list.len() < 4 {
        return 0.0;
    }
    let evens: Vec<f64> = list.iter().step_by(2).copied().collect();
    let odds: Vec<f64> = list.iter().skip(1).step_by(2).copied().collect();
    let (even, even_spread) = mean_and_spread(&evens);
    let (odd, odd_spread) = mean_and_spread(&odds);
    if even_spread < 0.25 && odd_spread < 0.25 && (even - odd).abs() > 0.3 {
        let tight = 1.0 - ((even_spread + odd_spread) / 0.50).clamp(0.0, 1.0);
        tight * ((even - odd).abs() / std::f64::consts::PI).clamp(0.0, 1.0)
    } else {
        0.0
    }
}

fn wide_of(angle: f64) -> f64 {
    step(angle, 40.0_f64.to_radians(), 140.0_f64.to_radians())
}

fn acute_of(angle: f64) -> f64 {
    step(angle, 140.0_f64.to_radians(), 40.0_f64.to_radians())
}

/// The speed into a note that follows another.
fn speed(note: Note, last: Note, sliders: bool) -> f64 {
    let mut speed = note.jump / note.time;
    if last.slider && sliders {
        speed = speed.max(note.least_jump / note.least_time + last.travel / last.travel_time);
    }
    speed
}

fn acute_bonus(curr: Note, last: Note, angle: f64, last_angle: f64, base: f64) -> f64 {
    if curr.time.max(last.time) < 1.25 * curr.time.min(last.time) {
        let raw = acute_of(angle);
        let fresh = raw * (0.08 + 0.92 * (1.0 - raw.min(acute_of(last_angle).powf(3.0))));
        fresh
            * (base
                * smoother(tempo(curr.time, Some(2)), 300.0, 400.0)
                * smoother(curr.jump, 100.0, 200.0))
    } else {
        0.0
    }
}

fn wiggle_bonus(curr: Note, last: Note, angle: f64, last_angle: f64, base: f64) -> f64 {
    let (from, to) = (110.0_f64.to_radians(), 60.0_f64.to_radians());
    base * smoother(curr.jump, 50.0, 100.0)
        * share(curr.jump, 300.0, 100.0).powf(1.8)
        * smoother(angle, from, to)
        * smoother(last.jump, 50.0, 100.0)
        * share(last.jump, 300.0, 100.0).powf(1.8)
        * smoother(last_angle, from, to)
}

fn change_bonus(curr: Note, last: Note, last_last: Note, speeds: (f64, f64)) -> f64 {
    if speeds.0.max(speeds.1).abs() <= f64::EPSILON {
        return 0.0;
    }
    let before = (last.jump + last_last.travel) / last.time;
    let now = (curr.jump + last.travel) / curr.time;
    let change = (before - now).abs();
    let ratio = step(change / before.max(now), 0.0, 1.0);
    let overlap = (100.0 * 1.25 / curr.time.min(last.time)).min(change);
    overlap * ratio * (curr.time.min(last.time) / curr.time.max(last.time)).powf(2.0)
}

/// What returning to the same spot leaves of a bonus.
fn on_return(notes: &[Note], i: usize, bonus: f64) -> f64 {
    if i >= 3 {
        let (a, b) = (notes[i - 3], notes[i - 1]);
        let distance = distance((a.x, a.y), (b.x, b.y));
        if distance < 1.0 {
            return bonus * (1.0 - 0.35 * f64::from(1.0 - distance));
        }
    }
    bonus
}

fn uniformity(spread: f64, scale: f64) -> f64 {
    (1.0 - (spread / scale).clamp(0.0, 1.0)).max(0.0)
}

fn alternating(notes: &[Note], i: usize, strength: f64, bpm: f64, from: f64, over: f64) -> f64 {
    let (mean, spread, n) = jump_stats(notes, i, 8);
    let cv = if mean > 0.0 && n >= 3 { spread / mean } else { 1.0 };
    strength * uniformity(cv, 0.20) * (1.0 - ((bpm - from) / over).clamp(0.0, 1.0))
}

fn constant(notes: &[Note], i: usize) -> Option<f64> {
    let (_, angle_spread, angle_n) = angle_stats(notes, i, 8);
    let (jump, jump_spread, jump_n) = jump_stats(notes, i, 8);
    let (speed, speed_spread, speed_n) = speed_stats(notes, i, 8);
    if angle_n < 4 || jump_n < 4 || speed_n < 4 {
        return None;
    }
    let jump_cv = if jump > 0.0 { jump_spread / jump } else { 1.0 };
    let speed_cv = if speed > 0.0 { speed_spread / speed } else { 1.0 };
    Some(uniformity(angle_spread, 0.3) * uniformity(jump_cv, 0.15) * uniformity(speed_cv, 0.15))
}

fn aim(notes: &[Note], i: usize, sliders: bool) -> f64 {
    if i < 2 || notes[i].spinner || notes[i - 1].spinner {
        return 0.0;
    }
    let (curr, last, last_last) = (notes[i], notes[i - 1], notes[i - 2]);
    let (now, before) = (speed(curr, last, sliders), speed(last, last_last, sliders));
    let bpm = 30_000.0 / curr.time;
    let (mut wide, mut acute, mut wiggle) = (0.0, 0.0, 0.0);
    if let (Some(angle), Some(last_angle)) = (curr.angle, last.angle) {
        let base = now.min(before);
        acute = acute_bonus(curr, last, angle, last_angle, base);
        let fast = ((bpm - 410.0) / 90.0).clamp(0.0, 1.0);
        let (_, spread, n) = angle_stats(notes, i, 8);
        let repeated = 1.0 - if n >= 3 { (spread / 1.2).clamp(0.0, 1.0) } else { 1.0 };
        let same = wide_of(angle).min(wide_of(last_angle).powf(3.0));
        let penalty = (repeated * 0.7 + same * 0.3) * (1.0 - fast);
        wide = wide_of(angle)
            * (base
                * smoother(curr.jump, 0.0, 100.0)
                * (1.0 - penalty + fast * 0.15).max(0.0));
        let same = acute.min(acute_of(last_angle).powf(3.0));
        let penalty = (repeated * 0.5 + same * 0.5) * (1.0 - fast);
        acute *= (0.5 + 0.5 * (1.0 - penalty) + fast * 0.10).max(0.0);
        wiggle = wiggle_bonus(curr, last, angle, last_angle, base);
        wide = on_return(notes, i, wide);
    }
    let mut strain = now + wiggle * 0.81;
    strain += change_bonus(curr, last, last_last, (before, now)) * 0.80;
    strain += (acute * 0.85).max(wide * 1.0);
    strain *= curr.small;
    if sliders && last.slider {
        strain += last.travel / last.travel_time * 0.70;
    }
    let strength = alternation(notes, i, 8);
    if strength > 0.1 {
        strain *= 0.87 - 0.22 * alternating(notes, i, strength, bpm, 300.0, 200.0);
    }
    let slop = match constant(notes, i) {
        Some(severity) => 0.22 * severity * (1.0 - ((bpm - 400.0) / 150.0).clamp(0.0, 1.0)),
        None => 0.0,
    };
    strain * (0.87 - slop) * 0.60
}

fn is_farm(notes: &[Note], i: usize) -> bool {
    let (_, angle_spread, angle_n) = angle_stats(notes, i, 4);
    let (jump, jump_spread, jump_n) = jump_stats(notes, i, 4);
    let (speed, speed_spread, speed_n) = speed_stats(notes, i, 4);
    let even = i > 0 && {
        let (a, b) = (notes[i].jump, notes[i - 1].jump);
        a.max(b) > 80.0 && (a.max(b) - a.min(b)) / a.max(b) < 0.20
    };
    alternation(notes, i, 4) > 0.07
        || (angle_n >= 3 && angle_spread < 0.30)
        || (jump_n >= 3 && jump > 0.0 && jump_spread / jump < 0.16)
        || (speed_n >= 3 && speed > 0.0 && speed_spread / speed < 0.16)
        || even
}

fn streak(i: usize, window: usize, holds: &dyn Fn(usize) -> bool) -> usize {
    (0..window).take_while(|back| *back <= i && holds(i - back)).count()
}

fn flow(notes: &[Note], i: usize) -> f64 {
    let (mean, spread, n) = angle_stats(notes, i, 8);
    if n < 4 || mean < 2.0 || spread > 0.3 {
        return 0.0;
    }
    let even = 1.0 - spread / 0.3;
    let turn = ((mean - 2.0) / (std::f64::consts::PI - 2.0)).clamp(0.0, 1.0);
    let (jump, _, jumps) = jump_stats(notes, i, 8);
    let close = if jumps < 3 {
        0.5
    } else if jump <= 50.0 {
        1.0
    } else if jump >= 97.0 {
        0.0
    } else {
        1.0 - (jump - 50.0) / (97.0 - 50.0)
    };
    0.50 * (even * even * turn * close)
}

fn relax_aim(notes: &[Note], i: usize, sliders: bool) -> f64 {
    if i < 2 || notes[i].spinner || notes[i - 1].spinner {
        return 0.0;
    }
    let (curr, last, last_last) = (notes[i], notes[i - 1], notes[i - 2]);
    let (now, before) = (speed(curr, last, sliders), speed(last, last_last, sliders));
    let bpm = 30_000.0 / curr.time;
    let (mut wide, mut acute, mut wiggle) = (0.0, 0.0, 0.0);
    if let (Some(angle), Some(last_angle)) = (curr.angle, last.angle) {
        let base = now.min(before);
        acute = acute_bonus(curr, last, angle, last_angle, base);
        let (_, spread, n) = angle_stats(notes, i, 8);
        let repeated = 1.0 - if n >= 3 { (spread / 1.2).clamp(0.0, 1.0) } else { 1.0 };
        wide = wide_of(angle)
            * (base * smoother(curr.jump, 0.0, 100.0) * (1.0 - repeated * 0.25).max(0.0));
        wiggle = wiggle_bonus(curr, last, angle, last_angle, base);
        wide = on_return(notes, i, wide);
    }
    let mut strain = now + wiggle * 0.81;
    strain += change_bonus(curr, last, last_last, (before, now)) * 0.85;
    strain += (acute * 1.0).max(wide * 1.15);
    strain *= curr.small;
    if sliders && last.slider {
        let speed = last.travel / last.travel_time;
        let taper = if speed < 0.55 { 0.55 + 0.45 * (speed / 0.55).clamp(0.0, 1.0) } else { 1.0 };
        strain += speed * taper * 0.55;
    }

    let close = streak(i, 6, &|k| notes[k].jump <= 112.0) >= 6;
    let strength = alternation(notes, i, 8);
    let zigzag = if close && strength > 0.05 {
        alternating(notes, i, strength, bpm, 350.0, 150.0)
    } else {
        0.0
    };
    let slop = match constant(notes, i) {
        Some(severity) if close => severity * (1.0 - ((bpm - 400.0) / 150.0).clamp(0.0, 1.0)),
        _ => 0.0,
    };
    let (high, low) = (curr.jump.max(last.jump), curr.jump.min(last.jump));
    let change = (high - low) / high;
    let cross = if close && curr.time >= 85.7 && high > 80.0 && high < 360.0 && change < 0.18 {
        let near = 1.0 - ((high - 80.0) / (360.0 - 80.0)).clamp(0.0, 1.0);
        0.15 * ((1.0 - change / 0.18) * near)
    } else {
        0.0
    };
    let severity = 1.0 - (1.0 - zigzag) * (1.0 - slop) * (1.0 - cross / 0.15);
    let radius = if curr.radius >= 36.9 {
        1.0
    } else {
        (-9.0 * ((36.9 - curr.radius) / (36.9 - 24.4)).clamp(0.0, 1.0)).exp()
    };
    let farm = (0.35 * severity).clamp(0.0, 0.35) * radius;

    let flow = if bpm > 210.25 && close { flow(notes, i) } else { 0.0 };
    if flow > 0.0 {
        strain *= 0.50 - flow;
    } else {
        strain *= 0.75 - farm;
        let (jump, jump_spread, jumps) = jump_stats(notes, i, 8);
        let neutral = jumps >= 6
            && jump >= 5.0
            && jump_spread / jump <= 0.25
            && (10.0..=112.0).contains(&jump);
        let (time, time_spread, times) = time_stats(notes, i, 8);
        let stream =
            times >= 5 && time > 0.0 && tempo(time, None) >= 180.0 && time_spread / time <= 0.18;
        let waits = streak(i, 5, &|k| is_farm(notes, k)) >= 3 && farm > 0.12;
        if !waits && !neutral && !stream {
            let (_, angle_spread, angle_n) = angle_stats(notes, i, 8);
            let (speed, speed_spread, speed_n) = speed_stats(notes, i, 8);
            let boost = if close && angle_n >= 4 && speed_n >= 4 {
                let cv = if speed > 0.0 { speed_spread / speed } else { 0.0 };
                0.08 * (((angle_spread - 0.6) / 0.4).clamp(0.0, 1.0)
                    * ((cv - 0.25) / 0.25).clamp(0.0, 1.0))
            } else {
                0.0
            };
            strain *= (1.0 + boost).min(1.08);
        }
    }
    let fast = share(tempo(curr.time, None), 200.0, 280.0);
    if fast > 0.0 {
        strain *= 1.0 - 0.55 * (fast * (1.0 - share(curr.jump, 80.0, 170.0)));
    }
    strain
}

fn check(notes: &[Note]) {
    let math = Math { ask: answer };
    let list = objects(notes);
    for (i, object) in list.iter().enumerate() {
        for sliders in [false, true] {
            let found = hard(AimEvaluator::evaluate_diff_of(&math, object, &list, sliders));
            assert_eq!(found, aim(notes, i, sliders), "aim of {i}");
            let found = hard(AimRxEvaluator::evaluate_diff_of(&math, object, &list, sliders));
            assert_eq!(found, relax_aim(notes, i, sliders), "relax aim of {i}");
        }
    }
}

fn note(time: f64, jump: f64, angle: f64) -> Note {
    Note {
        time,
        jump,
        least_jump: jump * 0.8,
        least_time: time * 0.7,
        travel: 0.0,
        travel_time: 0.0,
        angle: Some(angle),
        radius: 32.0,
        small: 1.02,
        x: jump,
        y: angle * 40.0,
        slider: false,
        spinner: false,
    }
}

/// A small source of numbers from 0 to 1.
fn noise(seed: u64) -> impl FnMut() -> f64 {
    let mut x = seed;
    move || {
        x ^= x << 13;
        x ^= x >> 7;
        x ^= x << 17;
        (x % 10_007) as f64 / 10_006.0
    }
}

#[test]
fn varied_maps_are_rated() {
    for seed in 1..30 {
        let mut next = noise(seed * 7919 + 13);
        let notes: Vec<Note> = (0..40)
            .map(|i| {
                let mut item = note(
                    40.0 + next() * 260.0,
                    next() * 320.0,
                    next() * std::f64::consts::PI,
                );
                if next() < 0.2 {
                    item.angle = None;
                }
                if next() < 0.4 {
                    item.slider = true;
                    item.travel = next() * 200.0;
                    item.travel_time = 50.0 + next() * 300.0;
                }
                item.spinner = next() < 0.03;
                item.radius = 20.0 + next() * 25.0;
                if i % 3 == 0 {
                    item.x = 100.0 + next() * 0.4;
                    item.y = 100.0;
                }
                item
            })
            .collect();
        check(&notes);
    }
}

#[test]
fn close_maps_are_rated() {
    for seed in 1..30 {
        let mut next = noise(seed * 104_729 + 7);
        let base = 50.0 + next() * 120.0;
        let notes: Vec<Note> = (0..40)
            .map(|i| {
                let angle = if seed % 3 == 0 { next() * 3.1 } else { 2.4 + next() * 0.4 };
                let mut item = note(
                    base * (1.0 + next() * 0.1),
                    20.0 + next() * 90.0 * ((seed % 4) as f64 / 3.0),
                    angle,
                );
                item.radius = 30.0 + next() * 10.0;
                item.slider = i % 5 == 0;
                item.travel = 30.0 * next();
                item.travel_time = 100.0;
                item
            })
            .collect();
        check(&notes);
    }
}

#[test]
fn alternating_maps_are_rated() {
    for (time, jump) in [(60.0, 90.0), (90.0, 100.0), (120.0, 111.0), (150.0, 60.0), (80.0, 150.0)] {
        let notes: Vec<Note> = (0..30)
            .map(|i| {
                let mut item = note(
                    time,
                    jump + (i % 3) as f64,
                    if i % 2 == 0 { 0.6 } else { 2.1 } + (i % 5) as f64 * 0.02,
                );
                item.radius = 40.0;
                item
            })
            .collect();
        check(&notes);
    }
}

#[test]
fn constant_maps_are_rated() {
    for (time, jump, angle) in [(60.0, 40.0, 2.9), (75.0, 100.0, 1.0), (130.0, 90.0, 1.5)] {
        let notes: Vec<Note> = (0..30)
            .map(|i| {
                let mut item = note(time, jump, angle + (i % 2) as f64 * 0.01);
                item.radius = 50.0;
                item
            })
            .collect();
        check(&notes);
    }
}

#[test]
fn still_objects_have_no_strain() {
    check(&vec![note(100.0, 0.0, 1.0); 12]);
}

#[test]
fn patterns_are_told_apart() {
    let math = Math { ask: answer };
    let stream = objects(&vec![note(70.0, 250.0, 1.0); 12]);
    assert!(AimRxEvaluator::is_stream_pattern(&math, stream[11], &stream));
    assert!(!AimRxEvaluator::is_stream_pattern(&math, stream[3], &stream));
    let slow = objects(&vec![note(150.0, 250.0, 1.0); 12]);
    assert!(!AimRxEvaluator::is_stream_pattern(&math, slow[11], &slow));
    let flow = objects(&vec![note(100.0, 112.0, 2.5); 12]);
    assert!(AimRxEvaluator::is_neutral_flow_pattern(flow[11], &flow));
    assert!(!AimRxEvaluator::is_neutral_flow_pattern(flow[4], &flow));
    assert!(!AimRxEvaluator::is_neutral_flow_pattern(stream[11], &stream));
}

#[test]
fn streaks_end_where_they_break() {
    let mut notes = vec![note(100.0, 100.0, 1.0); 12];
    notes[6].jump = 112.5;
    let list = objects(&notes);
    assert_eq!(AimRxEvaluator::recent_no_followpoint_streak(list[5], &list, 4), 4);
    assert_eq!(AimRxEvaluator::recent_no_followpoint_streak(list[5], &list, 9), 6);
    assert_eq!(AimRxEvaluator::recent_no_followpoint_streak(list[6], &list, 9), 0);
    assert_eq!(AimRxEvaluator::recent_no_followpoint_streak(list[9], &list, 9), 3);
    assert_eq!(AimRxEvaluator::recent_farm_streak(list[11], &list, 5), 5);
    assert_eq!(AimRxEvaluator::recent_farm_streak(list[0], &list, 5), 0);
}

#[test]
fn severities_combine() {
    let combine = |a: f64, b: f64, c: f64| {
        hard(AimRxEvaluator::combine_farm_severity(soft(a), soft(b), soft(c)))
    };
    assert_eq!(combine(0.0, 0.0, 0.0), 0.0);
    assert_eq!(combine(1.0, 0.2, 0.0), 1.0);
    assert_eq!(combine(0.5, 0.5, 0.0), 0.75);
}

#[test]
fn nerfs_for_repetition_fade_with_the_radius() {
    let math = Math { ask: answer };
    let factor =
        |r: f64| hard(AimRxEvaluator::relax_repeat_nerf_radius_factor(&math, soft(r)));
    assert_eq!(factor(40.0), 1.0);
    assert_eq!(factor(36.9), 1.0);
    assert_eq!(factor(10.0), (-9.0_f64).exp());
    assert_eq!(factor(30.0), (-9.0 * ((36.9 - 30.0) / (36.9 - 24.4_f64))).exp());
}

/// The same answers, with no tempo fast enough to be a stream.
fn unhurried(query: Query<Double>) -> Double {
    match query {
        Query::ReverseLerp { start, .. } if hard(start) == 200.0 => soft(0.0),
        other => answer(other),
    }
}

#[test]
fn jumps_are_spared_by_the_stream_nerf() {
    let (math, free) = (Math { ask: answer }, Math { ask: unhurried });
    for (jump, kept) in [(170.0, 1.0), (240.0, 1.0), (80.0, 1.0 - 0.55), (30.0, 1.0 - 0.55)] {
        let list = objects(&vec![note(53.0, jump, 1.2); 12]);
        for object in &list[2..] {
            let nerfed = hard(AimRxEvaluator::evaluate_diff_of(&math, object, &list, false));
            let strain = hard(AimRxEvaluator::evaluate_diff_of(&free, object, &list, false));
            assert!(strain > 0.0);
            assert_eq!(nerfed, strain * kept);
        }
    }
}

#[test]
fn strain_is_not_negative() {
    let math = Math { ask: answer };
    for seed in 1..40 {
        let mut next = noise(seed * 15_485_863 + 3);
        let notes: Vec<Note> = (0..30)
            .map(|_| {
                let mut item = note(
                    25.0 + next() * 60.0,
                    next() * 200.0,
                    next() * std::f64::consts::PI,
                );
                item.slider = next() < 0.3;
                item.travel = next() * 100.0;
                item.travel_time = 30.0 + next() * 100.0;
                item.radius = 20.0 + next() * 25.0;
                item
            })
            .collect();
        let list = objects(&notes);
        for object in &list {
            for sliders in [false, true] {
                let aim = AimEvaluator::evaluate_diff_of(&math, object, &list, sliders);
                let relax = AimRxEvaluator::evaluate_diff_of(&math, object, &list, sliders);
                assert!(hard(aim) >= 0.0 && hard(relax) >= 0.0);
            }
        }
    }
}
