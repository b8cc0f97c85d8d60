use ccv3_pp::double::Double;
use ccv3_pp::osu::difficulty::object::OsuDifficultyObject;
use ccv3_pp::osu::performance::auto_marathon::{
    autopilot_marathon_multiplier, compute_local_bpm_per_minute, AutopilotDecayParams,
};
use ccv3_pp::osu::performance::marathon::{vanilla_marathon_multiplier, VanillaMarathonParams};
use ccv3_pp::osu::performance::peaks::{partition_sections, star_from_peaks};
use ccv3_pp::osu::performance::relax_marathon::{relax_marathon_multiplier, MarathonDecayParams};
use ccv3_pp::osu::performance::rx_miss::{count_inflation, rx_strain_weighted_misses};
use ccv3_pp::osu::performance::{auto_marathon, marathon, peaks, relax_marathon};
use ccv3_pp::query::{Math, Query};

fn soft(x: f64) -> Double {
    Double { bits: x.to_bits() }
}

fn hard(x: Double) -> f64 {
    f64::from_bits(x.bits)
}

fn softs(list: &[f64]) -> Vec<Double> {
    list.iter().map(|x| soft(*x)).collect()
}

fn hards(list: &[Double]) -> Vec<f64> {
    list.iter().map(|x| hard(*x)).collect()
}

fn strain_performance(rating: f64) -> f64 {
    (5.0 * (rating / 0.0675).max(1.0) - 4.0).powf(3.0) / 100_000.0
}

fn answer(query: Query<Double>) -> Double {
    match query {
        Query::Power { base, exponent } => soft(hard(base).powf(hard(exponent))),
        Query::Exp { x } => soft(hard(x).exp()),
        Query::Log10 { x } => soft(hard(x).log10()),
        Query::Cbrt { x } => soft(hard(x).cbrt()),
        Query::StrainPerformance { rating } => soft(strain_performance(hard(rating))),
        _ => soft(0.0),
    }
}

/// The weighted sum of peaks, the ten highest reduced.
fn weighted_peaks(peaks: &[f64]) -> f64 {
    let mut v: Vec<f64> = peaks.iter().copied().filter(|x| *x > 0.0).collect();
    v.sort_by(|a, b| b.partial_cmp(a).unwrap());
    for (i, x) in v.iter_mut().enumerate().take(10) {
        let scale = (1.0 + (0.75 - 1.0) * (i as f64 / 10.0)).log10().abs();
        *x *= 0.75 + (1.0 - 0.75) * scale.min(1.0);
    }
    v.sort_by(|a, b| b.partial_cmp(a).unwrap());
    let (mut sum, mut weight) = (0.0, 1.0);
    for x in v {
        sum += x * weight;
        weight *= 0.9;
    }
    sum
}

fn stars(performance: f64) -> f64 {
    if performance <= 0.00001 {
        0.0
    } else {
        0.92_f64.cbrt()
            * 0.027
            * ((100_000.0 / 2.0_f64.powf(1.0 / 1.1) * performance).cbrt() + 4.0)
    }
}

fn peak_performance(peaks: &[f64]) -> f64 {
    strain_performance(weighted_peaks(peaks).sqrt() * 0.0675)
}

/// Strain peaks of about two and a half minutes.
fn long_peaks(height: f64) -> Vec<f64> {
    (0..370).map(|i| height + ((i * 37) % 101) as f64 * 3.7 - if i % 50 == 0 { 900.0 } else { 0.0 })
        .collect()
}

#[test]
fn sections_are_even_and_in_turn() {
    assert_eq!(partition_sections(10, 4), vec![(0, 3), (3, 6), (6, 8), (8, 10)]);
    assert_eq!(partition_sections(2, 4), vec![(0, 1), (1, 2), (2, 2), (2, 2)]);
    assert_eq!(partition_sections(0, 4), vec![]);
    assert_eq!(partition_sections(7, 0), vec![]);
}

#[test]
fn stars_of_peaks_agree() {
    let math = Math { ask: answer };
    let peaks = long_peaks(500.0);
    assert_eq!(hard(star_from_peaks(&math, &softs(&peaks))), stars(peak_performance(&peaks)));
    assert_eq!(hard(star_from_peaks(&math, &softs(&[]))), stars(strain_performance(0.0)));
    assert_eq!(hard(star_from_peaks(&math, &softs(&[-3.0, 0.0]))), stars(strain_performance(0.0)));
}

#[test]
fn stars_of_each_minute_under_autopilot() {
    let math = Math { ask: answer };
    let peaks = long_peaks(500.0);
    let expected: Vec<f64> = peaks
        .chunks(150)
        .map(|minute| {
            let sections: Vec<f64> = partition_sections(minute.len(), 4)
                .into_iter()
                .map(|(start, end)| stars(peak_performance(&minute[start..end])))
                .collect();
            stars(peak_performance(&sections))
        })
        .collect();
    assert_eq!(expected.len(), 3);
    assert_eq!(hards(&auto_marathon::local_sr_per_minute(&math, &softs(&peaks))), expected);
    assert_eq!(hards(&auto_marathon::local_aim_per_minute(&math, &softs(&peaks))), expected);
}

#[test]
fn stars_of_each_minute_under_relax() {
    let math = Math { ask: answer };
    let (aim, speed) = (long_peaks(500.0), long_peaks(300.0));
    let expected: Vec<f64> = aim
        .chunks(150)
        .zip(speed.chunks(150))
        .map(|(aim, speed)| {
            let sections: Vec<f64> = partition_sections(aim.len(), 4)
                .into_iter()
                .map(|(start, end)| {
                    let a = peak_performance(&aim[start..end]).powf(1.1);
                    let s = peak_performance(&speed[start..end]).powf(1.1);
                    stars((a + s).powf(1.0 / 1.1))
                })
                .collect();
            stars(peak_performance(&sections))
        })
        .collect();
    let found = relax_marathon::local_sr_per_minute(&math, &softs(&aim), &softs(&speed));
    assert_eq!(hards(&found), expected);
}

#[test]
fn stars_of_each_minute_without_mods() {
    let math = Math { ask: answer };
    let peaks = long_peaks(500.0);
    let found = marathon::local_sr_per_minute(&math, &softs(&peaks));
    assert_eq!(found.len(), 3);
    for (star, minute) in found.iter().zip(peaks.chunks(150)) {
        let mut v: Vec<f64> = minute.iter().copied().filter(|x| *x > 0.0).collect();
        v.sort_by(|a, b| b.partial_cmp(a).unwrap());
        for (i, x) in v.iter_mut().enumerate().take(10) {
            let scale = (1.0 - (1.0 - 0.75) * (i as f64 / 10.0)).log10().abs().min(1.0);
            *x *= 0.75 + (1.0 - 0.75) * scale;
        }
        v.sort_by(|a, b| b.partial_cmp(a).unwrap());
        let (mut sum, mut weight) = (0.0, 1.0);
        for x in v {
            sum += x * weight;
            weight *= 0.9;
        }
        let sum: f64 = sum;
        assert_eq!(hard(*star), stars(strain_performance(sum.sqrt() * 0.0675)));
    }
}

#[test]
fn relax_decays_repeated_minutes() {
    let math = Math { ask: answer };
    let (sr, bpm) = ([5.0, 5.5, 6.0, 9.0, 9.1], [200.0, 410.0, 450.0, 180.0, 400.0]);
    let repeats = [0.0_f64, 1.0, 2.0, 0.0, 1.0];
    let (mut weighted, mut total) = (0.0, 0.0);
    for k in 0..5 {
        let base = 1.0 + 0.02 * repeats[k].powf(1.35);
        let smooth = (repeats[k] / 3.0).powf(0.65).clamp(0.0, 1.0);
        let mut share = 1.0 / (base * (1.0 + 0.15 * smooth));
        if bpm[k] >= 400.0 {
            let more: f64 = (bpm[k] - 400.0) / 40.0;
            share += (1.0 - share) * (more.clamp(0.0, 1.0) * 0.15);
        }
        weighted += sr[k] * share;
        total += sr[k];
    }
    let r = relax_marathon_multiplier(
        &math,
        &softs(&sr),
        &softs(&bpm),
        MarathonDecayParams::default(),
    );
    assert_eq!(hard(r), weighted / total);
    assert!(0.0 < hard(r) && hard(r) < 1.0);
}

#[test]
fn short_or_uneven_lists_keep_all() {
    let math = Math { ask: answer };
    let relax = MarathonDecayParams::default();
    let auto = AutopilotDecayParams::default();
    let (one, two) = (softs(&[5.0]), softs(&[5.0, 5.0]));
    assert_eq!(hard(relax_marathon_multiplier(&math, &one, &one, relax)), 1.0);
    assert_eq!(hard(relax_marathon_multiplier(&math, &two, &one, relax)), 1.0);
    assert_eq!(hard(autopilot_marathon_multiplier(&math, &one, &one, &one, auto)), 1.0);
    assert_eq!(hard(autopilot_marathon_multiplier(&math, &two, &two, &one, auto)), 1.0);
    let none = softs(&[0.0, 0.0]);
    assert_eq!(hard(relax_marathon_multiplier(&math, &none, &two, relax)), 1.0);
    assert_eq!(hard(autopilot_marathon_multiplier(&math, &none, &two, &two, auto)), 1.0);
}

#[test]
fn autopilot_decays_streaks_of_one_tempo() {
    let math = Math { ask: answer };
    let sr = [4.0, 5.0, 6.0, 3.5, 7.0];
    let bpm = [200.0, 203.0, 206.0, 400.0, 404.0];
    let aim = [3.2, 4.0, 6.5, 1.0, 8.0];
    let repeats = [0.0_f64, 1.0, 2.0, 0.0, 1.0];
    let tempo = [200.0, (200.0 + 203.0) / 2.0, (200.0 + 203.0 + 206.0) / 3.0, 400.0, 402.0];
    // The slow minutes of hard aim in a row.
    let heavy = [1.0, 2.0, 3.0, 0.0, 0.0];
    let (mut weighted, mut total) = (0.0, 0.0);
    for k in 0..5 {
        let tempo: f64 = tempo[k];
        let slow = ((360.0 - tempo) * 0.01).exp().clamp(0.3, 4.0);
        let streak = if tempo > 365.0 { (-repeats[k] * 0.08).exp() } else { 1.0 };
        let mut share = 1.0 / (1.0 + 0.05 * repeats[k].powf(1.35) * (slow * streak));
        if heavy[k] > 0.0 {
            let extra: f64 = 0.10 + 0.15 * (heavy[k] / 3.0);
            share *= 1.0 - extra.clamp(0.0, 0.30);
        }
        weighted += sr[k] * share;
        total += sr[k];
    }
    // Three balanced minutes in a row, then none, then one.
    let bonus: f64 = 1.0 + 0.01 * 1.0;
    let kept = 1.0 - (1.0 - weighted / total) / bonus;
    let softener = 0.10 * ((5.0 - 2.0) / 8.0);
    let expected = 1.0 - (1.0 - kept) * (1.0 - softener);
    let r = autopilot_marathon_multiplier(
        &math,
        &softs(&sr),
        &softs(&bpm),
        &softs(&aim),
        AutopilotDecayParams::default(),
    );
    assert_eq!(hard(r), expected);
    assert!(0.0 < hard(r) && hard(r) < 1.0);
}

#[test]
fn sustained_maps_are_buffed() {
    let math = Math { ask: answer };
    let aim = softs(&[5.0, 6.0, 5.5, 4.0, 7.0, 6.0]);
    let speed = softs(&[5.2, 4.5, 5.0, 6.0, 4.4, 5.9]);
    let params = VanillaMarathonParams::default();
    let rate = |map: u32, player: u32, acc: f64| {
        hard(vanilla_marathon_multiplier(&math, &aim, &speed, map, player, soft(acc), params))
    };
    // Five balanced minutes: the fourth is too easy.
    let base = 1.0 + 0.027 * (5.0_f64 - 2.0).sqrt();
    assert_eq!(rate(2000, 2000, 0.99), (base * 1.0 * 1.1 * 1.0).clamp(1.0, 1.10));
    let long = 1.12 + 0.08 * ((6000.0 - 5000.0) / 10000.0);
    let share: f64 = 5800.0 / 6000.0;
    let raw = (-14.5_f64 * (0.985 - 0.98)).exp();
    let exponent = 2.8 * (3500.0_f64 / 5800.0).clamp(0.65, 2.8);
    let expected = (base * share * long) * raw.powf(exponent);
    assert!(expected < 1.10);
    assert_eq!(rate(6000, 5800, 0.98), expected.clamp(1.0, 1.10));
    assert_eq!(rate(1374, 1374, 1.0), 1.0);
    assert_eq!(rate(2000, 500, 0.90), 1.0);
}

#[test]
fn a_buff_takes_three_balanced_minutes() {
    let math = Math { ask: answer };
    let params = VanillaMarathonParams::default();
    let aim = softs(&[5.0, 6.0, 9.0]);
    let speed = softs(&[5.2, 4.5, 5.0]);
    let r = vanilla_marathon_multiplier(&math, &aim, &speed, 2000, 2000, soft(1.0), params);
    assert_eq!(hard(r), 1.0);
    let r = vanilla_marathon_multiplier(&math, &aim, &aim[..2], 2000, 2000, soft(1.0), params);
    assert_eq!(hard(r), 1.0);
}

#[test]
fn tempo_of_each_minute() {
    let object = |time: f64| OsuDifficultyObject {
        idx: 0,
        start_time: soft(time),
        base_start_time: soft(time),
        delta_time: soft(100.0),
        adjusted_delta_time: soft(100.0),
        small_circle_bonus: soft(1.0),
        circle_radius: soft(32.0),
        travel_dist: soft(0.0),
        travel_time: soft(0.0),
        lazy_jump_dist: soft(0.0),
        min_jump_dist: soft(0.0),
        min_jump_time: soft(0.0),
        angle: None,
        pos_x: soft(0.0),
        pos_y: soft(0.0),
        is_slider: false,
        is_spinner: false,
    };
    let objects = vec![object(100.0), object(59_999.0), object(120_000.0), object(150_000.0)];
    let times = softs(&[100.0, 200.0, 300.0, 500.0]);
    let found = compute_local_bpm_per_minute(&objects, &times);
    assert_eq!(hards(&found), vec![30_000.0 / 150.0, 0.0, 30_000.0 / 400.0]);
    assert_eq!(hards(&compute_local_bpm_per_minute(&[], &[])), vec![0.0]);
}

#[test]
fn clean_relax_scores_have_no_misses() {
    assert_eq!(hard(rx_strain_weighted_misses(&softs(&[0.1, 0.2]), 500, 0, 0, 0)), 0.0);
}

#[test]
fn oks_and_mehs_inflate_misses() {
    assert_eq!(hard(count_inflation(0, 0)), 0.0);
    assert_eq!(hard(count_inflation(8, 0)), 2.0);
    assert_eq!(hard(count_inflation(8, 4)), 4.0);
    assert_eq!(hard(count_inflation(0, 4)), 2.0 * 0.5);
    let ratio: f64 = 3.0 / 4.0;
    assert_eq!(
        hard(count_inflation(4, 3)),
        (4.0 * 0.25 + 3.0 * 0.5) * (1.0 - 0.5 * ((ratio - 0.5) / 0.5))
    );
    assert_eq!(hard(count_inflation(800_000, 0)), 700_000.0 * 0.25);
}

#[test]
fn relax_misses_are_weighted_by_strain() {
    let hardness = softs(&[0.2, 1.0, 0.5, 0.8, 0.1]);
    // The two hardest chunks are soft, the third is a middle one; all lie early
    // but the second hardest.
    let late = 1.0 + ((0.75 - 0.70_f64) / 0.30).clamp(0.0, 1.0) * 0.35;
    let r = rx_strain_weighted_misses(&hardness, 1000, 0, 0, 3);
    assert_eq!(hard(r), 0.45 + 0.45 * late + 1.0);
    // An unlucky miss in an easy chunk, and one that is not.
    let lone = softs(&[1.0, 0.1]);
    assert_eq!(hard(rx_strain_weighted_misses(&lone, 1000, 0, 0, 2)), 0.45 + 0.40 * 1.35);
    assert_eq!(hard(rx_strain_weighted_misses(&lone, 10, 0, 0, 2)), 0.45 + 1.0 * 1.35);
    // More misses than chunks stay on the easiest one.
    assert_eq!(
        hard(rx_strain_weighted_misses(&lone, 10, 0, 0, 3)),
        0.45 + 1.0 * 1.35 + 1.0 * 1.35
    );
    // Nothing to go by.
    assert_eq!(hard(rx_strain_weighted_misses(&softs(&[]), 10, 4, 0, 3)), 4.0);
    assert_eq!(hard(rx_strain_weighted_misses(&softs(&[0.0, 0.0]), 10, 0, 0, 3)), 3.0);
    // A third miss on a peak counts in full.
    let flat = softs(&[1.0, 1.0, 1.0, 0.9]);
    assert_eq!(
        hard(rx_strain_weighted_misses(&flat, 1000, 0, 0, 3)),
        0.45 + 0.45 + 1.0
    );
}

#[test]
fn faster_maps_keep_more_under_relax() {
    let math = Math { ask: answer };
    let stars = softs(&[5.0, 5.2, 5.1, 5.3, 0.0, 5.0]);
    let keeps = |tempos: &[f64]| {
        let params = MarathonDecayParams::default();
        hard(relax_marathon_multiplier(&math, &stars, &softs(tempos), params))
    };
    let slow = keeps(&[180.0; 6]);
    assert_eq!(keeps(&[399.0; 6]), slow);
    assert_eq!(keeps(&[400.0; 6]), slow);
    let mixed = keeps(&[180.0, 410.0, 180.0, 430.0, 500.0, 180.0]);
    let fast = keeps(&[420.0; 6]);
    let fastest = keeps(&[440.0; 6]);
    assert!(slow < mixed && mixed < fast && fast < fastest && fastest < 1.0);
    assert_eq!(keeps(&[900.0; 6]), fastest);
}

#[test]
fn the_order_of_peaks_is_of_no_matter() {
    let math = Math { ask: answer };
    let peaks: Vec<f64> = (0..25).map(|i| ((i * 7) % 25) as f64 * 3.5 + 1.0).collect();
    let mut other: Vec<f64> = peaks.iter().rev().copied().collect();
    other.insert(3, f64::NAN);
    other.insert(9, -4.0);
    other.push(0.0);
    let (a, b) = (softs(&peaks), softs(&other));
    let value = peaks::difficulty_value_from_peaks(&math, &a);
    assert!(hard(value) > 0.0);
    assert_eq!(hard(peaks::difficulty_value_from_peaks(&math, &b)), hard(value));
    let value = marathon::difficulty_value_from_peaks(&math, &a);
    assert!(hard(value) > 0.0);
    assert_eq!(hard(marathon::difficulty_value_from_peaks(&math, &b)), hard(value));
    let none = softs(&[0.0, -0.0, -1.0, f64::NAN]);
    assert_eq!(hard(peaks::difficulty_value_from_peaks(&math, &none)), 0.0);
    assert_eq!(hard(marathon::difficulty_value_from_peaks(&math, &none)), 0.0);
    let least = softs(&[f64::from_bits(1)]);
    assert!(hard(peaks::difficulty_value_from_peaks(&math, &least)) > 0.0);
}
