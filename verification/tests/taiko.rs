use ccv3_pp::double::Double;
use ccv3_pp::query::{GameMods, Math, Query};
use ccv3_pp::taiko::performance::calculator::{
    TaikoDifficultyAttributes, TaikoHitResults, TaikoPerformanceCalculator, TaikoScoreState,
};

fn soft(x: f64) -> Double {
    Double { bits: x.to_bits() }
}

fn hard(x: Double) -> f64 {
    f64::from_bits(x.bits)
}

fn softs(list: &[f64]) -> Vec<Double> {
    list.iter().map(|x| soft(*x)).collect()
}

fn share(x: f64, start: f64, end: f64) -> f64 {
    ((x - start) / (end - start)).clamp(0.0, 1.0)
}

fn logistic(x: f64, midpoint: f64, multiplier: f64, max: f64) -> f64 {
    max / (1.0 + (multiplier * (midpoint - x)).exp())
}

/// Stands in for the error function: smooth, rising and below one.
fn erf(x: f64) -> f64 {
    (1.2 * x).tanh()
}

fn erf_inv(x: f64) -> f64 {
    x.atanh() / 1.2
}

fn answer(query: Query<Double>) -> Double {
    match query {
        Query::Power { base, exponent } => soft(hard(base).powf(hard(exponent))),
        Query::Erf { x } => soft(erf(hard(x))),
        Query::ErfInv { x } => soft(erf_inv(hard(x))),
        Query::Logistic { x, midpoint, multiplier, max } => {
            soft(logistic(hard(x), hard(midpoint), hard(multiplier), max.map_or(1.0, hard)))
        }
        Query::ReverseLerp { x, start, end } => soft(share(hard(x), hard(start), hard(end))),
        Query::Same { a, b } => {
            soft(if (hard(a) - hard(b)).abs() <= f64::EPSILON { 1.0 } else { 0.0 })
        }
        _ => soft(0.0),
    }
}

const NO_MODS: GameMods = GameMods {
    nf: false,
    ez: false,
    td: false,
    hd: false,
    rx: false,
    ap: false,
    fl: false,
    so: false,
    bl: false,
    tc: false,
    mr: false,
};

fn score(mods: GameMods, classic: bool) -> TaikoPerformanceCalculator {
    TaikoPerformanceCalculator::new(
        TaikoDifficultyAttributes {
            stars: soft(5.6),
            rhythm: soft(1.4),
            mono_stamina_factor: soft(0.2),
            consistency_factor: soft(0.8),
            great_hit_window: soft(28.0),
            is_convert: false,
        },
        mods,
        TaikoScoreState {
            max_combo: 700,
            hitresults: TaikoHitResults { n300: 960, n100: 20, misses: 3 },
        },
        classic,
    )
    .with_timestamps(
        softs(&[0.0, 100.0, 200.0, 260.0, 800.0, 1600.0, 1650.0]),
        softs(&[1200.0, 130.0]),
    )
}

fn bound(n: f64, window: f64, p: f64) -> f64 {
    let z: f64 = 2.32634787404;
    let low = (n * p + z * z / 2.0) / (n + z * z)
        - z / (n + z * z) * (n * p * (1.0 - p) + z * z / 4.0).sqrt();
    window / (2.0_f64.sqrt() * erf_inv(low))
}

/// What a score is worth for difficulty and for accuracy, where each miss leaves
/// the factor that is given.
fn worth(c: &TaikoPerformanceCalculator, misses: &[Option<f64>]) -> (f64, f64) {
    let h = c.state.hitresults;
    let n = f64::from(h.n300 + h.n100 + h.misses);
    let window = hard(c.attrs.great_hit_window);
    let (stars, mono) = (hard(c.attrs.stars), hard(c.attrs.mono_stamina_factor));
    let rate = bound(n, window, f64::from(h.n300) / n) * 10.0;
    let hits = n * hard(c.attrs.consistency_factor);
    let (expected, maximum) = (bound(n, window, 1.0) * 10.0, bound(n, window, 0.8) * 10.0);
    let rhythm = share(hard(c.attrs.rhythm) / stars, 0.15, 0.4);
    let penalty = 1.0
        - logistic(
            rate,
            (expected + maximum) / 2.0,
            10.0 / (maximum - expected),
            0.25 * rhythm.powf(3.0),
        );
    let base = 5.0 * (stars * penalty / 0.11).max(1.0) - 4.0;
    let mut value = (base.powf(3.0) / 69052.51).min(base.powf(2.25) / 1250.0);
    value *= 1.0 + 0.10 * (stars - 10.0).max(0.0);
    let length = 1.0 + 0.25 * hits / (hits + 4000.0);
    value *= length;
    for miss in misses {
        value *= miss.unwrap_or(0.97 + 0.03 * hits / (hits + 1500.0));
    }
    if c.mods.hd {
        let mut bonus = if c.attrs.is_convert { 0.025 } else { 0.1 };
        if !c.mods.fl && !c.is_classic {
            bonus *= 0.2;
        }
        if !c.mods.fl && c.mods.ez && c.is_classic {
            bonus *= 0.5;
        }
        value *= 1.0 + bonus;
    }
    if c.mods.fl {
        value *= (1.05 - (mono / 50.0).min(1.0) * length).max(1.0);
    }
    let shift = 500.0 - 100.0 * (mono * 3.0);
    value *= erf(shift / (2.0_f64.sqrt() * rate)).powf(2.0 + mono);

    let mut accuracy = 470.0 * 0.9885_f64.powf(rate);
    accuracy *= 1.0 + (50.0 / rate).powf(2.0) * stars.powf(2.8) / 600.0;
    if c.mods.hd && !c.attrs.is_convert {
        accuracy *= 1.075;
    }
    accuracy *= 1.0 + 0.3 * hits / (hits + 4000.0);
    if c.mods.fl && c.mods.hd && !c.attrs.is_convert {
        accuracy *= (1.05 * (n / 1500.0).powf(0.3).min(1.15)).max(1.0);
    }
    (value * 1.08, accuracy * 1.1)
}

fn check(c: TaikoPerformanceCalculator, misses: &[Option<f64>]) {
    let math = Math { ask: answer };
    let (difficulty, accuracy) = worth(&c, misses);
    let r = c.calculate(&math);
    assert_eq!(hard(r.pp_difficulty), difficulty);
    assert_eq!(hard(r.pp_acc), accuracy);
    assert_eq!(hard(r.pp), difficulty + accuracy);
    assert!(r.estimated_unstable_rate.is_some());
}

#[test]
fn drum_scores_agree() {
    // The first miss slips in the slow section, the second does not, the third
    // has no time.
    let misses = [Some(0.9995), None, None];
    for classic in [true, false] {
        check(score(NO_MODS, classic), &misses);
        check(score(GameMods { hd: true, ..NO_MODS }, classic), &misses);
        check(score(GameMods { hd: true, ez: true, ..NO_MODS }, classic), &misses);
        check(score(GameMods { fl: true, ..NO_MODS }, classic), &misses);
        check(score(GameMods { fl: true, hd: true, ez: true, ..NO_MODS }, classic), &misses);
        let mut c = score(GameMods { fl: true, hd: true, ..NO_MODS }, classic);
        c.attrs.is_convert = true;
        c.attrs.stars = soft(11.3);
        check(c, &misses);
    }
}

#[test]
fn many_misses_and_rough_play_get_no_leniency() {
    let mut c = score(NO_MODS, true);
    c.state.hitresults.misses = 4;
    check(c, &[None; 4]);
    let mut c = score(NO_MODS, true);
    c.state.hitresults.n300 = 700;
    c.state.hitresults.n100 = 200;
    check(c, &[None; 3]);
}

#[test]
fn scores_without_greats_or_a_window_are_worth_nothing() {
    let math = Math { ask: answer };
    let mut c = score(NO_MODS, true);
    c.state.hitresults.n300 = 0;
    let r = c.calculate(&math);
    assert_eq!((hard(r.pp), hard(r.pp_acc), hard(r.pp_difficulty)), (0.0, 0.0, 0.0));
    assert!(r.estimated_unstable_rate.is_none());
    let mut c = score(NO_MODS, true);
    c.attrs.great_hit_window = soft(0.0);
    let r = c.calculate(&math);
    assert_eq!(hard(r.pp), 0.0);
    let mut c = score(NO_MODS, true);
    c.attrs.consistency_factor = soft(0.0);
    assert_eq!(hard(c.calculate(&math).pp_difficulty), 0.0);
}

#[test]
fn speeds_of_gaps() {
    let speed = |gap: f64| hard(TaikoPerformanceCalculator::delta_to_effective_speed(soft(gap)));
    assert_eq!(speed(0.0), 0.0);
    assert_eq!(speed(-5.0), 0.0);
    assert_eq!(speed(100.0), 150.0);
    assert_eq!(speed(1.0), 320.0);
    assert_eq!(speed(1000.0), 80.0);
}

#[test]
fn speeds_of_maps() {
    let c = score(NO_MODS, true);
    let speeds: Vec<f64> = c.compute_all_effective_speeds().into_iter().map(hard).collect();
    assert_eq!(speeds, vec![150.0, 150.0, 250.0, 80.0, 80.0, 300.0]);
    assert_eq!(hard(c.estimate_average_effective_speed()), speeds.iter().sum::<f64>() / 6.0);
    assert_eq!(hard(c.estimate_peak_effective_speed()), 300.0);
    assert_eq!(hard(c.lowest_effective_speed()), 80.0);
    assert!(c.is_miss_on_slow_section(soft(1000.0)));
    assert!(!c.is_miss_on_slow_section(soft(10.0)));
    assert!(!c.is_miss_on_slow_section(soft(5000.0)));
    let c = score(NO_MODS, true).with_timestamps(softs(&[5.0]), Vec::new());
    assert_eq!(hard(c.estimate_average_effective_speed()), 80.0);
    assert_eq!(hard(c.estimate_peak_effective_speed()), 80.0);
    assert!(!c.is_miss_on_slow_section(soft(5.0)));
}
