use ccv3_pp::double::Double;
use ccv3_pp::osu::attributes::{OsuDifficultyAttributes, OsuHitResults, OsuScoreState};
use ccv3_pp::osu::difficulty::skills::memory::Memory;
use ccv3_pp::osu::performance::auto_marathon::{
    autopilot_marathon_multiplier, AutopilotDecayParams,
};
use ccv3_pp::osu::performance::calculator::{
    n50_effective_miss_multiplier, OsuPerformanceCalculator,
};
use ccv3_pp::osu::performance::marathon::{vanilla_marathon_multiplier, VanillaMarathonParams};
use ccv3_pp::osu::performance::relax_marathon::{relax_marathon_multiplier, MarathonDecayParams};
use ccv3_pp::osu::performance::rx_miss::rx_strain_weighted_misses;
use ccv3_pp::query::{GameMods, Math, Query};

fn soft(x: f64) -> Double {
    Double { bits: x.to_bits() }
}

fn hard(x: Double) -> f64 {
    f64::from_bits(x.bits)
}

fn softs(list: &[f64]) -> Vec<Double> {
    list.iter().map(|x| soft(*x)).collect()
}

fn share(x: f64, start: f64, end: f64) -> f64 {
    ((x - start) / (end - start)).clamp(0.0, 1.0)
}

fn step(x: f64, start: f64, end: f64) -> f64 {
    let t = share(x, start, end);
    t * t * (3.0 - 2.0 * t)
}

fn logistic(x: f64, midpoint: f64, multiplier: f64, max: f64) -> f64 {
    max / (1.0 + (multiplier * (midpoint - x)).exp())
}

/// Stands in for the error function: smooth, rising and below one.
fn erf(x: f64) -> f64 {
    (1.2 * x).tanh()
}

fn erf_inv(x: f64) -> f64 {
    x.atanh() / 1.2
}

fn rating_performance(rating: f64) -> f64 {
    (5.0 * (rating / 0.0675).max(1.0) - 4.0).powf(3.0) / 100_000.0
}

fn flashlight_performance(rating: f64) -> f64 {
    25.0 * rating * rating
}

fn visibility_bonus(ar: f64, slider_factor: Option<f64>) -> f64 {
    0.04 * (12.0 - ar) * slider_factor.unwrap_or(1.0)
}

fn answer(query: Query<Double>) -> Double {
    let yes = |x: bool| soft(if x { 1.0 } else { 0.0 });
    match query {
        Query::Power { base, exponent } => soft(hard(base).powf(hard(exponent))),
        Query::Exp { x } => soft(hard(x).exp()),
        Query::Ln { x } => soft(hard(x).ln()),
        Query::Log10 { x } => soft(hard(x).log10()),
        Query::Erf { x } => soft(erf(hard(x))),
        Query::ErfInv { x } => soft(erf_inv(hard(x))),
        Query::Logistic { x, midpoint, multiplier, max } => {
            soft(logistic(hard(x), hard(midpoint), hard(multiplier), max.map_or(1.0, hard)))
        }
        Query::Smoothstep { x, start, end } => soft(step(hard(x), hard(start), hard(end))),
        Query::ReverseLerp { x, start, end } => soft(share(hard(x), hard(start), hard(end))),
        Query::Lerp { start, end, t } => soft(hard(start) + (hard(end) - hard(start)) * hard(t)),
        Query::Same { a, b } => yes((hard(a) - hard(b)).abs() <= f64::EPSILON),
        Query::Differs { a, b } => yes((hard(a) - hard(b)).abs() > f64::EPSILON),
        Query::AimPerformance { rating } => soft(rating_performance(hard(rating))),
        Query::SpeedPerformance { rating } => soft(rating_performance(hard(rating))),
        Query::FlashlightPerformance { rating } => soft(flashlight_performance(hard(rating))),
        Query::VisibilityBonus { mods: _, ar, slider_factor } => {
            soft(visibility_bonus(hard(ar), slider_factor.map(hard)))
        }
        _ => soft(0.0),
    }
}

const NO_MODS: GameMods = GameMods {
    nf: false,
    ez: false,
    td: false,
    hd: false,
    rx: false,
    ap: false,
    fl: false,
    so: false,
    bl: false,
    tc: false,
    mr: false,
};

fn map() -> OsuDifficultyAttributes {
    OsuDifficultyAttributes {
        aim: soft(3.1),
        aim_difficult_slider_count: soft(40.0),
        speed: soft(2.7),
        flashlight: soft(1.9),
        memory: soft(0.8),
        slider_factor: soft(0.93),
        aim_top_weighted_slider_factor: soft(0.4),
        speed_top_weighted_slider_factor: soft(0.3),
        speed_note_count: soft(320.5),
        aim_difficult_strain_count: soft(110.0),
        speed_difficult_strain_count: soft(90.0),
        nested_score_per_object: soft(0.0),
        legacy_score_base_multiplier: soft(0.0),
        maximum_legacy_combo_score: soft(0.0),
        ar: soft(9.3),
        od: soft(8.2),
        hp: soft(5.5),
        cs: soft(4.0),
        great_hit_window: soft(30.0),
        ok_hit_window: soft(70.0),
        meh_hit_window: soft(110.0),
        n_circles: 700,
        n_sliders: 250,
        n_large_ticks: 60,
        n_spinners: 2,
        n_objects: 952,
        stars: soft(6.0),
        max_combo: 1450,
        dominant_tap_bpm: soft(210.0),
        speed_rework_mult_vanilla: soft(0.97),
        speed_rework_mult_autopilot: soft(1.04),
        local_sr_per_minute: softs(&[5.0, 5.5, 6.0, 5.2]),
        local_autopilot_sr_per_minute: softs(&[4.0, 4.1, 4.4, 4.0]),
        local_aim_per_minute: softs(&[5.1, 4.9, 5.5, 4.7]),
        local_bpm_per_minute: softs(&[180.0, 182.0, 185.0, 410.0]),
        avg_jump_dist: soft(140.0),
        median_delta_time: soft(70.0),
        rx_chunk_hardness: softs(&[0.02, 0.05, 0.04, 0.01, 0.06]),
        rx_chunk_avg_delta: softs(&[200.0, 80.0, 100.0, 400.0, 66.0]),
        consistency_strictness: soft(0.6),
        density_multiplier: soft(1.01),
    }
}

fn score(mods: GameMods, classic: bool) -> OsuPerformanceCalculator {
    OsuPerformanceCalculator {
        attrs: map(),
        mods,
        acc: soft(0.973),
        state: OsuScoreState {
            max_combo: 900,
            hitresults: OsuHitResults {
                large_tick_hits: 55,
                slider_end_hits: 240,
                n300: 920,
                n100: 22,
                n50: 4,
                misses: 6,
            },
            legacy_total_score: None,
        },
        using_classic_slider_acc: classic,
    }
}

fn length_bonus(hits: f64, accuracy: f64) -> f64 {
    let long = if hits > 2000.0 { 1.0 } else { 0.0 };
    let raw =
        0.95 + 0.4 * (hits / 2000.0).min(1.0) + long * (hits / 2000.0).log10() * 0.5;
    0.95 + (raw - 0.95) * accuracy.clamp(0.0, 1.0).powf(2.0)
}

fn low_od(misses: f64, od: f64) -> f64 {
    if misses <= 0.0 || od >= 7.0 {
        1.0
    } else {
        (1.0 - 0.14 * ((7.0 - od) / 7.0).clamp(0.0, 1.0)).powf(misses).max(0.30)
    }
}

fn miss_penalty(misses: f64, strains: f64) -> f64 {
    0.96 / (misses / (4.0 * strains.ln().powf(0.94)) + 1.0)
}

fn imperfect(c: &OsuPerformanceCalculator) -> f64 {
    let h = c.state.hitresults;
    f64::from(h.n100 + h.n50 + h.misses)
}

fn tick_misses(c: &OsuPerformanceCalculator) -> u32 {
    if c.using_classic_slider_acc {
        0
    } else {
        c.attrs.n_large_ticks - c.state.hitresults.large_tick_hits
    }
}

fn ends_dropped(c: &OsuPerformanceCalculator) -> u32 {
    c.attrs.n_sliders - c.state.hitresults.slider_end_hits
}

fn combo_misses(c: &OsuPerformanceCalculator) -> f64 {
    let misses = f64::from(c.state.hitresults.misses);
    let combo = f64::from(c.state.max_combo);
    if c.attrs.n_sliders == 0 {
        misses
    } else if c.using_classic_slider_acc {
        let full = f64::from(c.attrs.max_combo) - 0.1 * f64::from(c.attrs.n_sliders);
        let by_combo = if combo < full { full / combo.max(1.0) } else { misses };
        let count = by_combo.min(imperfect(c));
        let breaks = c.attrs.n_sliders.min(c.attrs.max_combo.saturating_sub(c.state.max_combo) / 2);
        if count - misses > f64::from(breaks) {
            misses + f64::from(breaks)
        } else {
            count
        }
    } else {
        let full = f64::from(c.attrs.max_combo - ends_dropped(c));
        let by_combo = if combo < full { full / combo.max(1.0) } else { misses };
        by_combo.min(f64::from(tick_misses(c)) + misses)
    }
}

fn slider_breaks(c: &OsuPerformanceCalculator, factor: f64, misses: f64) -> f64 {
    let n100 = f64::from(c.state.hitresults.n100);
    if !c.using_classic_slider_acc || n100 == 0.0 {
        return 0.0;
    }
    let missed = 1.0 - f64::from(c.state.max_combo) / f64::from(c.attrs.max_combo);
    let breaks = (misses * factor).min(n100);
    let oks = ((n100 - breaks) + 0.5) / n100;
    breaks * step(misses, 1.0, 2.0) * oks * logistic(missed, 0.33, 15.0, 1.0)
}

fn deviation(c: &OsuPerformanceCalculator, great: f64, ok: f64, meh: f64) -> Option<f64> {
    if great + ok + meh <= 0.0 {
        return None;
    }
    let (w300, w100, w50) = (
        hard(c.attrs.great_hit_window),
        hard(c.attrs.ok_hit_window),
        hard(c.attrs.meh_hit_window),
    );
    let z: f64 = 2.32634787404;
    let n = (great + ok).max(1.0);
    let p = great / n;
    let low = ((n * p + z * z / 2.0) / (n + z * z)
        - z / (n + z * z) * (n * p * (1.0 - p) + z * z / 4.0).sqrt())
    .min(p);
    let inner = if low > 0.01 {
        let raw = w300 / (2.0_f64.sqrt() * erf_inv(low));
        let tail = (2.0 / std::f64::consts::PI).sqrt() * w100 * (-0.5 * (w100 / raw).powf(2.0)).exp()
            / (raw * erf(w100 / (2.0_f64.sqrt() * raw)));
        raw * (1.0 - tail).sqrt()
    } else {
        w100 / 3.0_f64.sqrt()
    };
    let variance = (w50 * w50 + w100 * w50 + w100 * w100) / 3.0;
    Some((((great + ok) * inner.powf(2.0) + meh * variance) / (great + ok + meh)).sqrt())
}

fn speed_deviation(c: &OsuPerformanceCalculator) -> Option<f64> {
    let h = c.state.hitresults;
    if h.n300 + h.n100 + h.n50 == 0 {
        return None;
    }
    let notes = hard(c.attrs.speed_note_count);
    let notes = notes + (f64::from(h.n300 + h.n100 + h.n50 + h.misses) - notes) * 0.1;
    let miss = f64::from(h.misses).min(notes);
    let meh = f64::from(h.n50).min(notes - miss);
    let ok = f64::from(h.n100).min(notes - miss - meh);
    deviation(c, (notes - miss - meh - ok).max(0.0), ok, meh)
}

fn uneven_tapping(c: &OsuPerformanceCalculator, deviation: f64) -> f64 {
    let value = rating_performance(hard(c.attrs.speed));
    let cutoff = 100.0 + 220.0 * (22.0 / deviation).powf(6.5);
    if value <= cutoff {
        return 1.0;
    }
    let adjusted = 50.0 * (((value - cutoff) / 50.0 + 1.0).ln() + cutoff / 50.0);
    let t = 1.0 - share(deviation, 22.0, 27.0);
    (adjusted + (value - adjusted) * t) / value
}

fn aim(c: &OsuPerformanceCalculator, misses: f64) -> (f64, f64) {
    if c.mods.ap && !c.mods.fl {
        return (0.0, 0.0);
    }
    let mut difficulty = hard(c.attrs.aim);
    if c.mods.ap {
        let jumps = ((hard(c.attrs.avg_jump_dist) - 80.0) / 120.0).clamp(0.0, 1.0);
        let time = hard(c.attrs.median_delta_time);
        let bpm = if time > 0.0 { 15_000.0 / time } else { 0.0 };
        difficulty *= 0.20 + 0.80 * jumps * ((bpm - 180.0) / 100.0).clamp(0.0, 1.0);
    }
    let sliders = hard(c.attrs.aim_difficult_slider_count);
    if c.attrs.n_sliders > 0 && sliders > 0.0 {
        let dropped = if c.using_classic_slider_acc {
            imperfect(c).min(f64::from(c.attrs.max_combo - c.state.max_combo))
        } else {
            f64::from(ends_dropped(c) + tick_misses(c))
        };
        let factor = hard(c.attrs.slider_factor);
        difficulty *=
            (1.0 - factor) * (1.0 - dropped.clamp(0.0, sliders) / sliders).powf(3.0) + factor;
    }
    let hits = f64::from(c.state.hitresults.total_hits());
    let acc = hard(c.acc);
    let density = hard(c.attrs.density_multiplier);
    let mut value = rating_performance(difficulty);
    value *= if density > 0.0 { density } else { 1.0 };
    value *= length_bonus(hits, acc);
    let mut breaks = 0.0;
    if misses > 0.0 {
        breaks = slider_breaks(c, hard(c.attrs.aim_top_weighted_slider_factor), misses);
        let relevant = (misses + breaks).min(imperfect(c) + f64::from(tick_misses(c)));
        value *= miss_penalty(relevant, hard(c.attrs.aim_difficult_strain_count));
        value *= low_od(relevant, hard(c.attrs.od));
    }
    if c.mods.bl {
        let hp = hard(c.attrs.hp);
        value *= 1.3
            + (hits * (0.0016 / (1.0 + 2.0 * misses)) * acc.powf(16.0)) * (1.0 - 0.003 * hp * hp);
    } else if c.mods.tc {
        value *= 1.0 + visibility_bonus(hard(c.attrs.ar), Some(hard(c.attrs.slider_factor)));
    }
    (value * acc, breaks)
}

fn speed(c: &OsuPerformanceCalculator, deviation: Option<f64>, misses: f64) -> (f64, f64) {
    let deviation = match deviation {
        Some(deviation) if !c.mods.rx => deviation,
        _ => return (0.0, 0.0),
    };
    let h = c.state.hitresults;
    let hits = f64::from(h.total_hits());
    let acc = hard(c.acc);
    let mut value = rating_performance(hard(c.attrs.speed)) * length_bonus(hits, acc);
    let mut breaks = 0.0;
    if misses > 0.0 {
        breaks = slider_breaks(c, hard(c.attrs.speed_top_weighted_slider_factor), misses);
        let relevant = (misses + breaks).min(imperfect(c) + f64::from(tick_misses(c)));
        value *= miss_penalty(relevant, hard(c.attrs.speed_difficult_strain_count));
        value *= low_od(relevant, hard(c.attrs.od));
    }
    if c.mods.bl {
        value *= 1.12;
    } else if c.mods.tc {
        value *= 1.0 + visibility_bonus(hard(c.attrs.ar), None);
    }
    value *= uneven_tapping(c, deviation);
    let notes = hard(c.attrs.speed_note_count);
    let others = (hits - notes).max(0.0);
    let n300 = (f64::from(h.n300) - others).max(0.0);
    let n100 = (f64::from(h.n100) - (others - f64::from(h.n300)).max(0.0)).max(0.0);
    let n50 = (f64::from(h.n50) - (others - f64::from(h.n300 + h.n100)).max(0.0)).max(0.0);
    let relevant =
        if notes == 0.0 { 0.0 } else { (n300 * 6.0 + n100 * 2.0 + n50) / (notes * 6.0) };
    value *= ((acc + relevant) / 2.0).powf((14.5 - hard(c.attrs.od)) / 2.0);
    (value, breaks)
}

fn accuracy(c: &OsuPerformanceCalculator) -> f64 {
    let h = c.state.hitresults;
    let timed =
        c.attrs.n_circles + if c.using_classic_slider_acc { 0 } else { c.attrs.n_sliders };
    let better = if timed > 0 {
        let others = (h.total_hits() as i32 - timed as i32).max(0);
        let points = (h.n300 as i32 - others) * 6 + h.n100 as i32 * 2 + h.n50 as i32;
        (f64::from(points) / f64::from(timed * 6)).max(0.0)
    } else {
        0.0
    };
    let mut value = 1.52163_f64.powf(hard(c.attrs.od)) * better.powf(24.0) * 2.83;
    value *= (f64::from(timed) / 1000.0).powf(0.3).min(1.15);
    if c.mods.bl {
        value *= 1.14;
    }
    value
        * if c.mods.rx {
            0.62 + 0.18 * better.powf(10.0)
        } else if c.mods.ap {
            1.0
        } else if c.mods.fl {
            1.02
        } else {
            0.75 + 0.25 * better.powf(10.0)
        }
}

fn flashlight(c: &OsuPerformanceCalculator, misses: f64) -> f64 {
    if !c.mods.fl {
        return 0.0;
    }
    let math = Math { ask: answer };
    let hits = f64::from(c.state.hitresults.total_hits());
    let memory = hard(Memory::performance_value(
        &math,
        c.attrs.memory,
        c.acc,
        soft(f64::from(c.state.max_combo)),
        soft(f64::from(c.attrs.max_combo)),
        soft(misses),
        soft(hits),
    ));
    let mut value = (flashlight_performance(hard(c.attrs.flashlight)).powf(1.1)
        + memory.powf(1.1))
    .powf(1.0 / 1.1);
    if misses > 0.0 {
        value *= 0.97 * (1.0 - (misses / hits).powf(0.775)).powf(misses.powf(0.875));
    }
    let (combo, full) = (f64::from(c.state.max_combo), f64::from(c.attrs.max_combo));
    value *= if full == 0.0 { 1.0 } else { (combo.powf(0.8) / full.powf(0.8)).min(1.0) };
    value * (0.5 + hard(c.acc) / 2.0)
}

fn consistency(c: &OsuPerformanceCalculator, misses: f64) -> f64 {
    let n50 = f64::from(c.state.hitresults.n50);
    let (od, ar) = (hard(c.attrs.od), hard(c.attrs.ar));
    let combo = f64::from(c.attrs.max_combo);
    if c.mods.rx || c.mods.ap || c.mods.nf {
        return 1.0;
    }
    let mehs = if c.mods.ez || n50 == 0.0 {
        0.0
    } else {
        let by_od =
            if od <= 1.0 { 1.0 } else { ((10.0 - od) / 9.0).powf(3.0).clamp(0.0, 1.0) };
        let by_ar = if ar >= 9.0 { 1.0 } else { ((ar - 7.0) / 2.0).max(0.0) };
        let by_combo = if combo >= 1300.0 {
            (1.0 - (combo - 1300.0) / (10000.0 - 1300.0)).clamp(0.0, 1.0)
        } else {
            1.0
        };
        n50 * by_od * by_ar * by_combo
    };
    let all = misses + mehs;
    if all <= 0.0 {
        return 1.0;
    }
    let exponent = 2.1 + 0.9 * (1.0 - (-all / 8.0).exp());
    let softening = 1.0 - 0.15 * ((combo - 1000.0) / 4000.0).clamp(0.0, 1.0);
    0.998_f64.powf(all.powf(exponent * softening)).min(1.0)
}

fn combo_tax(combo: f64, full: f64) -> f64 {
    (0.85 + 0.15 * (combo / full).clamp(0.0, 1.0).powf(0.35)).min(1.0)
}

fn miss_place(combo: f64, full: f64, misses: f64) -> f64 {
    if misses <= 0.0 {
        1.0
    } else {
        (0.75 + 0.25 * (combo / full).clamp(0.0, 1.0).powf(0.7)).clamp(0.75, 1.0)
    }
}

fn timing(strictness: f64, deviation: Option<f64>) -> f64 {
    match deviation {
        Some(deviation) => {
            let excess = ((deviation * 10.0 - 10.0).max(0.0) / 40.0).clamp(0.0, 1.0);
            (1.0 - 0.12 * strictness * excess).clamp(0.88, 1.0)
        }
        None => 1.0,
    }
}

/// What a score is worth in all, for aim, speed, accuracy and flashlight, and the
/// misses that count.
fn worth(
    c: &OsuPerformanceCalculator,
    by_score: Option<f64>,
    ap: f64,
    nf: f64,
) -> (f64, [f64; 4], f64) {
    let math = Math { ask: answer };
    let h = c.state.hitresults;
    let hits = f64::from(h.total_hits());
    let od = hard(c.attrs.od);
    let (combo, full) = (f64::from(c.state.max_combo), f64::from(c.attrs.max_combo));
    let mut misses =
        by_score.unwrap_or_else(|| combo_misses(c)).max(f64::from(h.misses)).min(hits);
    if c.mods.rx {
        let (n100, n50) = if od > 0.0 {
            (0.75 * (1.0 - od / 13.33).max(0.0), (1.0 - (od / 13.33).powf(5.0)).max(0.0))
        } else {
            (1.0, 1.0)
        };
        misses = (misses + f64::from(h.n100) * n100 + f64::from(h.n50) * n50).min(hits);
    }
    let penalty = if c.mods.rx {
        hard(rx_strain_weighted_misses(
            &c.attrs.rx_chunk_hardness,
            h.n300,
            h.n100,
            h.n50,
            h.misses,
        ))
    } else {
        misses + f64::from(h.n50) * hard(n50_effective_miss_multiplier(c.attrs.od))
    };
    let deviation = speed_deviation(c);
    let (mut a, _) = aim(c, penalty);
    let (mut s, _) = speed(c, deviation, penalty);
    let mut p = accuracy(c);
    let mut f = flashlight(c, penalty);
    let rework = hard(if c.mods.ap {
        c.attrs.speed_rework_mult_autopilot
    } else {
        c.attrs.speed_rework_mult_vanilla
    });
    s *= if rework > 0.0 { rework } else { 1.0 };
    if c.mods.rx {
        let mult = hard(relax_marathon_multiplier(
            &math,
            &c.attrs.local_sr_per_minute,
            &c.attrs.local_bpm_per_minute,
            MarathonDecayParams::default(),
        ));
        a *= mult.powf(0.92);
        f *= mult;
    }
    if c.mods.ap {
        let mult = hard(autopilot_marathon_multiplier(
            &math,
            &c.attrs.local_autopilot_sr_per_minute,
            &c.attrs.local_bpm_per_minute,
            &c.attrs.local_aim_per_minute,
            AutopilotDecayParams::default(),
        ));
        s *= mult;
        f *= mult.powf(1.2);
    }
    if !c.mods.rx && !c.mods.ap {
        let mult = hard(vanilla_marathon_multiplier(
            &math,
            &c.attrs.local_aim_per_minute,
            &c.attrs.local_sr_per_minute,
            c.attrs.max_combo,
            c.state.max_combo,
            c.acc,
            VanillaMarathonParams::default(),
        ));
        if mult > 1.0 {
            a *= mult.powf(0.88);
            s *= mult.powf(0.88);
            p *= mult.powf(0.88);
        }
    }
    let mut factors = vec![consistency(c, misses) * combo_tax(combo, full)];
    if c.mods.ap {
        factors.push(ap);
    }
    if c.mods.nf {
        factors.push(nf);
    }
    factors.push(miss_place(combo, full, misses));
    for factor in factors {
        a *= factor;
        s *= factor;
        p *= factor;
        f *= factor;
    }
    if od < 9.0 && !c.mods.rx {
        p *= 1.0 - 0.073 * (9.0 - od).min(3.0);
    }
    let ar = hard(c.attrs.ar);
    if ar > 10.1 && ar <= 10.5 && !c.mods.rx {
        a *= 1.0 - 0.06 * (1.0 - ((ar - 10.3).abs() / 0.2).min(1.0));
    }
    let (time, cs) = (hard(c.attrs.median_delta_time), hard(c.attrs.cs));
    if (176.0..=250.0).contains(&time) && (4.6..=6.4).contains(&cs) {
        let small = 1.0 - ((cs - 5.5).abs() / 0.9).min(1.0);
        let tempo = 1.0 - ((30_000.0 / time - 145.0).abs() / 25.0).min(1.0);
        a *= 1.0 - 0.10 * small * tempo;
    }
    let mut multiplier = if c.mods.rx { 1.0 } else { 0.92 };
    if c.mods.so {
        multiplier *= 1.0 - (f64::from(c.attrs.n_spinners) / hits).powf(0.85);
    }
    let mut pp = (a.powf(1.05) + s.powf(0.90) + p.powf(1.1) + f.powf(1.1)).powf(1.0 / 1.1)
        * multiplier;
    let mut last = Vec::new();
    if !c.mods.ap {
        last.push(timing(hard(c.attrs.consistency_strictness), deviation));
    }
    if c.mods.td {
        last.push(0.90);
    }
    for factor in last {
        pp *= factor;
        a *= factor;
        s *= factor;
        p *= factor;
        f *= factor;
    }
    (pp, [a, s, p, f], misses)
}

fn check(c: OsuPerformanceCalculator, by_score: Option<f64>, ap: f64, nf: f64) {
    let math = Math { ask: answer };
    let (pp, skills, misses) = worth(&c, by_score, ap, nf);
    let penalty = if c.mods.rx {
        None
    } else {
        let mehs = f64::from(c.state.hitresults.n50);
        Some(misses + mehs * hard(n50_effective_miss_multiplier(c.attrs.od)))
    };
    let by_combo = combo_misses(&c);
    let deviation = speed_deviation(&c);
    let breaks = penalty.map(|misses| (aim(&c, misses).1, speed(&c, deviation, misses).1));
    let r = c.calculate_with(&math, by_score.map(soft), soft(ap), soft(nf));
    assert_eq!(hard(r.pp), pp);
    assert_eq!(
        [hard(r.pp_aim), hard(r.pp_speed), hard(r.pp_acc), hard(r.pp_flashlight)],
        skills
    );
    assert_eq!(hard(r.effective_miss_count), misses);
    assert_eq!(hard(r.combo_based_estimated_miss_count), by_combo);
    assert_eq!(r.score_based_estimated_miss_count.map(hard), by_score);
    assert_eq!(r.speed_deviation.map(hard), deviation);
    if let Some((aim, speed)) = breaks {
        assert_eq!(hard(r.aim_estimated_slider_breaks), aim);
        assert_eq!(hard(r.speed_estimated_slider_breaks), speed);
    }
}

#[test]
fn miss_combo_multiplier_leaves_fc_untouched() {
    let math = Math { ask: answer };
    assert_eq!(
        hard(OsuPerformanceCalculator::miss_combo_multiplier(&math, 1000, 1000, soft(1.0))),
        1.0
    );
}

#[test]
fn earlier_relative_misses_are_harsher() {
    let math = Math { ask: answer };
    let early = OsuPerformanceCalculator::miss_combo_multiplier(&math, 1000, 64, soft(1.0));
    let late = OsuPerformanceCalculator::miss_combo_multiplier(&math, 1000, 900, soft(1.0));

    assert!(hard(early) < hard(late));
}

#[test]
fn no_misses_bypass_combo_scaling() {
    let math = Math { ask: answer };
    assert_eq!(
        hard(OsuPerformanceCalculator::miss_combo_multiplier(&math, 1000, 64, soft(0.0))),
        1.0
    );
}

#[test]
fn length_bonus_rewards_accuracy() {
    let math = Math { ask: answer };
    assert!(
        hard(OsuPerformanceCalculator::length_bonus(&math, soft(3000.0), soft(1.0)))
            > hard(OsuPerformanceCalculator::length_bonus(&math, soft(3000.0), soft(0.80)))
    );
}

#[test]
fn low_od_misses_are_harsher() {
    let math = Math { ask: answer };
    assert!(
        hard(OsuPerformanceCalculator::low_od_miss_multiplier(&math, soft(3.0), soft(5.0)))
            < hard(OsuPerformanceCalculator::low_od_miss_multiplier(&math, soft(3.0), soft(8.0)))
    );
}

#[test]
fn scores_without_mods() {
    check(score(NO_MODS, true), None, 1.0, 1.0);
    check(score(NO_MODS, false), None, 1.0, 1.0);
    check(score(NO_MODS, true), Some(3.7), 1.0, 1.0);
}

#[test]
fn scores_with_every_mod() {
    let mods = [
        GameMods { nf: true, ..NO_MODS },
        GameMods { ez: true, ..NO_MODS },
        GameMods { td: true, ..NO_MODS },
        GameMods { hd: true, ..NO_MODS },
        GameMods { rx: true, ..NO_MODS },
        GameMods { ap: true, ..NO_MODS },
        GameMods { fl: true, ..NO_MODS },
        GameMods { so: true, ..NO_MODS },
        GameMods { bl: true, ..NO_MODS },
        GameMods { tc: true, ..NO_MODS },
        GameMods { rx: true, fl: true, hd: true, ..NO_MODS },
        GameMods { ap: true, fl: true, td: true, ..NO_MODS },
        GameMods { nf: true, so: true, bl: true, tc: true, ..NO_MODS },
    ];
    for item in mods {
        for classic in [true, false] {
            check(score(item, classic), None, 0.81, 0.77);
        }
    }
}

#[test]
fn scores_at_the_edges() {
    for (od, ar, cs, time) in [
        (0.5, 7.0, 5.0, 200.0),
        (6.5, 8.1, 5.9, 215.0),
        (10.0, 10.2, 4.7, 180.0),
        (11.5, 10.5, 6.5, 251.0),
        (9.0, 10.1, 5.5, 0.0),
        (0.0, 3.0, 4.6, 176.0),
    ] {
        for classic in [true, false] {
            for relax in [true, false] {
                let mut c = score(GameMods { rx: relax, ..NO_MODS }, classic);
                c.attrs.od = soft(od);
                c.attrs.ar = soft(ar);
                c.attrs.cs = soft(cs);
                c.attrs.median_delta_time = soft(time);
                check(c, None, 1.0, 1.0);
            }
        }
    }
}

#[test]
fn scores_of_all_qualities() {
    for (n300, n100, n50, misses, combo) in [
        (952, 0, 0, 0, 1450),
        (940, 12, 0, 0, 1440),
        (700, 200, 40, 12, 300),
        (0, 900, 52, 0, 700),
        (0, 0, 0, 952, 0),
        (0, 0, 900, 52, 100),
        (100, 0, 0, 852, 90),
    ] {
        for classic in [true, false] {
            let mut c = score(NO_MODS, classic);
            c.state.max_combo = combo;
            c.state.hitresults.n300 = n300;
            c.state.hitresults.n100 = n100;
            c.state.hitresults.n50 = n50;
            c.state.hitresults.misses = misses;
            check(c, None, 1.0, 1.0);
        }
    }
}

#[test]
fn scores_on_odd_maps() {
    let mut c = score(NO_MODS, true);
    c.attrs.n_sliders = 0;
    c.state.hitresults.slider_end_hits = 0;
    check(c, None, 1.0, 1.0);
    let mut c = score(NO_MODS, true);
    c.attrs.n_circles = 0;
    c.attrs.speed_note_count = soft(0.0);
    c.attrs.speed_rework_mult_vanilla = soft(0.0);
    c.attrs.density_multiplier = soft(0.0);
    check(c, None, 1.0, 1.0);
    let mut c = score(NO_MODS, false);
    c.attrs.speed = soft(9.0);
    c.attrs.great_hit_window = soft(60.0);
    check(c, None, 1.0, 1.0);
    let mut c = score(NO_MODS, false);
    c.attrs.max_combo = 6000;
    c.state.max_combo = 5900;
    c.attrs.n_circles = 4000;
    c.state.hitresults.n300 = 4200;
    c.acc = soft(0.99);
    check(c, None, 1.0, 1.0);
}

#[test]
fn empty_scores_are_worth_nothing() {
    let math = Math { ask: answer };
    let mut c = score(NO_MODS, true);
    c.state.hitresults.n300 = 0;
    c.state.hitresults.n100 = 0;
    c.state.hitresults.n50 = 0;
    c.state.hitresults.misses = 0;
    let r = c.calculate_with(&math, None, soft(1.0), soft(1.0));
    assert_eq!(hard(r.pp), 0.0);
    assert_eq!(hard(r.pp_aim), 0.0);
    assert!(r.speed_deviation.is_none());
    assert_eq!(r.difficulty.max_combo, 1450);
}

#[test]
fn standalone_systems_are_asked_where_they_apply() {
    let math = Math { ask: answer };
    let mut c = score(GameMods { ap: true, nf: true, ..NO_MODS }, true);
    c.state.legacy_total_score = Some(1_000_000);
    let (pp, _, misses) = worth(&c, Some(9.5), 0.5, 0.25);
    let r = c.calculate(
        &math,
        |state, acc, mods, attrs| {
            assert_eq!(state.legacy_total_score, Some(1_000_000));
            assert_eq!(hard(acc), 0.973);
            assert!(mods.ap && mods.nf);
            assert_eq!(attrs.max_combo, 1450);
            soft(9.5)
        },
        |od, bpm, hardness, deltas, n300, n100, n50, misses, combo, full| {
            assert_eq!((hard(od), hard(bpm)), (8.2, 210.0));
            assert_eq!((hardness.len(), hard(deltas[0])), (5, 200.0));
            assert_eq!((n300, n100, n50, misses, combo, full), (920, 22, 4, 6, 900, 1450));
            soft(0.5)
        },
        |full, combo, misses, hits, objects, acc, hp| {
            assert_eq!((full, combo, misses, hits, objects), (1450, 900, 6, 952, 952));
            assert_eq!((hard(acc), hard(hp)), (0.973, 5.5));
            soft(0.25)
        },
    );
    assert_eq!(hard(r.pp), pp);
    assert_eq!(hard(r.effective_miss_count), misses);
    assert_eq!(r.score_based_estimated_miss_count.map(hard), Some(9.5));
}

#[test]
fn standalone_systems_are_not_asked_elsewhere() {
    let math = Math { ask: answer };
    let c = score(NO_MODS, true);
    let (pp, _, _) = worth(&c, None, 1.0, 1.0);
    let r = c.calculate(
        &math,
        |_, _, _, _| panic!("no total score"),
        |_, _, _, _, _, _, _, _, _, _| panic!("no Autopilot"),
        |_, _, _, _, _, _, _| panic!("no NoFail"),
    );
    assert_eq!(hard(r.pp), pp);
}

#[test]
fn mehs_count_less_on_strict_maps() {
    let multiplier = |od: f64| hard(n50_effective_miss_multiplier(soft(od)));
    assert_eq!(multiplier(0.0), 1.0);
    assert_eq!(multiplier(1.0), 1.0);
    assert_eq!(multiplier(4.0), 1.0 - 3.0 / 6.0 * 0.5);
    assert_eq!(multiplier(7.0), 0.5);
    assert_eq!(multiplier(10.0), 0.25);
    assert_eq!(multiplier(11.0), 0.25 * (1.0 - 1.0 / 3.33));
    assert_eq!(multiplier(20.0), 0.0);
}

#[test]
fn full_combos_are_not_taxed() {
    let math = Math { ask: answer };
    let mut c = score(NO_MODS, true);
    assert_eq!(hard(c.combo_ratio_tax(&math)), combo_tax(900.0, 1450.0));
    c.state.max_combo = 1450;
    assert_eq!(hard(c.combo_ratio_tax(&math)), 1.0);
    c.attrs.max_combo = 0;
    assert_eq!(hard(c.combo_ratio_tax(&math)), 1.0);
}

#[test]
fn timing_takes_up_to_an_eighth() {
    let multiplier = |strictness: f64, deviation: Option<f64>| {
        hard(OsuPerformanceCalculator::calculate_consistency_multiplier(
            soft(strictness),
            deviation.map(soft),
        ))
    };
    assert_eq!(multiplier(1.0, None), 1.0);
    assert_eq!(multiplier(1.0, Some(0.9)), 1.0);
    assert_eq!(multiplier(1.0, Some(40.0)), 0.88);
    assert_eq!(multiplier(0.5, Some(3.0)), 1.0 - 0.12 * 0.5 * (20.0 / 40.0));
}

#[test]
fn lenient_timing_is_bounded() {
    let math = Math { ask: answer };
    let multiplier = |misses: f64, od: f64| {
        hard(OsuPerformanceCalculator::low_od_miss_multiplier(&math, soft(misses), soft(od)))
    };
    assert_eq!(multiplier(3.0, 5.0), (1.0 - 0.14 * (2.0 / 7.0_f64)).powf(3.0));
    assert_eq!(multiplier(100.0, 0.0), 0.30);
    assert_eq!(multiplier(0.0, 0.0), 1.0);
    assert_eq!(multiplier(9.0, 7.0), 1.0);
}

#[test]
fn mehs_count_by_timing_reading_and_combo() {
    let math = Math { ask: answer };
    let count = |od: f64, ar: f64, combo: u32, mods: GameMods| {
        let mut c = score(mods, true);
        c.attrs.od = soft(od);
        c.attrs.ar = soft(ar);
        c.attrs.max_combo = combo;
        hard(c.n50_misses(&math))
    };
    assert_eq!(count(1.0, 9.0, 1000, NO_MODS), 4.0);
    assert_eq!(count(10.0, 9.0, 1000, NO_MODS), 0.0);
    assert_eq!(count(1.0, 8.0, 1000, NO_MODS), 2.0);
    assert_eq!(count(1.0, 6.9, 1000, NO_MODS), 0.0);
    assert_eq!(count(1.0, 9.0, 10_000, NO_MODS), 0.0);
    assert_eq!(count(1.0, 9.0, 1300, NO_MODS), 4.0);
    assert_eq!(count(5.0, 9.0, 1000, NO_MODS), 4.0 * (5.0 / 9.0_f64).powf(3.0));
    assert_eq!(count(1.0, 9.0, 1000, GameMods { ez: true, ..NO_MODS }), 0.0);
    assert_eq!(count(1.0, 9.0, 1000, GameMods { nf: true, ..NO_MODS }), 0.0);
}

#[test]
fn mods_leave_skills_out() {
    let math = Math { ask: answer };
    let zero = (0.0, 0.0);
    let relaxed = score(GameMods { rx: true, ..NO_MODS }, true);
    let (speed, breaks) = relaxed.compute_speed_value(&math, Some(soft(9.0)), soft(3.0));
    assert_eq!((hard(speed), hard(breaks)), zero);
    let piloted = score(GameMods { ap: true, ..NO_MODS }, true);
    let (aim, breaks) = piloted.compute_aim_value(&math, soft(3.0));
    assert_eq!((hard(aim), hard(breaks)), zero);
    let hidden = score(GameMods { ap: true, fl: true, ..NO_MODS }, true);
    assert!(hard(hidden.compute_aim_value(&math, soft(3.0)).0) > 0.0);
    assert_eq!(hard(piloted.compute_flashlight_value(&math, soft(3.0))), 0.0);
    assert!(hard(hidden.compute_flashlight_value(&math, soft(3.0))) > 0.0);
}

#[test]
fn touch_devices_cost_a_tenth() {
    let math = Math { ask: answer };
    for mods in [NO_MODS, GameMods { rx: true, ..NO_MODS }, GameMods { fl: true, ..NO_MODS }] {
        let free = score(mods, true).calculate_with(&math, None, soft(1.0), soft(1.0));
        let touched = score(GameMods { td: true, ..mods }, true).calculate_with(
            &math,
            None,
            soft(1.0),
            soft(1.0),
        );
        assert_eq!(hard(touched.pp), hard(free.pp) * 0.9);
        assert_eq!(hard(touched.pp_aim), hard(free.pp_aim) * 0.9);
        assert_eq!(hard(touched.pp_speed), hard(free.pp_speed) * 0.9);
        assert_eq!(hard(touched.pp_acc), hard(free.pp_acc) * 0.9);
        assert_eq!(hard(touched.pp_flashlight), hard(free.pp_flashlight) * 0.9);
        assert_eq!(hard(touched.effective_miss_count), hard(free.effective_miss_count));
    }
}

#[test]
fn standalone_factors_need_their_mods() {
    let math = Math { ask: answer };
    let worth = |mods: GameMods, ap: f64, nf: f64| {
        hard(score(mods, true).calculate_with(&math, None, soft(ap), soft(nf)).pp)
    };
    assert_eq!(worth(NO_MODS, 0.5, 0.5), worth(NO_MODS, 1.0, 1.0));
    let piloted = GameMods { ap: true, ..NO_MODS };
    assert_eq!(worth(piloted, 0.5, 0.5), worth(piloted, 0.5, 1.0));
    assert!(worth(piloted, 0.5, 1.0) < worth(piloted, 1.0, 1.0));
    let unfailing = GameMods { nf: true, ..NO_MODS };
    assert_eq!(worth(unfailing, 0.5, 0.5), worth(unfailing, 1.0, 0.5));
    assert!(worth(unfailing, 1.0, 0.5) < worth(unfailing, 1.0, 1.0));
}

#[test]
fn empty_scores_ask_for_nothing() {
    let math = Math { ask: answer };
    let mut c = score(GameMods { ap: true, nf: true, ..NO_MODS }, false);
    c.state.legacy_total_score = Some(1);
    c.state.max_combo = 5000;
    c.state.hitresults = OsuHitResults {
        large_tick_hits: 999,
        slider_end_hits: 999,
        n300: 0,
        n100: 0,
        n50: 0,
        misses: 0,
    };
    let r = c.calculate(
        &math,
        |_, _, _, _| panic!(),
        |_, _, _, _, _, _, _, _, _, _| panic!(),
        |_, _, _, _, _, _, _| panic!(),
    );
    assert_eq!(hard(r.pp), 0.0);
    assert_eq!(hard(r.combo_based_estimated_miss_count), 0.0);
}

#[test]
fn slider_ends_count_only_where_there_are_sliders() {
    let mut c = score(NO_MODS, false);
    c.attrs.n_sliders = 0;
    c.state.hitresults.slider_end_hits = 7;
    check(c, None, 1.0, 1.0);
    let mut c = score(NO_MODS, true);
    c.attrs.n_sliders = 0;
    c.state.max_combo = 2000;
    check(c, None, 1.0, 1.0);
}

#[test]
fn ticks_count_only_beside_misses() {
    let mut c = score(NO_MODS, false);
    c.attrs.n_sliders = 0;
    c.state.hitresults.large_tick_hits = 99;
    c.state.hitresults.misses = 0;
    c.state.hitresults.n50 = 0;
    check(c, None, 1.0, 1.0);
}

#[test]
fn slider_breaks_fit_beside_the_misses() {
    let mut c = score(NO_MODS, true);
    c.attrs.n_sliders = u32::MAX;
    c.attrs.max_combo = u32::MAX;
    c.state.max_combo = 0;
    c.state.hitresults.n300 = 0;
    c.state.hitresults.n100 = 0;
    c.state.hitresults.n50 = 0;
    c.state.hitresults.misses = u32::MAX;
    assert_eq!(hard(c.calculate_combo_based_estimated_miss_count()), combo_misses(&c));
    c.state.hitresults.misses = 1000;
    c.state.hitresults.n100 = u32::MAX - 1000;
    assert_eq!(hard(c.calculate_combo_based_estimated_miss_count()), combo_misses(&c));
}
