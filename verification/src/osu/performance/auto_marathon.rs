//! The decay of repetitive maps under Autopilot.
use vstd::prelude::*;
use vstd::slice::slice_subrange;

use crate::double::Double;
use crate::lists::{total, values};
use crate::operators::{ratio, whole};
use crate::order::{
    finite, lemma_clamped, lemma_greater, lemma_held, lemma_inside, lemma_left_of_one,
    lemma_lesser, lemma_minus, lemma_nan, lemma_near_place, lemma_near_places, lemma_nothing,
    lemma_one, lemma_order, lemma_over, lemma_over_more, lemma_over_one, lemma_plus, lemma_proper,
    lemma_settle_fits, lemma_share_times, lemma_times_one, lemma_times_share, lemma_whole_place,
    number, place, proper,
};
use crate::osu::difficulty::object::OsuDifficultyObject;
use crate::osu::performance::peaks::{
    as_section, lemma_values_subrange, minute_end, minute_of, minutes, minutes_of,
    partition_sections, sections_of, star_from_peaks, star_from_peaks_of, SUBSECTIONS_PER_MINUTE,
};
use crate::osu::performance::relax_marathon::lemma_own_share;
use crate::query::{optional, Math, Query, Table};
use crate::value::{exactly, near, one_units, Value};

verus! {

/// How the value of a repetitive map decays under Autopilot.
#[derive(Clone, Copy, Debug)]
pub struct AutopilotDecayParams {
    /// How far, in stars, minutes may be apart to count as repeated; the tempo
    /// decides instead.
    pub tau: Double,
    /// How far, in beats per minute, minutes may be apart to count as repeated.
    pub bpm_tau: Double,
    /// The scale of the decay.
    pub b: Double,
    /// The exponent of the decay.
    pub q: Double,
    /// The number of minutes after which the decay would grow.
    pub double_at: u32,
}

/// The same over values.
pub struct AutopilotDecay {
    pub tau: Value,
    pub bpm_tau: Value,
    pub b: Value,
    pub q: Value,
    pub double_at: u32,
}

impl AutopilotDecay {
    /// The decay that scores are rated with.
    pub open spec fn standard() -> AutopilotDecay {
        AutopilotDecay {
            tau: exactly(4),
            bpm_tau: exactly(5),
            b: near(5, 100),
            q: near(135, 100),
            double_at: 3,
        }
    }
}

impl View for AutopilotDecayParams {
    type V = AutopilotDecay;

    open spec fn view(&self) -> AutopilotDecay {
        AutopilotDecay {
            tau: self.tau@,
            bpm_tau: self.bpm_tau@,
            b: self.b@,
            q: self.q@,
            double_at: self.double_at,
        }
    }
}

impl Default for AutopilotDecayParams {
    fn default() -> (r: Self)
        ensures
            r@ == AutopilotDecay::standard(),
    {
        AutopilotDecayParams {
            tau: whole(4),
            bpm_tau: whole(5),
            b: ratio(5, 100),
            q: ratio(135, 100),
            double_at: 3,
        }
    }
}

/// What the value of a minute is divided by after `r` minutes like it; a high
/// tempo lessens it, and more so the longer it lasts.
pub open spec fn decay_divisor_of(
    t: Table,
    r: nat,
    average_bpm: Value,
    p: AutopilotDecay,
) -> Value {
    let base_bpm_factor = t.exp((exactly(360) - average_bpm) * near(1, 100)).clamped(
        near(3, 10),
        exactly(4),
    );
    let streak_factor = if exactly(365).below(average_bpm) {
        t.exp(exactly(r).negated() * near(8, 100))
    } else {
        exactly(1)
    };
    let bpm_factor = base_bpm_factor * streak_factor;
    exactly(1) + p.b * t.power(exactly(r), p.q) * bpm_factor
}

/// What the value of a minute is divided by after `r` minutes like it; a high
/// tempo lessens it, and more so the longer it lasts.
pub fn decay_divisor<F: Fn(Query<Double>) -> Double>(
    math: &Math<F>,
    r: u32,
    average_bpm: Double,
    p: AutopilotDecayParams,
) -> (divisor: Double)
    requires
        math.sound(),
    ensures
        divisor@ == decay_divisor_of(math@, r as nat, average_bpm@, p@),
{
    let base_bpm_factor = math.exp((whole(360) - average_bpm) * ratio(1, 100)).clamped(
        ratio(3, 10),
        whole(4),
    );
    let streak_factor = if whole(365).below(average_bpm) {
        math.exp(whole(r as u64).negated() * ratio(8, 100))
    } else {
        whole(1)
    };
    let bpm_factor = base_bpm_factor * streak_factor;
    whole(1) + p.b * math.power(whole(r as u64), p.q) * bpm_factor
}

/// The stars of each section of a minute.
pub open spec fn subsection_star_ratings_of(t: Table, peaks: Seq<Value>) -> Seq<Value> {
    let sections = sections_of(peaks.len(), 4);
    Seq::new(
        sections.len(),
        |k: int|
            star_from_peaks_of(
                t,
                peaks.subrange(sections[k].0 as int, sections[k].1 as int),
            ),
    )
}

/// The stars of each section of a minute.
fn subsection_star_ratings<F: Fn(Query<Double>) -> Double>(
    math: &Math<F>,
    peaks: &[Double],
) -> (r: Vec<Double>)
    requires
        math.sound(),
    ensures
        values(r@) == subsection_star_ratings_of(math@, values(peaks@)),
{
    let sections = partition_sections(peaks.len(), SUBSECTIONS_PER_MINUTE);
    let ghost all = subsection_star_ratings_of(math@, values(peaks@));
    let mut stars: Vec<Double> = Vec::new();
    let mut k: usize = 0;
    while k < sections.len()
        invariant
            math.sound(),
            k <= sections@.len(),
            sections@.map_values(|p: (usize, usize)| as_section(p)) == sections_of(
                peaks@.len(),
                4,
            ),
            forall|i: int|
                0 <= i < sections@.len() ==> (#[trigger] sections@[i]).0 <= sections@[i].1
                    <= peaks@.len(),
            all == subsection_star_ratings_of(math@, values(peaks@)),
            stars@.len() == k,
            forall|i: int| 0 <= i < k ==> (#[trigger] stars@[i])@ == all[i],
        decreases sections@.len() - k,
    {
        let (start, end): (usize, usize) = sections[k];
        proof {
            let mapped = sections@.map_values(|p: (usize, usize)| as_section(p));
            assert(mapped[k as int] == (start as nat, end as nat));
            lemma_values_subrange(peaks@, start as int, end as int);
        }
        stars.push(star_from_peaks(math, slice_subrange(peaks, start, end)));
        k = k + 1;
    }
    proof {
        assert(sections@.map_values(|p: (usize, usize)| as_section(p)).len() == sections@.len());
        assert(values(stars@) =~= all);
    }
    stars
}

/// The stars of each minute of a list of strain peaks, rated in sections.
pub open spec fn stars_per_minute_of(t: Table, peaks: Seq<Value>) -> Seq<Value> {
    Seq::new(
        minutes_of(peaks.len()),
        |k: int|
            star_from_peaks_of(t, subsection_star_ratings_of(t, minute_of(peaks, k as nat))),
    )
}

/// The stars of each minute of a list of strain peaks, rated in sections.
fn stars_per_minute<F: Fn(Query<Double>) -> Double>(math: &Math<F>, peaks: &[Double]) -> (r: Vec<
    Double,
>)
    requires
        math.sound(),
    ensures
        values(r@) == stars_per_minute_of(math@, values(peaks@)),
{
    let n_minutes: usize = minutes(peaks.len());
    let ghost all = stars_per_minute_of(math@, values(peaks@));
    let mut out: Vec<Double> = Vec::new();
    let mut k: usize = 0;
    while k < n_minutes
        invariant
            math.sound(),
            k <= n_minutes == minutes_of(peaks@.len()),
            all == stars_per_minute_of(math@, values(peaks@)),
            out@.len() == k,
            forall|i: int| 0 <= i < k ==> (#[trigger] out@[i])@ == all[i],
        decreases n_minutes - k,
    {
        let end: usize = minute_end(peaks.len(), k);
        let start: usize = k * 150;
        proof {
            lemma_values_subrange(peaks@, start as int, end as int);
        }
        let stars = subsection_star_ratings(math, slice_subrange(peaks, start, end));
        out.push(star_from_peaks(math, stars.as_slice()));
        k = k + 1;
    }
    proof {
        assert(values(out@) =~= all);
    }
    out
}

/// The stars of each minute by the peaks of the speed strain.
pub fn local_sr_per_minute<F: Fn(Query<Double>) -> Double>(
    math: &Math<F>,
    strains_speed: &[Double],
) -> (r: Vec<Double>)
    requires
        math.sound(),
    ensures
        values(r@) == stars_per_minute_of(math@, values(strains_speed@)),
{
    stars_per_minute(math, strains_speed)
}

/// The stars of each minute by the peaks of the aim strain.
pub fn local_aim_per_minute<F: Fn(Query<Double>) -> Double>(
    math: &Math<F>,
    strains_aim: &[Double],
) -> (r: Vec<Double>)
    requires
        math.sound(),
    ensures
        values(r@) == stars_per_minute_of(math@, values(strains_aim@)),
{
    stars_per_minute(math, strains_aim)
}

/// Whether a time lies in minute `k`.
pub open spec fn in_minute_of(time: Value, k: nat) -> bool {
    (exactly(k) * exactly(60_000)).at_most(time) && time.below(exactly(k + 1) * exactly(60_000))
}

/// Whether a time lies in minute `k`.
fn in_minute(time: Double, k: usize) -> (r: bool)
    requires
        k < usize::MAX,
    ensures
        r == in_minute_of(time@, k as nat),
{
    (whole(k as u64) * whole(60_000)).at_most(time) && time.below(
        whole((k + 1) as u64) * whole(60_000),
    )
}

/// The sum of the times between the objects of minute `k`, and how many there
/// are, among the first `n`.
pub open spec fn minute_gaps_of(
    objects: Seq<OsuDifficultyObject>,
    delta_times: Seq<Value>,
    k: nat,
    n: nat,
) -> (Value, nat)
    decreases n,
{
    if n == 0 {
        (exactly(0), 0)
    } else {
        let (sum, count) = minute_gaps_of(objects, delta_times, k, (n - 1) as nat);
        if in_minute_of(objects[n - 1].base_start_time@, k) {
            (sum + delta_times[n - 1], count + 1)
        } else {
            (sum, count)
        }
    }
}

/// The number of minutes up to the last object, at least one.
pub open spec fn map_minutes_of(objects: Seq<OsuDifficultyObject>) -> nat {
    let n = if objects.len() == 0 {
        0
    } else {
        (objects.last().base_start_time@ / exactly(60_000)).ceiling()
    };
    if n > 1 {
        n
    } else {
        1
    }
}

/// The tempo of minute `k`, zero where nothing happens.
pub open spec fn minute_bpm_of(
    objects: Seq<OsuDifficultyObject>,
    delta_times: Seq<Value>,
    k: nat,
) -> Value {
    let (sum, count) = minute_gaps_of(objects, delta_times, k, objects.len());
    if count > 0 {
        exactly(30_000) / (sum / exactly(count))
    } else {
        exactly(0)
    }
}

/// The tempo of every minute of a map.
pub open spec fn local_bpm_per_minute_of(
    objects: Seq<OsuDifficultyObject>,
    delta_times: Seq<Value>,
) -> Seq<Value> {
    Seq::new(map_minutes_of(objects), |k: int| minute_bpm_of(objects, delta_times, k as nat))
}

/// The tempo of minute `k`, zero where nothing happens.
fn minute_bpm(objects: &[OsuDifficultyObject], delta_times: &[Double], k: usize) -> (r: Double)
    requires
        k < usize::MAX,
        forall|i: int|
            0 <= i < objects@.len() && in_minute_of(
                (#[trigger] objects@[i]).base_start_time@,
                k as nat,
            ) ==> i < delta_times@.len(),
    ensures
        r@ == minute_bpm_of(objects@, values(delta_times@), k as nat),
{
    let mut sum_delta = whole(0);
    let mut count: usize = 0;
    let mut i: usize = 0;
    while i < objects.len()
        invariant
            k < usize::MAX,
            forall|i: int|
                0 <= i < objects@.len() && in_minute_of(
                    (#[trigger] objects@[i]).base_start_time@,
                    k as nat,
                ) ==> i < delta_times@.len(),
            i <= objects@.len(),
            count <= i,
            (sum_delta@, count as nat) == minute_gaps_of(
                objects@,
                values(delta_times@),
                k as nat,
                i as nat,
            ),
        decreases objects@.len() - i,
    {
        if in_minute(objects[i].base_start_time, k) {
            sum_delta = sum_delta + delta_times[i];
            count = count + 1;
        }
        i = i + 1;
    }
    if count > 0 {
        whole(30_000) / (sum_delta / whole(count as u64))
    } else {
        whole(0)
    }
}

/// The tempo of every minute of a map.
pub fn compute_local_bpm_per_minute(
    diff_objects: &[OsuDifficultyObject],
    delta_times: &[Double],
) -> (r: Vec<Double>)
    requires
        forall|i: int, k: nat|
            0 <= i < diff_objects@.len() && k < map_minutes_of(diff_objects@)
                && #[trigger] in_minute_of(diff_objects@[i].base_start_time@, k) ==> i
                < delta_times@.len(),
    ensures
        values(r@) == local_bpm_per_minute_of(diff_objects@, values(delta_times@)),
{
    let reached: usize = if diff_objects.len() == 0 {
        0
    } else {
        (diff_objects[diff_objects.len() - 1].base_start_time / whole(60_000)).ceiling()
    };
    let n_minutes: usize = if reached > 1 {
        reached
    } else {
        1
    };
    let ghost all = local_bpm_per_minute_of(diff_objects@, values(delta_times@));
    let mut out: Vec<Double> = Vec::new();
    let mut k: usize = 0;
    while k < n_minutes
        invariant
            forall|i: int, k: nat|
                0 <= i < diff_objects@.len() && k < map_minutes_of(diff_objects@)
                    && #[trigger] in_minute_of(diff_objects@[i].base_start_time@, k) ==> i
                    < delta_times@.len(),
            k <= n_minutes == map_minutes_of(diff_objects@),
            all == local_bpm_per_minute_of(diff_objects@, values(delta_times@)),
            out@.len() == k,
            forall|i: int| 0 <= i < k ==> (#[trigger] out@[i])@ == all[i],
        decreases n_minutes - k,
    {
        out.push(minute_bpm(diff_objects, delta_times, k));
        k = k + 1;
    }
    proof {
        assert(values(out@) =~= all);
    }
    out
}

/// Where a walk over the minutes of a map stands, over numbers of type `T` and
/// counts of type `N`.
pub struct Walk<T, N> {
    /// The minutes like this one before it.
    pub r: N,
    /// The weighted stars so far.
    pub weighted: T,
    /// The stars so far.
    pub total: T,
    /// The tempos of the minutes like this one, added up.
    pub sum_bpm: T,
    /// Their number.
    pub count: N,
    /// The slow minutes of hard aim in a row.
    pub low_bpm_aim_streak: N,
    /// The balanced minutes in a row.
    pub balanced_streak: N,
    /// The best bonus for balance.
    pub best_bonus: T,
    /// The stars of the minute before.
    pub previous_sr: T,
}

impl View for Walk<Double, u32> {
    type V = Walk<Value, nat>;

    open spec fn view(&self) -> Walk<Value, nat> {
        Walk {
            r: self.r as nat,
            weighted: self.weighted@,
            total: self.total@,
            sum_bpm: self.sum_bpm@,
            count: self.count as nat,
            low_bpm_aim_streak: self.low_bpm_aim_streak as nat,
            balanced_streak: self.balanced_streak as nat,
            best_bonus: self.best_bonus@,
            previous_sr: self.previous_sr@,
        }
    }
}

/// One minute of the walk: `last_bpm` is the tempo of the minute before, where
/// there is one.
pub open spec fn walk_minute_of(
    t: Table,
    walk: Walk<Value, nat>,
    sr: Value,
    bpm: Value,
    aim: Value,
    last_bpm: Option<Value>,
    p: AutopilotDecay,
) -> Walk<Value, nat> {
    let repeated = match last_bpm {
        Some(last_bpm) => (bpm - last_bpm).absolute().at_most(p.bpm_tau),
        None => false,
    };
    let r = if repeated {
        walk.r + 1
    } else {
        0
    };
    let sum_bpm = if repeated {
        walk.sum_bpm + bpm
    } else {
        bpm
    };
    let count = if repeated {
        walk.count + 1
    } else {
        1
    };
    let average_bpm = sum_bpm / exactly(count);
    let aim_ratio = if exactly(0).below(sr) {
        aim / sr
    } else {
        exactly(0)
    };
    let lambda = exactly(1) / decay_divisor_of(t, r, average_bpm, p);
    let aim_heavy = average_bpm.at_most(exactly(360)) && near(7, 10).below(aim_ratio);
    let low_bpm_aim_streak = if aim_heavy {
        walk.low_bpm_aim_streak + 1
    } else {
        0
    };
    let weight = if aim_heavy {
        lambda * aim_heavy_factor_of(low_bpm_aim_streak)
    } else {
        lambda
    };
    let balanced = exactly(3).at_most(sr) && exactly(3).at_most(aim) && near(7, 10).at_most(
        aim_ratio,
    ) && aim_ratio.at_most(near(13, 10)) && (last_bpm is None || (walk.previous_sr * near(
        75,
        100,
    )).at_most(sr));
    let balanced_streak = if balanced {
        walk.balanced_streak + 1
    } else {
        0
    };
    Walk {
        r,
        weighted: walk.weighted + sr * weight,
        total: walk.total + sr,
        sum_bpm,
        count,
        low_bpm_aim_streak,
        balanced_streak,
        best_bonus: if balanced {
            walk.best_bonus.greater(balance_bonus_of(balanced_streak))
        } else {
            walk.best_bonus
        },
        previous_sr: sr,
    }
}

/// How much of a slow minute of hard aim counts after a streak of them.
pub open spec fn aim_heavy_factor_of(streak: nat) -> Value {
    let streak_t = exactly(if streak < 3 {
        streak
    } else {
        3
    }) / exactly(3);
    let extra_decay = near(10, 100) + near(15, 100) * streak_t;
    exactly(1) - extra_decay.clamped(exactly(0), near(30, 100))
}

/// How much of a slow minute of hard aim counts after a streak of them.
fn aim_heavy_factor(streak: u32) -> (r: Double)
    ensures
        r@ == aim_heavy_factor_of(streak as nat),
{
    let streak_t = whole(if streak < 3 {
        streak as u64
    } else {
        3
    }) / whole(3);
    let extra_decay = ratio(10, 100) + ratio(15, 100) * streak_t;
    whole(1) - extra_decay.clamped(whole(0), ratio(30, 100))
}

/// The bonus for a streak of balanced minutes.
pub open spec fn balance_bonus_of(streak: nat) -> Value {
    let beyond = exactly(if streak > 2 {
        (streak - 2) as nat
    } else {
        0
    });
    (exactly(1) + near(1, 100) * beyond).lesser(near(108, 100))
}

/// The bonus for a streak of balanced minutes.
fn balance_bonus(streak: u32) -> (r: Double)
    ensures
        r@ == balance_bonus_of(streak as nat),
{
    let beyond = whole(if streak > 2 {
        (streak - 2) as u64
    } else {
        0
    });
    (whole(1) + ratio(1, 100) * beyond).lesser(ratio(108, 100))
}

/// One minute of the walk: `last_bpm` is the tempo of the minute before, where
/// there is one.
fn walk_minute<F: Fn(Query<Double>) -> Double>(
    math: &Math<F>,
    walk: Walk<Double, u32>,
    sr: Double,
    bpm: Double,
    aim: Double,
    last_bpm: Option<Double>,
    p: AutopilotDecayParams,
) -> (next: Walk<Double, u32>)
    requires
        math.sound(),
        walk.r < u32::MAX,
        walk.count < u32::MAX,
        walk.low_bpm_aim_streak < u32::MAX,
        walk.balanced_streak < u32::MAX,
    ensures
        next@ == walk_minute_of(math@, walk@, sr@, bpm@, aim@, optional(last_bpm), p@),
{
    let repeated: bool = match last_bpm {
        Some(last_bpm) => (bpm - last_bpm).absolute().at_most(p.bpm_tau),
        None => false,
    };
    let r: u32 = if repeated {
        walk.r + 1
    } else {
        0
    };
    let sum_bpm = if repeated {
        walk.sum_bpm + bpm
    } else {
        bpm
    };
    let count: u32 = if repeated {
        walk.count + 1
    } else {
        1
    };
    let average_bpm = sum_bpm / whole(count as u64);
    let aim_ratio = if whole(0).below(sr) {
        aim / sr
    } else {
        whole(0)
    };
    let lambda = whole(1) / decay_divisor(math, r, average_bpm, p);
    let aim_heavy: bool = average_bpm.at_most(whole(360)) && ratio(7, 10).below(aim_ratio);
    let low_bpm_aim_streak: u32 = if aim_heavy {
        walk.low_bpm_aim_streak + 1
    } else {
        0
    };
    let weight = if aim_heavy {
        lambda * aim_heavy_factor(low_bpm_aim_streak)
    } else {
        lambda
    };
    let steady: bool = match last_bpm {
        Some(_) => (walk.previous_sr * ratio(75, 100)).at_most(sr),
        None => true,
    };
    let balanced: bool = whole(3).at_most(sr) && whole(3).at_most(aim) && ratio(7, 10).at_most(
        aim_ratio,
    ) && aim_ratio.at_most(ratio(13, 10)) && steady;
    let balanced_streak: u32 = if balanced {
        walk.balanced_streak + 1
    } else {
        0
    };
    Walk {
        r,
        weighted: walk.weighted + sr * weight,
        total: walk.total + sr,
        sum_bpm,
        count,
        low_bpm_aim_streak,
        balanced_streak,
        best_bonus: if balanced {
            walk.best_bonus.greater(balance_bonus(balanced_streak))
        } else {
            walk.best_bonus
        },
        previous_sr: sr,
    }
}

/// The walk over the first `n` minutes.
pub open spec fn walk_of(
    t: Table,
    local_sr: Seq<Value>,
    local_bpm: Seq<Value>,
    local_aim: Seq<Value>,
    p: AutopilotDecay,
    n: nat,
) -> Walk<Value, nat>
    decreases n,
{
    if n == 0 {
        Walk {
            r: 0,
            weighted: exactly(0),
            total: exactly(0),
            sum_bpm: exactly(0),
            count: 0,
            low_bpm_aim_streak: 0,
            balanced_streak: 0,
            best_bonus: exactly(1),
            previous_sr: local_sr[0],
        }
    } else {
        walk_minute_of(
            t,
            walk_of(t, local_sr, local_bpm, local_aim, p, (n - 1) as nat),
            local_sr[n - 1],
            local_bpm[n - 1],
            local_aim[n - 1],
            if n > 1 {
                Some(local_bpm[n - 2])
            } else {
                None
            },
            p,
        )
    }
}

/// What the walk over `n` minutes ends in: the share of the stars that is kept,
/// less of a loss for balance and for length.
pub open spec fn kept_share_of(weighted: Value, total: Value, best_bonus: Value, n: nat) -> Value {
    let kept = if exactly(0).below(total) {
        (weighted / total).clamped(exactly(0), exactly(1))
    } else {
        exactly(1)
    };
    let balanced = if exactly(1).below(best_bonus) {
        exactly(1) - (exactly(1) - kept) / best_bonus
    } else {
        kept
    };
    if n > 2 {
        let length_softener = ((exactly(n) - exactly(2))
            / exactly(8)).clamped(exactly(0), exactly(1));
        let nerf_reduction = near(10, 100) * length_softener;
        exactly(1) - (exactly(1) - balanced) * (exactly(1) - nerf_reduction)
    } else {
        balanced
    }
}

/// What the walk over `n` minutes ends in: the share of the stars that is kept,
/// less of a loss for balance and for length.
fn kept_share(weighted: Double, total: Double, best_bonus: Double, n: usize) -> (r: Double)
    ensures
        r@ == kept_share_of(weighted@, total@, best_bonus@, n as nat),
{
    let kept = if whole(0).below(total) {
        (weighted / total).clamped(whole(0), whole(1))
    } else {
        whole(1)
    };
    let balanced = if whole(1).below(best_bonus) {
        whole(1) - (whole(1) - kept) / best_bonus
    } else {
        kept
    };
    if n > 2 {
        let length_softener = ((whole(n as u64) - whole(2)) / whole(8)).clamped(whole(0), whole(1));
        let nerf_reduction = ratio(10, 100) * length_softener;
        whole(1) - (whole(1) - balanced) * (whole(1) - nerf_reduction)
    } else {
        balanced
    }
}

/// How much of a score under Autopilot remains on a map that repeats itself for
/// minutes.
pub open spec fn autopilot_marathon_multiplier_of(
    t: Table,
    local_sr: Seq<Value>,
    local_bpm: Seq<Value>,
    local_aim: Seq<Value>,
    p: AutopilotDecay,
) -> Value {
    if local_sr.len() < 2 || local_sr.len() != local_bpm.len() || local_sr.len()
        != local_aim.len() {
        exactly(1)
    } else {
        let walk = walk_of(t, local_sr, local_bpm, local_aim, p, local_sr.len());
        kept_share_of(walk.weighted, walk.total, walk.best_bonus, local_sr.len())
    }
}

/// How much of a score under Autopilot remains on a map that repeats itself for
/// minutes.
pub fn autopilot_marathon_multiplier<F: Fn(Query<Double>) -> Double>(
    math: &Math<F>,
    local_sr: &[Double],
    local_bpm: &[Double],
    local_aim: &[Double],
    params: AutopilotDecayParams,
) -> (r: Double)
    requires
        math.sound(),
        local_sr@.len() <= i32::MAX,
    ensures
        r@ == autopilot_marathon_multiplier_of(
            math@,
            values(local_sr@),
            values(local_bpm@),
            values(local_aim@),
            params@,
        ),
{
    if local_sr.len() < 2 || local_sr.len() != local_bpm.len() || local_sr.len()
        != local_aim.len() {
        return whole(1);
    }
    let mut walk: Walk<Double, u32> = Walk {
        r: 0,
        weighted: whole(0),
        total: whole(0),
        sum_bpm: whole(0),
        count: 0,
        low_bpm_aim_streak: 0,
        balanced_streak: 0,
        best_bonus: whole(1),
        previous_sr: local_sr[0],
    };
    let mut k: usize = 0;
    while k < local_sr.len()
        invariant
            math.sound(),
            2 <= local_sr@.len() <= i32::MAX,
            k <= local_sr@.len() == local_bpm@.len() == local_aim@.len(),
            walk.r <= k,
            walk.count <= k,
            walk.low_bpm_aim_streak <= k,
            walk.balanced_streak <= k,
            walk@ == walk_of(
                math@,
                values(local_sr@),
                values(local_bpm@),
                values(local_aim@),
                params@,
                k as nat,
            ),
        decreases local_sr@.len() - k,
    {
        let last_bpm: Option<Double> = if k > 0 {
            Some(local_bpm[k - 1])
        } else {
            None
        };
        let next = walk_minute(
            math,
            walk,
            local_sr[k],
            local_bpm[k],
            local_aim[k],
            last_bpm,
            params,
        );
        proof {
            assert(next@.r <= walk@.r + 1 && next@.count <= walk@.count + 1
                && next@.low_bpm_aim_streak <= walk@.low_bpm_aim_streak + 1
                && next@.balanced_streak <= walk@.balanced_streak + 1);
        }
        walk = next;
        k = k + 1;
    }
    kept_share(walk.weighted, walk.total, walk.best_bonus, local_bpm.len())
}

/// The best bonus for balance is finite and at least one.
proof fn lemma_best_bonus(
    t: Table,
    local_sr: Seq<Value>,
    local_bpm: Seq<Value>,
    local_aim: Seq<Value>,
    p: AutopilotDecay,
    n: nat,
)
    requires
        n <= 0x20_0000_0000_0000,
    ensures
        ({
            let walk = walk_of(t, local_sr, local_bpm, local_aim, p, n);
            walk.balanced_streak <= n && finite(walk.best_bonus) && place(walk.best_bonus)
                >= one_units()
        }),
    decreases n,
{
    lemma_one();
    if n > 0 {
        let m = (n - 1) as nat;
        lemma_best_bonus(t, local_sr, local_bpm, local_aim, p, m);
        let before = walk_of(t, local_sr, local_bpm, local_aim, p, m);
        let streak = before.balanced_streak + 1;
        let beyond = exactly(if streak > 2 {
            (streak - 2) as nat
        } else {
            0
        });
        lemma_whole_place(if streak > 2 {
            (streak - 2) as nat
        } else {
            0
        });
        lemma_near_place(1, 100);
        lemma_near_places(1, 100, 1, 1);
        lemma_near_place(108, 100);
        lemma_share_times(near(1, 100), beyond);
        lemma_plus(exactly(1), near(1, 100) * beyond);
        lemma_lesser(exactly(1) + near(1, 100) * beyond, near(108, 100));
        lemma_greater(before.best_bonus, balance_bonus_of(streak));
        lemma_inside(before.best_bonus);
        lemma_inside(near(108, 100));
        lemma_inside(before.best_bonus.greater(balance_bonus_of(streak)));
    }
}

/// What the walk ends in is a share, where it is a number.
proof fn lemma_kept_share(weighted: Value, total: Value, best_bonus: Value, n: nat)
    requires
        n <= 0x20_0000_0000_0000,
        finite(best_bonus),
        place(best_bonus) >= one_units(),
    ensures
        ({
            let r = kept_share_of(weighted, total, best_bonus, n);
            !(r is Nan) ==> finite(r) && 0 <= place(r) <= one_units()
        }),
{
    lemma_one();
    lemma_proper(weighted, total);
    let kept = if exactly(0).below(total) {
        (weighted / total).clamped(exactly(0), exactly(1))
    } else {
        exactly(1)
    };
    lemma_held(weighted / total, exactly(0), exactly(1));
    let loss = exactly(1) - kept;
    let balanced = if exactly(1).below(best_bonus) {
        exactly(1) - loss / best_bonus
    } else {
        kept
    };
    let softener = ((exactly(n) - exactly(2)) / exactly(8)).clamped(exactly(0), exactly(1));
    let left = exactly(1) - near(10, 100) * softener;
    if kept is Nan {
        lemma_nan(exactly(1), kept);
        lemma_nan(loss, best_bonus);
        lemma_nan(exactly(1), loss / best_bonus);
        lemma_nan(exactly(1), balanced);
        lemma_nan(exactly(1) - balanced, left);
        lemma_nan(exactly(1), (exactly(1) - balanced) * left);
    } else {
        if exactly(0).below(total) {
            lemma_clamped(weighted / total, exactly(0), exactly(1));
        }
        lemma_left_of_one(kept);
        lemma_over_more(loss, best_bonus);
        lemma_left_of_one(loss / best_bonus);
        lemma_whole_place(n);
        lemma_whole_place(2);
        lemma_whole_place(8);
        lemma_minus(exactly(n), exactly(2));
        lemma_over(exactly(n) - exactly(2), exactly(8));
        lemma_clamped((exactly(n) - exactly(2)) / exactly(8), exactly(0), exactly(1));
        lemma_near_place(10, 100);
        lemma_near_places(10, 100, 1, 1);
        lemma_times_share(near(10, 100), softener);
        lemma_left_of_one(near(10, 100) * softener);
        lemma_left_of_one(balanced);
        lemma_times_share(exactly(1) - balanced, left);
        lemma_left_of_one((exactly(1) - balanced) * left);
    }
}

/// What remains under Autopilot, where it is a number, is a share of the score:
/// from none to all of it.
pub proof fn law_autopilot_keeps_a_share(
    t: Table,
    local_sr: Seq<Value>,
    local_bpm: Seq<Value>,
    local_aim: Seq<Value>,
    p: AutopilotDecay,
)
    requires
        local_sr.len() <= 0x20_0000_0000_0000,
    ensures
        ({
            let r = autopilot_marathon_multiplier_of(t, local_sr, local_bpm, local_aim, p);
            !(r is Nan) ==> exactly(0).at_most(r) && r.at_most(exactly(1))
        }),
{
    lemma_one();
    lemma_order(exactly(0), exactly(1));
    lemma_order(exactly(1), exactly(1));
    let n = local_sr.len();
    let walk = walk_of(t, local_sr, local_bpm, local_aim, p, n);
    lemma_best_bonus(t, local_sr, local_bpm, local_aim, p, n);
    lemma_kept_share(walk.weighted, walk.total, walk.best_bonus, n);
    let r = kept_share_of(walk.weighted, walk.total, walk.best_bonus, n);
    if !(r is Nan) {
        lemma_order(exactly(0), r);
        lemma_order(r, exactly(1));
    }
}

/// A map of less than two minutes, or without a tempo and an aim for each, keeps
/// all.
pub proof fn law_short_maps_keep_all_under_autopilot(
    t: Table,
    local_sr: Seq<Value>,
    local_bpm: Seq<Value>,
    local_aim: Seq<Value>,
    p: AutopilotDecay,
)
    requires
        local_sr.len() < 2 || local_sr.len() != local_bpm.len() || local_sr.len()
            != local_aim.len(),
    ensures
        autopilot_marathon_multiplier_of(t, local_sr, local_bpm, local_aim, p) == exactly(1),
{
}

/// Whether a minute counts in full under Autopilot where it is unlike the one before
/// it: it is fast, or not aim that makes it hard.
pub open spec fn counts_in_full(t: Table, sr: Value, bpm: Value, aim: Value) -> bool {
    let aim_ratio = if exactly(0).below(sr) {
        aim / sr
    } else {
        exactly(0)
    };
    &&& !bpm.at_most(exactly(360)) || !near(7, 10).below(aim_ratio)
    &&& number(t.exp((exactly(360) - bpm) * near(1, 100)))
    &&& finite(tempo_factor_of(t, bpm))
}

/// How much the tempo of a minute unlike the one before it would weigh.
pub open spec fn tempo_factor_of(t: Table, bpm: Value) -> Value {
    let base = t.exp((exactly(360) - bpm) * near(1, 100)).clamped(near(3, 10), exactly(4));
    base * if exactly(365).below(bpm) {
        t.exp(exactly(0).negated() * near(8, 100))
    } else {
        exactly(1)
    }
}

/// The stars of such minutes are not weighted.
proof fn lemma_fresh_walk(
    t: Table,
    local_sr: Seq<Value>,
    local_bpm: Seq<Value>,
    local_aim: Seq<Value>,
    p: AutopilotDecay,
    n: nat,
)
    requires
        n <= local_sr.len() == local_bpm.len() == local_aim.len(),
        forall|k: int|
            0 < k < local_bpm.len() ==> !(#[trigger] local_bpm[k] - local_bpm[k - 1]).absolute()
                .at_most(p.bpm_tau),
        forall|k: int|
            0 <= k < local_sr.len() ==> proper(#[trigger] local_sr[k]) && number(local_bpm[k])
                && counts_in_full(t, local_sr[k], local_bpm[k], local_aim[k]),
        finite(p.b),
        finite(t.power(exactly(0), p.q)) && place(t.power(exactly(0), p.q)) == 0,
    ensures
        ({
            let walk = walk_of(t, local_sr, local_bpm, local_aim, p, n);
            walk.weighted == walk.total && walk.total == total(local_sr.take(n as int))
        }),
    decreases n,
{
    lemma_one();
    if n > 0 {
        let k = (n - 1) as nat;
        lemma_fresh_walk(t, local_sr, local_bpm, local_aim, p, k);
        assert(local_sr.take(n as int).drop_last() =~= local_sr.take(k as int));
        let (sr, bpm) = (local_sr[k as int], local_bpm[k as int]);
        assert(counts_in_full(t, sr, bpm, local_aim[k as int]));
        lemma_over_one(bpm);
        let power = t.power(exactly(0), p.q);
        lemma_nothing(power, p.b);
        let factor = tempo_factor_of(t, bpm);
        lemma_nothing(p.b * power, factor);
        lemma_nothing(p.b * power * factor, exactly(1));
        assert(decay_divisor_of(t, 0, bpm, p) == exactly(1) + p.b * power * factor);
        lemma_over_one(exactly(1));
        lemma_times_one(sr);
    } else {
        assert(local_sr.take(0) =~= seq![]);
    }
}

/// A map keeps all under Autopilot on which no minute has the tempo of the one before
/// it and none is slow and hard by aim.
pub proof fn law_varied_maps_keep_all_under_autopilot(
    t: Table,
    local_sr: Seq<Value>,
    local_bpm: Seq<Value>,
    local_aim: Seq<Value>,
    p: AutopilotDecay,
)
    requires
        local_sr.len() == local_bpm.len() == local_aim.len(),
        local_sr.len() <= 0x20_0000_0000_0000,
        forall|k: int|
            0 < k < local_bpm.len() ==> !(#[trigger] local_bpm[k] - local_bpm[k - 1]).absolute()
                .at_most(p.bpm_tau),
        forall|k: int|
            0 <= k < local_sr.len() ==> proper(#[trigger] local_sr[k]) && number(local_bpm[k])
                && counts_in_full(t, local_sr[k], local_bpm[k], local_aim[k]),
        finite(total(local_sr)),
        finite(p.b),
        finite(t.power(exactly(0), p.q)) && place(t.power(exactly(0), p.q)) == 0,
    ensures
        autopilot_marathon_multiplier_of(t, local_sr, local_bpm, local_aim, p) == exactly(1),
{
    lemma_one();
    let n = local_sr.len();
    if n >= 2 {
        lemma_fresh_walk(t, local_sr, local_bpm, local_aim, p, n);
        lemma_best_bonus(t, local_sr, local_bpm, local_aim, p, n);
        assert(local_sr.take(n as int) =~= local_sr);
        let walk = walk_of(t, local_sr, local_bpm, local_aim, p, n);
        lemma_order(exactly(0), walk.total);
        if exactly(0).below(walk.total) {
            lemma_own_share(walk.total);
        }
        let none = exactly(1) - exactly(1);
        lemma_minus(exactly(1), exactly(1));
        lemma_settle_fits(exactly(0));
        lemma_inside(exactly(0));
        lemma_inside(none);
        lemma_over_more(none, walk.best_bonus);
        lemma_nothing(none / walk.best_bonus, exactly(1));
        lemma_whole_place(n);
        lemma_whole_place(2);
        lemma_whole_place(8);
        lemma_minus(exactly(n), exactly(2));
        lemma_over(exactly(n) - exactly(2), exactly(8));
        let softener = ((exactly(n) - exactly(2)) / exactly(8)).clamped(exactly(0), exactly(1));
        lemma_clamped((exactly(n) - exactly(2)) / exactly(8), exactly(0), exactly(1));
        lemma_near_place(10, 100);
        lemma_near_places(10, 100, 1, 1);
        lemma_times_share(near(10, 100), softener);
        lemma_left_of_one(near(10, 100) * softener);
        let left = exactly(1) - near(10, 100) * softener;
        lemma_nothing(none, left);
        lemma_nothing(none * left, exactly(1));
    }
}

} // verus!
