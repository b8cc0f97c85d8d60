//! The decay of repetitive maps under Relax.
use vstd::prelude::*;
use vstd::slice::slice_subrange;

use crate::double::Double;
use crate::lists::{total, values};
use crate::operators::{ratio, whole};
use crate::order::{
    finite, lemma_clamped, lemma_held, lemma_inside, lemma_is_one, lemma_left_of_one, lemma_minus,
    lemma_minus_order, lemma_near_place, lemma_near_places, lemma_nothing, lemma_one, lemma_order,
    lemma_over, lemma_over_large, lemma_over_one, lemma_over_order, lemma_plus, lemma_plus_order,
    lemma_proper, lemma_settle_fits, lemma_settle_order, lemma_sum, lemma_sum_order, lemma_times,
    lemma_times_more, lemma_times_one, lemma_times_order, lemma_times_share, lemma_whole_place,
    number, place, proper,
};
use crate::osu::performance::peaks::{
    as_section, lemma_values_subrange, minute_end, minute_of, minutes, minutes_of,
    partition_sections, peak_performance, peak_performance_of, sections_of, star_from_peaks,
    star_from_peaks_of, star_of_performance, star_of_performance_of,
    SUBSECTIONS_PER_MINUTE,
};
use crate::query::{Math, Query, Table};
use crate::value::{exactly, near, one_units, Value};

verus! {

/// How the value of a repetitive map decays under Relax.
#[derive(Clone, Copy, Debug)]
pub struct MarathonDecayParams {
    /// How far, in stars, minutes may be apart to count as repeated.
    pub tau: Double,
    /// The scale of the decay.
    pub b: Double,
    /// The exponent of the decay.
    pub q: Double,
    /// The number of minutes after which the decay is at its fullest.
    pub double_at: u32,
}

/// The same over values.
pub struct RelaxDecay {
    pub tau: Value,
    pub b: Value,
    pub q: Value,
    pub double_at: u32,
}

impl RelaxDecay {
    /// The decay that scores are rated with.
    pub open spec fn standard() -> RelaxDecay {
        RelaxDecay { tau: near(15, 10), b: near(2, 100), q: near(135, 100), double_at: 3 }
    }
}

impl View for MarathonDecayParams {
    type V = RelaxDecay;

    open spec fn view(&self) -> RelaxDecay {
        RelaxDecay { tau: self.tau@, b: self.b@, q: self.q@, double_at: self.double_at }
    }
}

impl Default for MarathonDecayParams {
    fn default() -> (r: Self)
        ensures
            r@ == RelaxDecay::standard(),
    {
        MarathonDecayParams {
            tau: ratio(15, 10),
            b: ratio(2, 100),
            q: ratio(135, 100),
            double_at: 3,
        }
    }
}

/// After how many minutes the decay is at its fullest, at least one.
pub open spec fn fullest_of(p: RelaxDecay) -> Value {
    exactly(if p.double_at > 1 {
        p.double_at as nat
    } else {
        1
    })
}

/// What the value of a minute is divided by after `r` minutes like it.
pub open spec fn decay_divisor_of(t: Table, r: nat, p: RelaxDecay) -> Value {
    let rf = exactly(r);
    let base = exactly(1) + p.b * t.power(rf, p.q);
    let smooth_factor = t.power(rf / fullest_of(p), near(65, 100)).clamped(exactly(0), exactly(1));
    base * (exactly(1) + near(15, 100) * smooth_factor)
}

/// What the value of a minute is divided by after `r` minutes like it.
pub fn decay_divisor<F: Fn(Query<Double>) -> Double>(
    math: &Math<F>,
    r: u32,
    p: MarathonDecayParams,
) -> (divisor: Double)
    requires
        math.sound(),
    ensures
        divisor@ == decay_divisor_of(math@, r as nat, p@),
{
    let rf = whole(r as u64);
    let base = whole(1) + p.b * math.power(rf, p.q);
    let least = whole(if p.double_at > 1 {
        p.double_at as u64
    } else {
        1
    });
    let smooth_factor = math.power(rf / least, ratio(65, 100)).clamped(whole(0), whole(1));
    base * (whole(1) + ratio(15, 100) * smooth_factor)
}

/// The stars of a list of aim peaks together with a list of speed peaks.
pub open spec fn star_from_aim_speed_of(
    t: Table,
    aim_peaks: Seq<Value>,
    speed_peaks: Seq<Value>,
) -> Value {
    let aim_perf = peak_performance_of(t, aim_peaks);
    let speed_perf = peak_performance_of(t, speed_peaks);
    star_of_performance_of(
        t,
        t.power(
            t.power(aim_perf, near(11, 10)) + t.power(speed_perf, near(11, 10)),
            exactly(1) / near(11, 10),
        ),
    )
}

/// The stars of a list of aim peaks together with a list of speed peaks.
pub fn star_from_aim_speed<F: Fn(Query<Double>) -> Double>(
    math: &Math<F>,
    aim_peaks: &[Double],
    speed_peaks: &[Double],
) -> (r: Double)
    requires
        math.sound(),
    ensures
        r@ == star_from_aim_speed_of(math@, values(aim_peaks@), values(speed_peaks@)),
{
    let aim_perf = peak_performance(math, aim_peaks);
    let speed_perf = peak_performance(math, speed_peaks);
    star_of_performance(
        math,
        math.power(
            math.power(aim_perf, ratio(11, 10)) + math.power(speed_perf, ratio(11, 10)),
            whole(1) / ratio(11, 10),
        ),
    )
}

/// The stars of each section of a minute.
pub open spec fn subsection_star_ratings_of(
    t: Table,
    aim_peaks: Seq<Value>,
    speed_peaks: Seq<Value>,
) -> Seq<Value> {
    let sections = sections_of(aim_peaks.len(), 4);
    Seq::new(
        sections.len(),
        |k: int|
            star_from_aim_speed_of(
                t,
                aim_peaks.subrange(sections[k].0 as int, sections[k].1 as int),
                speed_peaks.subrange(sections[k].0 as int, sections[k].1 as int),
            ),
    )
}

/// The stars of each section of a minute.
fn subsection_star_ratings<F: Fn(Query<Double>) -> Double>(
    math: &Math<F>,
    aim_peaks: &[Double],
    speed_peaks: &[Double],
) -> (r: Vec<Double>)
    requires
        math.sound(),
        aim_peaks@.len() <= speed_peaks@.len(),
    ensures
        values(r@) == subsection_star_ratings_of(math@, values(aim_peaks@), values(speed_peaks@)),
{
    let sections = partition_sections(aim_peaks.len(), SUBSECTIONS_PER_MINUTE);
    let ghost all = subsection_star_ratings_of(math@, values(aim_peaks@), values(speed_peaks@));
    let mut stars: Vec<Double> = Vec::new();
    let mut k: usize = 0;
    while k < sections.len()
        invariant
            math.sound(),
            aim_peaks@.len() <= speed_peaks@.len(),
            k <= sections@.len(),
            sections@.map_values(|p: (usize, usize)| as_section(p)) == sections_of(
                aim_peaks@.len(),
                4,
            ),
            forall|i: int|
                0 <= i < sections@.len() ==> (#[trigger] sections@[i]).0 <= sections@[i].1
                    <= aim_peaks@.len(),
            all == subsection_star_ratings_of(math@, values(aim_peaks@), values(speed_peaks@)),
            stars@.len() == k,
            forall|i: int| 0 <= i < k ==> (#[trigger] stars@[i])@ == all[i],
        decreases sections@.len() - k,
    {
        let (start, end): (usize, usize) = sections[k];
        proof {
            let mapped = sections@.map_values(|p: (usize, usize)| as_section(p));
            assert(mapped[k as int] == (start as nat, end as nat));
            lemma_values_subrange(aim_peaks@, start as int, end as int);
            lemma_values_subrange(speed_peaks@, start as int, end as int);
        }
        let aim_slice = slice_subrange(aim_peaks, start, end);
        let speed_slice = slice_subrange(speed_peaks, start, end);
        stars.push(star_from_aim_speed(math, aim_slice, speed_slice));
        k = k + 1;
    }
    proof {
        assert(sections@.map_values(|p: (usize, usize)| as_section(p)).len() == sections@.len());
        assert(values(stars@) =~= all);
    }
    stars
}

/// The stars of each minute, rated in sections.
pub open spec fn local_sr_per_minute_of(
    t: Table,
    strains_aim: Seq<Value>,
    strains_speed: Seq<Value>,
) -> Seq<Value> {
    Seq::new(
        minutes_of(strains_aim.len()),
        |k: int|
            star_from_peaks_of(
                t,
                subsection_star_ratings_of(
                    t,
                    minute_of(strains_aim, k as nat),
                    strains_speed.subrange(
                        k * 150,
                        k * 150 + minute_of(strains_aim, k as nat).len(),
                    ),
                ),
            ),
    )
}

/// The stars of each minute, rated in sections.
pub fn local_sr_per_minute<F: Fn(Query<Double>) -> Double>(
    math: &Math<F>,
    strains_aim: &[Double],
    strains_speed: &[Double],
) -> (r: Vec<Double>)
    requires
        math.sound(),
        strains_aim@.len() <= strains_speed@.len(),
    ensures
        values(r@) == local_sr_per_minute_of(math@, values(strains_aim@), values(strains_speed@)),
{
    let n_minutes: usize = minutes(strains_aim.len());
    let ghost all = local_sr_per_minute_of(math@, values(strains_aim@), values(strains_speed@));
    let mut out: Vec<Double> = Vec::new();
    let mut k: usize = 0;
    while k < n_minutes
        invariant
            math.sound(),
            strains_aim@.len() <= strains_speed@.len(),
            k <= n_minutes == minutes_of(strains_aim@.len()),
            all == local_sr_per_minute_of(math@, values(strains_aim@), values(strains_speed@)),
            out@.len() == k,
            forall|i: int| 0 <= i < k ==> (#[trigger] out@[i])@ == all[i],
        decreases n_minutes - k,
    {
        let end: usize = minute_end(strains_aim.len(), k);
        let start: usize = k * 150;
        proof {
            lemma_values_subrange(strains_aim@, start as int, end as int);
            lemma_values_subrange(strains_speed@, start as int, end as int);
        }
        let aim_slice = slice_subrange(strains_aim, start, end);
        let speed_slice = slice_subrange(strains_speed, start, end);
        let stars = subsection_star_ratings(math, aim_slice, speed_slice);
        out.push(star_from_peaks(math, stars.as_slice()));
        k = k + 1;
    }
    proof {
        assert(values(out@) =~= all);
    }
    out
}

/// The number of minutes up to minute `k` that are alike in a row, less one.
pub open spec fn repeats_of(local_sr: Seq<Value>, tau: Value, k: nat) -> nat
    decreases k,
{
    if k > 0 && (local_sr[k as int] - local_sr[k - 1]).absolute().at_most(tau) {
        repeats_of(local_sr, tau, (k - 1) as nat) + 1
    } else {
        0
    }
}

/// A row is no longer than the map.
proof fn lemma_repeats(local_sr: Seq<Value>, tau: Value, k: nat)
    ensures
        repeats_of(local_sr, tau, k) <= k,
    decreases k,
{
    if k > 0 {
        lemma_repeats(local_sr, tau, (k - 1) as nat);
    }
}

/// How much a tempo softens the decay.
pub open spec fn softening_of(bpm: Value) -> Value {
    ((bpm - exactly(400)) / exactly(40)).clamped(exactly(0), exactly(1)) * near(15, 100)
}

/// How much of a minute counts after `r` minutes like it; high tempos soften the
/// decay.
pub open spec fn minute_weight_of(t: Table, r: nat, bpm: Value, p: RelaxDecay) -> Value {
    let lambda = exactly(1) / decay_divisor_of(t, r, p);
    if exactly(400).at_most(bpm) {
        lambda + (exactly(1) - lambda) * softening_of(bpm)
    } else {
        lambda
    }
}

/// How much of a minute counts after `r` minutes like it; high tempos soften the
/// decay.
fn minute_weight<F: Fn(Query<Double>) -> Double>(
    math: &Math<F>,
    r: u32,
    bpm: Double,
    p: MarathonDecayParams,
) -> (weight: Double)
    requires
        math.sound(),
    ensures
        weight@ == minute_weight_of(math@, r as nat, bpm@, p@),
{
    let lambda = whole(1) / decay_divisor(math, r, p);
    if whole(400).at_most(bpm) {
        let soften = ((bpm - whole(400)) / whole(40)).clamped(whole(0), whole(1)) * ratio(
            15,
            100,
        );
        lambda + (whole(1) - lambda) * soften
    } else {
        lambda
    }
}

/// The stars of the first `n` minutes, weighted and not.
pub open spec fn weighted_stars_of(
    t: Table,
    local_sr: Seq<Value>,
    local_bpm: Seq<Value>,
    p: RelaxDecay,
    n: nat,
) -> (Value, Value)
    decreases n,
{
    if n == 0 {
        (exactly(0), exactly(0))
    } else {
        let k = (n - 1) as nat;
        let (weighted, total) = weighted_stars_of(t, local_sr, local_bpm, p, k);
        let sr = local_sr[k as int];
        let lambda = minute_weight_of(
            t,
            repeats_of(local_sr, p.tau, k),
            local_bpm[k as int],
            p,
        );
        (weighted + sr * lambda, total + sr)
    }
}

/// How much of a score under Relax remains on a map that repeats itself for
/// minutes.
pub open spec fn relax_marathon_multiplier_of(
    t: Table,
    local_sr: Seq<Value>,
    local_bpm: Seq<Value>,
    p: RelaxDecay,
) -> Value {
    if local_sr.len() < 2 || local_sr.len() != local_bpm.len() {
        exactly(1)
    } else {
        let (weighted, total) = weighted_stars_of(t, local_sr, local_bpm, p, local_sr.len());
        if exactly(0).below(total) {
            (weighted / total).clamped(exactly(0), exactly(1))
        } else {
            exactly(1)
        }
    }
}

/// How much of a score under Relax remains on a map that repeats itself for
/// minutes.
pub fn relax_marathon_multiplier<F: Fn(Query<Double>) -> Double>(
    math: &Math<F>,
    local_sr: &[Double],
    local_bpm: &[Double],
    params: MarathonDecayParams,
) -> (r: Double)
    requires
        math.sound(),
        local_sr@.len() <= u32::MAX,
    ensures
        r@ == relax_marathon_multiplier_of(
            math@,
            values(local_sr@),
            values(local_bpm@),
            params@,
        ),
{
    if local_sr.len() < 2 || local_sr.len() != local_bpm.len() {
        return whole(1);
    }
    let ghost srs = values(local_sr@);
    let ghost bpms = values(local_bpm@);
    let mut r: u32 = 0;
    let mut weighted = whole(0);
    let mut total = whole(0);
    let mut k: usize = 0;
    while k < local_sr.len()
        invariant
            math.sound(),
            k <= local_sr@.len() == local_bpm@.len(),
            local_sr@.len() <= u32::MAX,
            srs == values(local_sr@),
            bpms == values(local_bpm@),
            k > 0 ==> r == repeats_of(srs, params@.tau, (k - 1) as nat),
            (weighted@, total@) == weighted_stars_of(math@, srs, bpms, params@, k as nat),
        decreases local_sr@.len() - k,
    {
        let sr = local_sr[k];
        proof {
            if k > 0 {
                lemma_repeats(srs, params@.tau, (k - 1) as nat);
            }
        }
        if k > 0 && (sr - local_sr[k - 1]).absolute().at_most(params.tau) {
            r = r + 1;
        } else {
            r = 0;
        }
        let lambda = minute_weight(math, r, local_bpm[k], params);
        weighted = weighted + sr * lambda;
        total = total + sr;
        k = k + 1;
    }
    if whole(0).below(total) {
        (weighted / total).clamped(whole(0), whole(1))
    } else {
        whole(1)
    }
}

/// What remains under Relax, where it is a number, is a share of the score: from
/// none to all of it.
pub proof fn law_relax_keeps_a_share(
    t: Table,
    local_sr: Seq<Value>,
    local_bpm: Seq<Value>,
    p: RelaxDecay,
)
    ensures
        ({
            let r = relax_marathon_multiplier_of(t, local_sr, local_bpm, p);
            !(r is Nan) ==> exactly(0).at_most(r) && r.at_most(exactly(1))
        }),
{
    lemma_one();
    lemma_order(exactly(0), exactly(1));
    lemma_order(exactly(1), exactly(1));
    let (weighted, total) = weighted_stars_of(t, local_sr, local_bpm, p, local_sr.len());
    lemma_proper(weighted, total);
    lemma_held(weighted / total, exactly(0), exactly(1));
}

/// A map of less than two minutes, or without a tempo for each, keeps all.
pub proof fn law_short_maps_keep_all_under_relax(
    t: Table,
    local_sr: Seq<Value>,
    local_bpm: Seq<Value>,
    p: RelaxDecay,
)
    requires
        local_sr.len() < 2 || local_sr.len() != local_bpm.len(),
    ensures
        relax_marathon_multiplier_of(t, local_sr, local_bpm, p) == exactly(1),
{
}

/// Whether the powers that the decay after `r` minutes is made of are numbers, that
/// of `r` itself finite and not below zero.
pub open spec fn decays_by(t: Table, r: nat, p: RelaxDecay) -> bool {
    &&& finite(t.power(exactly(r), p.q))
    &&& exactly(0).at_most(t.power(exactly(r), p.q))
    &&& number(t.power(exactly(r) / fullest_of(p), near(65, 100)))
}

/// What a minute is divided by is at least one.
proof fn lemma_divisor(t: Table, r: nat, p: RelaxDecay)
    requires
        finite(p.b),
        exactly(0).at_most(p.b),
        decays_by(t, r, p),
    ensures
        number(decay_divisor_of(t, r, p)),
        one_units() <= place(decay_divisor_of(t, r, p)),
{
    lemma_one();
    let power = t.power(exactly(r), p.q);
    lemma_order(exactly(0), p.b);
    lemma_order(exactly(0), power);
    lemma_times(p.b, power);
    lemma_sum(exactly(1), p.b * power);
    let smooth = t.power(exactly(r) / fullest_of(p), near(65, 100));
    let smooth_factor = smooth.clamped(exactly(0), exactly(1));
    lemma_clamped(smooth, exactly(0), exactly(1));
    lemma_near_place(15, 100);
    lemma_times_share(near(15, 100), smooth_factor);
    lemma_sum(exactly(1), near(15, 100) * smooth_factor);
    lemma_times_more(
        exactly(1) + p.b * power,
        exactly(1) + near(15, 100) * smooth_factor,
    );
}

/// Faster is softer.
proof fn lemma_softening(slow: Value, fast: Value)
    requires
        number(slow),
        number(fast),
        place(slow) <= place(fast),
    ensures
        finite(softening_of(slow)),
        finite(softening_of(fast)),
        0 <= place(softening_of(slow)) <= place(softening_of(fast)) <= one_units(),
{
    lemma_one();
    lemma_whole_place(400);
    lemma_whole_place(40);
    lemma_near_place(15, 100);
    lemma_near_places(15, 100, 1, 1);
    let (a, b) = (slow - exactly(400), fast - exactly(400));
    lemma_minus(slow, exactly(400));
    lemma_minus(fast, exactly(400));
    lemma_minus_order(slow, fast, exactly(400));
    lemma_over(a, exactly(40));
    lemma_over(b, exactly(40));
    lemma_over_order(a, b, exactly(40));
    let (x, y) = (
        (a / exactly(40)).clamped(exactly(0), exactly(1)),
        (b / exactly(40)).clamped(exactly(0), exactly(1)),
    );
    lemma_clamped(a / exactly(40), exactly(0), exactly(1));
    lemma_clamped(b / exactly(40), exactly(0), exactly(1));
    lemma_times_share(x, near(15, 100));
    lemma_times_share(y, near(15, 100));
    lemma_times_order(x, near(15, 100), y, near(15, 100));
}

/// A faster minute counts no less.
proof fn lemma_minute_weight(t: Table, r: nat, slow: Value, fast: Value, p: RelaxDecay)
    requires
        finite(p.b),
        exactly(0).at_most(p.b),
        decays_by(t, r, p),
        number(slow),
        number(fast),
        slow.at_most(fast),
    ensures
        finite(minute_weight_of(t, r, slow, p)),
        finite(minute_weight_of(t, r, fast, p)),
        0 <= place(minute_weight_of(t, r, slow, p)) <= place(minute_weight_of(t, r, fast, p)),
{
    lemma_one();
    lemma_whole_place(2);
    lemma_whole_place(400);
    lemma_order(slow, fast);
    lemma_order(exactly(400), slow);
    lemma_order(exactly(400), fast);
    lemma_divisor(t, r, p);
    let lambda = exactly(1) / decay_divisor_of(t, r, p);
    lemma_over_large(exactly(1), decay_divisor_of(t, r, p));
    lemma_left_of_one(lambda);
    let rest = exactly(1) - lambda;
    lemma_softening(slow, fast);
    let (a, b) = (softening_of(slow), softening_of(fast));
    lemma_times_share(rest, a);
    lemma_times_share(rest, b);
    lemma_times_order(rest, a, rest, b);
    lemma_plus_order(lambda, rest * a, lambda, rest * b);
    lemma_sum(lambda, rest * a);
    lemma_sum(lambda, rest * b);
    lemma_plus_order(lambda, rest * b, exactly(1), exactly(1));
    lemma_plus(exactly(1), exactly(1));
    lemma_settle_fits(exactly(2));
    lemma_inside(exactly(2));
    lemma_inside(lambda + rest * a);
    lemma_inside(lambda + rest * b);
}

/// The stars of minutes, unweighted, are their sum.
proof fn lemma_plain_stars(
    t: Table,
    local_sr: Seq<Value>,
    local_bpm: Seq<Value>,
    p: RelaxDecay,
    n: nat,
)
    requires
        n <= local_sr.len(),
    ensures
        weighted_stars_of(t, local_sr, local_bpm, p, n).1 == total(local_sr.take(n as int)),
    decreases n,
{
    if n > 0 {
        lemma_plain_stars(t, local_sr, local_bpm, p, (n - 1) as nat);
        assert(local_sr.take(n as int).drop_last() =~= local_sr.take(n - 1));
    }
}

/// The stars of faster minutes weigh no less.
proof fn lemma_weighted_stars(
    t: Table,
    local_sr: Seq<Value>,
    slow: Seq<Value>,
    fast: Seq<Value>,
    p: RelaxDecay,
    n: nat,
)
    requires
        finite(p.b),
        exactly(0).at_most(p.b),
        n <= local_sr.len(),
        slow.len() == local_sr.len(),
        fast.len() == local_sr.len(),
        forall|r: nat| r < local_sr.len() ==> #[trigger] decays_by(t, r, p),
        forall|k: int|
            0 <= k < local_sr.len() ==> finite(#[trigger] local_sr[k]) && exactly(0).at_most(
                local_sr[k],
            ),
        forall|k: int|
            0 <= k < slow.len() ==> number(#[trigger] slow[k]) && number(fast[k])
                && slow[k].at_most(fast[k]),
    ensures
        ({
            let a = weighted_stars_of(t, local_sr, slow, p, n).0;
            let b = weighted_stars_of(t, local_sr, fast, p, n).0;
            number(a) && number(b) && 0 <= place(a) <= place(b)
        }),
    decreases n,
{
    lemma_one();
    if n > 0 {
        let k = (n - 1) as nat;
        lemma_weighted_stars(t, local_sr, slow, fast, p, k);
        let a = weighted_stars_of(t, local_sr, slow, p, k).0;
        let b = weighted_stars_of(t, local_sr, fast, p, k).0;
        let r = repeats_of(local_sr, p.tau, k);
        lemma_repeats(local_sr, p.tau, k);
        assert(decays_by(t, r, p));
        let sr = local_sr[k as int];
        assert(number(slow[k as int]));
        lemma_order(exactly(0), sr);
        lemma_minute_weight(t, r, slow[k as int], fast[k as int], p);
        let x = minute_weight_of(t, r, slow[k as int], p);
        let y = minute_weight_of(t, r, fast[k as int], p);
        lemma_times(sr, x);
        lemma_times(sr, y);
        lemma_times_order(sr, x, sr, y);
        lemma_sum(a, sr * x);
        lemma_sum(b, sr * y);
        lemma_sum_order(a, sr * x, b, sr * y);
    }
}

/// The decay softens as the tempo climbs: a map that is no slower in any minute
/// keeps no less of a score, and both keep a share. The powers that decays are made
/// of have to be numbers, and the stars of the map must not add up to infinity.
pub proof fn law_faster_maps_keep_more_under_relax(
    t: Table,
    local_sr: Seq<Value>,
    slow: Seq<Value>,
    fast: Seq<Value>,
    p: RelaxDecay,
)
    requires
        finite(p.b),
        exactly(0).at_most(p.b),
        slow.len() == fast.len(),
        forall|r: nat| r < local_sr.len() ==> #[trigger] decays_by(t, r, p),
        forall|k: int|
            0 <= k < local_sr.len() ==> finite(#[trigger] local_sr[k]) && exactly(0).at_most(
                local_sr[k],
            ),
        finite(total(local_sr)),
        forall|k: int|
            0 <= k < slow.len() ==> number(#[trigger] slow[k]) && number(fast[k])
                && slow[k].at_most(fast[k]),
    ensures
        ({
            let less = relax_marathon_multiplier_of(t, local_sr, slow, p);
            let more = relax_marathon_multiplier_of(t, local_sr, fast, p);
            &&& exactly(0).at_most(less)
            &&& less.at_most(more)
            &&& more.at_most(exactly(1))
        }),
{
    lemma_one();
    lemma_order(exactly(0), exactly(1));
    lemma_order(exactly(1), exactly(1));
    let n = local_sr.len();
    if n >= 2 && n == slow.len() {
        lemma_weighted_stars(t, local_sr, slow, fast, p, n);
        lemma_plain_stars(t, local_sr, slow, p, n);
        lemma_plain_stars(t, local_sr, fast, p, n);
        assert(local_sr.take(n as int) =~= local_sr);
        let stars = total(local_sr);
        lemma_order(exactly(0), stars);
        if exactly(0).below(stars) {
            let a = weighted_stars_of(t, local_sr, slow, p, n).0;
            let b = weighted_stars_of(t, local_sr, fast, p, n).0;
            lemma_over(a, stars);
            lemma_over(b, stars);
            lemma_over_order(a, b, stars);
            lemma_clamped(a / stars, exactly(0), exactly(1));
            lemma_clamped(b / stars, exactly(0), exactly(1));
            let less = (a / stars).clamped(exactly(0), exactly(1));
            let more = (b / stars).clamped(exactly(0), exactly(1));
            lemma_order(exactly(0), less);
            lemma_order(less, more);
            lemma_order(more, exactly(1));
        }
    }
}

/// A minute unlike the one before it counts in full.
proof fn lemma_fresh_minute(t: Table, bpm: Value, p: RelaxDecay)
    requires
        finite(p.b),
        number(bpm),
        finite(t.power(exactly(0), p.q)) && place(t.power(exactly(0), p.q)) == 0,
        finite(t.power(exactly(0) / fullest_of(p), near(65, 100))),
        place(t.power(exactly(0) / fullest_of(p), near(65, 100))) == 0,
    ensures
        minute_weight_of(t, 0, bpm, p) == exactly(1),
{
    lemma_one();
    let power = t.power(exactly(0), p.q);
    lemma_nothing(power, p.b);
    lemma_nothing(p.b * power, exactly(1));
    let smooth = t.power(exactly(0) / fullest_of(p), near(65, 100));
    lemma_clamped(smooth, exactly(0), exactly(1));
    let smooth_factor = smooth.clamped(exactly(0), exactly(1));
    lemma_near_place(15, 100);
    lemma_nothing(smooth_factor, near(15, 100));
    lemma_nothing(near(15, 100) * smooth_factor, exactly(1));
    lemma_times_one(exactly(1));
    lemma_over_one(exactly(1));
    lemma_minus(exactly(1), exactly(1));
    lemma_settle_fits(exactly(0));
    lemma_inside(exactly(0));
    lemma_inside(exactly(1) - exactly(1));
    lemma_whole_place(400);
    lemma_order(exactly(400), bpm);
    lemma_order(bpm, bpm);
    lemma_softening(bpm, bpm);
    lemma_nothing(exactly(1) - exactly(1), softening_of(bpm));
    lemma_nothing((exactly(1) - exactly(1)) * softening_of(bpm), exactly(1));
}

/// The stars of minutes that count in full are not weighted.
proof fn lemma_fresh_stars(
    t: Table,
    local_sr: Seq<Value>,
    local_bpm: Seq<Value>,
    p: RelaxDecay,
    n: nat,
)
    requires
        n <= local_sr.len() == local_bpm.len(),
        forall|k: int|
            0 < k < local_sr.len() ==> !(#[trigger] local_sr[k] - local_sr[k - 1]).absolute()
                .at_most(p.tau),
        forall|k: int| 0 <= k < local_sr.len() ==> proper(#[trigger] local_sr[k]),
        forall|k: int| 0 <= k < local_bpm.len() ==> number(#[trigger] local_bpm[k]),
        finite(p.b),
        finite(t.power(exactly(0), p.q)) && place(t.power(exactly(0), p.q)) == 0,
        finite(t.power(exactly(0) / fullest_of(p), near(65, 100))),
        place(t.power(exactly(0) / fullest_of(p), near(65, 100))) == 0,
    ensures
        weighted_stars_of(t, local_sr, local_bpm, p, n).0 == weighted_stars_of(
            t,
            local_sr,
            local_bpm,
            p,
            n,
        ).1,
    decreases n,
{
    if n > 0 {
        let k = (n - 1) as nat;
        lemma_fresh_stars(t, local_sr, local_bpm, p, k);
        let sr = local_sr[k as int];
        assert(repeats_of(local_sr, p.tau, k) == 0);
        lemma_fresh_minute(t, local_bpm[k as int], p);
        lemma_times_one(sr);
    }
}

/// A map on which no minute is like the one before it keeps all under Relax.
pub proof fn law_varied_maps_keep_all_under_relax(
    t: Table,
    local_sr: Seq<Value>,
    local_bpm: Seq<Value>,
    p: RelaxDecay,
)
    requires
        local_sr.len() == local_bpm.len(),
        forall|k: int|
            0 < k < local_sr.len() ==> !(#[trigger] local_sr[k] - local_sr[k - 1]).absolute()
                .at_most(p.tau),
        forall|k: int| 0 <= k < local_sr.len() ==> proper(#[trigger] local_sr[k]),
        forall|k: int| 0 <= k < local_bpm.len() ==> number(#[trigger] local_bpm[k]),
        finite(total(local_sr)),
        finite(p.b),
        finite(t.power(exactly(0), p.q)) && place(t.power(exactly(0), p.q)) == 0,
        finite(t.power(exactly(0) / fullest_of(p), near(65, 100))),
        place(t.power(exactly(0) / fullest_of(p), near(65, 100))) == 0,
    ensures
        relax_marathon_multiplier_of(t, local_sr, local_bpm, p) == exactly(1),
{
    lemma_one();
    let n = local_sr.len();
    if n >= 2 {
        lemma_fresh_stars(t, local_sr, local_bpm, p, n);
        lemma_plain_stars(t, local_sr, local_bpm, p, n);
        assert(local_sr.take(n as int) =~= local_sr);
        let stars = total(local_sr);
        lemma_order(exactly(0), stars);
        if exactly(0).below(stars) {
            lemma_own_share(stars);
        }
    }
}

/// A positive number by itself is one.
pub proof fn lemma_own_share(x: Value)
    requires
        finite(x),
        0 < place(x),
    ensures
        (x / x).clamped(exactly(0), exactly(1)) == exactly(1),
{
    lemma_one();
    lemma_over(x, x);
    lemma_settle_fits(exactly(1));
    let (p, u) = (place(x), one_units());
    assert(p * u == u * p) by (nonlinear_arith);
    lemma_settle_order(p * u, p as nat, u as int, 1);
    lemma_settle_order(u as int, 1, p * u, p as nat);
    lemma_clamped(x / x, exactly(0), exactly(1));
    lemma_is_one((x / x).clamped(exactly(0), exactly(1)));
}

/// The longer a row of minutes that are alike, the less the next one counts, at a
/// tempo that does not soften the decay.
pub proof fn law_longer_rows_count_less(t: Table, less: nat, more: nat, bpm: Value, p: RelaxDecay)
    requires
        less <= more,
        finite(p.b),
        exactly(0).at_most(p.b),
        decays_by(t, less, p) && decays_by(t, more, p),
        t.power(exactly(less), p.q).at_most(t.power(exactly(more), p.q)),
        t.power(exactly(less) / fullest_of(p), near(65, 100)).at_most(
            t.power(exactly(more) / fullest_of(p), near(65, 100)),
        ),
        finite(decay_divisor_of(t, more, p)),
        !exactly(400).at_most(bpm),
    ensures
        minute_weight_of(t, more, bpm, p).at_most(minute_weight_of(t, less, bpm, p)),
        minute_weight_of(t, less, bpm, p).at_most(exactly(1)),
{
    lemma_one();
    lemma_divisor(t, less, p);
    lemma_divisor(t, more, p);
    let (a, b) = (t.power(exactly(less), p.q), t.power(exactly(more), p.q));
    lemma_order(exactly(0), a);
    lemma_order(exactly(0), b);
    lemma_order(a, b);
    lemma_order(exactly(0), p.b);
    lemma_times(p.b, a);
    lemma_times(p.b, b);
    lemma_times_order(p.b, a, p.b, b);
    lemma_sum(exactly(1), p.b * a);
    lemma_sum(exactly(1), p.b * b);
    lemma_sum_order(exactly(1), p.b * a, exactly(1), p.b * b);
    let x = t.power(exactly(less) / fullest_of(p), near(65, 100));
    let y = t.power(exactly(more) / fullest_of(p), near(65, 100));
    lemma_order(x, y);
    lemma_clamped(x, exactly(0), exactly(1));
    lemma_clamped(y, exactly(0), exactly(1));
    let (v, w) = (x.clamped(exactly(0), exactly(1)), y.clamped(exactly(0), exactly(1)));
    lemma_near_place(15, 100);
    lemma_times_share(near(15, 100), v);
    lemma_times_share(near(15, 100), w);
    lemma_times_order(near(15, 100), v, near(15, 100), w);
    lemma_sum(exactly(1), near(15, 100) * v);
    lemma_sum(exactly(1), near(15, 100) * w);
    lemma_sum_order(exactly(1), near(15, 100) * v, exactly(1), near(15, 100) * w);
    let (c, d) = (exactly(1) + p.b * a, exactly(1) + p.b * b);
    let (e, f) = (exactly(1) + near(15, 100) * v, exactly(1) + near(15, 100) * w);
    assert(finite(d) && finite(f)) by {
        if !finite(d) || !finite(f) {
            reveal(Value::times);
        }
    }
    lemma_inside(c);
    lemma_inside(d);
    lemma_inside(e);
    lemma_inside(f);
    lemma_times(c, e);
    lemma_times_order(c, e, d, f);
    let (m, n) = (decay_divisor_of(t, less, p), decay_divisor_of(t, more, p));
    lemma_inside(m);
    lemma_inside(n);
    lemma_over(exactly(1), m);
    lemma_over(exactly(1), n);
    let (s, q, u) = (place(m), place(n), one_units());
    assert((u * u) * s <= (u * u) * q) by (nonlinear_arith)
        requires
            s <= q,
    ;
    lemma_settle_order((u * u) as int, q as nat, (u * u) as int, s as nat);
    lemma_over_large(exactly(1), m);
    lemma_order(exactly(1) / n, exactly(1) / m);
    lemma_order(exactly(1) / m, exactly(1));
}

} // verus!
