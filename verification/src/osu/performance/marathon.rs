//! The buff for maps that stay hard for minutes.
use vstd::prelude::*;
use vstd::slice::slice_subrange;

use crate::bits::law_lists_are_values;
use crate::double::Double;
use crate::lists::values;
use crate::operators::{ratio, whole};
use crate::order::{
    finite, lemma_clamped, lemma_dyadic, lemma_held, lemma_is_one, lemma_large_share, lemma_lesser,
    lemma_minus, lemma_near_place, lemma_near_places, lemma_one, lemma_order, lemma_over,
    lemma_over_order, lemma_proper, lemma_sum, lemma_times_one, lemma_times_share,
    lemma_whole_place, number, place, proper,
};
use crate::osu::performance::peaks::{
    decayed, decayed_sum, lemma_decayed_sum, lemma_positive_top, lemma_reduction,
    lemma_same_peaks, lemma_values_subrange, minute_end, minute_of, minutes, minutes_of,
    positive, positive_of, star_of_performance, star_of_performance_of, strain_rating,
    strain_rating_of,
};
use crate::osu::performance::relax_marathon::lemma_own_share;
use crate::query::{law_answers_are_values, Math, Query, Table};
use crate::signs::{lemma_commutes, lemma_large_times, lemma_some_times};
use crate::sorting::{sorted, sorted_of};
use crate::value::{exactly, near, one_units, Value};

verus! {

/// How a map earns the buff for sustained difficulty.
#[derive(Clone, Copy, Debug)]
pub struct VanillaMarathonParams {
    /// The combo from which a map is a marathon.
    pub min_combo_for_marathon: u32,
    /// The stars from which a minute counts.
    pub min_sr_for_consideration: Double,
    /// How balanced aim and speed have to be.
    pub balance_tolerance: Double,
    /// The number of such minutes that it takes.
    pub min_sustained_minutes: usize,
    /// The combo beyond which no more is earned.
    pub max_combo_cap: u32,
    /// The largest buff.
    pub max_buff: Double,
}

/// The same over values.
pub struct SustainedBuff {
    pub min_combo_for_marathon: u32,
    pub min_sr_for_consideration: Value,
    pub balance_tolerance: Value,
    pub min_sustained_minutes: usize,
    pub max_combo_cap: u32,
    pub max_buff: Value,
}

impl SustainedBuff {
    /// The buff that scores are rated with.
    pub open spec fn standard() -> SustainedBuff {
        SustainedBuff {
            min_combo_for_marathon: 1375,
            min_sr_for_consideration: near(44, 10),
            balance_tolerance: near(62, 100),
            min_sustained_minutes: 3,
            max_combo_cap: 8000,
            max_buff: near(110, 100),
        }
    }
}

impl View for VanillaMarathonParams {
    type V = SustainedBuff;

    open spec fn view(&self) -> SustainedBuff {
        SustainedBuff {
            min_combo_for_marathon: self.min_combo_for_marathon,
            min_sr_for_consideration: self.min_sr_for_consideration@,
            balance_tolerance: self.balance_tolerance@,
            min_sustained_minutes: self.min_sustained_minutes,
            max_combo_cap: self.max_combo_cap,
            max_buff: self.max_buff@,
        }
    }
}

impl Default for VanillaMarathonParams {
    fn default() -> (r: Self)
        ensures
            r@ == SustainedBuff::standard(),
    {
        VanillaMarathonParams {
            min_combo_for_marathon: 1375,
            min_sr_for_consideration: ratio(44, 10),
            balance_tolerance: ratio(62, 100),
            min_sustained_minutes: 3,
            max_combo_cap: 8000,
            max_buff: ratio(110, 100),
        }
    }
}

/// How much of the peak at place `i` from the top counts: the ten highest are
/// reduced.
pub open spec fn peak_scale_of(t: Table, i: nat) -> Value {
    let share = exactly(i) / exactly(10);
    let scale = t.log10(exactly(1) - (exactly(1) - near(75, 100)) * share).absolute().lesser(
        exactly(1),
    );
    near(75, 100) + (exactly(1) - near(75, 100)) * scale
}

/// How much of the peak at place `i` from the top counts: the ten highest are
/// reduced.
pub fn peak_scale<F: Fn(Query<Double>) -> Double>(math: &Math<F>, i: usize) -> (r: Double)
    requires
        math.sound(),
    ensures
        r@ == peak_scale_of(math@, i as nat),
{
    let share = whole(i as u64) / whole(10);
    let scale = math.log10(whole(1) - (whole(1) - ratio(75, 100)) * share).absolute().lesser(
        whole(1),
    );
    ratio(75, 100) + (whole(1) - ratio(75, 100)) * scale
}

/// A list from the top with its ten highest entries reduced.
pub open spec fn scaled_of(t: Table, s: Seq<Value>) -> Seq<Value> {
    Seq::new(
        s.len(),
        |i: int|
            if i < 10 {
                s[i] * peak_scale_of(t, i as nat)
            } else {
                s[i]
            },
    )
}

/// The difficulty of a list of strain peaks: the positive ones from the top,
/// the ten highest reduced, each worth nine tenths of the one before.
pub open spec fn peaks_difficulty_of(t: Table, peaks: Seq<Value>) -> Value {
    let scaled = sorted_of(scaled_of(t, sorted_of(positive_of(peaks), true)), true);
    decayed(scaled, scaled.len()).0
}

/// The difficulty of a list of strain peaks: the positive ones from the top,
/// the ten highest reduced, each worth nine tenths of the one before.
pub fn difficulty_value_from_peaks<F: Fn(Query<Double>) -> Double>(
    math: &Math<F>,
    peaks: &[Double],
) -> (r: Double)
    requires
        math.sound(),
    ensures
        r@ == peaks_difficulty_of(math@, values(peaks@)),
        exactly(0).below(r@) <==> positive_of(values(peaks@)).len() > 0,
        positive_of(values(peaks@)).len() == 0 ==> r@ == exactly(0),
{
    proof {
        law_only_peaks_are_difficult(math, peaks@);
    }
    let top = sorted(positive(peaks).as_slice(), true);
    let ghost s = values(top@);
    let mut out: Vec<Double> = Vec::new();
    let mut i: usize = 0;
    while i < top.len()
        invariant
            math.sound(),
            i <= top@.len(),
            s == values(top@),
            out@.len() == i,
            forall|k: int| 0 <= k < i ==> (#[trigger] out@[k])@ == scaled_of(math@, s)[k],
        decreases top@.len() - i,
    {
        let peak = if i < 10 {
            top[i] * peak_scale(math, i)
        } else {
            top[i]
        };
        out.push(peak);
        i = i + 1;
    }
    proof {
        assert(values(out@) =~= scaled_of(math@, s));
    }
    decayed_sum(&sorted(out.as_slice(), true))
}

/// The stars of a list of strain peaks.
pub open spec fn peaks_star_of(t: Table, peaks: Seq<Value>) -> Value {
    star_of_performance_of(
        t,
        t.strain_performance(strain_rating_of(peaks_difficulty_of(t, peaks))),
    )
}

/// The stars of a list of strain peaks.
pub fn star_from_peaks<F: Fn(Query<Double>) -> Double>(math: &Math<F>, peaks: &[Double]) -> (r:
    Double)
    requires
        math.sound(),
    ensures
        r@ == peaks_star_of(math@, values(peaks@)),
{
    let rating = strain_rating(difficulty_value_from_peaks(math, peaks));
    star_of_performance(math, math.strain_performance(rating))
}

/// The stars of each minute of a list of strain peaks.
pub open spec fn local_sr_per_minute_of(t: Table, strains: Seq<Value>) -> Seq<Value> {
    Seq::new(minutes_of(strains.len()), |k: int| peaks_star_of(t, minute_of(strains, k as nat)))
}

/// The stars of each minute of a list of strain peaks.
pub fn local_sr_per_minute<F: Fn(Query<Double>) -> Double>(
    math: &Math<F>,
    strains: &[Double],
) -> (r: Vec<Double>)
    requires
        math.sound(),
    ensures
        values(r@) == local_sr_per_minute_of(math@, values(strains@)),
{
    let n_minutes: usize = minutes(strains.len());
    let ghost all = local_sr_per_minute_of(math@, values(strains@));
    let mut out: Vec<Double> = Vec::new();
    let mut k: usize = 0;
    while k < n_minutes
        invariant
            math.sound(),
            k <= n_minutes == minutes_of(strains@.len()),
            all == local_sr_per_minute_of(math@, values(strains@)),
            out@.len() == k,
            forall|i: int| 0 <= i < k ==> (#[trigger] out@[i])@ == all[i],
        decreases n_minutes - k,
    {
        let end: usize = minute_end(strains.len(), k);
        let start: usize = k * 150;
        proof {
            lemma_values_subrange(strains@, start as int, end as int);
        }
        out.push(star_from_peaks(math, slice_subrange(strains, start, end)));
        k = k + 1;
    }
    proof {
        assert(values(out@) =~= all);
    }
    out
}

/// Whether a minute is hard and balanced enough to count.
pub open spec fn good_minute_of(aim_sr: Value, speed_sr: Value, p: SustainedBuff) -> bool {
    if aim_sr.below(p.min_sr_for_consideration) || speed_sr.below(p.min_sr_for_consideration) {
        false
    } else if speed_sr.below(aim_sr) {
        p.balance_tolerance.at_most(speed_sr / aim_sr)
    } else {
        p.balance_tolerance.at_most(aim_sr / speed_sr)
    }
}

/// Whether a minute is hard and balanced enough to count.
fn good_minute(aim_sr: Double, speed_sr: Double, p: VanillaMarathonParams) -> (r: bool)
    ensures
        r == good_minute_of(aim_sr@, speed_sr@, p@),
{
    if aim_sr.below(p.min_sr_for_consideration) || speed_sr.below(p.min_sr_for_consideration) {
        false
    } else if speed_sr.below(aim_sr) {
        p.balance_tolerance.at_most(speed_sr / aim_sr)
    } else {
        p.balance_tolerance.at_most(aim_sr / speed_sr)
    }
}

/// The number of minutes, of the first `n`, that count.
pub open spec fn good_minutes_of(
    aim_sr: Seq<Value>,
    speed_sr: Seq<Value>,
    p: SustainedBuff,
    n: nat,
) -> nat
    decreases n,
{
    if n == 0 {
        0
    } else {
        good_minutes_of(aim_sr, speed_sr, p, (n - 1) as nat) + if good_minute_of(
            aim_sr[n - 1],
            speed_sr[n - 1],
            p,
        ) {
            1nat
        } else {
            0
        }
    }
}

/// The number of minutes that count.
fn good_minutes(aim_sr: &[Double], speed_sr: &[Double], p: VanillaMarathonParams) -> (r: usize)
    requires
        aim_sr@.len() == speed_sr@.len(),
    ensures
        r == good_minutes_of(values(aim_sr@), values(speed_sr@), p@, aim_sr@.len()),
{
    let mut count: usize = 0;
    let mut k: usize = 0;
    while k < aim_sr.len()
        invariant
            k <= aim_sr@.len() == speed_sr@.len(),
            count <= k,
            count == good_minutes_of(values(aim_sr@), values(speed_sr@), p@, k as nat),
        decreases aim_sr@.len() - k,
    {
        if good_minute(aim_sr[k], speed_sr[k], p) {
            count = count + 1;
        }
        k = k + 1;
    }
    count
}

/// The buff for `good` minutes, before it is held to its bounds.
pub open spec fn raw_buff_of(
    t: Table,
    good: nat,
    map_max_combo: u32,
    player_max_combo: u32,
    acc: Value,
    p: SustainedBuff,
) -> Value {
    let base_buff = exactly(1) + near(27, 1000) * (exactly(good) - exactly(2)).greater(
        exactly(0),
    ).root();
    let effective_combo = exactly(player_max_combo as nat).lesser(exactly(p.max_combo_cap as nat));
    let combo_ratio = (effective_combo / exactly(map_max_combo as nat)).clamped(
        exactly(0),
        exactly(1),
    );
    let length_factor = if map_max_combo > 5000 {
        near(112, 100) + near(8, 100) * ((exactly(map_max_combo as nat) - exactly(5000)) / exactly(
            10000,
        )).clamped(exactly(0), exactly(1))
    } else {
        (exactly(map_max_combo as nat) / exactly(p.min_combo_for_marathon as nat)).clamped(
            near(75, 100),
            near(11, 10),
        )
    };
    let raw_acc_factor = if near(985, 1000).at_most(acc) {
        exactly(1)
    } else {
        t.exp(near(145, 10).negated() * (near(985, 1000) - acc)).clamped(near(34, 100), exactly(1))
    };
    let combo_exponent = near(28, 10) * (exactly(3500) / effective_combo.greater(
        exactly(800),
    )).clamped(near(65, 100), near(28, 10));
    base_buff * combo_ratio * length_factor * t.power(raw_acc_factor, combo_exponent)
}

/// The buff for `good` minutes, before it is held to its bounds.
fn raw_buff<F: Fn(Query<Double>) -> Double>(
    math: &Math<F>,
    good: usize,
    map_max_combo: u32,
    player_max_combo: u32,
    acc: Double,
    p: VanillaMarathonParams,
) -> (r: Double)
    requires
        math.sound(),
    ensures
        r@ == raw_buff_of(math@, good as nat, map_max_combo, player_max_combo, acc@, p@),
{
    let base_buff = whole(1) + ratio(27, 1000) * (whole(good as u64) - whole(2)).greater(
        whole(0),
    ).root();
    let effective_combo = whole(player_max_combo as u64).lesser(whole(p.max_combo_cap as u64));
    let combo_ratio = (effective_combo / whole(map_max_combo as u64)).clamped(
        whole(0),
        whole(1),
    );
    let length_factor = if map_max_combo > 5000 {
        ratio(112, 100) + ratio(8, 100) * ((whole(map_max_combo as u64) - whole(5000)) / whole(
            10000,
        )).clamped(whole(0), whole(1))
    } else {
        (whole(map_max_combo as u64) / whole(p.min_combo_for_marathon as u64)).clamped(
            ratio(75, 100),
            ratio(11, 10),
        )
    };
    let raw_acc_factor = if ratio(985, 1000).at_most(acc) {
        whole(1)
    } else {
        math.exp(ratio(145, 10).negated() * (ratio(985, 1000) - acc)).clamped(
            ratio(34, 100),
            whole(1),
        )
    };
    let combo_exponent = ratio(28, 10) * (whole(3500) / effective_combo.greater(
        whole(800),
    )).clamped(ratio(65, 100), ratio(28, 10));
    base_buff * combo_ratio * length_factor * math.power(raw_acc_factor, combo_exponent)
}

/// Whether a map is long enough and has enough minutes that count.
pub open spec fn earns_buff_of(
    aim_sr: Seq<Value>,
    speed_sr: Seq<Value>,
    map_max_combo: u32,
    p: SustainedBuff,
) -> bool {
    aim_sr.len() >= p.min_sustained_minutes && aim_sr.len() == speed_sr.len() && map_max_combo
        >= p.min_combo_for_marathon && good_minutes_of(aim_sr, speed_sr, p, aim_sr.len())
        >= p.min_sustained_minutes
}

/// The buff for sustained and balanced difficulty: never below one and never
/// above the largest buff.
pub open spec fn vanilla_marathon_multiplier_of(
    t: Table,
    aim_sr: Seq<Value>,
    speed_sr: Seq<Value>,
    map_max_combo: u32,
    player_max_combo: u32,
    acc: Value,
    p: SustainedBuff,
) -> Value {
    if earns_buff_of(aim_sr, speed_sr, map_max_combo, p) {
        let good = good_minutes_of(aim_sr, speed_sr, p, aim_sr.len());
        raw_buff_of(t, good, map_max_combo, player_max_combo, acc, p).clamped(
            exactly(1),
            p.max_buff,
        )
    } else {
        exactly(1)
    }
}

/// The buff for sustained and balanced difficulty: never below one and never
/// above the largest buff.
pub fn vanilla_marathon_multiplier<F: Fn(Query<Double>) -> Double>(
    math: &Math<F>,
    local_aim_sr: &[Double],
    local_speed_sr: &[Double],
    map_max_combo: u32,
    player_max_combo: u32,
    acc: Double,
    params: VanillaMarathonParams,
) -> (r: Double)
    requires
        math.sound(),
        earns_buff_of(
            values(local_aim_sr@),
            values(local_speed_sr@),
            map_max_combo,
            params@,
        ) ==> exactly(1).at_most(params@.max_buff),
    ensures
        r@ == vanilla_marathon_multiplier_of(
            math@,
            values(local_aim_sr@),
            values(local_speed_sr@),
            map_max_combo,
            player_max_combo,
            acc@,
            params@,
        ),
{
    if local_aim_sr.len() < params.min_sustained_minutes || local_aim_sr.len()
        != local_speed_sr.len() || map_max_combo < params.min_combo_for_marathon {
        return whole(1);
    }
    let good: usize = good_minutes(local_aim_sr, local_speed_sr, params);
    if good < params.min_sustained_minutes {
        return whole(1);
    }
    raw_buff(math, good, map_max_combo, player_max_combo, acc, params).clamped(
        whole(1),
        params.max_buff,
    )
}

/// The buff, where it is a number, never takes anything and never gives more than
/// the largest buff.
pub proof fn law_buff_is_bounded(
    t: Table,
    aim_sr: Seq<Value>,
    speed_sr: Seq<Value>,
    map_max_combo: u32,
    player_max_combo: u32,
    acc: Value,
    p: SustainedBuff,
)
    requires
        finite(p.max_buff),
        exactly(1).at_most(p.max_buff),
    ensures
        ({
            let r = vanilla_marathon_multiplier_of(
                t,
                aim_sr,
                speed_sr,
                map_max_combo,
                player_max_combo,
                acc,
                p,
            );
            !(r is Nan) ==> exactly(1).at_most(r) && r.at_most(p.max_buff)
        }),
{
    lemma_one();
    lemma_order(exactly(1), exactly(1));
    lemma_order(exactly(1), p.max_buff);
    let good = good_minutes_of(aim_sr, speed_sr, p, aim_sr.len());
    let raw = raw_buff_of(t, good, map_max_combo, player_max_combo, acc, p);
    lemma_raw_buff(t, good, map_max_combo, player_max_combo, acc, p);
    lemma_held(raw, exactly(1), p.max_buff);
}

/// The buff before it is held is a product.
proof fn lemma_raw_buff(
    t: Table,
    good: nat,
    map_max_combo: u32,
    player_max_combo: u32,
    acc: Value,
    p: SustainedBuff,
)
    ensures
        proper(raw_buff_of(t, good, map_max_combo, player_max_combo, acc, p)),
{
    assert forall|x: Value, y: Value| proper(#[trigger] x.times(y)) by {
        lemma_proper(x, y);
    }
}

/// The difficulty of a list of strain peaks depends on nothing but which positive
/// peaks there are, and how often each.
pub proof fn law_peaks_forget_their_order(t: Table, a: Seq<Value>, b: Seq<Value>)
    requires
        positive_of(a).to_multiset() == positive_of(b).to_multiset(),
    ensures
        peaks_difficulty_of(t, a) == peaks_difficulty_of(t, b),
{
    lemma_same_peaks(a, b);
}

/// A list of strain peaks has difficulty exactly where one of them is positive,
/// whatever is answered for logarithms.
pub proof fn law_only_peaks_are_difficult<F: Fn(Query<Double>) -> Double>(
    math: &Math<F>,
    peaks: Seq<Double>,
)
    ensures
        exactly(0).below(peaks_difficulty_of(math@, values(peaks))) <==> positive_of(
            values(peaks),
        ).len() > 0,
        positive_of(values(peaks)).len() == 0 ==> peaks_difficulty_of(math@, values(peaks))
            == exactly(0),
{
    let t = math@;
    let top = sorted_of(positive_of(values(peaks)), true);
    law_lists_are_values(peaks);
    law_answers_are_values(math);
    lemma_positive_top(values(peaks));
    let scaled = scaled_of(t, top);
    assert forall|i: int| 0 <= i < scaled.len() implies number(#[trigger] scaled[i]) && 0 < place(
        scaled[i],
    ) by {
        if i < 10 {
            let share = exactly(i as nat) / exactly(10);
            lemma_reduction(t.log10(exactly(1) - (exactly(1) - near(75, 100)) * share));
            lemma_large_share(top[i], peak_scale_of(t, i as nat));
        }
    }
    lemma_decayed_sum(scaled);
    lemma_one();
    lemma_order(exactly(0), peaks_difficulty_of(t, values(peaks)));
}

/// The exponent by which accuracy counts for a combo.
pub open spec fn combo_exponent_of(combo: u32, p: SustainedBuff) -> Value {
    let effective_combo = exactly(combo as nat).lesser(exactly(p.max_combo_cap as nat));
    near(28, 10) * (exactly(3500) / effective_combo.greater(exactly(800))).clamped(
        near(65, 100),
        near(28, 10),
    )
}

/// A flawless play of a map that earns the buff, with a combo of more than five
/// thousand, gets all of it, where it is up to twelve hundredths.
pub proof fn law_long_maps_earn_the_full_buff(
    t: Table,
    aim_sr: Seq<Value>,
    speed_sr: Seq<Value>,
    map_max_combo: u32,
    player_max_combo: u32,
    acc: Value,
    p: SustainedBuff,
)
    requires
        earns_buff_of(aim_sr, speed_sr, map_max_combo, p),
        5000 < map_max_combo <= player_max_combo,
        map_max_combo <= p.max_combo_cap,
        near(985, 1000).at_most(acc),
        finite(p.max_buff) && exactly(1).at_most(p.max_buff) && p.max_buff.at_most(near(112, 100)),
        t.power(exactly(1), combo_exponent_of(player_max_combo, p)) == exactly(1),
        ({
            let good = good_minutes_of(aim_sr, speed_sr, p, aim_sr.len());
            let root = (exactly(good) - exactly(2)).greater(exactly(0)).root();
            number(root) && exactly(0).at_most(root)
        }),
    ensures
        vanilla_marathon_multiplier_of(
            t,
            aim_sr,
            speed_sr,
            map_max_combo,
            player_max_combo,
            acc,
            p,
        ).equals(p.max_buff),
{
    lemma_one();
    let u = one_units();
    let good = good_minutes_of(aim_sr, speed_sr, p, aim_sr.len());
    let root = (exactly(good) - exactly(2)).greater(exactly(0)).root();
    lemma_order(exactly(0), root);
    lemma_near_place(27, 1000);
    lemma_near_places(1, 64, 27, 1000);
    lemma_dyadic(1);
    lemma_some_times(near(27, 1000), root);
    let base = exactly(1) + near(27, 1000) * root;
    lemma_sum(exactly(1), near(27, 1000) * root);
    let combo = exactly(player_max_combo as nat).lesser(exactly(p.max_combo_cap as nat));
    let full = exactly(map_max_combo as nat);
    lemma_whole_place(player_max_combo as nat);
    lemma_whole_place(p.max_combo_cap as nat);
    lemma_whole_place(map_max_combo as nat);
    lemma_whole_place(5000);
    lemma_whole_place(10_000);
    lemma_lesser(exactly(player_max_combo as nat), exactly(p.max_combo_cap as nat));
    assert(map_max_combo * u <= player_max_combo * u && map_max_combo * u <= p.max_combo_cap * u
        && 0 < map_max_combo * u) by (nonlinear_arith)
        requires
            0 < map_max_combo <= player_max_combo,
            map_max_combo <= p.max_combo_cap,
            u > 0,
    ;
    lemma_over(combo, full);
    lemma_over(full, full);
    lemma_over_order(full, combo, full);
    lemma_own_share(full);
    lemma_clamped(combo / full, exactly(0), exactly(1));
    lemma_clamped(full / full, exactly(0), exactly(1));
    lemma_is_one((combo / full).clamped(exactly(0), exactly(1)));
    let length = near(112, 100) + near(8, 100) * ((full - exactly(5000)) / exactly(
        10000,
    )).clamped(exactly(0), exactly(1));
    lemma_minus(full, exactly(5000));
    lemma_over(full - exactly(5000), exactly(10_000));
    lemma_clamped((full - exactly(5000)) / exactly(10_000), exactly(0), exactly(1));
    lemma_near_place(8, 100);
    lemma_near_place(112, 100);
    lemma_near_places(1, 1, 112, 100);
    let part = near(8, 100) * ((full - exactly(5000)) / exactly(10000)).clamped(
        exactly(0),
        exactly(1),
    );
    lemma_times_share(
        near(8, 100),
        ((full - exactly(5000)) / exactly(10000)).clamped(exactly(0), exactly(1)),
    );
    lemma_sum(near(112, 100), part);
    lemma_times_one(base);
    lemma_large_times(length, base);
    lemma_commutes(length, base);
    lemma_times_one(base * length);
    let raw = raw_buff_of(t, good, map_max_combo, player_max_combo, acc, p);
    assert(raw == base * length);
    lemma_order(exactly(1), p.max_buff);
    lemma_order(p.max_buff, near(112, 100));
    lemma_clamped(raw, exactly(1), p.max_buff);
    reveal(Value::equals);
}

} // verus!
