use ccv3_pp::double::Double;
use ccv3_pp::lists::{average, list_statistics, spread, sum};
use ccv3_pp::operators::{ratio, whole};
use ccv3_pp::sorting::{sort_places, sorted};

fn soft(x: f64) -> Double {
    Double { bits: x.to_bits() }
}

fn hard(x: Double) -> f64 {
    f64::from_bits(x.bits)
}

/// The same number, or neither one a number.
fn agree(a: Double, b: f64) -> bool {
    (hard(a).is_nan() && b.is_nan()) || a.bits == b.to_bits()
}

/// Numbers at the edges of the format.
fn edges() -> Vec<f64> {
    let mut list = vec![
        0.0,
        1.0,
        2.0,
        3.0,
        0.1,
        0.5,
        0.75,
        1.5,
        10.0,
        100.0,
        1e-3,
        1e300,
        1e-300,
        f64::MAX,
        f64::MIN_POSITIVE,
        f64::from_bits(1),
        f64::from_bits(2),
        f64::from_bits(0x000f_ffff_ffff_ffff),
        f64::from_bits(0x0010_0000_0000_0001),
        f64::EPSILON,
        1.0 + f64::EPSILON,
        1.0 - f64::EPSILON / 2.0,
        4503599627370496.0,
        9007199254740991.0,
        9007199254740992.0,
        std::f64::consts::PI,
        f64::INFINITY,
        f64::NAN,
    ];
    let negative: Vec<f64> = list.iter().map(|x| -x).collect();
    list.extend(negative);
    list
}

/// Pseudo-random bit patterns.
fn patterns(n: usize) -> Vec<f64> {
    let mut x: u64 = 0x9e37_79b9_7f4a_7c15;
    let mut out = Vec::new();
    while out.len() < n {
        x ^= x << 13;
        x ^= x >> 7;
        x ^= x << 17;
        out.push(f64::from_bits(x));
    }
    out
}

/// Pseudo-random numbers of ordinary size.
fn ordinary(n: usize) -> Vec<f64> {
    patterns(n)
        .into_iter()
        .map(|x| (x.to_bits() % 2_000_001) as f64 / 1000.0 - 1000.0 + 1.0 / 3.0)
        .collect()
}

fn check_pair(x: f64, y: f64) {
    let (a, b) = (soft(x), soft(y));
    assert!(agree(a + b, x + y), "{x:e} + {y:e}");
    assert!(agree(a - b, x - y), "{x:e} - {y:e}");
    assert!(agree(a * b, x * y), "{x:e} * {y:e}");
    assert!(agree(a / b, x / y), "{x:e} / {y:e}");
    assert_eq!(a.below(b), x < y);
    assert_eq!(a.equals(b), x == y);
    assert_eq!(a.at_most(b), x <= y);
    let (low, high) = (hard(a.lesser(b)), hard(a.greater(b)));
    assert!(low == x.min(y) || (low.is_nan() && x.is_nan() && y.is_nan()));
    assert!(high == x.max(y) || (high.is_nan() && x.is_nan() && y.is_nan()));
}

#[test]
fn operations_agree_at_the_edges() {
    for x in edges() {
        for y in edges() {
            check_pair(x, y);
        }
    }
}

#[test]
fn operations_agree_on_patterns() {
    let list = patterns(4000);
    for pair in list.windows(2) {
        check_pair(pair[0], pair[1]);
    }
}

#[test]
fn operations_agree_on_ordinary_numbers() {
    let list = ordinary(4000);
    for pair in list.windows(2) {
        check_pair(pair[0], pair[1]);
    }
}

#[test]
fn unary_operations_agree() {
    let mut list = edges();
    list.extend(patterns(2000));
    list.extend(ordinary(2000));
    for x in list {
        let a = soft(x);
        assert!(agree(a.negated(), -x));
        assert!(agree(a.absolute(), x.abs()));
        assert!(agree(a.root(), x.sqrt()), "root of {x:e}");
        assert!(agree(a.floor(), x.floor()), "floor of {x:e}");
        assert_eq!(a.is_nan(), x.is_nan());
        assert_eq!(a.ceiling(), x.ceil() as usize, "ceiling of {x:e}");
    }
}

#[test]
fn clamping_agrees() {
    for x in edges() {
        for (low, high) in [(0.0, 1.0), (-1.0, 0.5), (0.75, 1.0), (80.0, 320.0)] {
            let r = hard(soft(x).clamped(soft(low), soft(high)));
            assert!(r == x.clamp(low, high) || (r.is_nan() && x.is_nan()));
        }
    }
}

#[test]
fn whole_numbers_and_ratios_are_the_nearest() {
    for n in [0u64, 1, 2, 7, 100, 60_000, u32::MAX as u64, (1 << 53) + 1, u64::MAX] {
        assert_eq!(hard(whole(n)), n as f64);
    }
    assert_eq!(hard(ratio(1, 10)), 0.1);
    assert_eq!(hard(ratio(85, 100)), 0.85);
    assert_eq!(hard(ratio(675, 10_000)), 0.0675);
    assert_eq!(hard(ratio(998, 1000)), 0.998);
    assert_eq!(hard(ratio(232_634_787_404, 100_000_000_000)), 2.32634787404);
    assert_eq!(hard(ratio(9995, 10_000)), 0.9995);
    assert_eq!(hard(ratio(1, 3)), 1.0 / 3.0);
}

#[test]
fn sums_and_spreads_of_lists() {
    let list: Vec<Double> = [1.0, 2.0, 4.0, 0.1].iter().map(|x| soft(*x)).collect();
    let total: f64 = 1.0 + 2.0 + 4.0 + 0.1;
    let mean = total / 4.0;
    assert_eq!(hard(sum(&list)), total);
    assert_eq!(hard(average(&list)), mean);
    let variance = [1.0, 2.0, 4.0, 0.1].iter().map(|x: &f64| (x - mean) * (x - mean)).sum::<f64>()
        / 4.0;
    assert_eq!(hard(spread(&list, average(&list))), variance.sqrt());
    let (m, s, n) = list_statistics(&list, 3);
    assert_eq!((hard(m), hard(s), n), (mean, variance.sqrt(), 4));
    let (m, s, n) = list_statistics(&list, 5);
    assert_eq!((hard(m), hard(s), n), (0.0, 0.0, 4));
}

#[test]
fn sorting_is_stable_and_in_order() {
    let list: Vec<Double> = [2.0, 0.5, 2.0, 9.0, -1.0].iter().map(|x| soft(*x)).collect();
    assert_eq!(sort_places(&list, true), vec![3, 0, 2, 1, 4]);
    assert_eq!(sort_places(&list, false), vec![4, 1, 0, 2, 3]);
    let up: Vec<f64> = sorted(&list, false).into_iter().map(hard).collect();
    assert_eq!(up, vec![-1.0, 0.5, 2.0, 2.0, 9.0]);
}
