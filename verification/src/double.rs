//! Binary64 numbers as bit patterns, with verified arithmetic.
//!
//! Every operation returns the correctly rounded result (to nearest, ties to
//! even), so it agrees bit for bit with binary64 hardware, up to the payload of
//! results that are not a number.
use vstd::arithmetic::div_mod::lemma_fundamental_div_mod_converse;
use vstd::arithmetic::power2::{
    lemma2_to64, lemma2_to64_rest, lemma_pow2_adds, lemma_pow2_pos, lemma_pow2_strictly_increases,
    lemma_pow2_unfold, pow2,
};
use vstd::prelude::*;

use crate::rounding::{
    lemma_half_even_split, lemma_pow2_grows, lemma_root_scaled, lemma_round_absorbs,
    lemma_round_scaled, lemma_round_units_same, raise,
};
use crate::value::{half_even, magnitude, one_units, round_root, rounded, Value};

verus! {

/// A binary64 number, given by its bits.
#[derive(Clone, Copy, Debug, PartialEq, Eq, Structural)]
pub struct Double {
    pub bits: u64,
}

/// The units of the finite number whose sign-less bits are `mag`.
pub open spec fn units_of(mag: nat) -> nat {
    let field = mag / 0x10_0000_0000_0000;
    let fraction = mag % 0x10_0000_0000_0000;
    if field == 0 {
        fraction
    } else {
        (0x10_0000_0000_0000 + fraction) * pow2((field - 1) as nat)
    }
}

impl View for Double {
    type V = Value;

    open spec fn view(&self) -> Value {
        let neg = self.bits >= 0x8000_0000_0000_0000;
        let mag = self.bits as nat % 0x8000_0000_0000_0000;
        if mag > 0x7ff0_0000_0000_0000 {
            Value::Nan
        } else if mag == 0x7ff0_0000_0000_0000 {
            Value::Infinite { neg }
        } else {
            Value::Finite { neg, units: units_of(mag) }
        }
    }
}

/// A number taken apart.
enum Parts {
    Nan,
    Infinite { neg: bool },
    /// `sig * 2^exp` units.
    Finite { neg: bool, sig: u64, exp: u32 },
}

impl Parts {
    spec fn describes(self, v: Value) -> bool {
        match self {
            Parts::Nan => v == Value::Nan,
            Parts::Infinite { neg } => v == (Value::Infinite { neg }),
            Parts::Finite { neg, sig, exp } => {
                &&& sig < 0x20_0000_0000_0000
                &&& exp <= 2045
                &&& sig >= 0x10_0000_0000_0000 || exp == 0
                &&& v == (Value::Finite { neg, units: sig as nat * pow2(exp as nat) })
            },
        }
    }
}

/// The number of bits that `m` takes.
fn bit_length(m: u128) -> (l: u32)
    ensures
        l <= 128,
        (m as nat) < pow2(l as nat),
        m == 0 ==> l == 0,
        m > 0 ==> pow2(l as nat) <= 2 * m,
{
    let mut t: u128 = m;
    let mut l: u32 = 0;
    proof {
        lemma2_to64();
        lemma_pow2_adds(64, 64);
        lemma2_to64_rest();
    }
    while t > 0
        invariant
            l <= 128,
            m > 0 || t == 0,
            t == 0 && l == 0 ==> m == 0,
            t as nat * pow2(l as nat) <= m < (t + 1) * pow2(l as nat),
            l > 0 ==> pow2(l as nat) <= 2 * m,
            m == 0 ==> l == 0,
            pow2(128) == 0x1_0000_0000_0000_0000 * 0x1_0000_0000_0000_0000,
        decreases t,
    {
        let ghost p = pow2(l as nat);
        let ghost h = t / 2;
        proof {
            lemma_pow2_unfold((l + 1) as nat);
            lemma_pow2_pos(l as nat);
            assert(p <= m) by (nonlinear_arith)
                requires
                    t as nat * p <= m,
                    t >= 1,
            ;
            if l == 128 {
                assert(false);
            }
            assert(h as nat * (2 * p) <= m < (h + 1) * (2 * p)) by (nonlinear_arith)
                requires
                    t as nat * p <= m < (t + 1) * p,
                    2 * h <= t <= 2 * h + 1,
                    p > 0,
            ;
        }
        t = t / 2;
        l = l + 1;
    }
    proof {
        let p = pow2(l as nat);
        assert((t + 1) * p == p) by (nonlinear_arith)
            requires
                t == 0,
        ;
    }
    l
}

/// `2^s`.
fn power(s: u32) -> (p: u128)
    requires
        s < 128,
    ensures
        p == pow2(s as nat),
{
    let mut p: u128 = 1;
    let mut i: u32 = 0;
    proof {
        lemma2_to64();
    }
    while i < s
        invariant
            i <= s < 128,
            p == pow2(i as nat),
        decreases s - i,
    {
        proof {
            lemma_pow2_unfold((i + 1) as nat);
            lemma2_to64_rest();
            lemma_pow2_adds(63, 64);
            lemma_pow2_grows((i + 1) as nat, 127);
        }
        p = p * 2;
        i = i + 1;
    }
    p
}

/// The bits `k * 2^52 + mant` hold the significand `mant` at the spacing `2^k`.
pub proof fn lemma_encode(k: nat, mant: nat)
    requires
        mant <= 0x20_0000_0000_0000,
        k == 0 || mant >= 0x10_0000_0000_0000,
    ensures
        ({
            let mag = k * 0x10_0000_0000_0000 + mant;
            &&& units_of(mag) == mant * pow2(k)
            &&& mag >= 0x7ff0_0000_0000_0000 <==> mant * pow2(k) >= pow2(2098)
        }),
{
    let c: int = 0x10_0000_0000_0000;
    let mag = k * 0x10_0000_0000_0000 + mant;
    lemma2_to64();
    lemma2_to64_rest();
    lemma_pow2_pos(k);
    let p = pow2(k);
    if mant < c {
        lemma_fundamental_div_mod_converse(mag as int, c, 0, mant as int);
        assert(mant * p == mant) by (nonlinear_arith)
            requires
                p == 1,
        ;
        lemma_pow2_grows(63, 2098);
    } else if mant < 2 * c {
        lemma_fundamental_div_mod_converse(mag as int, c, (k + 1) as int, mant - c);
        if k <= 2045 {
            lemma_pow2_adds(53, k);
            lemma_pow2_grows(53 + k, 2098);
            assert(mant * p < pow2(53) * p) by (nonlinear_arith)
                requires
                    mant < pow2(53),
                    p > 0,
            ;
        } else {
            lemma_pow2_adds(52, k);
            lemma_pow2_grows(2098, 52 + k);
            assert(mant * p >= pow2(52) * p) by (nonlinear_arith)
                requires
                    mant >= pow2(52),
                    p > 0,
            ;
        }
    } else {
        lemma_fundamental_div_mod_converse(mag as int, c, (k + 2) as int, 0);
        lemma_pow2_unfold(k + 1);
        assert(c * (2 * p) == mant * p) by (nonlinear_arith)
            requires
                mant == 2 * c,
        ;
        lemma_pow2_adds(53, k);
        if k < 2045 {
            lemma_pow2_strictly_increases(53 + k, 2098);
        } else {
            lemma_pow2_grows(2098, 53 + k);
        }
    }
}

/// The number with the significand `mant` at the spacing `2^k`.
fn assemble(neg: bool, k: u32, mant: u64) -> (r: Double)
    requires
        mant <= 0x20_0000_0000_0000,
        k == 0 || mant >= 0x10_0000_0000_0000,
    ensures
        r@ == (if mant * pow2(k as nat) >= pow2(2098) {
            Value::Infinite { neg }
        } else {
            Value::Finite { neg, units: (mant * pow2(k as nat)) as nat }
        }),
{
    proof {
        lemma_encode(k as nat, mant as nat);
    }
    let sign: u64 = if neg {
        0x8000_0000_0000_0000
    } else {
        0
    };
    if k > 2046 {
        return Double { bits: sign + 0x7ff0_0000_0000_0000 };
    }
    let mag: u64 = k as u64 * 0x10_0000_0000_0000 + mant;
    if mag >= 0x7ff0_0000_0000_0000 {
        Double { bits: sign + 0x7ff0_0000_0000_0000 }
    } else {
        let r = Double { bits: sign + mag };
        assert(r.bits as nat % 0x8000_0000_0000_0000 == mag);
        r
    }
}

/// `a / b` divided by `2^s` and rounded, from the integer part `m` of `a / b`
/// and whether a fraction is left over.
fn significand(m: u128, sticky: bool, s: u32, Ghost(a): Ghost<nat>, Ghost(b): Ghost<nat>) -> (r:
    u128)
    requires
        b > 0,
        a / b == m,
        sticky == (a % b != 0),
        m < 0x8000_0000_0000_0000_0000_0000_0000_0000,
        s > 0,
    ensures
        r == half_even(a, b * pow2(s as nat)),
{
    let ghost c = pow2(s as nat);
    proof {
        lemma2_to64();
        lemma2_to64_rest();
        lemma_pow2_unfold(s as nat);
        lemma_pow2_pos(s as nat);
        lemma_half_even_split(a, b, c);
    }
    if s >= 128 {
        proof {
            lemma_pow2_adds(64, 64);
            lemma_pow2_grows(128, s as nat);
            lemma_fundamental_div_mod_converse(m as int, c as int, 0, m as int);
        }
        0
    } else {
        let p: u128 = power(s);
        proof {
            lemma_pow2_adds(63, 64);
            lemma_pow2_grows(s as nat, 127);
        }
        let q: u128 = m / p;
        let y: u128 = m % p;
        if 2 * y > p || (2 * y == p && (sticky || q % 2 == 1)) {
            q + 1
        } else {
            q
        }
    }
}

/// The number nearest to `a / b` scaled by `2^e`, from the integer part `m` of
/// `a / b` and whether a fraction is left over.
fn pack(neg: bool, m: u128, sticky: bool, e: i32, Ghost(a): Ghost<nat>, Ghost(b): Ghost<nat>) -> (r:
    Double)
    requires
        b > 0,
        a / b == m,
        sticky == (a % b != 0),
        sticky ==> m >= 0x40_0000_0000_0000,
        m < 0x8000_0000_0000_0000_0000_0000_0000_0000,
        -5000 <= e <= 5000,
    ensures
        r@ == rounded(neg, a * raise(e as int), b * raise(-e)),
{
    let l: u32 = bit_length(m);
    let k: i32 = if m > 0 && l as i32 + e > 53 {
        l as i32 + e - 53
    } else {
        0
    };
    let s: i32 = k - e;
    let ghost h = half_even(a * raise(e as int), b * raise(-e) * pow2(k as nat));
    proof {
        lemma2_to64();
        lemma2_to64_rest();
        if sticky && l < 55 {
            lemma_pow2_grows(l as nat, 54);
        }
        lemma_round_scaled(a, b, l as nat, e as int, k as nat);
        assert(pow2(k as nat) * h == h * pow2(k as nat)) by (nonlinear_arith);
    }
    if s > 0 {
        let q: u128 = significand(m, sticky, s as u32, Ghost(a), Ghost(b));
        assemble(neg, k as u32, q as u64)
    } else if m == 0 {
        assert(0 * pow2((e - k) as nat) == 0);
        assemble(neg, k as u32, 0)
    } else {
        proof {
            let t = pow2((e - k) as nat);
            assert(t <= 0x20_0000_0000_0000) by (nonlinear_arith)
                requires
                    m as nat * t <= 0x20_0000_0000_0000,
                    m >= 1,
            ;
            if e - k > 53 {
                lemma_pow2_strictly_increases(53, (e - k) as nat);
            }
        }
        let p: u128 = power((e - k) as u32);
        assemble(neg, k as u32, (m * p) as u64)
    }
}

/// `n` with a sign.
spec fn signed(neg: bool, n: nat) -> int {
    if neg {
        -(n as int)
    } else {
        n as int
    }
}

/// `2^a * 2^b`.
proof fn lemma_pow2_product(a: nat, b: nat, m: nat)
    ensures
        m * pow2(a) * pow2(b) == m * pow2(a + b),
{
    lemma_pow2_adds(a, b);
    let x = pow2(a);
    let y = pow2(b);
    assert(m * x * y == m * (x * y)) by (nonlinear_arith);
}

/// The factors of a product of two products regrouped.
proof fn lemma_regroup(a: nat, x: nat, b: nat, y: nat)
    ensures
        (a * x) * (b * y) == (a * b) * (x * y),
{
    assert((a * x) * (b * y) == (a * b) * (x * y)) by (nonlinear_arith);
}

/// The sum of two finite numbers, the first of which has the larger exponent.
fn sum(na: bool, sa: u64, ea: u32, nb: bool, sb: u64, eb: u32) -> (r: Double)
    requires
        sa < 0x20_0000_0000_0000,
        sb < 0x20_0000_0000_0000,
        eb <= ea <= 2045,
        sa >= 0x10_0000_0000_0000 || ea == 0,
    ensures
        ({
            let total = signed(na, sa as nat * pow2(ea as nat)) + signed(
                nb,
                sb as nat * pow2(eb as nat),
            );
            r@ == rounded(
                if total == 0 {
                    na && nb
                } else {
                    total < 0
                },
                magnitude(total),
                1,
            )
        }),
{
    let ghost x = sa as nat * pow2(ea as nat);
    let ghost y = sb as nat * pow2(eb as nat);
    let ghost total = signed(na, x) + signed(nb, y);
    let d: u32 = ea - eb;
    proof {
        lemma2_to64();
        lemma2_to64_rest();
        lemma_pow2_pos(eb as nat);
        lemma_pow2_pos(ea as nat);
    }
    if d >= 64 {
        proof {
            lemma_pow2_adds(eb as nat, d as nat);
            lemma_pow2_grows(64, d as nat);
            let p = pow2(eb as nat);
            let w = pow2(d as nat);
            assert(4 * y < pow2(ea as nat)) by (nonlinear_arith)
                requires
                    y == sb as nat * p,
                    sb < 0x20_0000_0000_0000,
                    p * w == pow2(ea as nat),
                    w >= 0x1_0000_0000_0000_0000,
                    p > 0,
            ;
            lemma_round_absorbs(sa as nat, ea as nat, y);
            lemma_encode(ea as nat, sa as nat);
            assert(x > y) by (nonlinear_arith)
                requires
                    x == sa as nat * pow2(ea as nat),
                    sa >= 1,
                    4 * y < pow2(ea as nat),
            ;
        }
        assemble(na, ea, sa)
    } else {
        let c: u128 = power(d);
        proof {
            lemma_pow2_grows(d as nat, 63);
            lemma_pow2_product(d as nat, eb as nat, sa as nat);
            assert(sa as nat * c <= 0x20_0000_0000_0000 * 0x8000_0000_0000_0000)
                by (nonlinear_arith)
                requires
                    sa <= 0x20_0000_0000_0000,
                    c <= 0x8000_0000_0000_0000,
            ;
        }
        let wide: u128 = sa as u128 * c;
        let near: u128 = sb as u128;
        let ghost p = pow2(eb as nat);
        assert(x == wide as nat * p);
        assert(y == near as nat * p);
        let (neg, m): (bool, u128) = if na == nb {
            (na, wide + near)
        } else if wide > near {
            (na, wide - near)
        } else if wide < near {
            (nb, near - wide)
        } else {
            (false, 0)
        };
        proof {
            assert(magnitude(total) == m as nat * p) by {
                if na == nb {
                    assert((wide + near) as nat * p == wide as nat * p + near as nat * p)
                        by (nonlinear_arith);
                } else if wide >= near {
                    assert((wide - near) as nat * p == wide as nat * p - near as nat * p
                        && wide as nat * p >= near as nat * p) by (nonlinear_arith)
                        requires
                            wide >= near,
                    ;
                } else {
                    assert((near - wide) as nat * p == near as nat * p - wide as nat * p
                        && wide as nat * p <= near as nat * p) by (nonlinear_arith)
                        requires
                            wide <= near,
                    ;
                }
            }
            assert(wide > near ==> x > y) by (nonlinear_arith)
                requires
                    x == wide as nat * p,
                    y == near as nat * p,
                    p > 0,
            ;
            assert(wide < near ==> x < y) by (nonlinear_arith)
                requires
                    x == wide as nat * p,
                    y == near as nat * p,
                    p > 0,
            ;
            assert(m > 0 ==> m as nat * p > 0) by (nonlinear_arith)
                requires
                    p > 0,
            ;
            assert(m == 0 ==> m as nat * p == 0) by (nonlinear_arith);
            assert(m as nat / 1 == m && m as nat % 1 == 0);
            assert(raise(-(eb as int)) == 1);
            assert(raise(eb as int) == p);
        }
        pack(neg, m, false, eb as i32, Ghost(m as nat), Ghost(1nat))
    }
}

/// The number nearest to `a / b` scaled by `2^e`.
fn quotient(neg: bool, a: u64, b: u64, e: i32) -> (r: Double)
    requires
        b > 0,
        -4000 <= e <= 4000,
    ensures
        r@ == rounded(neg, a as nat * raise(e as int), b as nat * raise(-e)),
{
    if a == 0 {
        proof {
            let rp = raise(e as int);
            let rv = raise(-e);
            lemma2_to64();
            if e >= 0 {
                lemma_pow2_pos(e as nat);
            } else {
                lemma_pow2_pos((-e) as nat);
            }
            assert(a as nat * rp == 0) by (nonlinear_arith)
                requires
                    a == 0,
            ;
            assert(0nat * rp == 0) by (nonlinear_arith);
            assert(0nat * rv == 0 && 0nat * (b as nat * rv) == 0) by (nonlinear_arith);
            assert(b as nat * rv > 0) by (nonlinear_arith)
                requires
                    rv > 0,
                    b > 0,
            ;
            lemma_round_units_same(0, b as nat * rv, 0, rv);
            assert(1 * rv == rv);
        }
        return pack(neg, 0, false, e, Ghost(0nat), Ghost(1nat));
    }
    let mut wide: u128 = a as u128;
    let mut t: u32 = 0;
    proof {
        lemma2_to64();
        lemma_pow2_pos(0);
    }
    while wide < 0x4000_0000_0000_0000_0000_0000_0000_0000
        invariant
            t <= 126,
            a > 0,
            wide as nat == a as nat * pow2(t as nat),
            wide < 0x8000_0000_0000_0000_0000_0000_0000_0000,
        decreases 0x8000_0000_0000_0000_0000_0000_0000_0000 - wide,
    {
        proof {
            let p = pow2(t as nat);
            lemma_pow2_unfold((t + 1) as nat);
            lemma_pow2_pos(t as nat);
            assert(2 * (a as nat * p) == a as nat * (2 * p)) by (nonlinear_arith);
            assert(a as nat * p >= p) by (nonlinear_arith)
                requires
                    a >= 1,
            ;
            if t == 126 {
                lemma2_to64();
                lemma2_to64_rest();
                lemma_pow2_adds(63, 63);
            }
        }
        wide = wide * 2;
        t = t + 1;
    }
    let q: u128 = wide / b as u128;
    let rest: u128 = wide % b as u128;
    proof {
        assert(q >= 0x40_0000_0000_0000) by (nonlinear_arith)
            requires
                q == wide / b as u128,
                wide >= 0x4000_0000_0000_0000_0000_0000_0000_0000,
                0 < b <= 0xffff_ffff_ffff_ffff,
        ;
        let n1 = wide as nat * raise(e - t);
        let d1 = b as nat * raise(t - e);
        let n2 = a as nat * raise(e as int);
        let d2 = b as nat * raise(-e);
        let p = pow2(t as nat);
        assert(raise(e as int) > 0 && raise(-e) > 0 && raise(e - t) > 0 && raise(t - e) > 0) by {
            lemma2_to64();
            if e >= 0 {
                lemma_pow2_pos(e as nat);
            } else {
                lemma_pow2_pos((-e) as nat);
            }
            if e - t >= 0 {
                lemma_pow2_pos((e - t) as nat);
            } else {
                lemma_pow2_pos((t - e) as nat);
            }
        }
        assert(p * raise(e - t) * raise(-e) == raise(e as int) * raise(t - e)) by {
            lemma2_to64();
            if e >= t {
                lemma_pow2_adds(t as nat, (e - t) as nat);
            } else if e >= 0 {
                lemma_pow2_adds(e as nat, (t - e) as nat);
            } else {
                lemma_pow2_adds(t as nat, (-e) as nat);
            }
        }
        lemma_regroup(a as nat, p * raise(e - t), b as nat, raise(-e));
        lemma_regroup(a as nat, raise(e as int), b as nat, raise(t - e));
        let up = raise(e - t);
        assert((a as nat * p) * up == a as nat * (p * up)) by (nonlinear_arith);
        assert(n1 * d2 == n2 * d1);
        assert(d1 > 0) by (nonlinear_arith)
            requires
                d1 == b as nat * raise(t - e),
                b > 0,
                raise(t - e) > 0,
        ;
        assert(d2 > 0) by (nonlinear_arith)
            requires
                d2 == b as nat * raise(-e),
                b > 0,
                raise(-e) > 0,
        ;
        lemma_round_units_same(n1, d1, n2, d2);
    }
    pack(neg, q, rest != 0, e - t as i32, Ghost(wide as nat), Ghost(b as nat))
}

/// A finite number is zero exactly where its significand is.
proof fn lemma_zero_units(sig: nat, exp: nat)
    ensures
        sig * pow2(exp) == 0 <==> sig == 0,
{
    lemma_pow2_pos(exp);
    let p = pow2(exp);
    assert(sig * p == 0 <==> sig == 0) by (nonlinear_arith)
        requires
            p > 0,
    ;
}

/// The bits of a finite number are zero exactly where its units are.
proof fn lemma_units_zero(mag: nat)
    ensures
        units_of(mag) == 0 <==> mag == 0,
{
    let field = mag / 0x10_0000_0000_0000;
    if field > 0 {
        lemma_zero_units(0x10_0000_0000_0000 + mag % 0x10_0000_0000_0000, (field - 1) as nat);
    }
}

/// Larger bits hold more units.
proof fn lemma_units_grow(g: nat, h: nat)
    requires
        g < h,
    ensures
        units_of(g) < units_of(h),
{
    let c: nat = 0x10_0000_0000_0000;
    let (f1, r1) = (g / c, g % c);
    let (f2, r2) = (h / c, h % c);
    lemma2_to64();
    if f2 > 0 {
        let p2 = pow2((f2 - 1) as nat);
        lemma_pow2_pos((f2 - 1) as nat);
        if f1 == 0 {
            assert((c + r2) * p2 >= c) by (nonlinear_arith)
                requires
                    p2 >= 1,
            ;
        } else {
            let p1 = pow2((f1 - 1) as nat);
            lemma_pow2_pos((f1 - 1) as nat);
            if f1 == f2 {
                assert((c + r1) * p1 < (c + r2) * p1) by (nonlinear_arith)
                    requires
                        r1 < r2,
                        p1 > 0,
                ;
            } else {
                lemma_pow2_unfold(f1);
                lemma_pow2_grows(f1, (f2 - 1) as nat);
                assert((c + r1) * p1 < (c + r2) * p2) by (nonlinear_arith)
                    requires
                        r1 < c,
                        2 * p1 <= p2,
                        p1 > 0,
                ;
            }
        }
    }
}

/// Bits without a sign are ordered as the units that they hold.
proof fn lemma_units_order(g: nat, h: nat)
    ensures
        g < h <==> units_of(g) < units_of(h),
        g == h <==> units_of(g) == units_of(h),
{
    if g < h {
        lemma_units_grow(g, h);
    } else if h < g {
        lemma_units_grow(h, g);
    }
}

/// The product of two finite numbers.
fn product(neg: bool, sa: u64, ea: u32, sb: u64, eb: u32) -> (r: Double)
    requires
        sa < 0x20_0000_0000_0000,
        sb < 0x20_0000_0000_0000,
        ea <= 2045,
        eb <= 2045,
    ensures
        r@ == rounded(
            neg,
            (sa as nat * pow2(ea as nat)) * (sb as nat * pow2(eb as nat)),
            one_units(),
        ),
{
    proof {
        assert(sa as nat * sb as nat <= 0x20_0000_0000_0000 * 0x20_0000_0000_0000)
            by (nonlinear_arith)
            requires
                sa <= 0x20_0000_0000_0000,
                sb <= 0x20_0000_0000_0000,
        ;
    }
    let m: u128 = sa as u128 * sb as u128;
    let e: i32 = ea as i32 + eb as i32 - 1074;
    proof {
        lemma2_to64();
        lemma_regroup(sa as nat, pow2(ea as nat), sb as nat, pow2(eb as nat));
        lemma_pow2_adds(ea as nat, eb as nat);
        lemma_pow2_pos(1074);
        let n2 = m as nat * pow2((ea + eb) as nat);
        let d2 = pow2(1074);
        let n1 = m as nat * raise(e as int);
        let d1 = 1 * raise(-e);
        if e >= 0 {
            lemma_pow2_adds(e as nat, 1074);
            lemma_pow2_product(e as nat, 1074, m as nat);
            assert(n1 * d2 == n2 * d1);
        } else {
            lemma_pow2_pos((-e) as nat);
            lemma_pow2_adds((ea + eb) as nat, (-e) as nat);
            lemma_pow2_product((ea + eb) as nat, (-e) as nat, m as nat);
            assert(m as nat * 1 == m);
            assert(n1 * d2 == n2 * d1);
        }
        lemma_round_units_same(n1, d1, n2, d2);
        assert(m as nat / 1 == m && m as nat % 1 == 0);
    }
    pack(neg, m, false, e, Ghost(m as nat), Ghost(1nat))
}

/// The quotient of two finite numbers.
fn division(neg: bool, sa: u64, ea: u32, sb: u64, eb: u32) -> (r: Double)
    requires
        sb > 0,
        ea <= 2045,
        eb <= 2045,
    ensures
        r@ == rounded(
            neg,
            (sa as nat * pow2(ea as nat)) * one_units(),
            sb as nat * pow2(eb as nat),
        ),
{
    let e: i32 = ea as i32 - eb as i32 + 1074;
    proof {
        lemma2_to64();
        let n1 = sa as nat * raise(e as int);
        let d1 = sb as nat * raise(-e);
        let n2 = sa as nat * pow2(ea as nat) * pow2(1074);
        let d2 = sb as nat * pow2(eb as nat);
        lemma_pow2_product(ea as nat, 1074, sa as nat);
        lemma_pow2_pos(eb as nat);
        lemma_zero_units(sb as nat, eb as nat);
        lemma_regroup(sa as nat, raise(e as int), sb as nat, pow2(eb as nat));
        lemma_regroup(sa as nat, pow2((ea + 1074) as nat), sb as nat, raise(-e));
        if e >= 0 {
            lemma_pow2_adds(e as nat, eb as nat);
            lemma_zero_units(sb as nat, 0);
            assert(pow2((ea + 1074) as nat) * 1 == raise(e as int) * pow2(eb as nat));
        } else {
            lemma_pow2_adds((ea + 1074) as nat, (-e) as nat);
            lemma_zero_units(sb as nat, (-e) as nat);
        }
        lemma_round_units_same(n1, d1, n2, d2);
    }
    quotient(neg, sa, sb, e)
}

/// The integer square root.
fn integer_root(m: u128) -> (r: u128)
    requires
        m < 0x4000_0000_0000_0000_0000_0000_0000_0000,
    ensures
        r * r <= m < (r + 1) * (r + 1),
        r < 0x8000_0000_0000_0000,
{
    let mut low: u128 = 0;
    let mut high: u128 = 0x8000_0000_0000_0000;
    while high - low > 1
        invariant
            low < high <= 0x8000_0000_0000_0000,
            low * low <= m < high * high,
        decreases high - low,
    {
        let middle: u128 = (low + high) / 2;
        proof {
            assert(middle * middle <= 0x8000_0000_0000_0000 * 0x8000_0000_0000_0000)
                by (nonlinear_arith)
                requires
                    middle <= 0x8000_0000_0000_0000,
            ;
        }
        if middle * middle <= m {
            low = middle;
        } else {
            high = middle;
        }
    }
    low
}

/// The square root of `sig * 2^exp` units.
fn square_root(sig: u64, exp: u32) -> (r: Double)
    requires
        0 < sig < 0x20_0000_0000_0000,
        exp <= 2045,
    ensures
        r@ == (Value::Finite {
            neg: false,
            units: round_root(sig as nat * pow2(exp as nat) * one_units(), 1),
        }),
{
    let mut wide: u128 = sig as u128;
    let mut t: u32 = 0;
    proof {
        lemma2_to64();
        lemma2_to64_rest();
        lemma_pow2_pos(0);
    }
    while wide < 0x1000_0000_0000_0000_0000_0000_0000_0000 || (exp + 1074 - t) % 2 == 1
        invariant
            t <= 126,
            sig > 0,
            exp <= 2045,
            wide as nat == sig as nat * pow2(t as nat),
            wide < 0x2000_0000_0000_0000_0000_0000_0000_0000 || ((exp + 1074 - t) % 2 == 0 && wide
                < 0x4000_0000_0000_0000_0000_0000_0000_0000),
        decreases 0x4000_0000_0000_0000_0000_0000_0000_0000 - wide,
    {
        proof {
            let p = pow2(t as nat);
            lemma_pow2_unfold((t + 1) as nat);
            lemma_pow2_pos(t as nat);
            assert(2 * (sig as nat * p) == sig as nat * (2 * p)) by (nonlinear_arith);
            assert(sig as nat * p >= p) by (nonlinear_arith)
                requires
                    sig >= 1,
            ;
            if t >= 125 {
                lemma2_to64();
                lemma2_to64_rest();
                lemma_pow2_adds(62, 63);
                lemma_pow2_grows(125, t as nat);
            }
        }
        wide = wide * 2;
        t = t + 1;
    }
    let whole: u128 = integer_root(wide);
    let sticky: bool = whole * whole != wide;
    proof {
        assert(whole >= 0x4000_0000_0000_0000) by (nonlinear_arith)
            requires
                wide < (whole + 1) * (whole + 1),
                wide >= 0x1000_0000_0000_0000_0000_0000_0000_0000,
        ;
    }
    let q: u128 = whole / 1024;
    let y: u128 = whole % 1024;
    let mant: u64 = if y > 512 || (y == 512 && (sticky || q % 2 == 1)) {
        (q + 1) as u64
    } else {
        q as u64
    };
    let e: u32 = (exp + 1074 - t) / 2;
    proof {
        lemma_root_scaled(wide as nat, whole as nat, e as nat);
        let k = (e + 10) as nat;
        lemma_pow2_adds(e as nat, e as nat);
        lemma_pow2_product(t as nat, (e + e) as nat, sig as nat);
        lemma_pow2_product(exp as nat, 1074, sig as nat);
        assert(wide as nat * (pow2(e as nat) * pow2(e as nat)) == sig as nat * pow2(exp as nat)
            * one_units());
        lemma_encode(k, mant as nat);
    }
    assemble(false, e + 10, mant)
}

/// The integer part of `sig * 2^exp` units, held to the range of `u64`, and
/// whether a fraction is left over.
fn split_whole(sig: u64, exp: u32) -> (r: (u64, bool))
    requires
        sig < 0x20_0000_0000_0000,
        sig >= 0x10_0000_0000_0000 || exp == 0,
        exp <= 2045,
    ensures
        ({
            let units = sig as nat * pow2(exp as nat);
            let down = units / one_units();
            &&& r.0 == if down > u64::MAX {
                u64::MAX as nat
            } else {
                down
            }
            &&& r.1 == (units % one_units() > 0)
            &&& exp >= 1074 ==> !r.1
            &&& exp < 1074 ==> r.0 == down && r.0 < 0x20_0000_0000_0000
        }),
{
    let ghost units = sig as nat * pow2(exp as nat);
    proof {
        lemma2_to64();
        lemma2_to64_rest();
        lemma_pow2_pos(1074);
    }
    if exp >= 1074 {
        let s: u32 = exp - 1074;
        proof {
            let whole = sig as nat * pow2(s as nat);
            lemma_pow2_product(s as nat, 1074, sig as nat);
            lemma_fundamental_div_mod_converse(
                units as int,
                pow2(1074) as int,
                whole as int,
                0,
            );
            if s >= 64 {
                lemma_pow2_grows(64, s as nat);
                assert(whole > u64::MAX) by (nonlinear_arith)
                    requires
                        whole == sig as nat * pow2(s as nat),
                        sig >= 1,
                        pow2(s as nat) >= 0x1_0000_0000_0000_0000,
                ;
            } else {
                lemma_pow2_grows(s as nat, 63);
                assert(whole <= 0x20_0000_0000_0000 * 0x8000_0000_0000_0000) by (nonlinear_arith)
                    requires
                        whole == sig as nat * pow2(s as nat),
                        sig <= 0x20_0000_0000_0000,
                        pow2(s as nat) <= 0x8000_0000_0000_0000,
                ;
            }
        }
        if s >= 64 {
            (u64::MAX, false)
        } else {
            let wide: u128 = sig as u128 * power(s);
            if wide > u64::MAX as u128 {
                (u64::MAX, false)
            } else {
                (wide as u64, false)
            }
        }
    } else {
        let s: u32 = 1074 - exp;
        let down: u64;
        let rest: u64;
        if s >= 53 {
            proof {
                lemma_pow2_grows(53, s as nat);
                lemma_fundamental_div_mod_converse(
                    sig as int,
                    pow2(s as nat) as int,
                    0,
                    sig as int,
                );
            }
            down = 0;
            rest = sig;
        } else {
            let c: u64 = power(s) as u64;
            proof {
                lemma_pow2_grows(s as nat, 53);
                lemma_pow2_pos(s as nat);
            }
            down = sig / c;
            rest = sig % c;
        }
        proof {
            let c = pow2(s as nat);
            let p = pow2(exp as nat);
            lemma_pow2_adds(s as nat, exp as nat);
            lemma_pow2_pos(exp as nat);
            lemma_pow2_pos(s as nat);
            vstd::arithmetic::div_mod::lemma_fundamental_div_mod(sig as int, c as int);
            assert(units == down as nat * (c * p) + rest as nat * p && rest as nat * p < c * p)
                by (nonlinear_arith)
                requires
                    units == sig as nat * p,
                    sig == c * down as nat + rest as nat,
                    rest < c,
                    p > 0,
            ;
            assert(rest > 0 <==> rest as nat * p > 0) by (nonlinear_arith)
                requires
                    p > 0,
            ;
            lemma_fundamental_div_mod_converse(
                units as int,
                (c * p) as int,
                down as int,
                (rest as nat * p) as int,
            );
            assert(down <= sig) by (nonlinear_arith)
                requires
                    sig == c * down as nat + rest as nat,
                    c >= 1,
            ;
        }
        (down, rest > 0)
    }
}

impl Double {
    /// Takes the number apart.
    fn parts(self) -> (r: Parts)
        ensures
            r.describes(self@),
    {
        let neg: bool = self.bits >= 0x8000_0000_0000_0000;
        let mag: u64 = self.bits % 0x8000_0000_0000_0000;
        proof {
            lemma2_to64();
        }
        if mag > 0x7ff0_0000_0000_0000 {
            Parts::Nan
        } else if mag == 0x7ff0_0000_0000_0000 {
            Parts::Infinite { neg }
        } else {
            let field: u64 = mag / 0x10_0000_0000_0000;
            let fraction: u64 = mag % 0x10_0000_0000_0000;
            if field == 0 {
                assert(fraction as nat * pow2(0) == fraction);
                Parts::Finite { neg, sig: fraction, exp: 0 }
            } else {
                Parts::Finite {
                    neg,
                    sig: 0x10_0000_0000_0000 + fraction,
                    exp: (field - 1) as u32,
                }
            }
        }
    }

    /// The result that is not a number.
    fn nan() -> (r: Double)
        ensures
            r@ == Value::Nan,
    {
        Double { bits: 0x7ff8_0000_0000_0000 }
    }

    /// An infinity.
    fn infinity(neg: bool) -> (r: Double)
        ensures
            r@ == (Value::Infinite { neg }),
    {
        if neg {
            Double { bits: 0xfff0_0000_0000_0000 }
        } else {
            Double { bits: 0x7ff0_0000_0000_0000 }
        }
    }

    /// `self + other`.
    pub fn plus(self, other: Double) -> (r: Double)
        ensures
            r@ == self@.plus(other@),
    {
        proof {
            reveal(Value::plus);
        }
        match (self.parts(), other.parts()) {
            (Parts::Nan, _) => Double::nan(),
            (_, Parts::Nan) => Double::nan(),
            (Parts::Infinite { neg: a }, Parts::Infinite { neg: b }) => if a == b {
                self
            } else {
                Double::nan()
            },
            (Parts::Infinite { neg: _ }, _) => self,
            (_, Parts::Infinite { neg: _ }) => other,
            (
                Parts::Finite { neg: na, sig: sa, exp: ea },
                Parts::Finite { neg: nb, sig: sb, exp: eb },
            ) => if ea >= eb {
                sum(na, sa, ea, nb, sb, eb)
            } else {
                sum(nb, sb, eb, na, sa, ea)
            },
        }
    }

    /// `-self`.
    pub fn negated(self) -> (r: Double)
        ensures
            r@ == self@.negated(),
    {
        proof {
            reveal(Value::negated);
        }
        if self.bits >= 0x8000_0000_0000_0000 {
            Double { bits: self.bits - 0x8000_0000_0000_0000 }
        } else {
            Double { bits: self.bits + 0x8000_0000_0000_0000 }
        }
    }

    /// `|self|`.
    pub fn absolute(self) -> (r: Double)
        ensures
            r@ == self@.absolute(),
    {
        proof {
            reveal(Value::absolute);
        }
        if self.bits >= 0x8000_0000_0000_0000 {
            Double { bits: self.bits - 0x8000_0000_0000_0000 }
        } else {
            self
        }
    }

    /// `self - other`.
    pub fn minus(self, other: Double) -> (r: Double)
        ensures
            r@ == self@.minus(other@),
    {
        proof {
            reveal(Value::minus);
        }
        self.plus(other.negated())
    }

    /// `self * other`.
    pub fn times(self, other: Double) -> (r: Double)
        ensures
            r@ == self@.times(other@),
    {
        proof {
            reveal(Value::times);
        }
        match (self.parts(), other.parts()) {
            (Parts::Nan, _) => Double::nan(),
            (_, Parts::Nan) => Double::nan(),
            (Parts::Infinite { neg: na }, Parts::Infinite { neg: nb }) => Double::infinity(
                na != nb,
            ),
            (Parts::Infinite { neg: na }, Parts::Finite { neg: nb, sig: sb, exp: eb }) => {
                proof {
                    lemma_zero_units(sb as nat, eb as nat);
                }
                if sb == 0 {
                    Double::nan()
                } else {
                    Double::infinity(na != nb)
                }
            },
            (Parts::Finite { neg: na, sig: sa, exp: ea }, Parts::Infinite { neg: nb }) => {
                proof {
                    lemma_zero_units(sa as nat, ea as nat);
                }
                if sa == 0 {
                    Double::nan()
                } else {
                    Double::infinity(na != nb)
                }
            },
            (
                Parts::Finite { neg: na, sig: sa, exp: ea },
                Parts::Finite { neg: nb, sig: sb, exp: eb },
            ) => product(na != nb, sa, ea, sb, eb),
        }
    }

    /// `self / other`.
    pub fn over(self, other: Double) -> (r: Double)
        ensures
            r@ == self@.over(other@),
    {
        proof {
            reveal(Value::over);
        }
        match (self.parts(), other.parts()) {
            (Parts::Nan, _) => Double::nan(),
            (_, Parts::Nan) => Double::nan(),
            (Parts::Infinite { neg: _ }, Parts::Infinite { neg: _ }) => Double::nan(),
            (Parts::Infinite { neg: na }, Parts::Finite { neg: nb, sig: _, exp: _ }) => {
                Double::infinity(na != nb)
            },
            (Parts::Finite { neg: na, sig: _, exp: _ }, Parts::Infinite { neg: nb }) => {
                proof {
                    lemma2_to64();
                    lemma2_to64_rest();
                    lemma_pow2_grows(63, 2098);
                }
                assemble(na != nb, 0, 0)
            },
            (
                Parts::Finite { neg: na, sig: sa, exp: ea },
                Parts::Finite { neg: nb, sig: sb, exp: eb },
            ) => {
                proof {
                    lemma_zero_units(sa as nat, ea as nat);
                    lemma_zero_units(sb as nat, eb as nat);
                }
                if sb == 0 {
                    if sa == 0 {
                        Double::nan()
                    } else {
                        Double::infinity(na != nb)
                    }
                } else {
                    division(na != nb, sa, ea, sb, eb)
                }
            },
        }
    }

    /// The decimal fraction `n / d`.
    pub fn ratio(n: u64, d: u64) -> (r: Double)
        requires
            d > 0,
        ensures
            r@ == Value::ratio(n as nat, d as nat),
    {
        proof {
            reveal(Value::ratio);
            lemma2_to64();
            assert(d as nat * 1 == d);
        }
        quotient(false, n, d, 1074)
    }

    /// The natural number `n`, rounded where it takes more than 53 bits.
    pub fn whole(n: u64) -> (r: Double)
        ensures
            r@ == Value::whole(n as nat),
    {
        proof {
            reveal(Value::whole);
            lemma2_to64();
        }
        quotient(false, n, 1, 1074)
    }

    /// Whether this is not a number.
    pub fn is_nan(self) -> (r: bool)
        ensures
            r == (self@ is Nan),
    {
        self.bits % 0x8000_0000_0000_0000 > 0x7ff0_0000_0000_0000
    }

    /// `self < other`.
    pub fn below(self, other: Double) -> (r: bool)
        ensures
            r == self@.below(other@),
    {
        proof {
            reveal(Value::below);
            lemma_units_order(
                self.bits as nat % 0x8000_0000_0000_0000,
                other.bits as nat % 0x8000_0000_0000_0000,
            );
            lemma_units_zero(self.bits as nat % 0x8000_0000_0000_0000);
            lemma_units_zero(other.bits as nat % 0x8000_0000_0000_0000);
        }
        if self.is_nan() || other.is_nan() {
            return false;
        }
        let na: bool = self.bits >= 0x8000_0000_0000_0000;
        let nb: bool = other.bits >= 0x8000_0000_0000_0000;
        let a: u64 = self.bits % 0x8000_0000_0000_0000;
        let b: u64 = other.bits % 0x8000_0000_0000_0000;
        if na {
            if nb {
                a > b
            } else {
                a > 0 || b > 0
            }
        } else {
            !nb && a < b
        }
    }

    /// `self == other` as numbers.
    pub fn equals(self, other: Double) -> (r: bool)
        ensures
            r == self@.equals(other@),
    {
        proof {
            reveal(Value::equals);
            lemma_units_order(
                self.bits as nat % 0x8000_0000_0000_0000,
                other.bits as nat % 0x8000_0000_0000_0000,
            );
            lemma_units_zero(self.bits as nat % 0x8000_0000_0000_0000);
            lemma_units_zero(other.bits as nat % 0x8000_0000_0000_0000);
        }
        if self.is_nan() || other.is_nan() {
            return false;
        }
        let a: u64 = self.bits % 0x8000_0000_0000_0000;
        let b: u64 = other.bits % 0x8000_0000_0000_0000;
        self.bits == other.bits || (a == 0 && b == 0)
    }

    /// `self <= other`.
    pub fn at_most(self, other: Double) -> (r: bool)
        ensures
            r == self@.at_most(other@),
    {
        self.below(other) || self.equals(other)
    }

    /// The smaller of two numbers; the other one where one is not a number.
    pub fn lesser(self, other: Double) -> (r: Double)
        ensures
            r@ == self@.lesser(other@),
    {
        proof {
            reveal(Value::lesser);
        }
        if self.is_nan() || other.below(self) {
            other
        } else {
            self
        }
    }

    /// The larger of two numbers; the other one where one is not a number.
    pub fn greater(self, other: Double) -> (r: Double)
        ensures
            r@ == self@.greater(other@),
    {
        proof {
            reveal(Value::greater);
        }
        if self.is_nan() || self.below(other) {
            other
        } else {
            self
        }
    }

    /// `self` held between `low` and `high`.
    pub fn clamped(self, low: Double, high: Double) -> (r: Double)
        ensures
            r@ == self@.clamped(low@, high@),
    {
        proof {
            reveal(Value::clamped);
        }
        if self.below(low) {
            low
        } else if high.below(self) {
            high
        } else {
            self
        }
    }

    /// The square root.
    pub fn root(self) -> (r: Double)
        ensures
            r@ == self@.root(),
    {
        proof {
            reveal(Value::root);
        }
        match self.parts() {
            Parts::Nan => self,
            Parts::Infinite { neg } => if neg {
                Double::nan()
            } else {
                self
            },
            Parts::Finite { neg, sig, exp } => {
                proof {
                    lemma_zero_units(sig as nat, exp as nat);
                }
                if sig == 0 {
                    self
                } else if neg {
                    Double::nan()
                } else {
                    square_root(sig, exp)
                }
            },
        }
    }

    /// The largest integer that is not above `self`.
    pub fn floor(self) -> (r: Double)
        ensures
            r@ == self@.floor(),
    {
        proof {
            reveal(Value::floor);
        }
        match self.parts() {
            Parts::Nan => self,
            Parts::Infinite { neg: _ } => self,
            Parts::Finite { neg, sig, exp } => {
                let (down, part): (u64, bool) = split_whole(sig, exp);
                if exp >= 1074 {
                    proof {
                        lemma_pow2_pos(exp as nat);
                        lemma_round_absorbs(sig as nat, exp as nat, 0);
                        lemma_encode(exp as nat, sig as nat);
                        lemma_pow2_pos(1074);
                        vstd::arithmetic::div_mod::lemma_fundamental_div_mod(
                            (sig as nat * pow2(exp as nat)) as int,
                            pow2(1074) as int,
                        );
                        let u = sig as nat * pow2(exp as nat) / pow2(1074);
                        assert(u * pow2(1074) == pow2(1074) * u) by (nonlinear_arith);
                    }
                    self
                } else {
                    let i: u64 = if neg && part {
                        down + 1
                    } else {
                        down
                    };
                    proof {
                        assert(i as nat / 1 == i && i as nat % 1 == 0);
                        assert(1 * raise(-1074) == 1);
                    }
                    pack(neg, i as u128, false, 1074, Ghost(i as nat), Ghost(1nat))
                }
            },
        }
    }

    /// The smallest integer that is not below `self`, held to the range of
    /// `usize`; zero for what is not a number.
    pub fn ceiling(self) -> (r: usize)
        ensures
            r == self@.ceiling(),
    {
        match self.parts() {
            Parts::Nan => 0,
            Parts::Infinite { neg } => if neg {
                0
            } else {
                usize::MAX
            },
            Parts::Finite { neg, sig, exp } => if neg {
                0
            } else {
                let (down, part): (u64, bool) = split_whole(sig, exp);
                if down >= usize::MAX as u64 {
                    usize::MAX
                } else if part {
                    (down + 1) as usize
                } else {
                    down as usize
                }
            },
        }
    }
}

} // verus!
