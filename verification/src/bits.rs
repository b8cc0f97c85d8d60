//! Bit patterns and the values that binary64 has: every pattern stands for one of
//! them, and each of them has a pattern.
use vstd::arithmetic::div_mod::lemma_fundamental_div_mod;
use vstd::arithmetic::power2::{lemma2_to64, lemma_pow2_unfold, pow2};
use vstd::prelude::*;

use crate::double::{lemma_encode, Double};
use crate::lists::values;
use crate::order::{lemma_fits, lemma_round_floor, proper};
use crate::rounding::lemma_half_even_bounds;
use crate::value::{half_even, round_units, Value};

verus! {

/// What a bit pattern stands for, binary64 has.
pub proof fn law_patterns_are_values(d: Double)
    ensures
        proper(d@),
{
    let c: nat = 0x10_0000_0000_0000;
    let mag = d.bits as nat % 0x8000_0000_0000_0000;
    if mag < 0x7ff0_0000_0000_0000 {
        let field = mag / c;
        let fraction = mag % c;
        lemma_fundamental_div_mod(mag as int, c as int);
        if field == 0 {
            lemma_encode(0, fraction);
            lemma_fits(fraction, 0);
            lemma2_to64();
            assert(fraction * pow2(0) == fraction) by (nonlinear_arith)
                requires
                    pow2(0) == 1,
            ;
        } else {
            let k = (field - 1) as nat;
            let mant = c + fraction;
            assert(k * c + mant == mag) by (nonlinear_arith)
                requires
                    mag == c * field + fraction,
                    k == field - 1,
                    mant == c + fraction,
            ;
            lemma_encode(k, mant);
            lemma_fits(mant, k);
        }
    }
}

/// A rounded number of units is a significand at a spacing.
proof fn lemma_significand(n: nat, d: nat) -> (r: (nat, nat))
    requires
        d > 0,
    ensures
        r.0 <= 0x20_0000_0000_0000,
        r.1 == 0 || r.0 >= 0x10_0000_0000_0000,
        round_units(n, d) == r.0 * pow2(r.1),
    decreases n - d,
{
    if n < d * 0x20_0000_0000_0000 {
        lemma_half_even_bounds(n, d, 0x20_0000_0000_0000);
        lemma2_to64();
        let m = half_even(n, d);
        assert(m * pow2(0) == m) by (nonlinear_arith)
            requires
                pow2(0) == 1,
        ;
        (m, 0)
    } else {
        let (m, k) = lemma_significand(n, 2 * d);
        lemma_round_floor(n, 2 * d);
        lemma_pow2_unfold(k + 1);
        let p = pow2(k);
        if k == 0 {
            lemma2_to64();
            assert(m * p == m) by (nonlinear_arith)
                requires
                    p == 1,
            ;
        }
        assert(2 * (m * p) == m * (2 * p)) by (nonlinear_arith);
        (m, k + 1)
    }
}

/// What binary64 has, some bit pattern stands for.
pub proof fn law_values_have_patterns(v: Value) -> (d: Double)
    requires
        proper(v),
    ensures
        d@ == v,
{
    match v {
        Value::Nan => Double { bits: 0x7ff8_0000_0000_0000 },
        Value::Infinite { neg } => if neg {
            Double { bits: 0xfff0_0000_0000_0000 }
        } else {
            Double { bits: 0x7ff0_0000_0000_0000 }
        },
        Value::Finite { neg, units } => {
            let (m, k) = lemma_significand(units, 1);
            lemma_encode(k, m);
            let mag = k * 0x10_0000_0000_0000 + m;
            let bits = if neg {
                0x8000_0000_0000_0000 + mag
            } else {
                mag
            };
            Double { bits: bits as u64 }
        },
    }
}

/// So it is with lists.
pub proof fn law_lists_are_values(s: Seq<Double>)
    ensures
        forall|i: int| 0 <= i < s.len() ==> proper(#[trigger] values(s)[i]),
{
    assert forall|i: int| 0 <= i < s.len() implies proper(#[trigger] values(s)[i]) by {
        law_patterns_are_values(s[i]);
    }
}

} // verus!
