//! Fixed-point arithmetic in millionths.
//!
//! Activation levels, signals, edge weights, similarities and probabilities
//! are all carried as integers scaled by [`SCALE`]: the value `1.0` is stored
//! as `1_000_000`. All operations are exact integer computations, so every
//! run of the engine is deterministic.

use vstd::prelude::*;
use vstd::arithmetic::div_mod::{
    lemma_div_is_ordered, lemma_div_multiples_vanish, lemma_fundamental_div_mod_converse,
};
use vstd::arithmetic::mul::{lemma_mul_inequality, lemma_mul_strict_inequality};

verus! {

/// Number of fixed-point units that stand for `1.0`.
pub const SCALE: i64 = 1_000_000;

/// Clamp of a non-negative mathematical integer into `i64`.
pub open spec fn sat64(x: int) -> int {
    if x > i64::MAX as int {
        i64::MAX as int
    } else {
        x
    }
}

/// Clamp of a non-negative mathematical integer into `u128`.
pub open spec fn sat128(x: int) -> int {
    if x > u128::MAX as int {
        u128::MAX as int
    } else {
        x
    }
}

/// Saturating sum of two non-negative activation levels.
pub fn sat_plus(a: i64, b: i64) -> (r: i64)
    requires
        a >= 0,
        b >= 0,
    ensures
        r == sat64(a + b),
        r >= 0,
{
    let wide: i128 = a as i128 + b as i128;
    if wide > i64::MAX as i128 {
        i64::MAX
    } else {
        wide as i64
    }
}

/// `signal * factor / SCALE`, the application of a fixed-point factor
/// (a similarity or a weight in `[0, SCALE]`) to a signal.
pub fn scale_product(signal: i64, factor: i64) -> (r: i64)
    requires
        signal >= 0,
        0 <= factor <= SCALE,
    ensures
        r == signal * factor / (SCALE as int),
        0 <= r <= signal,
{
    proof {
        lemma_mul_inequality(factor as int, SCALE as int, signal as int);
        assert(signal * factor == factor * signal) by (nonlinear_arith);
        assert(signal * factor >= 0) by (nonlinear_arith)
            requires
                signal >= 0,
                factor >= 0,
        ;
        lemma_div_is_ordered(signal * factor, signal * (SCALE as int), SCALE as int);
        lemma_div_multiples_vanish(signal as int, SCALE as int);
        assert(signal * (SCALE as int) == (SCALE as int) * signal) by (nonlinear_arith);
    }
    let wide: i128 = (signal as i128) * (factor as i128) / (SCALE as i128);
    wide as i64
}

/// Similarity, in millionths, between two keys that lie `delta` apart in a
/// sensor whose keys span `range`: `1 - delta / range`, clamped at zero.
///
/// A sensor with a single distinct key has `range == 0`: the key itself has
/// similarity one, every other value similarity zero.
pub open spec fn spec_sim(delta: int, range: int) -> int {
    if range == 0 {
        if delta == 0 {
            SCALE as int
        } else {
            0
        }
    } else if delta >= range {
        0
    } else {
        SCALE as int - delta * (SCALE as int) / range
    }
}

proof fn lemma_sim_bounds(delta: int, range: int)
    requires
        0 <= delta,
        0 <= range,
    ensures
        0 <= spec_sim(delta, range) <= SCALE as int,
        0 < range && delta < range ==> delta * (SCALE as int) / range < SCALE as int,
{
    if range != 0 && delta < range {
        assert(delta * (SCALE as int) >= 0) by (nonlinear_arith)
            requires
                delta >= 0,
        ;
        assert(delta * (SCALE as int) / range >= 0) by {
            lemma_div_is_ordered(0, delta * (SCALE as int), range);
        }
        assert(delta * (SCALE as int) / range < SCALE as int) by {
            lemma_mul_strict_inequality(delta, range, SCALE as int);
            assert(delta * (SCALE as int) == (SCALE as int) * delta) by (nonlinear_arith);
            assert(range * (SCALE as int) == (SCALE as int) * range) by (nonlinear_arith);
            lemma_div_is_ordered(delta * (SCALE as int), range * (SCALE as int) - 1, range);
            assert((range * (SCALE as int) - 1) / range < SCALE as int) by {
                lemma_fundamental_div_mod_converse(
                    range * (SCALE as int) - 1,
                    range,
                    SCALE as int - 1,
                    range - 1,
                );
            }
        }
    }
}

/// Exact similarity between keys `delta` apart in a sensor of span `range`.
///
/// For spans beyond `u64` the quotient is computed on both values halved
/// until the product fits; the result is then still a sound similarity in
/// `[0, SCALE]`, though no longer the exact quotient.
pub fn sim_micros(delta: u128, range: u128) -> (r: i64)
    ensures
        0 <= r <= SCALE,
        range == 0 ==> r == spec_sim(delta as int, range as int),
        delta >= range ==> r == spec_sim(delta as int, range as int),
        delta * (SCALE as int) <= u128::MAX as int ==> r == spec_sim(delta as int, range as int),
{
    proof {
        lemma_sim_bounds(delta as int, range as int);
    }
    if range == 0 {
        if delta == 0 {
            SCALE
        } else {
            0
        }
    } else if delta >= range {
        0
    } else if delta <= u128::MAX / (SCALE as u128) {
        proof {
            assert(delta * (SCALE as int) <= (u128::MAX as int / SCALE as int) * (SCALE as int))
                by (nonlinear_arith)
                requires
                    delta as int <= u128::MAX as int / SCALE as int,
            ;
            assert((u128::MAX as int / SCALE as int) * (SCALE as int) <= u128::MAX as int) by {
                vstd::arithmetic::div_mod::lemma_remainder_lower(u128::MAX as int, SCALE as int);
            }
        }
        let q: u128 = delta * (SCALE as u128) / range;
        proof {
            assert(q < SCALE as int) by {
                lemma_sim_bounds(delta as int, range as int);
            }
        }
        SCALE - (q as i64)
    } else {
        let mut d: u128 = delta;
        let mut g: u128 = range;
        while d > u128::MAX / (SCALE as u128)
            invariant
                0 <= d <= delta,
                0 < g,
            decreases d,
        {
            d = d / 2;
            g = g / 2 + 1;
        }
        proof {
            assert(d * (SCALE as int) <= (u128::MAX as int / SCALE as int) * (SCALE as int))
                by (nonlinear_arith)
                requires
                    d as int <= u128::MAX as int / SCALE as int,
            ;
            assert((u128::MAX as int / SCALE as int) * (SCALE as int) <= u128::MAX as int) by {
                vstd::arithmetic::div_mod::lemma_remainder_lower(u128::MAX as int, SCALE as int);
            }
        }
        let q: u128 = d * (SCALE as u128) / g;
        if q >= SCALE as u128 {
            0
        } else {
            SCALE - (q as i64)
        }
    }
}

/// Saturating product of a plain distance with `SCALE`, turning integer key
/// distances into millionths.
pub fn to_micros_sat(d: u128) -> (r: u128)
    ensures
        r == sat128(d * (SCALE as int)),
{
    if d <= u128::MAX / (SCALE as u128) {
        proof {
            assert(d * (SCALE as int) <= (u128::MAX as int / SCALE as int) * (SCALE as int))
                by (nonlinear_arith)
                requires
                    d as int <= u128::MAX as int / SCALE as int,
            ;
            assert((u128::MAX as int / SCALE as int) * (SCALE as int) <= u128::MAX as int) by {
                vstd::arithmetic::div_mod::lemma_remainder_lower(u128::MAX as int, SCALE as int);
            }
        }
        d * (SCALE as u128)
    } else {
        proof {
            assert(d * (SCALE as int) > u128::MAX as int) by (nonlinear_arith)
                requires
                    d as int > u128::MAX as int / SCALE as int,
                    d as int * (SCALE as int) >= 0,
            ;
        }
        u128::MAX
    }
}

/// Saturating square, for accumulating squared error distances.
pub fn square_sat(d: u128) -> (r: u128)
    ensures
        r == sat128(d * d),
{
    if d == 0 {
        0
    } else if d <= u128::MAX / d {
        proof {
            assert(d * d <= (u128::MAX as int / d as int) * d) by (nonlinear_arith)
                requires
                    0 < d as int <= u128::MAX as int / d as int,
            ;
            assert((u128::MAX as int / d as int) * (d as int) <= u128::MAX as int) by {
                vstd::arithmetic::div_mod::lemma_remainder_lower(u128::MAX as int, d as int);
            }
        }
        d * d
    } else {
        proof {
            vstd::arithmetic::div_mod::lemma_remainder_upper(u128::MAX as int, d as int);
            assert(d * d > u128::MAX as int) by (nonlinear_arith)
                requires
                    d as int >= u128::MAX as int / d as int + 1,
                    (u128::MAX as int / d as int) * (d as int) > u128::MAX as int - d as int,
                    d as int >= 1,
            ;
        }
        u128::MAX
    }
}

/// Saturating sum for `u128` accumulators.
pub fn sat_plus_u128(a: u128, b: u128) -> (r: u128)
    ensures
        r == sat128(a + b),
{
    if a <= u128::MAX - b {
        a + b
    } else {
        u128::MAX
    }
}

/// One more than the largest `u64` value, the bound for square-root candidates.
pub const CAND_BOUND: u128 = 0x1_0000_0000_0000_0000;

/// The floor of the square root: the unique `r` with `r * r <= x < (r + 1) * (r + 1)`.
pub fn isqrt(x: u128) -> (r: u128)
    ensures
        r * r <= x,
        (r + 1) * (r + 1) > x,
{
    let mut r: u128 = 0;
    let mut b: u128 = 0x8000_0000_0000_0000;
    let ghost mut e: nat = 63;
    proof {
        vstd::arithmetic::power2::lemma2_to64();
        vstd::arithmetic::power2::lemma2_to64_rest();
        assert((CAND_BOUND as int) * (CAND_BOUND as int) > u128::MAX as int) by (nonlinear_arith);
    }
    while b >= 1
        invariant
            r * r <= x,
            r + 2 * b <= CAND_BOUND as int,
            b >= 1 ==> b as nat == vstd::arithmetic::power2::pow2(e),
            b >= 1 ==> (r + 2 * b) * (r + 2 * b) > x,
            b == 0 ==> (r + 1) * (r + 1) > x,
        decreases b,
    {
        let c: u128 = r + b;
        proof {
            assert(c * c < u128::MAX as int) by (nonlinear_arith)
                requires
                    0 <= c as int,
                    (c as int) < CAND_BOUND as int,
                    (CAND_BOUND as int) * (CAND_BOUND as int) > u128::MAX as int,
            ;
        }
        if c * c <= x {
            r = c;
        }
        proof {
            if e == 0 {
                vstd::arithmetic::power2::lemma2_to64();
                assert(b == 1);
                if c * c <= x {
                    assert((r + 1) * (r + 1) > x) by (nonlinear_arith)
                        requires
                            (r as int + b as int) * (r as int + b as int) > x as int,
                            b as int == 1,
                    ;
                } else {
                    assert((r + 1) * (r + 1) > x);
                }
            } else {
                vstd::arithmetic::power2::lemma_pow2_unfold(e);
                assert(b as int % 2 == 0);
                let half = b as int / 2;
                if c * c <= x {
                    assert((r + 2 * half) * (r + 2 * half) > x) by (nonlinear_arith)
                        requires
                            (r as int - b as int + 2 * b as int) * (r as int - b as int + 2
                                * b as int) > x as int,
                            r as int == c as int,
                            c as int == r as int - b as int + b as int,
                            half == b as int / 2,
                            b as int % 2 == 0,
                            b as int >= 2,
                    ;
                } else {
                    assert((r + 2 * half) * (r + 2 * half) > x) by (nonlinear_arith)
                        requires
                            (r as int + b as int) * (r as int + b as int) > x as int,
                            half == b as int / 2,
                            b as int % 2 == 0,
                            b as int >= 2,
                            r >= 0,
                            x >= 0,
                    ;
                }
                e = (e - 1) as nat;
            }
        }
        b = b / 2;
    }
    r
}

} // verus!
