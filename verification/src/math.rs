//! Exact fixed-point arithmetic and the economic discounting helpers built
//! on it: perpetuity, annuity and discount factors over a per-turn decay
//! factor. Values carry 16 fractional bits; every operation truncates toward
//! zero and saturates at the `i64` range, and each function's contract states
//! that result exactly.

use vstd::prelude::*;
use vstd::arithmetic::div_mod::{
    lemma_div_multiples_vanish, lemma_div_pos_is_pos, lemma_multiply_divide_lt,
};

verus! {

/// The fixed-point unit: the representation of 1.
pub const ONE: i64 = 0x10000;

/// Magnitude of an integer.
pub open spec fn abs_i(v: int) -> int {
    if v >= 0 {
        v
    } else {
        -v
    }
}

/// The sign of a product or quotient of two values.
pub open spec fn sgn2(a: int, b: int) -> int {
    if (a >= 0) == (b >= 0) {
        1
    } else {
        -1
    }
}

/// Saturation at the `i64` range.
pub open spec fn clip(v: int) -> int {
    if v > i64::MAX {
        i64::MAX as int
    } else if v < i64::MIN {
        i64::MIN as int
    } else {
        v
    }
}

/// The fixed-point product: `a * b` rescaled, truncated toward zero and
/// saturated.
pub open spec fn mul_spec(a: int, b: int) -> int {
    clip(sgn2(a, b) * ((abs_i(a) * abs_i(b)) / (ONE as int)))
}

/// The fixed-point quotient: `a / b` rescaled, truncated toward zero and
/// saturated.
pub open spec fn div_spec(a: int, b: int) -> int {
    clip(sgn2(a, b) * ((abs_i(a) * (ONE as int)) / abs_i(b)))
}

/// The fixed-point power `g^n` by repeated fixed-point multiplication.
pub open spec fn pow_spec(g: int, n: nat) -> int
    decreases n,
{
    if n == 0 {
        ONE as int
    } else {
        mul_spec(pow_spec(g, (n - 1) as nat), g)
    }
}

/// The present value of one unit per period, forever: `g / (1 - g)`.
pub open spec fn perpetuity_spec(g: int) -> int {
    div_spec(g, ONE - g)
}

/// The discount over `n` periods: `g^n`, with a negative `n` discounting
/// backwards (saturated where the reciprocal has no fixed-point value).
pub open spec fn discount_spec(g: int, n: int) -> int {
    if n >= 0 {
        pow_spec(g, n as nat)
    } else {
        let p = pow_spec(g, (-n) as nat);
        if p == 0 {
            i64::MAX as int
        } else {
            div_spec(ONE as int, p)
        }
    }
}

/// The present value of one unit per period for `n` periods:
/// `perpetuity(g) * (1 - g^n)`.
pub open spec fn annuity_spec(g: int, n: int) -> int {
    mul_spec(perpetuity_spec(g), ONE - discount_spec(g, n))
}

/// The saturating sum.
pub open spec fn add_spec(a: int, b: int) -> int {
    clip(a + b)
}

/// The saturating difference.
pub open spec fn sub_spec(a: int, b: int) -> int {
    clip(a - b)
}

/// Saturating addition.
pub fn fx_add(a: i64, b: i64) -> (r: i64)
    ensures
        r == add_spec(a as int, b as int),
{
    let s = a as i128 + b as i128;
    if s > i64::MAX as i128 {
        i64::MAX
    } else if s < i64::MIN as i128 {
        i64::MIN
    } else {
        s as i64
    }
}

/// Saturating subtraction.
pub fn fx_sub(a: i64, b: i64) -> (r: i64)
    ensures
        r == sub_spec(a as int, b as int),
{
    let s = a as i128 - b as i128;
    if s > i64::MAX as i128 {
        i64::MAX
    } else if s < i64::MIN as i128 {
        i64::MIN
    } else {
        s as i64
    }
}

/// Saturates an unsigned magnitude and a sign into the `i64` range.
fn clip_signed(neg: bool, m: u128) -> (r: i64)
    ensures
        r == clip(if neg {
            -(m as int)
        } else {
            m as int
        }),
{
    if neg {
        if m >= 0x8000_0000_0000_0000u128 {
            i64::MIN
        } else {
            -(m as i64)
        }
    } else {
        if m > i64::MAX as u128 {
            i64::MAX
        } else {
            m as i64
        }
    }
}

/// Magnitude of an `i64`, wide enough to hold `|i64::MIN|`.
fn abs_u128(v: i64) -> (r: u128)
    ensures
        r == abs_i(v as int),
{
    if v >= 0 {
        v as u128
    } else {
        (-(v as i128)) as u128
    }
}

/// Fixed-point multiplication.
pub fn fx_mul(a: i64, b: i64) -> (r: i64)
    ensures
        r == mul_spec(a as int, b as int),
{
    let neg = (a < 0) != (b < 0);
    let am = abs_u128(a);
    let bm = abs_u128(b);
    proof {
        assert(am * bm < 0x8000_0000_0000_0000_0000_0000_0000_0000u128) by (nonlinear_arith)
            requires
                am <= 0x8000_0000_0000_0000u128,
                bm <= 0x8000_0000_0000_0000u128,
        ;
    }
    let m = am * bm / (ONE as u128);
    proof {
        assert(am * bm == abs_i(a as int) * abs_i(b as int)) by (nonlinear_arith)
            requires
                am == abs_i(a as int),
                bm == abs_i(b as int),
        ;
        if a == 0 || b == 0 {
            assert(am * bm == 0) by (nonlinear_arith)
                requires
                    am == 0 || bm == 0,
            ;
        }
    }
    clip_signed(neg && a != 0 && b != 0, m)
}

/// Fixed-point division, truncating toward zero.
pub fn fx_div(a: i64, b: i64) -> (r: i64)
    requires
        b != 0,
    ensures
        r == div_spec(a as int, b as int),
{
    let neg = (a < 0) != (b < 0);
    let am = abs_u128(a);
    let bm = abs_u128(b);
    proof {
        assert(am * (ONE as u128) < 0x8000_0000_0000_0000_0000_0000_0000_0000u128)
            by (nonlinear_arith)
            requires
                am <= 0x8000_0000_0000_0000u128,
        ;
    }
    let m = am * (ONE as u128) / bm;
    proof {
        if a == 0 {
            assert(am * (ONE as u128) == 0) by (nonlinear_arith)
                requires
                    am == 0,
            ;
        }
    }
    clip_signed(neg && a != 0, m)
}

/// The present value of one unit of production per turn, forever, under the
/// per-turn decay factor `gamma`.
pub fn perpetuity(gamma: i64) -> (r: i64)
    requires
        0 <= gamma < ONE,
    ensures
        r == perpetuity_spec(gamma as int),
        0 <= r,
{
    let r = fx_div(gamma, ONE - gamma);
    proof {
        lemma_div_pos_is_pos(gamma * (ONE as int), (ONE - gamma) as int);
        assert(gamma * (ONE as int) >= 0) by (nonlinear_arith)
            requires
                gamma >= 0,
        ;
    }
    r
}

/// The discount factor over `n` turns, `gamma^n`.
pub fn discount(gamma: i64, n: i32) -> (r: i64)
    requires
        0 <= gamma < ONE,
    ensures
        r == discount_spec(gamma as int, n as int),
        0 <= r,
{
    let m: u32 = if n >= 0 {
        n as u32
    } else {
        (-(n as i64)) as u32
    };
    let mut p: i64 = ONE;
    let mut i: u32 = 0;
    while i < m
        invariant
            i <= m,
            0 <= gamma < ONE,
            p == pow_spec(gamma as int, i as nat),
        decreases m - i,
    {
        p = fx_mul(p, gamma);
        proof {
            assert(mul_spec(pow_spec(gamma as int, i as nat), gamma as int) == pow_spec(
                gamma as int,
                (i + 1) as nat,
            ));
        }
        i = i + 1;
    }
    proof {
        lemma_pow_bounds(gamma as int, m as nat);
    }
    if n >= 0 {
        p
    } else if p == 0 {
        i64::MAX
    } else {
        let r = fx_div(ONE, p);
        proof {
            lemma_div_pos_is_pos((ONE as int) * (ONE as int), p as int);
        }
        r
    }
}

/// The present value of one unit of production per turn for `n` turns.
pub fn annuity(gamma: i64, n: i32) -> (r: i64)
    requires
        0 <= gamma < ONE,
    ensures
        r == annuity_spec(gamma as int, n as int),
{
    let d = discount(gamma, n);
    fx_mul(perpetuity(gamma), ONE - d)
}

/// The discount factor equivalent to the interest rate `rate`:
/// `1 / (1 + rate)`.
pub fn discount_of(rate: i64) -> (r: i64)
    requires
        rate != -ONE,
        rate <= i64::MAX - ONE,
    ensures
        r == div_spec(ONE as int, ONE + rate),
{
    fx_div(ONE, ONE + rate)
}

/// A zero-turn annuity is worth nothing, and a zero-turn discount is the
/// unit.
pub proof fn lemma_zero_periods(g: int)
    ensures
        discount_spec(g, 0) == ONE,
        annuity_spec(g, 0) == 0,
{
    assert(abs_i(perpetuity_spec(g)) * abs_i(0) == 0) by (nonlinear_arith);
}

/// The fixed-point power of a factor below the unit never grows: it stays in
/// `[0, ONE]` and, while positive, loses at least one ulp per period.
pub proof fn lemma_pow_bounds(g: int, n: nat)
    requires
        0 <= g < ONE,
    ensures
        0 <= pow_spec(g, n) <= ONE,
        pow_spec(g, n) <= ONE - n || pow_spec(g, n) == 0,
    decreases n,
{
    if n > 0 {
        lemma_pow_bounds(g, (n - 1) as nat);
        let p = pow_spec(g, (n - 1) as nat);
        let q = pow_spec(g, n);
        assert(q == clip((p * g) / (ONE as int)));
        lemma_div_pos_is_pos(p * g, ONE as int);
        assert(p * g >= 0) by (nonlinear_arith)
            requires
                p >= 0,
                g >= 0,
        ;
        if p == 0 {
            assert(p * g == 0) by (nonlinear_arith)
                requires
                    p == 0,
            ;
        } else {
            assert(p * g < p * (ONE as int)) by (nonlinear_arith)
                requires
                    p >= 1,
                    0 <= g < ONE,
            ;
            lemma_multiply_divide_lt(p * g, ONE as int, p);
        }
    }
}

/// Economic identity: for long enough horizons the discount vanishes and the
/// annuity equals the perpetuity exactly.
pub proof fn lemma_annuity_limit(g: int, n: int)
    requires
        0 <= g < ONE,
        n >= ONE,
    ensures
        discount_spec(g, n) == 0,
        annuity_spec(g, n) == perpetuity_spec(g),
{
    lemma_pow_bounds(g, n as nat);
    assert(pow_spec(g, n as nat) == 0);
    let p = perpetuity_spec(g);
    assert(0 <= p <= i64::MAX);
    assert(annuity_spec(g, n) == clip((abs_i(p) * (ONE as int)) / (ONE as int)));
    lemma_div_multiples_vanish(abs_i(p), ONE as int);
    assert(abs_i(p) * (ONE as int) == (ONE as int) * abs_i(p)) by (nonlinear_arith);
}

} // verus!
