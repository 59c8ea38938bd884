//! Fixed-point scalar arithmetic.
//!
//! A scalar is an `i64` holding `SCALE` raw units per 1.0.  Multiplication
//! and division round toward zero, exactly like the truncating integer
//! division of the machine; `sqrt_floor` is the exact integer square root.

use vstd::prelude::*;

verus! {

/// Raw units per 1.0.
pub const SCALE: i64 = 65536;

/// Absolute value over mathematical integers.
pub open spec fn absi(a: int) -> int {
    if a >= 0 {
        a
    } else {
        -a
    }
}

/// Division rounding toward zero (the semantics of the executable
/// fixed-point operations), for any signs of the operands.
pub open spec fn tdiv(a: int, b: int) -> int {
    if (a >= 0) == (b >= 0) {
        absi(a) / absi(b)
    } else {
        -(absi(a) / absi(b))
    }
}

/// Fixed-point product: (a * b) / SCALE rounded toward zero.
pub open spec fn fxmul(a: int, b: int) -> int {
    tdiv(a * b, SCALE as int)
}

/// Fixed-point quotient: (a * SCALE) / b rounded toward zero.
pub open spec fn fxdiv(a: int, b: int) -> int {
    tdiv(a * SCALE, b)
}

/// Integer square root, rounded down; 0 for negative arguments.
pub open spec fn sqrt_floor(n: int) -> int
    decreases n,
{
    if n <= 0 {
        0
    } else {
        let p = sqrt_floor(n - 1);
        if (p + 1) * (p + 1) <= n {
            p + 1
        } else {
            p
        }
    }
}

/// `sqrt_floor(n)` is the greatest integer whose square is at most `n`.
pub proof fn lemma_sqrt_floor_bounds(n: int)
    requires
        n >= 0,
    ensures
        sqrt_floor(n) >= 0,
        sqrt_floor(n) * sqrt_floor(n) <= n,
        n < (sqrt_floor(n) + 1) * (sqrt_floor(n) + 1),
    decreases n,
{
    if n > 0 {
        lemma_sqrt_floor_bounds(n - 1);
        let p = sqrt_floor(n - 1);
        if (p + 1) * (p + 1) <= n {
            assert(n <= (p + 1) * (p + 1)) by {
                assert(n - 1 < (p + 1) * (p + 1));
            }
            assert((p + 1) * (p + 1) < (p + 2) * (p + 2)) by (nonlinear_arith)
                requires
                    p >= 0,
            ;
        }
    }
}

/// Any integer meeting the square-root bounds is `sqrt_floor(n)`.
pub proof fn lemma_sqrt_floor_unique(n: int, r: int)
    requires
        n >= 0,
        r >= 0,
        r * r <= n,
        n < (r + 1) * (r + 1),
    ensures
        r == sqrt_floor(n),
{
    lemma_sqrt_floor_bounds(n);
    let s = sqrt_floor(n);
    if r < s {
        assert((r + 1) * (r + 1) <= s * s) by (nonlinear_arith)
            requires
                0 <= r,
                r < s,
        ;
    }
    if s < r {
        assert((s + 1) * (s + 1) <= r * r) by (nonlinear_arith)
            requires
                0 <= s,
                s < r,
        ;
    }
}

/// `sqrt_floor` is monotone.
pub proof fn lemma_sqrt_floor_mono(a: int, b: int)
    requires
        0 <= a <= b,
    ensures
        sqrt_floor(a) <= sqrt_floor(b),
    decreases b,
{
    if a < b {
        lemma_sqrt_floor_mono(a, b - 1);
    }
}

/// The square root of a perfect square.
pub proof fn lemma_sqrt_floor_square(x: int)
    requires
        x >= 0,
    ensures
        sqrt_floor(x * x) == x,
{
    lemma_mul_signs(x, x);
    assert(x * x < (x + 1) * (x + 1)) by (nonlinear_arith)
        requires
            x >= 0,
    ;
    lemma_sqrt_floor_unique(x * x, x);
}

/// Magnitude bound for truncating division by a positive divisor.
pub proof fn lemma_tdiv_abs(a: int, b: int)
    requires
        b > 0,
    ensures
        absi(tdiv(a, b)) <= absi(a) / b,
        absi(tdiv(a, b)) <= absi(a),
        a >= 0 ==> tdiv(a, b) == a / b,
{
    vstd::arithmetic::div_mod::lemma_div_nonincreasing(absi(a), b);
}

/// Magnitude bound for truncating division by any nonzero divisor.
pub proof fn lemma_tdiv_abs_any(a: int, b: int)
    requires
        b != 0,
    ensures
        absi(tdiv(a, b)) == absi(a) / absi(b),
        absi(tdiv(a, b)) <= absi(a),
{
    vstd::arithmetic::div_mod::lemma_div_pos_is_pos(absi(a), absi(b));
    vstd::arithmetic::div_mod::lemma_div_nonincreasing(absi(a), absi(b));
}

/// Truncating division is monotone in the magnitude of the numerator.
pub proof fn lemma_tdiv_abs_le(a: int, b: int, bound: int)
    requires
        b > 0,
        absi(a) <= bound,
    ensures
        absi(tdiv(a, b)) <= bound / b,
    {
    vstd::arithmetic::div_mod::lemma_div_is_ordered(absi(a), bound, b);
}

/// |a * b| == |a| * |b|.
pub proof fn lemma_abs_mul(a: int, b: int)
    ensures
        absi(a * b) == absi(a) * absi(b),
{
    assert(absi(a * b) == absi(a) * absi(b)) by (nonlinear_arith);
}

/// Multiplying by zero gives zero.
pub proof fn lemma_fxmul_zero(b: int)
    ensures
        fxmul(0, b) == 0,
        fxmul(b, 0) == 0,
{
    assert(0 * b == 0 && b * 0 == 0) by (nonlinear_arith);
}

/// The sign of a product follows the signs of its factors.
pub proof fn lemma_mul_signs(a: int, b: int)
    ensures
        a >= 0 && b >= 0 ==> a * b >= 0,
        a <= 0 && b <= 0 ==> a * b >= 0,
        a >= 0 && b <= 0 ==> a * b <= 0,
        a <= 0 && b >= 0 ==> a * b <= 0,
{
    assert(a >= 0 && b >= 0 ==> a * b >= 0) by (nonlinear_arith);
    assert(a <= 0 && b <= 0 ==> a * b >= 0) by (nonlinear_arith);
    assert(a >= 0 && b <= 0 ==> a * b <= 0) by (nonlinear_arith);
    assert(a <= 0 && b >= 0 ==> a * b <= 0) by (nonlinear_arith);
}

/// Bounds multiply: |a| <= ba and |b| <= bb give |a * b| <= ba * bb.
pub proof fn lemma_abs_mul_le(a: int, b: int, ba: int, bb: int)
    requires
        absi(a) <= ba,
        absi(b) <= bb,
    ensures
        absi(a * b) <= ba * bb,
{
    lemma_abs_mul(a, b);
    assert(absi(a) * absi(b) <= ba * bb) by (nonlinear_arith)
        requires
            0 <= absi(a) <= ba,
            0 <= absi(b) <= bb,
    ;
}

/// Magnitude bound for the fixed-point product.
pub proof fn lemma_fxmul_abs_le(a: int, b: int, ba: int, bb: int)
    requires
        absi(a) <= ba,
        absi(b) <= bb,
    ensures
        absi(fxmul(a, b)) <= ba * bb / (SCALE as int),
{
    lemma_abs_mul_le(a, b, ba, bb);
    lemma_tdiv_abs_le(a * b, SCALE as int, ba * bb);
}

/// Absolute value of an `i64` above `i64::MIN`, as a `u128`.
fn abs_u128(a: i64) -> (r: u128)
    requires
        a != i64::MIN,
    ensures
        r == absi(a as int),
{
    if a < 0 {
        (-a) as u128
    } else {
        a as u128
    }
}

/// Fixed-point product of two scalars, rounding toward zero.
pub fn fx_mul(a: i64, b: i64) -> (r: i64)
    requires
        absi(fxmul(a as int, b as int)) <= i64::MAX as int,
        a != i64::MIN,
        b != i64::MIN,
    ensures
        r == fxmul(a as int, b as int),
{
    let neg: bool = (a < 0) != (b < 0);
    let am: u128 = abs_u128(a);
    let bm: u128 = abs_u128(b);
    proof {
        lemma_abs_mul(a as int, b as int);
        assert(am * bm <= u128::MAX) by (nonlinear_arith)
            requires
                am <= i64::MAX as u128 + 1,
                bm <= i64::MAX as u128 + 1,
        ;
    }
    let p: u128 = am * bm;
    let q: u128 = p / (SCALE as u128);
    proof {
        assert(q == absi(a as int * b as int) / (SCALE as int));
        lemma_mul_signs(a as int, b as int);
        assert(absi(fxmul(a as int, b as int)) == q as int);
    }
    if neg {
        -(q as i64)
    } else {
        q as i64
    }
}

/// Fixed-point quotient of two scalars, rounding toward zero.
pub fn fx_div(a: i64, b: i64) -> (r: i64)
    requires
        b != 0,
        absi(fxdiv(a as int, b as int)) <= i64::MAX as int,
        a != i64::MIN,
        b != i64::MIN,
    ensures
        r == fxdiv(a as int, b as int),
{
    let neg: bool = (a < 0) != (b < 0);
    let am: u128 = abs_u128(a);
    let bm: u128 = abs_u128(b);
    proof {
        lemma_abs_mul(a as int, SCALE as int);
        assert(am * (SCALE as u128) <= u128::MAX) by (nonlinear_arith)
            requires
                am <= i64::MAX as u128 + 1,
        ;
    }
    let p: u128 = am * (SCALE as u128);
    let q: u128 = p / bm;
    proof {
        assert(q == absi(a as int * SCALE) / absi(b as int));
        lemma_mul_signs(a as int, SCALE as int);
        assert(absi(fxdiv(a as int, b as int)) == q as int);
    }
    if neg {
        -(q as i64)
    } else {
        q as i64
    }
}

/// Fixed-point sine by truncated Taylor series, for arguments in
/// `[0, 1]` radians.
pub open spec fn sin_fx_spec(x: int) -> int {
    let x2 = fxmul(x, x);
    let x3 = fxmul(x2, x);
    let x5 = fxmul(x3, x2);
    let x7 = fxmul(x5, x2);
    x - x3 / 6 + x5 / 120 - x7 / 5040
}

/// Fixed-point cosine by truncated Taylor series, for arguments in
/// `[0, 1]` radians.
pub open spec fn cos_fx_spec(x: int) -> int {
    let x2 = fxmul(x, x);
    let x4 = fxmul(x2, x2);
    let x6 = fxmul(x4, x2);
    SCALE - x2 / 2 + x4 / 24 - x6 / 720
}

/// Fixed-point tangent: the quotient of the series above.
pub open spec fn tan_fx_spec(x: int) -> int {
    fxdiv(sin_fx_spec(x), cos_fx_spec(x))
}

/// Powers of an argument in `[0, 1]` stay in `[0, 1]`, and the cosine
/// series stays strictly positive there.
pub proof fn lemma_trig_bounds(x: int)
    requires
        0 <= x <= SCALE as int,
    ensures
        0 <= fxmul(x, x) <= x,
        0 <= fxmul(fxmul(x, x), x) <= x,
        0 <= fxmul(fxmul(fxmul(x, x), x), fxmul(x, x)) <= x,
        0 <= fxmul(fxmul(fxmul(fxmul(x, x), x), fxmul(x, x)), fxmul(x, x)) <= x,
        0 <= fxmul(fxmul(x, x), fxmul(x, x)) <= x,
        0 <= fxmul(fxmul(fxmul(x, x), fxmul(x, x)), fxmul(x, x)) <= x,
        0 <= sin_fx_spec(x) <= SCALE as int,
        SCALE as int / 2 - 92 <= cos_fx_spec(x) <= SCALE as int,
        0 <= tan_fx_spec(x) <= 3 * SCALE as int,
{
    let s = SCALE as int;
    lemma_pow_step(x, x, s);
    let x2 = fxmul(x, x);
    lemma_pow_step(x2, x, s);
    let x3 = fxmul(x2, x);
    lemma_pow_step(x3, x2, s);
    let x5 = fxmul(x3, x2);
    lemma_pow_step(x5, x2, s);
    let x7 = fxmul(x5, x2);
    lemma_pow_step(x2, x2, s);
    let x4 = fxmul(x2, x2);
    lemma_pow_step(x4, x2, s);
    let x6 = fxmul(x4, x2);
    vstd::arithmetic::div_mod::lemma_div_pos_is_pos(x3, 6);
    vstd::arithmetic::div_mod::lemma_div_pos_is_pos(x5, 120);
    vstd::arithmetic::div_mod::lemma_div_pos_is_pos(x7, 5040);
    vstd::arithmetic::div_mod::lemma_div_pos_is_pos(x2, 2);
    vstd::arithmetic::div_mod::lemma_div_pos_is_pos(x4, 24);
    vstd::arithmetic::div_mod::lemma_div_pos_is_pos(x6, 720);
    vstd::arithmetic::div_mod::lemma_div_is_ordered(x3, x, 6);
    vstd::arithmetic::div_mod::lemma_div_is_ordered(x7, x, 5040);
    vstd::arithmetic::div_mod::lemma_div_is_ordered(x2, s, 2);
    vstd::arithmetic::div_mod::lemma_div_is_ordered(x6, s, 720);
    vstd::arithmetic::div_mod::lemma_div_nonincreasing(x3, 6);
    vstd::arithmetic::div_mod::lemma_div_nonincreasing(x5, 120);
    vstd::arithmetic::div_mod::lemma_div_nonincreasing(x7, 5040);
    vstd::arithmetic::div_mod::lemma_div_nonincreasing(x2, 2);
    vstd::arithmetic::div_mod::lemma_div_nonincreasing(x4, 24);
    vstd::arithmetic::div_mod::lemma_div_nonincreasing(x6, 720);
    vstd::arithmetic::div_mod::lemma_div_is_ordered(x5, x3, 120);
    vstd::arithmetic::div_mod::lemma_div_is_ordered_by_denominator(x3, 6, 120);
    vstd::arithmetic::div_mod::lemma_div_is_ordered(x4, x2, 24);
    vstd::arithmetic::div_mod::lemma_div_is_ordered_by_denominator(x2, 2, 24);
    assert(s / 2 == 32768 && s / 720 == 91);
    assert(x / 6 + x / 5040 <= x) by {
        vstd::arithmetic::div_mod::lemma_div_is_ordered(x, s, 6);
        vstd::arithmetic::div_mod::lemma_div_is_ordered(x, s, 5040);
    }
    let cosv = cos_fx_spec(x);
    let sinv = sin_fx_spec(x);
    assert(cosv >= 32768 - 91);
    lemma_mul_signs(sinv, s);
    lemma_abs_mul(sinv, s);
    lemma_tdiv_abs(sinv * s, cosv);
    assert(sinv * s <= s * s) by (nonlinear_arith)
        requires
            0 <= sinv <= s,
            s > 0,
    ;
    vstd::arithmetic::div_mod::lemma_div_is_ordered(sinv * s, s * s, cosv);
    vstd::arithmetic::div_mod::lemma_div_is_ordered_by_denominator(s * s, 32677, cosv);
    assert((s * s) / 32677 <= 3 * s);
}

/// One power step: multiplying two factors in `[0, b]` (with `b` the
/// scale) keeps the product in `[0, min(factor)]`.
proof fn lemma_pow_step(a: int, c: int, s: int)
    requires
        s == SCALE as int,
        0 <= a <= s,
        0 <= c <= s,
    ensures
        0 <= fxmul(a, c) <= a,
        0 <= fxmul(a, c) <= c,
{
    lemma_mul_signs(a, c);
    lemma_abs_mul(a, c);
    assert(a * c <= a * s) by (nonlinear_arith)
        requires
            0 <= a,
            c <= s,
    ;
    assert(a * c <= c * s) by (nonlinear_arith)
        requires
            0 <= c,
            a <= s,
    ;
    vstd::arithmetic::div_mod::lemma_div_is_ordered(a * c, a * s, s);
    vstd::arithmetic::div_mod::lemma_div_is_ordered(a * c, c * s, s);
    vstd::arithmetic::div_mod::lemma_div_by_multiple(a, s);
    vstd::arithmetic::div_mod::lemma_div_by_multiple(c, s);
    vstd::arithmetic::div_mod::lemma_div_pos_is_pos(a * c, s);
}

/// Fixed-point tangent of an angle in `[0, 1]` radians.
pub fn tan_fx(x: i64) -> (r: i64)
    requires
        0 <= x <= SCALE,
    ensures
        r == tan_fx_spec(x as int),
        0 <= r <= 3 * SCALE,
{
    proof {
        lemma_trig_bounds(x as int);
    }
    let x2: i64 = fx_mul(x, x);
    let x3: i64 = fx_mul(x2, x);
    let x5: i64 = fx_mul(x3, x2);
    let x7: i64 = fx_mul(x5, x2);
    let x4: i64 = fx_mul(x2, x2);
    let x6: i64 = fx_mul(x4, x2);
    let sinv: i64 = x - div_small(x3, 6) + div_small(x5, 120) - div_small(x7, 5040);
    let cosv: i64 = SCALE - div_small(x2, 2) + div_small(x4, 24) - div_small(x6, 720);
    fx_div(sinv, cosv)
}

/// Division of a small nonnegative scalar by a positive literal.
pub fn div_small(a: i64, b: i64) -> (r: i64)
    requires
        0 <= a,
        0 < b,
    ensures
        r == a as int / b as int,
{
    ((a as u64) / (b as u64)) as i64
}

/// Fixed-point quotient of nonnegative scalars, saturating at `i64::MAX`
/// instead of overflowing.
pub fn fx_div_sat(a: i64, b: i64) -> (r: i64)
    requires
        0 <= a,
        1 <= b,
    ensures
        r == if fxdiv(a as int, b as int) <= i64::MAX as int {
            fxdiv(a as int, b as int)
        } else {
            i64::MAX as int
        },
        0 <= r,
{
    proof {
        assert((a as u128) * (SCALE as u128) <= u128::MAX) by (nonlinear_arith)
            requires
                a as u128 <= i64::MAX as u128,
        ;
        lemma_mul_signs(a as int, SCALE as int);
        lemma_abs_mul(a as int, SCALE as int);
    }
    let p: u128 = (a as u128) * (SCALE as u128);
    let q: u128 = p / (b as u128);
    if q > i64::MAX as u128 {
        i64::MAX
    } else {
        q as i64
    }
}

/// Largest argument `isqrt_u128` accepts: 2^126.
pub const SQRT_ARG_MAX: u128 = 0x40000000000000000000000000000000;

/// Exact integer square root by binary search.
pub fn isqrt_u128(n: u128) -> (r: u64)
    requires
        n < SQRT_ARG_MAX,
    ensures
        r == sqrt_floor(n as int),
{
    if n == 0 {
        proof {
            lemma_sqrt_floor_unique(0, 0);
        }
        return 0;
    }
    let mut lo: u64 = 0;
    let mut hi: u64 = 9223372036854775808;
    proof {
        assert(9223372036854775808int * 9223372036854775808int == SQRT_ARG_MAX as int) by (nonlinear_arith);
    }
    while lo + 1 < hi
        invariant
            lo < hi,
            hi <= 9223372036854775808,
            (lo as int) * (lo as int) <= n as int,
            (hi as int) * (hi as int) > n as int,
        decreases hi - lo,
    {
        let mid: u64 = lo + (hi - lo) / 2;
        proof {
            assert((mid as u128) * (mid as u128) <= u128::MAX) by (nonlinear_arith)
                requires
                    mid as u128 <= 9223372036854775808u128,
            ;
        }
        let sq: u128 = (mid as u128) * (mid as u128);
        if sq <= n {
            lo = mid;
        } else {
            hi = mid;
        }
    }
    proof {
        lemma_sqrt_floor_unique(n as int, lo as int);
    }
    lo
}

/// Exact integer square root of a nonnegative scalar.
pub fn isqrt_i64(n: i64) -> (r: i64)
    requires
        n >= 0,
    ensures
        r == sqrt_floor(n as int),
        0 <= r,
        r * r <= n,
{
    proof {
        lemma_sqrt_floor_bounds(n as int);
        lemma_sqrt_floor_mono(n as int, i64::MAX as int);
        lemma_sqrt_floor_unique(i64::MAX as int, 3037000499);
        assert((n as u128) < SQRT_ARG_MAX);
    }
    let r: u64 = isqrt_u128(n as u128);
    r as i64
}

} // verus!
