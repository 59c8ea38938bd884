//! Three-component fixed-point vectors and points.
//!
//! `Vec3` is the executable value; its view `V3` carries the same three
//! components as mathematical integers, and all vector algebra is specified
//! exactly over `V3`.

use vstd::prelude::*;
use crate::fx::{
    absi, fxmul, sqrt_floor, tdiv, SCALE, SQRT_ARG_MAX, fx_mul, isqrt_u128,
    lemma_abs_mul, lemma_abs_mul_le, lemma_fxmul_abs_le, lemma_mul_signs, lemma_sqrt_floor_bounds,
    lemma_sqrt_floor_mono, lemma_sqrt_floor_square, lemma_sqrt_floor_unique, lemma_tdiv_abs_le,
};

verus! {

/// Mathematical view of a vector: three unbounded integer components.
pub struct V3 {
    pub x: int,
    pub y: int,
    pub z: int,
}

/// An executable vector of fixed-point components.
#[derive(Clone, Copy, Debug, PartialEq, Eq, Structural)]
pub struct Vec3 {
    pub x: i64,
    pub y: i64,
    pub z: i64,
}

impl View for Vec3 {
    type V = V3;

    open spec fn view(&self) -> V3 {
        V3 { x: self.x as int, y: self.y as int, z: self.z as int }
    }
}

/// Largest coordinate magnitude the geometry accepts, in raw units.
pub const COORD_MAX: i64 = 0x40000000;

/// Largest operand magnitude allowed in componentwise products.
pub const OP_MAX: i64 = 0x4000000000;

/// Largest operand magnitude allowed in magnitudes and normalizations.
pub const NORM_MAX: i64 = 0x40000000000000;

/// All components of `v` have magnitude at most `m`.
pub open spec fn bounded(v: V3, m: int) -> bool {
    absi(v.x) <= m && absi(v.y) <= m && absi(v.z) <= m
}

/// The zero vector.
pub open spec fn is_zero(v: V3) -> bool {
    v.x == 0 && v.y == 0 && v.z == 0
}

/// Componentwise sum.
pub open spec fn vadd(a: V3, b: V3) -> V3 {
    V3 { x: a.x + b.x, y: a.y + b.y, z: a.z + b.z }
}

/// Componentwise difference.
pub open spec fn vsub(a: V3, b: V3) -> V3 {
    V3 { x: a.x - b.x, y: a.y - b.y, z: a.z - b.z }
}

/// Componentwise negation.
pub open spec fn vneg(a: V3) -> V3 {
    V3 { x: -a.x, y: -a.y, z: -a.z }
}

/// Scale by the fixed-point scalar `k`.
pub open spec fn vscale(k: int, a: V3) -> V3 {
    V3 { x: fxmul(k, a.x), y: fxmul(k, a.y), z: fxmul(k, a.z) }
}

/// Fixed-point dot product.
pub open spec fn vdot(a: V3, b: V3) -> int {
    fxmul(a.x, b.x) + fxmul(a.y, b.y) + fxmul(a.z, b.z)
}

/// Fixed-point cross product.
pub open spec fn vcross(a: V3, b: V3) -> V3 {
    V3 {
        x: fxmul(a.y, b.z) - fxmul(a.z, b.y),
        y: fxmul(a.z, b.x) - fxmul(a.x, b.z),
        z: fxmul(a.x, b.y) - fxmul(a.y, b.x),
    }
}

/// Sum of the squares of the raw components (an exact integer).
pub open spec fn norm_sq_raw(a: V3) -> int {
    a.x * a.x + a.y * a.y + a.z * a.z
}

/// Raw magnitude: the rounded-down square root of the sum of squares.
/// Both sides carry the same `SCALE` factor, so this is directly the
/// fixed-point length of `a`.
pub open spec fn vmag(a: V3) -> int {
    sqrt_floor(norm_sq_raw(a))
}

/// The normalization of `a`: each component divided by the magnitude,
/// rescaled to fixed point, rounded toward zero.
pub open spec fn vnorm(a: V3) -> V3 {
    V3 {
        x: tdiv(a.x * SCALE, vmag(a)),
        y: tdiv(a.y * SCALE, vmag(a)),
        z: tdiv(a.z * SCALE, vmag(a)),
    }
}

/// Pairs of components are small enough for exact products.
pub open spec fn op_bounded(a: V3, b: V3) -> bool {
    bounded(a, OP_MAX as int) && bounded(b, OP_MAX as int)
}

/// Asymmetric product bound: every componentwise product stays below
/// 2^77, so the scaled products and their sum fit in an `i64`.
pub open spec fn pair_bounded(a: V3, b: V3) -> bool {
    &&& bounded(a, i64::MAX as int)
    &&& bounded(b, i64::MAX as int)
    &&& absi(a.x * b.x) <= 0x20000000000000000000
    &&& absi(a.y * b.y) <= 0x20000000000000000000
    &&& absi(a.z * b.z) <= 0x20000000000000000000
}

/// Componentwise bounds give a dot-product bound.
pub proof fn lemma_vdot_bound(a: V3, b: V3, ba: int, bb: int)
    requires
        bounded(a, ba),
        bounded(b, bb),
    ensures
        absi(vdot(a, b)) <= 3 * (ba * bb / (SCALE as int)),
{
    lemma_fxmul_abs_le(a.x, b.x, ba, bb);
    lemma_fxmul_abs_le(a.y, b.y, ba, bb);
    lemma_fxmul_abs_le(a.z, b.z, ba, bb);
}

/// Componentwise bounds give a cross-product bound.
pub proof fn lemma_vcross_bound(a: V3, b: V3, ba: int, bb: int)
    requires
        bounded(a, ba),
        bounded(b, bb),
    ensures
        bounded(vcross(a, b), 2 * (ba * bb / (SCALE as int))),
{
    lemma_fxmul_abs_le(a.y, b.z, ba, bb);
    lemma_fxmul_abs_le(a.z, b.y, ba, bb);
    lemma_fxmul_abs_le(a.z, b.x, ba, bb);
    lemma_fxmul_abs_le(a.x, b.z, ba, bb);
    lemma_fxmul_abs_le(a.x, b.y, ba, bb);
    lemma_fxmul_abs_le(a.y, b.x, ba, bb);
}

/// Componentwise bounds give a scaling bound.
pub proof fn lemma_vscale_bound(k: int, a: V3, bk: int, ba: int)
    requires
        absi(k) <= bk,
        bounded(a, ba),
    ensures
        bounded(vscale(k, a), bk * ba / (SCALE as int)),
{
    lemma_fxmul_abs_le(k, a.x, bk, ba);
    lemma_fxmul_abs_le(k, a.y, bk, ba);
    lemma_fxmul_abs_le(k, a.z, bk, ba);
}

impl Vec3 {
    /// Build a vector from raw fixed-point components.
    pub fn new(x: i64, y: i64, z: i64) -> (r: Vec3)
        ensures
            r@ == (V3 { x: x as int, y: y as int, z: z as int }),
    {
        Vec3 { x, y, z }
    }

    /// The zero vector.
    pub fn zero() -> (r: Vec3)
        ensures
            r@ == (V3 { x: 0int, y: 0int, z: 0int }),
            is_zero(r@),
    {
        Vec3 { x: 0, y: 0, z: 0 }
    }

    /// Componentwise sum.
    pub fn add(&self, o: &Vec3) -> (r: Vec3)
        requires
            bounded(self@, (i64::MAX - 1) as int / 2),
            bounded(o@, (i64::MAX - 1) as int / 2),
        ensures
            r@ == vadd(self@, o@),
    {
        Vec3 { x: self.x + o.x, y: self.y + o.y, z: self.z + o.z }
    }

    /// Componentwise difference.
    pub fn sub(&self, o: &Vec3) -> (r: Vec3)
        requires
            bounded(self@, (i64::MAX - 1) as int / 2),
            bounded(o@, (i64::MAX - 1) as int / 2),
        ensures
            r@ == vsub(self@, o@),
    {
        Vec3 { x: self.x - o.x, y: self.y - o.y, z: self.z - o.z }
    }

    /// Componentwise negation.
    pub fn neg(&self) -> (r: Vec3)
        requires
            bounded(self@, (i64::MAX - 1) as int),
        ensures
            r@ == vneg(self@),
    {
        Vec3 { x: -self.x, y: -self.y, z: -self.z }
    }

    /// Scale by the fixed-point scalar `k`.
    pub fn scale(&self, k: i64) -> (r: Vec3)
        requires
            absi(k as int) <= OP_MAX as int,
            bounded(self@, OP_MAX as int),
        ensures
            r@ == vscale(k as int, self@),
            bounded(r@, absi(k as int) * (OP_MAX as int) / (SCALE as int)),
    {
        proof {
            lemma_scale_fits(k as int, self@);
        }
        Vec3 { x: fx_mul(k, self.x), y: fx_mul(k, self.y), z: fx_mul(k, self.z) }
    }

    /// Fixed-point dot product.
    pub fn dot(&self, o: &Vec3) -> (r: i64)
        requires
            op_bounded(self@, o@),
        ensures
            r == vdot(self@, o@),
    {
        proof {
            lemma_pair_fits(self@, o@);
        }
        fx_mul(self.x, o.x) + fx_mul(self.y, o.y) + fx_mul(self.z, o.z)
    }

    /// Fixed-point cross product.
    pub fn cross(&self, o: &Vec3) -> (r: Vec3)
        requires
            op_bounded(self@, o@),
        ensures
            r@ == vcross(self@, o@),
            bounded(r@, 2 * ((OP_MAX as int) * (OP_MAX as int) / (SCALE as int))),
    {
        proof {
            lemma_pair_fits(self@, o@);
            lemma_pair_fits(o@, self@);
        }
        Vec3 {
            x: fx_mul(self.y, o.z) - fx_mul(self.z, o.y),
            y: fx_mul(self.z, o.x) - fx_mul(self.x, o.z),
            z: fx_mul(self.x, o.y) - fx_mul(self.y, o.x),
        }
    }

    /// Raw magnitude (rounded-down square root of the sum of squares).
    pub fn magnitude(&self) -> (r: i64)
        requires
            bounded(self@, NORM_MAX as int),
        ensures
            r == vmag(self@),
            0 <= r <= 2 * NORM_MAX,
    {
        proof {
            lemma_norm_sq_bound(self@);
        }
        let xs: u128 = sq_u128(self.x);
        let ys: u128 = sq_u128(self.y);
        let zs: u128 = sq_u128(self.z);
        let s: u128 = xs + ys + zs;
        proof {
            lemma_sqrt_floor_bounds(s as int);
            lemma_sqrt_floor_mono(s as int, 4 * (NORM_MAX as int) * (NORM_MAX as int));
            lemma_mul_signs(2 * (NORM_MAX as int), 2 * (NORM_MAX as int));
            lemma_sqrt_floor_square(2 * (NORM_MAX as int));
        }
        let m: u64 = isqrt_u128(s);
        m as i64
    }

    /// Normalize to (fixed-point) unit length; the argument must be
    /// nonzero.  Every component of the result has magnitude at most
    /// `SCALE`.
    pub fn normalize(&self) -> (r: Vec3)
        requires
            bounded(self@, NORM_MAX as int),
            !is_zero(self@),
        ensures
            r@ == vnorm(self@),
            bounded(r@, SCALE as int),
    {
        let m: i64 = self.magnitude();
        proof {
            lemma_mag_positive(self@);
            lemma_norm_component_bound(self@);
        }
        Vec3 {
            x: crate::fx::fx_div(self.x, m),
            y: crate::fx::fx_div(self.y, m),
            z: crate::fx::fx_div(self.z, m),
        }
    }

    /// Dot product for asymmetric operands (see `pair_bounded`).
    pub fn dot_wide(&self, o: &Vec3) -> (r: i64)
        requires
            pair_bounded(self@, o@),
        ensures
            r == vdot(self@, o@),
    {
        proof {
            lemma_tdiv_abs_le(self@.x * o@.x, SCALE as int, 0x20000000000000000000);
            lemma_tdiv_abs_le(self@.y * o@.y, SCALE as int, 0x20000000000000000000);
            lemma_tdiv_abs_le(self@.z * o@.z, SCALE as int, 0x20000000000000000000);
        }
        fx_mul(self.x, o.x) + fx_mul(self.y, o.y) + fx_mul(self.z, o.z)
    }

    /// Exact squared distance between two representable points.
    pub fn dist_sq(&self, o: &Vec3) -> (r: u128)
        requires
            bounded(self@, COORD_MAX as int),
            bounded(o@, COORD_MAX as int),
        ensures
            r == norm_sq_raw(vsub(self@, o@)),
    {
        let d: Vec3 = self.sub(o);
        let xs: u128 = sq_u128(d.x);
        let ys: u128 = sq_u128(d.y);
        let zs: u128 = sq_u128(d.z);
        xs + ys + zs
    }

    /// True iff every component's magnitude is at most `m`.
    pub fn in_range(&self, m: i64) -> (r: bool)
        requires
            m >= 0,
        ensures
            r == bounded(self@, m as int),
    {
        -m <= self.x && self.x <= m && -m <= self.y && self.y <= m && -m <= self.z && self.z <= m
    }
}

/// Square of an `i64` with magnitude at most `OP_MAX`, exactly.
fn sq_u128(a: i64) -> (r: u128)
    requires
        absi(a as int) <= NORM_MAX as int,
    ensures
        r == (a as int) * (a as int),
        r <= (NORM_MAX as int) * (NORM_MAX as int),
{
    proof {
        lemma_mul_signs(a as int, a as int);
        lemma_abs_mul(a as int, a as int);
        lemma_abs_mul_le(a as int, a as int, NORM_MAX as int, NORM_MAX as int);
    }
    let m: u128 = if a < 0 {
        (-a) as u128
    } else {
        a as u128
    };
    proof {
        assert(m * m == absi(a as int) * absi(a as int)) by (nonlinear_arith)
            requires
                m == absi(a as int),
                m <= NORM_MAX as u128,
        ;
    }
    m * m
}

/// Componentwise products of operands below `OP_MAX` fit in an `i64`.
proof fn lemma_pair_fits(a: V3, b: V3)
    requires
        op_bounded(a, b),
    ensures
        absi(fxmul(a.x, b.x)) <= (OP_MAX as int) * (OP_MAX as int) / (SCALE as int),
        absi(fxmul(a.y, b.y)) <= (OP_MAX as int) * (OP_MAX as int) / (SCALE as int),
        absi(fxmul(a.z, b.z)) <= (OP_MAX as int) * (OP_MAX as int) / (SCALE as int),
        absi(fxmul(a.y, b.z)) <= (OP_MAX as int) * (OP_MAX as int) / (SCALE as int),
        absi(fxmul(a.z, b.y)) <= (OP_MAX as int) * (OP_MAX as int) / (SCALE as int),
        absi(fxmul(a.z, b.x)) <= (OP_MAX as int) * (OP_MAX as int) / (SCALE as int),
        absi(fxmul(a.x, b.z)) <= (OP_MAX as int) * (OP_MAX as int) / (SCALE as int),
        absi(fxmul(a.x, b.y)) <= (OP_MAX as int) * (OP_MAX as int) / (SCALE as int),
        absi(fxmul(a.y, b.x)) <= (OP_MAX as int) * (OP_MAX as int) / (SCALE as int),
        (OP_MAX as int) * (OP_MAX as int) / (SCALE as int) < i64::MAX as int / 4,
{
    lemma_fxmul_abs_le(a.x, b.x, OP_MAX as int, OP_MAX as int);
    lemma_fxmul_abs_le(a.y, b.y, OP_MAX as int, OP_MAX as int);
    lemma_fxmul_abs_le(a.z, b.z, OP_MAX as int, OP_MAX as int);
    lemma_fxmul_abs_le(a.y, b.z, OP_MAX as int, OP_MAX as int);
    lemma_fxmul_abs_le(a.z, b.y, OP_MAX as int, OP_MAX as int);
    lemma_fxmul_abs_le(a.z, b.x, OP_MAX as int, OP_MAX as int);
    lemma_fxmul_abs_le(a.x, b.z, OP_MAX as int, OP_MAX as int);
    lemma_fxmul_abs_le(a.x, b.y, OP_MAX as int, OP_MAX as int);
    lemma_fxmul_abs_le(a.y, b.x, OP_MAX as int, OP_MAX as int);
}

/// Scaling with operands below `OP_MAX` fits in an `i64`.
proof fn lemma_scale_fits(k: int, a: V3)
    requires
        absi(k) <= OP_MAX as int,
        bounded(a, OP_MAX as int),
    ensures
        absi(fxmul(k, a.x)) <= absi(k) * (OP_MAX as int) / (SCALE as int),
        absi(fxmul(k, a.y)) <= absi(k) * (OP_MAX as int) / (SCALE as int),
        absi(fxmul(k, a.z)) <= absi(k) * (OP_MAX as int) / (SCALE as int),
        absi(k) * (OP_MAX as int) / (SCALE as int) <= (OP_MAX as int) * (OP_MAX as int) / (SCALE as int),
        (OP_MAX as int) * (OP_MAX as int) / (SCALE as int) < i64::MAX as int / 4,
{
    lemma_fxmul_abs_le(k, a.x, absi(k), OP_MAX as int);
    lemma_fxmul_abs_le(k, a.y, absi(k), OP_MAX as int);
    lemma_fxmul_abs_le(k, a.z, absi(k), OP_MAX as int);
    lemma_abs_mul_le(absi(k), OP_MAX as int, OP_MAX as int, OP_MAX as int);
    vstd::arithmetic::div_mod::lemma_div_is_ordered(
        absi(k) * (OP_MAX as int),
        (OP_MAX as int) * (OP_MAX as int),
        SCALE as int,
    );
    assert(absi(k) * (OP_MAX as int) <= (OP_MAX as int) * (OP_MAX as int)) by (nonlinear_arith)
        requires
            0 <= absi(k) <= OP_MAX as int,
    ;
}

/// The sum of squares of a bounded vector is small.
proof fn lemma_norm_sq_bound(a: V3)
    requires
        bounded(a, NORM_MAX as int),
    ensures
        0 <= norm_sq_raw(a),
        norm_sq_raw(a) <= 3 * (NORM_MAX as int) * (NORM_MAX as int),
        3 * (NORM_MAX as int) * (NORM_MAX as int) < SQRT_ARG_MAX as int,
{
    lemma_mul_signs(a.x, a.x);
    lemma_mul_signs(a.y, a.y);
    lemma_mul_signs(a.z, a.z);
    lemma_abs_mul_le(a.x, a.x, NORM_MAX as int, NORM_MAX as int);
    lemma_abs_mul_le(a.y, a.y, NORM_MAX as int, NORM_MAX as int);
    lemma_abs_mul_le(a.z, a.z, NORM_MAX as int, NORM_MAX as int);
}

/// A nonzero vector has positive magnitude.
pub proof fn lemma_mag_positive(a: V3)
    requires
        !is_zero(a),
    ensures
        vmag(a) >= 1,
{
    lemma_mul_signs(a.x, a.x);
    lemma_mul_signs(a.y, a.y);
    lemma_mul_signs(a.z, a.z);
    assert(a.x != 0 ==> a.x * a.x >= 1) by (nonlinear_arith);
    assert(a.y != 0 ==> a.y * a.y >= 1) by (nonlinear_arith);
    assert(a.z != 0 ==> a.z * a.z >= 1) by (nonlinear_arith);
    lemma_sqrt_floor_unique(1, 1);
    lemma_sqrt_floor_mono(1, norm_sq_raw(a));
}

/// Each component of a vector is bounded by the vector's magnitude, so
/// the components of the normalization are at most `SCALE` in magnitude.
pub proof fn lemma_norm_component_bound(a: V3)
    requires
        bounded(a, NORM_MAX as int),
        !is_zero(a),
    ensures
        absi(vnorm(a).x) <= SCALE as int,
        absi(vnorm(a).y) <= SCALE as int,
        absi(vnorm(a).z) <= SCALE as int,
        absi(a.x) <= vmag(a),
        absi(a.y) <= vmag(a),
        absi(a.z) <= vmag(a),
{
    lemma_mag_positive(a);
    lemma_mul_signs(a.x, a.x);
    lemma_mul_signs(a.y, a.y);
    lemma_mul_signs(a.z, a.z);
    let m = vmag(a);
    lemma_norm_sq_bound(a);
    lemma_component_le_mag(a.x, norm_sq_raw(a));
    lemma_component_le_mag(a.y, norm_sq_raw(a));
    lemma_component_le_mag(a.z, norm_sq_raw(a));
    lemma_norm_div_bound(a.x, m);
    lemma_norm_div_bound(a.y, m);
    lemma_norm_div_bound(a.z, m);
}

/// If `c * c <= s`, the component `c` is at most `sqrt_floor(s)`.
proof fn lemma_component_le_mag(c: int, s: int)
    requires
        c * c <= s,
        s >= 0,
    ensures
        absi(c) <= sqrt_floor(s),
{
    lemma_sqrt_floor_bounds(s);
    lemma_abs_mul(c, c);
    lemma_mul_signs(c, c);
    let r = sqrt_floor(s);
    if absi(c) > r {
        assert((r + 1) * (r + 1) <= absi(c) * absi(c)) by (nonlinear_arith)
            requires
                0 <= r,
                r + 1 <= absi(c),
        ;
    }
}

/// Dividing a component by a magnitude at least as large keeps the
/// result within one unit of scale.
proof fn lemma_norm_div_bound(c: int, m: int)
    requires
        m >= 1,
        absi(c) <= m,
    ensures
        absi(tdiv(c * SCALE, m)) <= SCALE as int,
{
    lemma_abs_mul(c, SCALE as int);
    lemma_abs_mul_le(c, SCALE as int, m, SCALE as int);
    lemma_tdiv_abs_le(c * SCALE, m, m * (SCALE as int));
    assert(m * (SCALE as int) / m == SCALE as int) by (nonlinear_arith)
        requires
            m >= 1,
    ;
}

} // verus!
