//! Rays: an origin point and a direction, renormalized on construction.

use vstd::prelude::*;
use crate::fx::{absi, tdiv, SCALE, lemma_fxmul_abs_le};
use crate::vec3::{
    bounded, is_zero, norm_sq_raw, vadd, vmag, vnorm, vscale, Vec3, V3,
    COORD_MAX, NORM_MAX, OP_MAX, lemma_mag_positive};

verus! {

/// Mathematical view of a ray.
pub struct RayV {
    pub pt: V3,
    pub dir: V3,
}

/// A ray: origin plus a direction that was normalized on construction.
#[derive(Clone, Copy, Debug)]
pub struct Ray {
    pt: Vec3,
    dir: Vec3,
}

impl View for Ray {
    type V = RayV;

    closed spec fn view(&self) -> RayV {
        RayV { pt: self.pt@, dir: self.dir@ }
    }
}

/// Well-formedness: the origin is a representable point and the direction
/// is a nonzero normalized vector.
pub open spec fn ray_wf(r: RayV) -> bool {
    &&& bounded(r.pt, COORD_MAX as int)
    &&& bounded(r.dir, SCALE as int)
    &&& !is_zero(r.dir)
}

/// The point at parameter `t` along `r`.
pub open spec fn ray_at(r: RayV, t: int) -> V3 {
    vadd(r.pt, vscale(t, r.dir))
}

/// The normalization of a nonzero vector is itself nonzero: its largest
/// component keeps magnitude at least `SCALE / 2`.
pub proof fn lemma_vnorm_nonzero(a: V3)
    requires
        bounded(a, NORM_MAX as int),
        !is_zero(a),
    ensures
        !is_zero(vnorm(a)),
{
    lemma_mag_positive(a);
    let m = vmag(a);
    let mx = if absi(a.x) >= absi(a.y) && absi(a.x) >= absi(a.z) {
        absi(a.x)
    } else if absi(a.y) >= absi(a.z) {
        absi(a.y)
    } else {
        absi(a.z)
    };
    assert(mx >= 1);
    crate::fx::lemma_abs_mul(a.x, a.x);
    crate::fx::lemma_abs_mul(a.y, a.y);
    crate::fx::lemma_abs_mul(a.z, a.z);
    crate::fx::lemma_mul_signs(a.x, a.x);
    crate::fx::lemma_mul_signs(a.y, a.y);
    crate::fx::lemma_mul_signs(a.z, a.z);
    assert(norm_sq_raw(a) <= (2 * mx) * (2 * mx)) by (nonlinear_arith)
        requires
            absi(a.x) <= mx,
            absi(a.y) <= mx,
            absi(a.z) <= mx,
            absi(a.x) * absi(a.x) == a.x * a.x,
            absi(a.y) * absi(a.y) == a.y * a.y,
            absi(a.z) * absi(a.z) == a.z * a.z,
    ;
    crate::fx::lemma_mul_signs(2 * mx, 2 * mx);
    crate::fx::lemma_sqrt_floor_square(2 * mx);
    crate::fx::lemma_sqrt_floor_mono(norm_sq_raw(a), (2 * mx) * (2 * mx));
    assert(m <= 2 * mx);
    let c = if absi(a.x) == mx {
        a.x
    } else if absi(a.y) == mx {
        a.y
    } else {
        a.z
    };
    assert(absi(c) == mx);
    crate::fx::lemma_abs_mul(c, SCALE as int);
    vstd::arithmetic::div_mod::lemma_div_is_ordered_by_denominator(mx * (SCALE as int), m, 2 * mx);
    assert(mx * (SCALE as int) == (SCALE as int / 2) * (2 * mx));
    vstd::arithmetic::div_mod::lemma_div_by_multiple(SCALE as int / 2, 2 * mx);
    assert(absi(tdiv(c * SCALE, m)) >= SCALE as int / 2);
}

impl Ray {
    /// Build a ray; the direction is normalized.
    pub fn new(pt: Vec3, dir: Vec3) -> (r: Ray)
        requires
            bounded(pt@, COORD_MAX as int),
            bounded(dir@, NORM_MAX as int),
            !is_zero(dir@),
        ensures
            r@.pt == pt@,
            r@.dir == vnorm(dir@),
            ray_wf(r@),
    {
        proof {
            lemma_vnorm_nonzero(dir@);
        }
        Ray { pt, dir: dir.normalize() }
    }

    /// The point at parameter `t`; negative parameters are rejected.
    pub fn at(&self, t: i64) -> (r: Vec3)
        requires
            ray_wf(self@),
            0 <= t <= OP_MAX,
        ensures
            r@ == ray_at(self@, t as int),
            bounded(r@, COORD_MAX as int + t as int),
    {
        proof {
            lemma_fxmul_abs_le(t as int, self@.dir.x, t as int, SCALE as int);
            lemma_fxmul_abs_le(t as int, self@.dir.y, t as int, SCALE as int);
            lemma_fxmul_abs_le(t as int, self@.dir.z, t as int, SCALE as int);
            vstd::arithmetic::div_mod::lemma_div_by_multiple(t as int, SCALE as int);
        }
        let d: Vec3 = self.dir.scale(t);
        self.pt.add(&d)
    }

    /// The ray's origin.
    pub fn pos(&self) -> (r: Vec3)
        ensures
            r@ == self@.pt,
    {
        self.pt
    }

    /// The ray's (normalized) direction.
    pub fn dir(&self) -> (r: Vec3)
        ensures
            r@ == self@.dir,
    {
        self.dir
    }
}

} // verus!
