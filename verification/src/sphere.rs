//! Spheres, centered on the placed object's position.

use vstd::prelude::*;
use crate::fx::{
    absi, fxdiv, fxmul, sqrt_floor, SCALE, fx_div, fx_mul, isqrt_u128, lemma_abs_mul_le,
    lemma_fxmul_abs_le, lemma_sqrt_floor_bounds, lemma_sqrt_floor_mono, lemma_sqrt_floor_square,
    lemma_tdiv_abs,
};
use crate::ray::{ray_at, ray_wf, Ray, RayV};
use crate::vec3::{
    bounded, is_zero, vdot, vnorm, vsub, Vec3, V3, COORD_MAX, OP_MAX, lemma_vdot_bound,
};

verus! {

/// A sphere of the given fixed-point radius.
#[derive(Clone, Copy, Debug)]
pub struct Sphere {
    pub radius: i64,
}

/// The radius is representable.
pub open spec fn sphere_wf(s: Sphere) -> bool {
    absi(s.radius as int) <= COORD_MAX as int
}

/// Where a ray meets a sphere: the quadratic
/// `a t^2 + b t + c = 0` is solved in fixed point, the smaller root is
/// taken, and a hit is reported only when it exceeds the tolerance and
/// yields a representable point.
pub open spec fn sphere_hit(radius: int, center: V3, r: RayV, tol: int) -> Option<V3> {
    let a = vdot(r.dir, r.dir);
    let w = vsub(r.pt, center);
    let b = 2 * vdot(r.dir, w);
    let c = vdot(w, w) - fxmul(radius, radius);
    let d = fxmul(b, b) - 4 * fxmul(a, c);
    if a <= 0 {
        None
    } else if d >= 0 {
        let s = sqrt_floor(d * SCALE);
        let t1 = fxdiv(-b + s, 2 * a);
        let t2 = fxdiv(-b - s, 2 * a);
        let t = if t1 < t2 {
            t1
        } else {
            t2
        };
        if t > tol && t <= OP_MAX as int && bounded(ray_at(r, t), COORD_MAX as int) {
            Some(ray_at(r, t))
        } else {
            None
        }
    } else {
        None
    }
}

/// The outward surface normal of a sphere at a point (zero if the point
/// coincides with the center).
pub open spec fn sphere_normal(center: V3, pt: V3) -> V3 {
    let w = vsub(pt, center);
    if is_zero(w) {
        V3 { x: 0, y: 0, z: 0 }
    } else {
        vnorm(w)
    }
}

impl Sphere {
    /// Build a sphere with the given radius.
    pub fn new(radius: i64) -> (r: Sphere)
        ensures
            r.radius == radius,
    {
        Sphere { radius }
    }

    /// Closest intersection of `ray` with the sphere centered at `pos`,
    /// if any point beyond the tolerance is hit.
    pub fn intersection_point(&self, pos: &Vec3, ray: &Ray, tolerance: i64) -> (r: Option<Vec3>)
        requires
            sphere_wf(*self),
            bounded(pos@, COORD_MAX as int),
            ray_wf(ray@),
            0 <= tolerance,
        ensures
            match r {
                Some(p) => sphere_hit(self.radius as int, pos@, ray@, tolerance as int)
                    == Some(p@) && bounded(p@, COORD_MAX as int),
                None => sphere_hit(self.radius as int, pos@, ray@, tolerance as int)
                    is None,
            },
    {
        let dir: Vec3 = ray.dir();
        let w: Vec3 = ray.pos().sub(pos);
        proof {
            lemma_vdot_bound(dir@, dir@, SCALE as int, SCALE as int);
            lemma_vdot_bound(dir@, w@, SCALE as int, 2 * COORD_MAX as int);
            lemma_vdot_bound(w@, w@, 2 * COORD_MAX as int, 2 * COORD_MAX as int);
            lemma_fxmul_abs_le(
                self.radius as int,
                self.radius as int,
                COORD_MAX as int,
                COORD_MAX as int,
            );
        }
        let a: i64 = dir.dot(&dir);
        if a <= 0 {
            return None;
        }
        let b: i64 = 2 * dir.dot(&w);
        let c: i64 = w.dot(&w) - fx_mul(self.radius, self.radius);
        proof {
            lemma_fxmul_abs_le(b as int, b as int, 0x1800000000, 0x1800000000);
            lemma_fxmul_abs_le(a as int, c as int, 0x30000, 0x4000300000000);
        }
        let d: i64 = fx_mul(b, b) - 4 * fx_mul(a, c);
        if d >= 0 {
            proof {
                assert((d as u128) * 65536u128 < 0x80000000000000000000u128) by (nonlinear_arith)
                    requires
                        d as u128 <= 0x7fffffffffffffffu128,
                ;
                lemma_sqrt_floor_bounds((d as int) * (SCALE as int));
                lemma_sqrt_floor_mono((d as int) * (SCALE as int), 0x10000000000int * 0x10000000000int);
                lemma_sqrt_floor_square(0x10000000000);
            }
            let du: u128 = (d as u128) * (SCALE as u128);
            let s: i64 = isqrt_u128(du) as i64;
            proof {
                lemma_abs_mul_le((-b + s) as int, SCALE as int, 0x20000000000, SCALE as int);
                lemma_abs_mul_le((-b - s) as int, SCALE as int, 0x20000000000, SCALE as int);
                lemma_tdiv_abs(((-b + s) as int) * (SCALE as int), 2 * a as int);
                lemma_tdiv_abs(((-b - s) as int) * (SCALE as int), 2 * a as int);
            }
            let t1: i64 = fx_div(-b + s, 2 * a);
            let t2: i64 = fx_div(-b - s, 2 * a);
            let t: i64 = if t1 < t2 {
                t1
            } else {
                t2
            };
            if t > tolerance && t <= OP_MAX {
                let p: Vec3 = ray.at(t);
                if p.in_range(COORD_MAX) {
                    return Some(p);
                }
            }
            None
        } else {
            None
        }
    }

    /// Outward surface normal at `pt` for the sphere centered at `pos`.
    pub fn surface_normal(&self, pos: &Vec3, pt: &Vec3) -> (r: Vec3)
        requires
            bounded(pos@, COORD_MAX as int),
            bounded(pt@, COORD_MAX as int),
        ensures
            r@ == sphere_normal(pos@, pt@),
            bounded(r@, SCALE as int),
    {
        let w: Vec3 = pt.sub(pos);
        if w.x == 0 && w.y == 0 && w.z == 0 {
            Vec3::zero()
        } else {
            w.normalize()
        }
    }
}

} // verus!
