//! Infinite planes through the placed object's position.

use vstd::prelude::*;
use crate::fx::{fxdiv, SCALE, fx_div, lemma_abs_mul_le};
use crate::ray::{ray_at, ray_wf, Ray, RayV};
use crate::vec3::{bounded, vdot, vsub, Vec3, V3, COORD_MAX, OP_MAX, lemma_vdot_bound};

verus! {

/// A plane with the given (not necessarily unit) surface normal.
#[derive(Clone, Copy, Debug)]
pub struct Plane {
    pub snorm: Vec3,
}

/// The stored normal is representable.
pub open spec fn plane_wf(p: Plane) -> bool {
    bounded(p.snorm@, COORD_MAX as int)
}

/// Where a ray meets a plane: `t = (pos - origin) . n / (dir . n)`,
/// a hit only when `t` exceeds the tolerance and yields a representable
/// point.  A ray parallel to the plane (zero denominator) misses.
pub open spec fn plane_hit(snorm: V3, pos: V3, r: RayV, tol: int) -> Option<V3> {
    let den = vdot(r.dir, snorm);
    if den == 0 {
        None
    } else {
        let t = fxdiv(vdot(vsub(pos, r.pt), snorm), den);
        if t > tol && t <= OP_MAX as int && bounded(ray_at(r, t), COORD_MAX as int) {
            Some(ray_at(r, t))
        } else {
            None
        }
    }
}

impl Plane {
    /// Build a plane with the given surface normal.
    pub fn new(snorm: Vec3) -> (r: Plane)
        ensures
            r.snorm == snorm,
    {
        Plane { snorm }
    }

    /// Closest intersection of `ray` with the plane through `pos`.
    pub fn intersection_point(&self, pos: &Vec3, ray: &Ray, tolerance: i64) -> (r: Option<Vec3>)
        requires
            plane_wf(*self),
            bounded(pos@, COORD_MAX as int),
            ray_wf(ray@),
            0 <= tolerance,
        ensures
            match r {
                Some(p) => plane_hit(self.snorm@, pos@, ray@, tolerance as int) == Some(p@)
                    && bounded(p@, COORD_MAX as int),
                None => plane_hit(self.snorm@, pos@, ray@, tolerance as int) is None,
            },
    {
        proof {
            lemma_vdot_bound(ray@.dir, self.snorm@, SCALE as int, COORD_MAX as int);
        }
        let den: i64 = ray.dir().dot(&self.snorm);
        if den == 0 {
            return None;
        }
        let w: Vec3 = pos.sub(&ray.pos());
        proof {
            lemma_vdot_bound(w@, self.snorm@, 2 * COORD_MAX as int, COORD_MAX as int);
        }
        let num: i64 = w.dot(&self.snorm);
        proof {
            lemma_abs_mul_le(num as int, SCALE as int, 0x600000000000, SCALE as int);
            crate::fx::lemma_tdiv_abs_any((num as int) * (SCALE as int), den as int);
        }
        let t: i64 = fx_div(num, den);
        if t > tolerance && t <= OP_MAX {
            let p: Vec3 = ray.at(t);
            if p.in_range(COORD_MAX) {
                return Some(p);
            }
        }
        None
    }

    /// The plane's normal is constant.
    pub fn surface_normal(&self, _pos: &Vec3, _pt: &Vec3) -> (r: Vec3)
        ensures
            r == self.snorm,
    {
        self.snorm
    }
}

} // verus!
