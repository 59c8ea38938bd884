//! Triangles: three vertices in counter-clockwise winding order with a
//! precomputed face normal.

use vstd::prelude::*;
use crate::fx::{absi, fxdiv, SCALE, fx_div, fx_div_sat, lemma_abs_mul_le, lemma_tdiv_abs_any};
use crate::ray::{ray_at, ray_wf, Ray, RayV};
use crate::vec3::{
    bounded, is_zero, vadd, vcross, vdot, vmag, vnorm, vscale, vsub, Vec3, V3,
    COORD_MAX, OP_MAX, lemma_vcross_bound, lemma_vdot_bound,
    lemma_vscale_bound,
};

verus! {

/// Mathematical view of a triangle.
pub struct TriV {
    pub v1: V3,
    pub v2: V3,
    pub v3: V3,
    pub snorm: V3,
}

/// A triangle; vertices are in the placed object's local frame.
#[derive(Clone, Copy, Debug)]
pub struct Triangle {
    v1: Vec3,
    v2: Vec3,
    v3: Vec3,
    snorm: Vec3,
}

impl View for Triangle {
    type V = TriV;

    closed spec fn view(&self) -> TriV {
        TriV { v1: self.v1@, v2: self.v2@, v3: self.v3@, snorm: self.snorm@ }
    }
}

/// The face normal: the normalized cross product of two edges, or zero
/// when the vertices are collinear (such a triangle is never hit).
pub open spec fn tri_normal(v1: V3, v2: V3, v3: V3) -> V3 {
    let c = vcross(vsub(v1, v2), vsub(v2, v3));
    if is_zero(c) {
        V3 { x: 0, y: 0, z: 0 }
    } else {
        vnorm(c)
    }
}

/// Vertices are representable and the stored normal is the face normal.
pub open spec fn tri_wf(t: TriV) -> bool {
    &&& bounded(t.v1, COORD_MAX as int)
    &&& bounded(t.v2, COORD_MAX as int)
    &&& bounded(t.v3, COORD_MAX as int)
    &&& t.snorm == tri_normal(t.v1, t.v2, t.v3)
    &&& bounded(t.snorm, SCALE as int)
}

/// The signed side of the edge plane through `a` toward `b`, at `p`:
/// positive when `p` lies on the triangle's inner side.
pub open spec fn edge_sign(n: V3, a: V3, b: V3, p: V3) -> int {
    vdot(n, vcross(vsub(b, a), vsub(p, a)))
}

/// All three edge-plane tests pass strictly.
pub open spec fn inside_edges(n: V3, p1: V3, p2: V3, p3: V3, p: V3) -> bool {
    edge_sign(n, p1, p2, p) > 0 && edge_sign(n, p2, p3, p) > 0 && edge_sign(n, p3, p1, p) > 0
}

/// Where a ray meets a triangle placed at `pos`: the plane equation
/// gives the parameter, and the hit must lie strictly inside all three
/// edge planes.  A ray whose direction is exactly orthogonal to the
/// face normal misses.
pub open spec fn tri_hit(t: TriV, pos: V3, r: RayV, tol: int) -> Option<V3> {
    let p1 = vadd(pos, t.v1);
    let p2 = vadd(pos, t.v2);
    let p3 = vadd(pos, t.v3);
    let den = vdot(t.snorm, r.dir);
    if den == 0 {
        None
    } else {
        let d = -vdot(t.snorm, p1);
        let tt = fxdiv(-(vdot(t.snorm, r.pt) + d), den);
        if tt <= tol {
            None
        } else if tt > OP_MAX as int || !bounded(ray_at(r, tt), COORD_MAX as int) {
            None
        } else {
            let p = ray_at(r, tt);
            if inside_edges(t.snorm, p1, p2, p3, p) {
                Some(p)
            } else {
                None
            }
        }
    }
}

/// Clamped distance from a point to the segment `a`-`b`: the distance to
/// an endpoint when the perpendicular foot falls outside the segment,
/// the perpendicular distance otherwise.
pub open spec fn dist_point_line(p: V3, a: V3, b: V3) -> int {
    if vdot(vsub(b, a), vsub(p, a)) <= 0 {
        vmag(vsub(p, a))
    } else if vdot(vsub(p, b), vsub(b, a)) >= 0 {
        vmag(vsub(p, b))
    } else {
        let m = vmag(vsub(b, a));
        if m == 0 {
            vmag(vsub(p, a))
        } else if fxdiv(vmag(vcross(vsub(b, a), vsub(p, a))), m) <= i64::MAX as int {
            fxdiv(vmag(vcross(vsub(b, a), vsub(p, a))), m)
        } else {
            i64::MAX as int
        }
    }
}

/// Distance from a triangle placed at `pos` to a point: the absolute
/// perpendicular distance when the point's plane projection falls inside
/// the triangle, the least distance to the three edge segments otherwise.
pub open spec fn tri_dist(t: TriV, pos: V3, pt: V3) -> int {
    let p1 = vadd(pos, t.v1);
    let p2 = vadd(pos, t.v2);
    let p3 = vadd(pos, t.v3);
    let ptp = vdot(vsub(pt, p1), t.snorm);
    let proj = vsub(pt, vscale(ptp, t.snorm));
    if inside_edges(t.snorm, p1, p2, p3, proj) {
        absi(ptp)
    } else {
        let d1 = dist_point_line(pt, p1, p2);
        let d2 = dist_point_line(pt, p2, p3);
        let d3 = dist_point_line(pt, p3, p1);
        if d1 <= d2 && d1 <= d3 {
            d1
        } else if d2 <= d3 {
            d2
        } else {
            d3
        }
    }
}

/// Signed side of an edge plane (see `edge_sign`).
fn edge_sign_exec(n: &Vec3, a: &Vec3, b: &Vec3, p: &Vec3) -> (r: i64)
    requires
        bounded(n@, SCALE as int),
        bounded(a@, 2 * COORD_MAX as int),
        bounded(b@, 2 * COORD_MAX as int),
        bounded(p@, 0x1000000000),
    ensures
        r == edge_sign(n@, a@, b@, p@),
{
    let e: Vec3 = b.sub(a);
    let w: Vec3 = p.sub(a);
    proof {
        lemma_vcross_bound(e@, w@, 4 * COORD_MAX as int, 0x1100000000);
        crate::fx::lemma_abs_mul_le(n@.x, vcross(e@, w@).x, SCALE as int, 0x22000000000000);
        crate::fx::lemma_abs_mul_le(n@.y, vcross(e@, w@).y, SCALE as int, 0x22000000000000);
        crate::fx::lemma_abs_mul_le(n@.z, vcross(e@, w@).z, SCALE as int, 0x22000000000000);
    }
    let c: Vec3 = e.cross(&w);
    n.dot_wide(&c)
}

impl Triangle {
    /// Build a triangle from its three vertices (counter-clockwise
    /// winding); the face normal is precomputed.
    pub fn new(v1: Vec3, v2: Vec3, v3: Vec3) -> (r: Triangle)
        requires
            bounded(v1@, COORD_MAX as int),
            bounded(v2@, COORD_MAX as int),
            bounded(v3@, COORD_MAX as int),
        ensures
            r@.v1 == v1@,
            r@.v2 == v2@,
            r@.v3 == v3@,
            tri_wf(r@),
    {
        let e1: Vec3 = v1.sub(&v2);
        let e2: Vec3 = v2.sub(&v3);
        proof {
            lemma_vcross_bound(e1@, e2@, 2 * COORD_MAX as int, 2 * COORD_MAX as int);
        }
        let c: Vec3 = e1.cross(&e2);
        let snorm: Vec3 = if c.x == 0 && c.y == 0 && c.z == 0 {
            Vec3::zero()
        } else {
            c.normalize()
        };
        proof {
            if !is_zero(c@) {
                crate::vec3::lemma_norm_component_bound(c@);
            }
        }
        Triangle { v1, v2, v3, snorm }
    }

    /// The three vertices, in order.
    pub fn vertices(&self) -> (r: (Vec3, Vec3, Vec3))
        ensures
            r.0@ == self@.v1,
            r.1@ == self@.v2,
            r.2@ == self@.v3,
    {
        (self.v1, self.v2, self.v3)
    }

    /// The precomputed face normal.
    pub fn snorm(&self) -> (r: Vec3)
        ensures
            r@ == self@.snorm,
    {
        self.snorm
    }

    /// Distance from the placed triangle to `point` (see `tri_dist`).
    pub fn distance_to_point(&self, pos: &Vec3, point: &Vec3) -> (r: i64)
        requires
            tri_wf(self@),
            bounded(pos@, COORD_MAX as int),
            bounded(point@, COORD_MAX as int),
        ensures
            r == tri_dist(self@, pos@, point@),
            r >= 0,
    {
        let p1: Vec3 = pos.add(&self.v1);
        let p2: Vec3 = pos.add(&self.v2);
        let p3: Vec3 = pos.add(&self.v3);
        let w: Vec3 = point.sub(&p1);
        proof {
            lemma_vdot_bound(w@, self@.snorm, 4 * COORD_MAX as int, SCALE as int);
        }
        let ptp: i64 = w.dot(&self.snorm);
        proof {
            lemma_vscale_bound(ptp as int, self@.snorm, 0x300000000, SCALE as int);
        }
        let proj: Vec3 = point.sub(&self.snorm.scale(ptp));
        let inside: bool = edge_sign_exec(&self.snorm, &p1, &p2, &proj) > 0
            && edge_sign_exec(&self.snorm, &p2, &p3, &proj) > 0
            && edge_sign_exec(&self.snorm, &p3, &p1, &proj) > 0;
        if inside {
            if ptp < 0 {
                -ptp
            } else {
                ptp
            }
        } else {
            let d1: i64 = distance_from_point_to_line(point, &p1, &p2);
            let d2: i64 = distance_from_point_to_line(point, &p2, &p3);
            let d3: i64 = distance_from_point_to_line(point, &p3, &p1);
            if d1 <= d2 && d1 <= d3 {
                d1
            } else if d2 <= d3 {
                d2
            } else {
                d3
            }
        }
    }

    /// Closest intersection of `ray` with the triangle placed at `pos`.
    pub fn intersection_point(&self, pos: &Vec3, ray: &Ray, tolerance: i64) -> (r: Option<Vec3>)
        requires
            tri_wf(self@),
            bounded(pos@, COORD_MAX as int),
            ray_wf(ray@),
            0 <= tolerance,
        ensures
            match r {
                Some(p) => tri_hit(self@, pos@, ray@, tolerance as int) == Some(p@)
                    && bounded(p@, COORD_MAX as int),
                None => tri_hit(self@, pos@, ray@, tolerance as int) is None,
            },
    {
        let p1: Vec3 = pos.add(&self.v1);
        let p2: Vec3 = pos.add(&self.v2);
        let p3: Vec3 = pos.add(&self.v3);
        proof {
            lemma_vdot_bound(self@.snorm, ray@.dir, SCALE as int, SCALE as int);
            lemma_vdot_bound(self@.snorm, p1@, SCALE as int, 2 * COORD_MAX as int);
            lemma_vdot_bound(self@.snorm, ray@.pt, SCALE as int, COORD_MAX as int);
        }
        let den: i64 = self.snorm.dot(&ray.dir());
        if den == 0 {
            return None;
        }
        let d: i64 = -self.snorm.dot(&p1);
        let num: i64 = -(self.snorm.dot(&ray.pos()) + d);
        proof {
            lemma_abs_mul_le(num as int, SCALE as int, 0x300000000, SCALE as int);
            lemma_tdiv_abs_any((num as int) * (SCALE as int), den as int);
        }
        let t: i64 = fx_div(num, den);
        if t <= tolerance {
            return None;
        }
        if t > OP_MAX {
            return None;
        }
        let p: Vec3 = ray.at(t);
        if !p.in_range(COORD_MAX) {
            return None;
        }
        let inside: bool = edge_sign_exec(&self.snorm, &p1, &p2, &p) > 0
            && edge_sign_exec(&self.snorm, &p2, &p3, &p) > 0
            && edge_sign_exec(&self.snorm, &p3, &p1, &p) > 0;
        if inside {
            Some(p)
        } else {
            None
        }
    }

    /// The face normal is constant over the triangle.
    pub fn surface_normal(&self, _pos: &Vec3, _pt: &Vec3) -> (r: Vec3)
        ensures
            r@ == self@.snorm,
    {
        self.snorm
    }
}

/// Clamped point-to-segment distance (see `dist_point_line`).
pub fn distance_from_point_to_line(p: &Vec3, a: &Vec3, b: &Vec3) -> (r: i64)
    requires
        bounded(p@, COORD_MAX as int),
        bounded(a@, 2 * COORD_MAX as int),
        bounded(b@, 2 * COORD_MAX as int),
    ensures
        r == dist_point_line(p@, a@, b@),
        r >= 0,
{
    let ba: Vec3 = b.sub(a);
    let pa: Vec3 = p.sub(a);
    let pb: Vec3 = p.sub(b);
    proof {
        lemma_vdot_bound(ba@, pa@, 4 * COORD_MAX as int, 3 * COORD_MAX as int);
        lemma_vdot_bound(pb@, ba@, 3 * COORD_MAX as int, 4 * COORD_MAX as int);
    }
    if ba.dot(&pa) <= 0 {
        return pa.magnitude();
    }
    if pb.dot(&ba) >= 0 {
        return pb.magnitude();
    }
    let m: i64 = ba.magnitude();
    if m == 0 {
        return pa.magnitude();
    }
    proof {
        lemma_vcross_bound(ba@, pa@, 4 * COORD_MAX as int, 3 * COORD_MAX as int);
    }
    let c: Vec3 = ba.cross(&pa);
    let mc: i64 = c.magnitude();
    fx_div_sat(mc, m)
}

} // verus!
