//! The closed set of geometry variants and their common capability:
//! intersection testing and surface normals, dispatched by matching.

use vstd::prelude::*;
use crate::fx::{fxdiv, SCALE, fx_div, lemma_abs_mul_le, lemma_tdiv_abs_any};
use crate::mesh::{mesh_hit, mesh_normal, mesh_wf, Mesh};
use crate::plane::{plane_hit, plane_wf, Plane};
use crate::ray::{ray_at, ray_wf, Ray, RayV};
use crate::sphere::{sphere_hit, sphere_normal, sphere_wf, Sphere};
use crate::triangle::{tri_hit, tri_wf, Triangle};
use crate::vec3::{bounded, Vec3, V3, COORD_MAX, OP_MAX};

verus! {

/// The infinite horizontal ground plane (a legacy variant kept alongside
/// the general `Plane`).
#[derive(Clone, Copy, Debug)]
pub struct Ground {}

/// Where a ray meets the ground plane through `pos`: solve for the
/// parameter at which the ray's `y` reaches `pos.y`.  A horizontal ray
/// misses.
pub open spec fn ground_hit(pos: V3, r: RayV, tol: int) -> Option<V3> {
    if r.dir.y == 0 {
        None
    } else {
        let t = fxdiv(pos.y - r.pt.y, r.dir.y);
        if t > tol && t <= OP_MAX as int && bounded(ray_at(r, t), COORD_MAX as int) {
            Some(ray_at(r, t))
        } else {
            None
        }
    }
}

impl Ground {
    /// Build the ground plane.
    pub fn new() -> (r: Ground)
        ensures
            r == (Ground {}),
    {
        Ground {}
    }

    /// Closest intersection of `ray` with the ground plane through `pos`.
    pub fn intersection_point(&self, pos: &Vec3, ray: &Ray, tolerance: i64) -> (r: Option<Vec3>)
        requires
            bounded(pos@, COORD_MAX as int),
            ray_wf(ray@),
            0 <= tolerance,
        ensures
            match r {
                Some(p) => ground_hit(pos@, ray@, tolerance as int) == Some(p@)
                    && bounded(p@, COORD_MAX as int),
                None => ground_hit(pos@, ray@, tolerance as int) is None,
            },
    {
        let dy: i64 = ray.dir().y;
        if dy == 0 {
            return None;
        }
        let num: i64 = pos.y - ray.pos().y;
        proof {
            lemma_abs_mul_le(num as int, SCALE as int, 2 * COORD_MAX as int, SCALE as int);
            lemma_tdiv_abs_any((num as int) * (SCALE as int), dy as int);
        }
        let t: i64 = fx_div(num, dy);
        if t > tolerance && t <= OP_MAX {
            let p: Vec3 = ray.at(t);
            if p.in_range(COORD_MAX) {
                return Some(p);
            }
        }
        None
    }

    /// The ground's normal points straight up.
    pub fn surface_normal(&self, _pos: &Vec3, _pt: &Vec3) -> (r: Vec3)
        ensures
            r@ == (V3 { x: 0, y: SCALE as int, z: 0 }),
    {
        Vec3::new(0, SCALE, 0)
    }
}

/// The closed set of geometry variants.
#[derive(Debug)]
pub enum Geometry {
    Sphere(Sphere),
    Plane(Plane),
    Ground(Ground),
    Triangle(Triangle),
    Mesh(Mesh),
}

/// Well-formedness of a geometry value.
pub open spec fn geom_wf(g: Geometry) -> bool {
    match g {
        Geometry::Sphere(s) => sphere_wf(s),
        Geometry::Plane(p) => plane_wf(p),
        Geometry::Ground(_) => true,
        Geometry::Triangle(t) => tri_wf(t@),
        Geometry::Mesh(m) => mesh_wf(m@),
    }
}

/// A geometry can report a surface normal (a mesh must be nonempty).
pub open spec fn geom_normal_pre(g: Geometry) -> bool {
    match g {
        Geometry::Mesh(m) => m@.len() > 0,
        _ => true,
    }
}

/// Where a ray meets a geometry placed at `pos`.
pub open spec fn geom_hit(g: Geometry, pos: V3, r: RayV, tol: int) -> Option<V3> {
    match g {
        Geometry::Sphere(s) => sphere_hit(s.radius as int, pos, r, tol),
        Geometry::Plane(p) => plane_hit(p.snorm@, pos, r, tol),
        Geometry::Ground(_) => ground_hit(pos, r, tol),
        Geometry::Triangle(t) => tri_hit(t@, pos, r, tol),
        Geometry::Mesh(m) => mesh_hit(m@, pos, r, tol),
    }
}

/// The surface normal of a geometry placed at `pos`, at the point `pt`.
pub open spec fn geom_normal(g: Geometry, pos: V3, pt: V3) -> V3 {
    match g {
        Geometry::Sphere(_) => sphere_normal(pos, pt),
        Geometry::Plane(p) => p.snorm@,
        Geometry::Ground(_) => V3 { x: 0, y: SCALE as int, z: 0 },
        Geometry::Triangle(t) => t@.snorm,
        Geometry::Mesh(m) => mesh_normal(m@, pos, pt),
    }
}

impl Geometry {
    /// Closest intersection point of `ray` with this geometry placed at
    /// `pos`, if any point beyond the tolerance is hit.
    pub fn intersection_point(&self, pos: &Vec3, ray: &Ray, tolerance: i64) -> (r: Option<Vec3>)
        requires
            geom_wf(*self),
            bounded(pos@, COORD_MAX as int),
            ray_wf(ray@),
            0 <= tolerance,
        ensures
            match r {
                Some(p) => geom_hit(*self, pos@, ray@, tolerance as int) == Some(p@)
                    && bounded(p@, COORD_MAX as int),
                None => geom_hit(*self, pos@, ray@, tolerance as int) is None,
            },
    {
        match self {
            Geometry::Sphere(s) => s.intersection_point(pos, ray, tolerance),
            Geometry::Plane(p) => p.intersection_point(pos, ray, tolerance),
            Geometry::Ground(g) => g.intersection_point(pos, ray, tolerance),
            Geometry::Triangle(t) => t.intersection_point(pos, ray, tolerance),
            Geometry::Mesh(m) => m.intersection_point(pos, ray, tolerance),
        }
    }

    /// The surface normal at `pt`, bounded componentwise by the
    /// coordinate range.
    pub fn surface_normal(&self, pos: &Vec3, pt: &Vec3) -> (r: Vec3)
        requires
            geom_wf(*self),
            geom_normal_pre(*self),
            bounded(pos@, COORD_MAX as int),
            bounded(pt@, COORD_MAX as int),
        ensures
            r@ == geom_normal(*self, pos@, pt@),
            bounded(r@, COORD_MAX as int),
    {
        match self {
            Geometry::Sphere(s) => s.surface_normal(pos, pt),
            Geometry::Plane(p) => p.surface_normal(pos, pt),
            Geometry::Ground(g) => g.surface_normal(pos, pt),
            Geometry::Triangle(t) => t.surface_normal(pos, pt),
            Geometry::Mesh(m) => m.surface_normal(pos, pt),
        }
    }
}

} // verus!
