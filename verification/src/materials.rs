//! The closed set of material variants and their bounce rules.

use vstd::prelude::*;
use crate::color::{color_le, Color};
use crate::fx::{SCALE, lemma_abs_mul_le};
use crate::objects::{geom_normal, geom_normal_pre, geom_wf, Geometry};
use crate::ray::{ray_wf, Ray, RayV};
use crate::rng::rand_unit;
use crate::vec3::{
    bounded, is_zero, vadd, vdot, vmag, vneg, vnorm, vscale, vsub, Vec3, V3, COORD_MAX, lemma_vdot_bound, lemma_vscale_bound,
};

verus! {

/// Configuration errors raised by material constructors.
#[derive(Clone, Copy, Debug, PartialEq, Eq, Structural)]
pub enum MaterialError {
    /// The reflectance lies outside the open interval (0, 1).
    InvalidReflectance,
}

/// A unit-ball sample: the normalization of some nonzero vector drawn
/// from the cube `[-1, 1]^3` whose magnitude is at most one.
pub open spec fn unit_sample(u: V3) -> bool {
    exists|w: V3|
        bounded(w, SCALE as int) && !is_zero(w) && vmag(w) <= SCALE as int && u == vnorm(w)
}

/// The mirror reflection of `d` about the normal `n`; if it degenerates
/// to the zero vector, the reversed incoming direction stands in.
pub open spec fn specular_dir(n: V3, d: V3) -> V3 {
    let m = vsub(d, vscale(2 * vdot(n, d), n));
    if is_zero(m) {
        vneg(d)
    } else {
        m
    }
}

/// The scatter direction of a diffuse bounce for the unit sample `u`:
/// the surface normal plus `u`, or `u` alone if the sum degenerates to
/// zero.
pub open spec fn diffuse_dir(n: V3, u: V3) -> V3 {
    let s = vadd(n, u);
    if is_zero(s) {
        u
    } else {
        s
    }
}

/// What a material's bounce may return for an incoming ray `rv` hitting
/// geometry `g` (placed at `pos`) at `hit`.
pub open spec fn bounce_rel(m: Material, g: Geometry, pos: V3, rv: RayV, hit: V3, out: RayV) -> bool {
    match m {
        Material::Opaque(_) => out == rv,
        Material::Specular(_) => {
            &&& out.pt == hit
            &&& out.dir == vnorm(specular_dir(geom_normal(g, pos, hit), rv.dir))
        },
        Material::Diffuse(_) => exists|u: V3|
            unit_sample(u) && out.pt == hit && out.dir == vnorm(
                diffuse_dir(geom_normal(g, pos, hit), u),
            ),
    }
}

/// An always-absorbing material: zero reflectance, bounce is identity.
#[derive(Clone, Copy, Debug)]
pub struct Opaque {
    pub color: Color,
}

/// A matte material scattering around the surface normal.
#[derive(Clone, Copy, Debug)]
pub struct Diffuse {
    pub color: Color,
    pub reflectance: i64,
}

/// A mirror material.
#[derive(Clone, Copy, Debug)]
pub struct Specular {
    pub color: Color,
    pub reflectance: i64,
}

/// The closed set of material variants.
#[derive(Clone, Copy, Debug)]
pub enum Material {
    Opaque(Opaque),
    Diffuse(Diffuse),
    Specular(Specular),
}

/// Colors are 8-bit; reflectances of the blended variants lie strictly
/// inside (0, 1).
pub open spec fn mat_wf(m: Material) -> bool {
    match m {
        Material::Opaque(o) => color_le(o.color, 255),
        Material::Diffuse(d) => color_le(d.color, 255) && 0 < d.reflectance < SCALE,
        Material::Specular(s) => color_le(s.color, 255) && 0 < s.reflectance < SCALE,
    }
}

/// The material's own color.
pub open spec fn mat_color(m: Material) -> Color {
    match m {
        Material::Opaque(o) => o.color,
        Material::Diffuse(d) => d.color,
        Material::Specular(s) => s.color,
    }
}

/// The material's reflectance (zero for opaque).
pub open spec fn mat_refl(m: Material) -> int {
    match m {
        Material::Opaque(_) => 0,
        Material::Diffuse(d) => d.reflectance as int,
        Material::Specular(s) => s.reflectance as int,
    }
}

/// One sample from the unit ball, normalized: draw from the cube until
/// the magnitude is at most one (bounded retries; a fixed unit vector
/// stands in if every draw is rejected).
pub fn random_unit_vector() -> (r: Vec3)
    ensures
        unit_sample(r@),
        bounded(r@, SCALE as int),
        !is_zero(r@),
{
    let mut k: u32 = 0;
    while k < 64
        invariant
            k <= 64,
        decreases 64 - k,
    {
        let x: i64 = rand_unit();
        let y: i64 = rand_unit();
        let z: i64 = rand_unit();
        proof {
            lemma_abs_mul_le(x as int, x as int, SCALE as int, SCALE as int);
            lemma_abs_mul_le(y as int, y as int, SCALE as int, SCALE as int);
            lemma_abs_mul_le(z as int, z as int, SCALE as int, SCALE as int);
            crate::fx::lemma_mul_signs(x as int, x as int);
            crate::fx::lemma_mul_signs(y as int, y as int);
            crate::fx::lemma_mul_signs(z as int, z as int);
        }
        let ns: i64 = x * x + y * y + z * z;
        if ns <= SCALE * SCALE && !(x == 0 && y == 0 && z == 0) {
            let v: Vec3 = Vec3::new(x, y, z);
            proof {
                crate::fx::lemma_sqrt_floor_square(SCALE as int);
                crate::fx::lemma_sqrt_floor_mono(
                    crate::vec3::norm_sq_raw(v@),
                    (SCALE as int) * (SCALE as int),
                );
                crate::vec3::lemma_norm_component_bound(v@);
                crate::ray::lemma_vnorm_nonzero(v@);
            }
            let u: Vec3 = v.normalize();
            proof {
                assert(unit_sample(u@)) by {
                    assert(bounded(v@, SCALE as int) && !is_zero(v@) && vmag(v@) <= SCALE as int
                        && u@ == vnorm(v@));
                }
            }
            return u;
        }
        k = k + 1;
    }
    let f: Vec3 = Vec3::new(SCALE, 0, 0);
    proof {
        let w = V3 { x: SCALE as int, y: 0, z: 0 };
        crate::fx::lemma_sqrt_floor_square(SCALE as int);
        assert(vmag(w) == SCALE as int);
        vstd::arithmetic::div_mod::lemma_div_by_multiple(SCALE as int, SCALE as int);
        assert(vnorm(w).x == SCALE as int);
        assert(vnorm(w).y == 0);
        assert(vnorm(w).z == 0);
        assert(unit_sample(f@)) by {
            assert(bounded(w, SCALE as int) && !is_zero(w) && vmag(w) <= SCALE as int
                && f@ == vnorm(w));
        }
    }
    f
}

impl Opaque {
    /// Build an opaque material with the given color.
    pub fn new(color: Color) -> (r: Opaque)
        requires
            color_le(color, 255),
        ensures
            r.color == color,
    {
        Opaque { color }
    }

    /// The material's own color.
    pub fn color(&self) -> (r: Color)
        ensures
            r == self.color,
    {
        self.color
    }

    /// Opaque surfaces reflect nothing.
    pub fn reflectance(&self) -> (r: i64)
        ensures
            r == 0,
    {
        0
    }

    /// An opaque bounce returns the incoming ray unchanged.
    pub fn bounce(&self, ray: &Ray, _obj: &Geometry, _pos: &Vec3, _intersection: &Vec3) -> (r: Ray)
        ensures
            r == *ray,
    {
        *ray
    }
}

impl Diffuse {
    /// Build a diffuse material; the reflectance must lie strictly
    /// inside (0, 1).
    pub fn new(color: Color, reflectance: i64) -> (r: Result<Diffuse, MaterialError>)
        requires
            color_le(color, 255),
        ensures
            0 < reflectance < SCALE <==> r is Ok,
            r matches Ok(d) ==> d.color == color && d.reflectance == reflectance,
            r matches Err(e) ==> e == MaterialError::InvalidReflectance,
    {
        if reflectance <= 0 || SCALE <= reflectance {
            Err(MaterialError::InvalidReflectance)
        } else {
            Ok(Diffuse { color, reflectance })
        }
    }

    /// The material's own color.
    pub fn color(&self) -> (r: Color)
        ensures
            r == self.color,
    {
        self.color
    }

    /// The material's reflectance.
    pub fn reflectance(&self) -> (r: i64)
        ensures
            r == self.reflectance,
    {
        self.reflectance
    }

    /// A diffuse bounce scatters from the hit point in a direction
    /// biased around the surface normal.
    pub fn bounce(&self, _ray: &Ray, obj: &Geometry, pos: &Vec3, intersection: &Vec3) -> (r: Ray)
        requires
            geom_wf(*obj),
            geom_normal_pre(*obj),
            bounded(pos@, COORD_MAX as int),
            bounded(intersection@, COORD_MAX as int),
        ensures
            ray_wf(r@),
            r@.pt == intersection@,
            exists|u: V3|
                unit_sample(u) && r@.dir == vnorm(
                    diffuse_dir(geom_normal(*obj, pos@, intersection@), u),
                ),
    {
        let n: Vec3 = obj.surface_normal(pos, intersection);
        let u: Vec3 = random_unit_vector();
        let s: Vec3 = n.add(&u);
        let d: Vec3 = if s.x == 0 && s.y == 0 && s.z == 0 {
            u
        } else {
            s
        };
        let r: Ray = Ray::new(*intersection, d);
        proof {
            let uv = u@;
            assert(unit_sample(uv) && r@.dir == vnorm(
                diffuse_dir(geom_normal(*obj, pos@, intersection@), uv),
            ));
        }
        r
    }
}

impl Specular {
    /// Build a specular material; the reflectance must lie strictly
    /// inside (0, 1).
    pub fn new(color: Color, reflectance: i64) -> (r: Result<Specular, MaterialError>)
        requires
            color_le(color, 255),
        ensures
            0 < reflectance < SCALE <==> r is Ok,
            r matches Ok(s) ==> s.color == color && s.reflectance == reflectance,
            r matches Err(e) ==> e == MaterialError::InvalidReflectance,
    {
        if reflectance <= 0 || SCALE <= reflectance {
            Err(MaterialError::InvalidReflectance)
        } else {
            Ok(Specular { color, reflectance })
        }
    }

    /// The material's own color.
    pub fn color(&self) -> (r: Color)
        ensures
            r == self.color,
    {
        self.color
    }

    /// The material's reflectance.
    pub fn reflectance(&self) -> (r: i64)
        ensures
            r == self.reflectance,
    {
        self.reflectance
    }

    /// A specular bounce reflects the incoming direction about the
    /// surface normal.
    pub fn bounce(&self, ray: &Ray, obj: &Geometry, pos: &Vec3, intersection: &Vec3) -> (r: Ray)
        requires
            geom_wf(*obj),
            geom_normal_pre(*obj),
            ray_wf(ray@),
            bounded(pos@, COORD_MAX as int),
            bounded(intersection@, COORD_MAX as int),
        ensures
            ray_wf(r@),
            r@.pt == intersection@,
            r@.dir == vnorm(specular_dir(geom_normal(*obj, pos@, intersection@), ray@.dir)),
    {
        let n: Vec3 = obj.surface_normal(pos, intersection);
        let d: Vec3 = ray.dir();
        proof {
            lemma_vdot_bound(n@, d@, COORD_MAX as int, SCALE as int);
        }
        let k: i64 = n.dot(&d);
        proof {
            lemma_vscale_bound(2 * k as int, n@, 0x180000001, COORD_MAX as int);
        }
        let m: Vec3 = d.sub(&n.scale(2 * k));
        let dir: Vec3 = if m.x == 0 && m.y == 0 && m.z == 0 {
            d.neg()
        } else {
            m
        };
        Ray::new(*intersection, dir)
    }
}

impl Material {
    /// The material's own color.
    pub fn color(&self) -> (r: Color)
        ensures
            r == mat_color(*self),
    {
        match self {
            Material::Opaque(o) => o.color(),
            Material::Diffuse(d) => d.color(),
            Material::Specular(s) => s.color(),
        }
    }

    /// The material's reflectance (zero for opaque).
    pub fn reflectance(&self) -> (r: i64)
        ensures
            r == mat_refl(*self),
    {
        match self {
            Material::Opaque(o) => o.reflectance(),
            Material::Diffuse(d) => d.reflectance(),
            Material::Specular(s) => s.reflectance(),
        }
    }

    /// Apply the variant's bounce rule at the hit point.
    pub fn bounce(&self, ray: &Ray, obj: &Geometry, pos: &Vec3, intersection: &Vec3) -> (r: Ray)
        requires
            geom_wf(*obj),
            geom_normal_pre(*obj),
            ray_wf(ray@),
            bounded(pos@, COORD_MAX as int),
            bounded(intersection@, COORD_MAX as int),
        ensures
            ray_wf(r@),
            bounce_rel(*self, *obj, pos@, ray@, intersection@, r@),
    {
        match self {
            Material::Opaque(o) => o.bounce(ray, obj, pos, intersection),
            Material::Diffuse(d) => d.bounce(ray, obj, pos, intersection),
            Material::Specular(s) => s.bounce(ray, obj, pos, intersection),
        }
    }
}

} // verus!
