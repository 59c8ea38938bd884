//! The camera: an orthonormal-by-construction frame plus viewport
//! geometry, emitting one jittered, defocused ray per (pixel, sample).

use vstd::prelude::*;
use crate::fx::{
    absi, fxdiv, fxmul, tan_fx_spec, SCALE, div_small, fx_div, fx_mul, tan_fx, lemma_abs_mul_le,
    lemma_fxmul_abs_le, lemma_mul_signs, lemma_tdiv_abs_any, lemma_trig_bounds,
};
use crate::ray::{ray_wf, Ray, RayV, lemma_vnorm_nonzero};
use crate::rng::{rand_half, rand_unit};
use crate::vec3::{
    bounded, is_zero, vadd, vcross, vdot, vmag, vneg, vnorm, vscale, vsub, Vec3, V3, COORD_MAX,
    lemma_norm_component_bound, lemma_vcross_bound,
    lemma_vdot_bound, lemma_vscale_bound,
};

verus! {

/// Geometric errors raised by camera operations.
#[derive(Clone, Copy, Debug, PartialEq, Eq, Structural)]
pub enum CameraError {
    /// A look-at would pass through a configuration with no usable
    /// orientation (antiparallel view change, or a degenerate frame).
    DegenerateOrientation,
}

/// Mathematical view of a camera.
pub struct CamV {
    pub up: V3,
    pub right: V3,
    pub dir: V3,
    pub iwidth: int,
    pub iheight: int,
    pub vheight: int,
    pub vwidth: int,
    pub fdist: int,
    pub defangle: int,
}

/// A camera: frame vectors, image size in pixels, viewport size in
/// world units, focal distance and defocus (aperture) angle.
#[derive(Clone, Copy, Debug)]
pub struct Camera {
    up: Vec3,
    right: Vec3,
    dir: Vec3,
    iwidth: usize,
    iheight: usize,
    vheight: i64,
    vwidth: i64,
    fdist: i64,
    defangle: i64,
}

impl View for Camera {
    type V = CamV;

    closed spec fn view(&self) -> CamV {
        CamV {
            up: self.up@,
            right: self.right@,
            dir: self.dir@,
            iwidth: self.iwidth as int,
            iheight: self.iheight as int,
            vheight: self.vheight as int,
            vwidth: self.vwidth as int,
            fdist: self.fdist as int,
            defangle: self.defangle as int,
        }
    }
}

/// Well-formedness of a camera value: the frame vectors are nonzero
/// normalized vectors (unit up to fixed-point rounding, so each
/// component is at most one), and the intrinsics lie in the model's
/// ranges.
pub open spec fn cam_wf(c: CamV) -> bool {
    &&& bounded(c.up, SCALE as int) && !is_zero(c.up)
    &&& bounded(c.right, SCALE as int) && !is_zero(c.right)
    &&& bounded(c.dir, SCALE as int) && !is_zero(c.dir)
    &&& 1 <= c.iwidth <= 0x100000
    &&& 1 <= c.iheight <= 0x1000000
    &&& 0 <= c.vheight <= COORD_MAX as int
    &&& 0 <= c.vwidth <= COORD_MAX as int
    &&& 0 <= c.fdist <= 0x1000000
    &&& 0 <= c.defangle <= 2 * SCALE as int
}

/// Image height derived from width and aspect ratio, at least one pixel.
pub open spec fn cam_iheight_spec(iwidth: int, aratio: int) -> int {
    let q = fxdiv(iwidth * SCALE, aratio);
    if q < SCALE as int {
        1
    } else {
        q / (SCALE as int)
    }
}

/// Viewport height from vertical field of view and focal distance.
pub open spec fn cam_vheight_spec(vfov: int, fdist: int) -> int {
    fxmul(2 * tan_fx_spec(vfov / 2), fdist)
}

/// Viewport width from height and pixel aspect.
pub open spec fn cam_vwidth_spec(vheight: int, iwidth: int, iheight: int) -> int {
    fxmul(vheight, iwidth * SCALE / iheight)
}

/// The viewport's top-left anchor.
pub open spec fn cam_topleft(c: CamV, pos: V3) -> V3 {
    vsub(
        vadd(vadd(pos, vscale(c.fdist, c.dir)), vscale(c.vheight / 2, c.up)),
        vscale(c.vwidth / 2, c.right),
    )
}

/// The center of pixel (x, y): the anchor shifted down and right, then
/// recentered by half a pixel in both axes.
pub open spec fn cam_center(c: CamV, pos: V3, x: int, y: int) -> V3 {
    let tl = cam_topleft(c, pos);
    let ph = c.vheight / c.iheight;
    let pw = c.vwidth / c.iwidth;
    vadd(
        vadd(
            vadd(vadd(tl, vscale(y * ph, vneg(c.up))), vscale(x * pw, c.right)),
            vscale(ph / 2, vneg(c.up)),
        ),
        vscale(pw / 2, c.right),
    )
}

/// An antialiasing jitter: a fraction of one pixel in `[-1/2, 1/2)`.
pub open spec fn jitter_ok(j: int) -> bool {
    -(SCALE as int) / 2 <= j < SCALE as int / 2
}

/// A rejection-sampled draw from the closed unit disk.
pub open spec fn disk_ok(u: int, v: int) -> bool {
    &&& -(SCALE as int) <= u <= SCALE as int
    &&& -(SCALE as int) <= v <= SCALE as int
    &&& u * u + v * v <= (SCALE as int) * (SCALE as int)
}

/// The sampled point for pixel (x, y) under jitters `j1` (along up) and
/// `j2` (along right).
pub open spec fn cam_sample_pt(c: CamV, pos: V3, x: int, y: int, j1: int, j2: int) -> V3 {
    let ctr = cam_center(c, pos, x, y);
    let ph = c.vheight / c.iheight;
    let pw = c.vwidth / c.iwidth;
    vadd(vadd(ctr, vscale(fxmul(ph, j1), c.up)), vscale(fxmul(pw, j2), c.right))
}

/// Radius of the defocus disk.
pub open spec fn cam_defradius(c: CamV) -> int {
    fxmul(c.fdist, tan_fx_spec(c.defangle / 2))
}

/// The ray origin for a defocus-disk draw (u, v).
pub open spec fn cam_origin(c: CamV, pos: V3, u: int, v: int) -> V3 {
    vadd(pos, vscale(cam_defradius(c), vadd(vscale(u, c.up), vscale(v, c.right))))
}

/// The emitted ray for pixel (x, y) under the given draws.
pub open spec fn cam_ray(c: CamV, pos: V3, x: int, y: int, j1: int, j2: int, u: int, v: int) -> RayV {
    let s = cam_sample_pt(c, pos, x, y, j1, j2);
    let o = cam_origin(c, pos, u, v);
    let d = vsub(s, o);
    let d2 = if is_zero(d) {
        c.dir
    } else {
        d
    };
    RayV { pt: o, dir: vnorm(d2) }
}

/// A ray is an admissible sample for pixel (x, y): it arises from the
/// sampling formula for some jitters and some defocus-disk draw.
pub open spec fn ray_sampled(c: CamV, pos: V3, x: int, y: int, r: RayV) -> bool {
    exists|j1: int, j2: int, u: int, v: int|
        jitter_ok(j1) && jitter_ok(j2) && disk_ok(u, v) && r == cam_ray(c, pos, x, y, j1, j2, u, v)
}

/// One entry of `get_rays` is an admissible sample for its index.
pub open spec fn ray_entry_ok(c: CamV, pos: V3, spp: int, k: int, e: (Ray, usize, usize)) -> bool {
    &&& e.1 as int == (k / spp) / c.iheight
    &&& e.2 as int == (k / spp) % c.iheight
    &&& ray_wf(e.0@)
    &&& ray_sampled(c, pos, e.1 as int, e.2 as int, e.0@)
    &&& (c.defangle == 0 ==> e.0@.pt == pos)
}

/// One application of the rotation with cosine `cosv`, sine `s` and
/// unit axis `kh` to the vector `v` (the Rodrigues formula).
pub open spec fn rot_apply(cosv: int, s: int, kh: V3, v: V3) -> V3 {
    vadd(
        vadd(vscale(cosv, v), vscale(s, vcross(kh, v))),
        vscale(fxmul(vdot(kh, v), SCALE - cosv), kh),
    )
}

/// The rotation that maps direction `a` onto direction `b`, applied to
/// `v`.
pub open spec fn lookat_rot(a: V3, b: V3, v: V3) -> V3 {
    rot_apply(vdot(a, b), vmag(vcross(a, b)), vnorm(vcross(a, b)), v)
}

/// The camera after re-aiming at `target` from `pos`.  A view change to
/// exactly straight up or down rotates the existing frame through the
/// rotation mapping the old view direction onto the new one; otherwise
/// the frame is recomputed directly.  Either way the stored up, right
/// and view vectors are renormalized, so the frame stays a unit frame
/// up to fixed-point rounding.  Degenerate outcomes (antiparallel view
/// change, or a frame vector collapsing to zero) are errors.
pub open spec fn lookat_spec(c: CamV, target: V3, pos: V3) -> Result<CamV, CameraError> {
    let nd = vnorm(vsub(target, pos));
    if absi(nd.y) == SCALE as int {
        let k = vcross(c.dir, nd);
        if is_zero(k) {
            if vdot(c.dir, nd) > 0 {
                Ok(c)
            } else {
                Err(CameraError::DegenerateOrientation)
            }
        } else {
            let d2 = lookat_rot(c.dir, nd, c.dir);
            let r2 = lookat_rot(c.dir, nd, c.right);
            let u2 = lookat_rot(c.dir, nd, c.up);
            if is_zero(d2) || is_zero(r2) || is_zero(u2) {
                Err(CameraError::DegenerateOrientation)
            } else {
                Ok(
                    CamV {
                        up: vnorm(u2),
                        right: vnorm(r2),
                        dir: vnorm(d2),
                        ..c
                    },
                )
            }
        }
    } else {
        let right0 = vcross(nd, V3 { x: 0, y: SCALE as int, z: 0 });
        if is_zero(right0) {
            Err(CameraError::DegenerateOrientation)
        } else {
            let right = vnorm(right0);
            let up0 = vcross(right, nd);
            if is_zero(up0) {
                Err(CameraError::DegenerateOrientation)
            } else {
                Ok(CamV { up: vnorm(up0), right, dir: nd, ..c })
            }
        }
    }
}

/// Apply the Rodrigues rotation in fixed point.
fn rotate_exec(cosv: i64, s: i64, kh: &Vec3, v: &Vec3) -> (r: Vec3)
    requires
        absi(cosv as int) <= 3 * SCALE as int,
        0 <= s <= 4 * SCALE,
        bounded(kh@, SCALE as int),
        bounded(v@, 4 * SCALE as int),
    ensures
        r@ == rot_apply(cosv as int, s as int, kh@, v@),
        bounded(r@, 128 * SCALE as int),
{
    proof {
        lemma_vscale_bound(cosv as int, v@, 3 * SCALE as int, 4 * SCALE as int);
        lemma_vcross_bound(kh@, v@, SCALE as int, 4 * SCALE as int);
        lemma_vscale_bound(s as int, vcross(kh@, v@), 4 * SCALE as int, 8 * SCALE as int);
        lemma_vdot_bound(kh@, v@, SCALE as int, 4 * SCALE as int);
        lemma_fxmul_abs_le(vdot(kh@, v@), SCALE as int - cosv as int, 12 * SCALE as int, 4 * SCALE as int);
        lemma_vscale_bound(
            fxmul(vdot(kh@, v@), SCALE as int - cosv as int),
            kh@,
            48 * SCALE as int,
            SCALE as int,
        );
    }
    let t1: Vec3 = v.scale(cosv);
    let t2: Vec3 = kh.cross(v).scale(s);
    let dkv: i64 = kh.dot(v);
    let t3: Vec3 = kh.scale(fx_mul(dkv, SCALE - cosv));
    let sum: Vec3 = t1.add(&t2).add(&t3);
    proof {
        assert(t1@ == vscale(cosv as int, v@));
        assert(bounded(vscale(cosv as int, v@), (3 * SCALE as int) * (4 * SCALE as int) / (SCALE as int)));
        assert((3 * SCALE as int) * (4 * SCALE as int) / (SCALE as int) == 12 * SCALE as int) by (nonlinear_arith);
        assert(bounded(t1@, 12 * SCALE as int));
        assert(bounded(t2@, 32 * SCALE as int));
        assert(bounded(t3@, 48 * SCALE as int));
        assert(bounded(sum@, 128 * SCALE as int));
    }
    sum
}

/// Scaling a nonnegative value divided by `n` with an index below `n`
/// cannot exceed the value.
proof fn lemma_idx_scale_le(v: int, n: int, i: int)
    requires
        v >= 0,
        n >= 1,
        0 <= i < n,
    ensures
        0 <= i * (v / n) <= v,
{
    vstd::arithmetic::div_mod::lemma_fundamental_div_mod(v, n);
    vstd::arithmetic::div_mod::lemma_div_pos_is_pos(v, n);
    assert(i * (v / n) <= (n - 1) * (v / n)) by (nonlinear_arith)
        requires
            0 <= i <= n - 1,
            v / n >= 0,
    ;
    assert((n - 1) * (v / n) <= n * (v / n)) by (nonlinear_arith)
        requires
            v / n >= 0,
    ;
    lemma_mul_signs(i, v / n);
}

/// One draw from the closed unit disk (bounded retries; the center
/// stands in if every draw is rejected).
fn random_in_disk() -> (r: (i64, i64))
    ensures
        disk_ok(r.0 as int, r.1 as int),
{
    let mut k: u32 = 0;
    while k < 64
        invariant
            k <= 64,
        decreases 64 - k,
    {
        let u: i64 = rand_unit();
        let v: i64 = rand_unit();
        proof {
            lemma_abs_mul_le(u as int, u as int, SCALE as int, SCALE as int);
            lemma_abs_mul_le(v as int, v as int, SCALE as int, SCALE as int);
            lemma_mul_signs(u as int, u as int);
            lemma_mul_signs(v as int, v as int);
        }
        if u * u + v * v <= SCALE * SCALE {
            return (u, v);
        }
        k = k + 1;
    }
    (0, 0)
}

/// A vector drawn from the unit disk spanned by `up` and `right`:
/// some admissible disk draw combined with the two spanning vectors.
pub fn random_vector_on_unit_disk(up: &Vec3, right: &Vec3) -> (r: Vec3)
    requires
        bounded(up@, 4 * SCALE as int),
        bounded(right@, 4 * SCALE as int),
    ensures
        exists|u: int, v: int|
            disk_ok(u, v) && r@ == vadd(
                #[trigger] vscale(u, up@),
                #[trigger] vscale(v, right@),
            ),
{
    let (u, v): (i64, i64) = random_in_disk();
    proof {
        lemma_vscale_bound(u as int, up@, SCALE as int, 4 * SCALE as int);
        lemma_vscale_bound(v as int, right@, SCALE as int, 4 * SCALE as int);
    }
    let r: Vec3 = up.scale(u).add(&right.scale(v));
    proof {
        assert(disk_ok(u as int, v as int) && r@ == vadd(
            vscale(u as int, up@),
            vscale(v as int, right@),
        ));
    }
    r
}

impl Camera {
    /// Build a camera.  The frame is orthonormalized from `up` and
    /// `right` (which must not be parallel); the viewport derives from
    /// the vertical field of view `vfov`, the aspect ratio and the
    /// focal distance.  The preconditions are limits of the fixed-point
    /// model, not of the design: the field of view stays below two
    /// radians so the Taylor-series tangent is accurate and positive,
    /// the aspect ratio at least one sixteenth so the derived height
    /// stays in range, and the focal distance at most 256 units so the
    /// viewport and the defocus disk stay representable.
    pub fn new(
        up: Vec3,
        right: Vec3,
        iwidth: usize,
        vfov: i64,
        aratio: i64,
        fdist: i64,
        defangle: i64,
    ) -> (r: Camera)
        requires
            bounded(up@, COORD_MAX as int),
            !is_zero(up@),
            bounded(right@, COORD_MAX as int),
            !is_zero(right@),
            !is_zero(vcross(up@, right@)),
            1 <= iwidth <= 0x100000,
            0 <= vfov <= 2 * SCALE,
            SCALE / 16 <= aratio,
            0 <= fdist <= 0x1000000,
            0 <= defangle <= 2 * SCALE,
            cam_vwidth_spec(
                cam_vheight_spec(vfov as int, fdist as int),
                iwidth as int,
                cam_iheight_spec(iwidth as int, aratio as int),
            ) <= COORD_MAX as int,
        ensures
            r@.up == vnorm(up@),
            r@.right == vnorm(right@),
            r@.dir == vnorm(vcross(up@, right@)),
            r@.iwidth == iwidth as int,
            r@.iheight == cam_iheight_spec(iwidth as int, aratio as int),
            r@.vheight == cam_vheight_spec(vfov as int, fdist as int),
            r@.vwidth == cam_vwidth_spec(r@.vheight, iwidth as int, r@.iheight),
            r@.fdist == fdist as int,
            r@.defangle == defangle as int,
            cam_wf(r@),
    {
        proof {
            lemma_norm_component_bound(up@);
            lemma_norm_component_bound(right@);
            lemma_vnorm_nonzero(up@);
            lemma_vnorm_nonzero(right@);
            lemma_vcross_bound(up@, right@, COORD_MAX as int, COORD_MAX as int);
            lemma_norm_component_bound(vcross(up@, right@));
            lemma_vnorm_nonzero(vcross(up@, right@));
        }
        let upn: Vec3 = up.normalize();
        let rightn: Vec3 = right.normalize();
        let dirn: Vec3 = up.cross(&right).normalize();
        let iw_fx: i64 = (iwidth as i64) * SCALE;
        proof {
            lemma_abs_mul_le(iw_fx as int, SCALE as int, 0x10000000000, SCALE as int);
            lemma_tdiv_abs_any((iw_fx as int) * (SCALE as int), aratio as int);
            vstd::arithmetic::div_mod::lemma_div_is_ordered(
                absi((iw_fx as int) * (SCALE as int)),
                0x10000000000000,
                absi(aratio as int),
            );
            vstd::arithmetic::div_mod::lemma_div_is_ordered_by_denominator(
                0x10000000000000,
                4096,
                absi(aratio as int),
            );
        }
        let q: i64 = fx_div(iw_fx, aratio);
        proof {
            vstd::arithmetic::div_mod::lemma_div_is_ordered(q as int, 0x10000000000, SCALE as int);
            vstd::arithmetic::div_mod::lemma_div_pos_is_pos(q as int, SCALE as int);
        }
        let iheight: usize = if q < SCALE {
            1
        } else {
            (div_small(q, SCALE)) as usize
        };
        let half_fov: i64 = div_small(vfov, 2);
        proof {
            lemma_trig_bounds(half_fov as int);
        }
        let th: i64 = tan_fx(half_fov);
        proof {
            lemma_fxmul_abs_le(2 * th as int, fdist as int, 6 * SCALE as int, 0x1000000);
            lemma_mul_signs(2 * th as int, fdist as int);
            crate::fx::lemma_tdiv_abs((2 * th as int) * (fdist as int), SCALE as int);
            vstd::arithmetic::div_mod::lemma_div_pos_is_pos(
                (2 * th as int) * (fdist as int),
                SCALE as int,
            );
        }
        let vheight: i64 = fx_mul(2 * th, fdist);
        let ratio: i64 = div_small((iwidth as i64) * SCALE, iheight as i64);
        proof {
            vstd::arithmetic::div_mod::lemma_div_pos_is_pos(
                (iwidth as i64 as int) * (SCALE as int),
                iheight as int,
            );
            vstd::arithmetic::div_mod::lemma_div_nonincreasing(
                (iwidth as i64 as int) * (SCALE as int),
                iheight as int,
            );
            lemma_fxmul_abs_le(vheight as int, ratio as int, COORD_MAX as int, 0x10000000000);
            lemma_mul_signs(vheight as int, ratio as int);
            crate::fx::lemma_tdiv_abs((vheight as int) * (ratio as int), SCALE as int);
            vstd::arithmetic::div_mod::lemma_div_pos_is_pos(
                (vheight as int) * (ratio as int),
                SCALE as int,
            );
        }
        let vwidth: i64 = fx_mul(vheight, ratio);
        Camera {
            up: upn,
            right: rightn,
            dir: dirn,
            iwidth,
            iheight,
            vheight,
            vwidth,
            fdist,
            defangle,
        }
    }

    /// Image width in pixels.
    pub fn get_iwidth(&self) -> (r: usize)
        ensures
            r as int == self@.iwidth,
    {
        self.iwidth
    }

    /// Image height in pixels.
    pub fn get_iheight(&self) -> (r: usize)
        ensures
            r as int == self@.iheight,
    {
        self.iheight
    }

    /// Re-aim the camera to face `target` from `position` (see
    /// `lookat_spec`); fails with `DegenerateOrientation` when no
    /// usable frame results.
    pub fn lookat(&mut self, target: Vec3, position: Vec3) -> (r: Result<(), CameraError>)
        requires
            cam_wf(old(self)@),
            bounded(target@, COORD_MAX as int),
            bounded(position@, COORD_MAX as int),
            !is_zero(vsub(target@, position@)),
        ensures
            match r {
                Ok(()) => lookat_spec(old(self)@, target@, position@) == Ok::<CamV, CameraError>(
                    final(self)@,
                ) && cam_wf(final(self)@),
                Err(e) => lookat_spec(old(self)@, target@, position@) == Err::<CamV, CameraError>(e)
                    && final(self)@ == old(self)@,
            },
    {
        let ghost c = self@;
        let w: Vec3 = target.sub(&position);
        proof {
            lemma_norm_component_bound(w@);
            lemma_vnorm_nonzero(w@);
        }
        let nd: Vec3 = w.normalize();
        let vertical: bool = nd.y == SCALE || nd.y == -SCALE;
        if vertical {
            proof {
                lemma_vcross_bound(c.dir, nd@, SCALE as int, SCALE as int);
            }
            let k: Vec3 = self.dir.cross(&nd);
            if k.x == 0 && k.y == 0 && k.z == 0 {
                proof {
                    lemma_vdot_bound(c.dir, nd@, SCALE as int, SCALE as int);
                }
                let cosv: i64 = self.dir.dot(&nd);
                if cosv > 0 {
                    return Ok(());
                }
                return Err(CameraError::DegenerateOrientation);
            }
            proof {
                lemma_norm_component_bound(k@);
                lemma_vnorm_nonzero(k@);
                lemma_vdot_bound(c.dir, nd@, SCALE as int, SCALE as int);
            }
            let kh: Vec3 = k.normalize();
            let s: i64 = k.magnitude();
            proof {
                crate::fx::lemma_mul_signs(k@.x, k@.x);
                crate::fx::lemma_mul_signs(k@.y, k@.y);
                crate::fx::lemma_mul_signs(k@.z, k@.z);
                crate::fx::lemma_abs_mul_le(k@.x, k@.x, 2 * SCALE as int, 2 * SCALE as int);
                crate::fx::lemma_abs_mul_le(k@.y, k@.y, 2 * SCALE as int, 2 * SCALE as int);
                crate::fx::lemma_abs_mul_le(k@.z, k@.z, 2 * SCALE as int, 2 * SCALE as int);
                crate::fx::lemma_sqrt_floor_mono(
                    crate::vec3::norm_sq_raw(k@),
                    (4 * SCALE as int) * (4 * SCALE as int),
                );
                crate::fx::lemma_mul_signs(4 * SCALE as int, 4 * SCALE as int);
                crate::fx::lemma_sqrt_floor_square(4 * SCALE as int);
                crate::fx::lemma_sqrt_floor_bounds(crate::vec3::norm_sq_raw(k@));
            }
            let cosv: i64 = self.dir.dot(&nd);
            let d2: Vec3 = rotate_exec(cosv, s, &kh, &self.dir);
            let r2: Vec3 = rotate_exec(cosv, s, &kh, &self.right);
            let u2: Vec3 = rotate_exec(cosv, s, &kh, &self.up);
            if (d2.x == 0 && d2.y == 0 && d2.z == 0) || (r2.x == 0 && r2.y == 0 && r2.z == 0)
                || (u2.x == 0 && u2.y == 0 && u2.z == 0) {
                return Err(CameraError::DegenerateOrientation);
            }
            proof {
                lemma_norm_component_bound(d2@);
                lemma_vnorm_nonzero(d2@);
                lemma_norm_component_bound(r2@);
                lemma_vnorm_nonzero(r2@);
                lemma_norm_component_bound(u2@);
                lemma_vnorm_nonzero(u2@);
            }
            self.dir = d2.normalize();
            self.right = r2.normalize();
            self.up = u2.normalize();
            return Ok(());
        }
        proof {
            lemma_vcross_bound(nd@, V3 { x: 0, y: SCALE as int, z: 0 }, SCALE as int, SCALE as int);
        }
        let yhat: Vec3 = Vec3::new(0, SCALE, 0);
        let right0: Vec3 = nd.cross(&yhat);
        if right0.x == 0 && right0.y == 0 && right0.z == 0 {
            return Err(CameraError::DegenerateOrientation);
        }
        proof {
            lemma_norm_component_bound(right0@);
            lemma_vnorm_nonzero(right0@);
        }
        let right: Vec3 = right0.normalize();
        proof {
            lemma_vcross_bound(right@, nd@, SCALE as int, SCALE as int);
        }
        let up0: Vec3 = right.cross(&nd);
        if up0.x == 0 && up0.y == 0 && up0.z == 0 {
            return Err(CameraError::DegenerateOrientation);
        }
        proof {
            lemma_norm_component_bound(up0@);
            lemma_vnorm_nonzero(up0@);
        }
        self.dir = nd;
        self.right = right;
        self.up = up0.normalize();
        Ok(())
    }

    /// The center of pixel (x, y) on the viewport.
    #[verifier::rlimit(100)]
    fn pixel_center_at(&self, pos: &Vec3, x: usize, y: usize) -> (r: Vec3)
        requires
            cam_wf(self@),
            bounded(pos@, COORD_MAX as int / 2),
            x < self@.iwidth,
            y < self@.iheight,
        ensures
            r@ == cam_center(self@, pos@, x as int, y as int),
            bounded(r@, 0x800000000),
    {
        let ghost c = self@;
        proof {
            lemma_vscale_bound(c.fdist, c.dir, 0x1000000, SCALE as int);
            vstd::arithmetic::div_mod::lemma_div_pos_is_pos(c.vheight, 2);
            vstd::arithmetic::div_mod::lemma_div_pos_is_pos(c.vwidth, 2);
            vstd::arithmetic::div_mod::lemma_div_nonincreasing(c.vheight, 2);
            vstd::arithmetic::div_mod::lemma_div_nonincreasing(c.vwidth, 2);
            lemma_vscale_bound(c.vheight / 2, c.up, COORD_MAX as int, 4 * SCALE as int);
            lemma_vscale_bound(c.vwidth / 2, c.right, COORD_MAX as int, 4 * SCALE as int);
        }
        let fd_dir: Vec3 = self.dir.scale(self.fdist);
        let up_half: Vec3 = self.up.scale(div_small(self.vheight, 2));
        let right_half: Vec3 = self.right.scale(div_small(self.vwidth, 2));
        let tl: Vec3 = pos.add(&fd_dir).add(&up_half).sub(&right_half);
        let ph: i64 = div_small(self.vheight, self.iheight as i64);
        let pw: i64 = div_small(self.vwidth, self.iwidth as i64);
        proof {
            lemma_idx_scale_le(c.vheight, c.iheight, y as int);
            lemma_idx_scale_le(c.vwidth, c.iwidth, x as int);
            vstd::arithmetic::div_mod::lemma_div_pos_is_pos(c.vheight, c.iheight);
            vstd::arithmetic::div_mod::lemma_div_pos_is_pos(c.vwidth, c.iwidth);
            vstd::arithmetic::div_mod::lemma_div_nonincreasing(c.vheight, c.iheight);
            vstd::arithmetic::div_mod::lemma_div_nonincreasing(c.vwidth, c.iwidth);
            lemma_vscale_bound((y as int) * (c.vheight / c.iheight), vneg(c.up), COORD_MAX as int, 4 * SCALE as int);
            lemma_vscale_bound((x as int) * (c.vwidth / c.iwidth), c.right, COORD_MAX as int, 4 * SCALE as int);
            vstd::arithmetic::div_mod::lemma_div_pos_is_pos(c.vheight / c.iheight, 2);
            vstd::arithmetic::div_mod::lemma_div_pos_is_pos(c.vwidth / c.iwidth, 2);
            vstd::arithmetic::div_mod::lemma_div_nonincreasing(c.vheight / c.iheight, 2);
            vstd::arithmetic::div_mod::lemma_div_nonincreasing(c.vwidth / c.iwidth, 2);
            lemma_vscale_bound((c.vheight / c.iheight) / 2, vneg(c.up), COORD_MAX as int, 4 * SCALE as int);
            lemma_vscale_bound((c.vwidth / c.iwidth) / 2, c.right, COORD_MAX as int, 4 * SCALE as int);
        }
        let down: Vec3 = self.up.neg().scale((y as i64) * ph);
        let across: Vec3 = self.right.scale((x as i64) * pw);
        let down_half: Vec3 = self.up.neg().scale(div_small(ph, 2));
        let across_half: Vec3 = self.right.scale(div_small(pw, 2));
        tl.add(&down).add(&across).add(&down_half).add(&across_half)
    }

    /// Emit one ray per (pixel, sample): jittered within the pixel for
    /// antialiasing, with the origin drawn from the defocus disk.
    #[verifier::rlimit(100)]
    pub fn get_rays(&self, pos: &Vec3, rays_per_pixel: u32) -> (r: Vec<(Ray, usize, usize)>)
        requires
            cam_wf(self@),
            bounded(pos@, COORD_MAX as int / 2),
            self@.iwidth * self@.iheight * rays_per_pixel <= 0x10000000,
        ensures
            r@.len() == self@.iwidth * self@.iheight * rays_per_pixel,
            forall|k: int|
                0 <= k < r@.len() ==> ray_entry_ok(
                    self@,
                    pos@,
                    rays_per_pixel as int,
                    k,
                    #[trigger] r@[k],
                ),
    {
        let ghost c = self@;
        let spp: u32 = rays_per_pixel;
        let mut out: Vec<(Ray, usize, usize)> = Vec::new();
        proof {
            lemma_trig_bounds(c.defangle / 2);
            lemma_fxmul_abs_le(
                c.fdist,
                tan_fx_spec(c.defangle / 2),
                0x1000000,
                3 * SCALE as int,
            );
            lemma_mul_signs(c.fdist, tan_fx_spec(c.defangle / 2));
            crate::fx::lemma_tdiv_abs(c.fdist * tan_fx_spec(c.defangle / 2), SCALE as int);
            vstd::arithmetic::div_mod::lemma_div_pos_is_pos(
                c.fdist * tan_fx_spec(c.defangle / 2),
                SCALE as int,
            );
        }
        let half_def: i64 = div_small(self.defangle, 2);
        let defradius: i64 = fx_mul(self.fdist, tan_fx(half_def));
        proof {
            if c.defangle == 0 {
                crate::fx::lemma_fxmul_zero(0);
                assert(crate::fx::sin_fx_spec(0) == 0);
                assert(crate::fx::cos_fx_spec(0) == SCALE as int);
                assert(tan_fx_spec(0) == 0);
                crate::fx::lemma_fxmul_zero(c.fdist);
                assert(cam_defradius(c) == 0);
            }
        }
        let w: usize = self.iwidth;
        let h: usize = self.iheight;
        proof {
            assert(0 * (h as int) * (spp as int) == 0) by (nonlinear_arith);
        }
        for x in 0..w
            invariant
                c == self@,
                cam_wf(c),
                bounded(pos@, COORD_MAX as int / 2),
                w == c.iwidth,
                h == c.iheight,
                spp == rays_per_pixel,
                c.iwidth * c.iheight * spp <= 0x10000000,
                defradius == cam_defradius(c),
                0 <= defradius <= 0x3000000,
                c.defangle == 0 ==> defradius == 0,
                out@.len() == x * h * spp,
                forall|k: int|
                    0 <= k < out@.len() ==> ray_entry_ok(c, pos@, spp as int, k, #[trigger] out@[k]),
        {
            let mut y: usize = 0;
            while y < h
                invariant
                    c == self@,
                    cam_wf(c),
                    bounded(pos@, COORD_MAX as int / 2),
                    w == c.iwidth,
                    h == c.iheight,
                    spp == rays_per_pixel,
                    c.iwidth * c.iheight * spp <= 0x10000000,
                    defradius == cam_defradius(c),
                    0 <= defradius <= 0x3000000,
                    c.defangle == 0 ==> defradius == 0,
                    x < w,
                    y <= h,
                    out@.len() == (x * h + y) * spp,
                    forall|k: int|
                        0 <= k < out@.len() ==> ray_entry_ok(
                            c,
                            pos@,
                            spp as int,
                            k,
                            #[trigger] out@[k],
                        ),
                decreases h - y,
            {
                proof {
                    assert((x * h + y) * spp + spp <= c.iwidth * c.iheight * spp) by (nonlinear_arith)
                        requires
                            0 <= x < c.iwidth,
                            0 <= y < c.iheight,
                            h == c.iheight,
                            spp >= 0,
                    ;
                }
                let ctr: Vec3 = self.pixel_center_at(pos, x, y);
                let mut s: u32 = 0;
                while s < spp
                    invariant
                        c == self@,
                        cam_wf(c),
                        bounded(pos@, COORD_MAX as int / 2),
                        w == c.iwidth,
                        h == c.iheight,
                        spp == rays_per_pixel,
                        defradius == cam_defradius(c),
                        0 <= defradius <= 0x3000000,
                        c.defangle == 0 ==> defradius == 0,
                        x < w,
                        y < h,
                        s <= spp,
                        (x * h + y) * spp + spp <= 0x10000000,
                        ctr@ == cam_center(c, pos@, x as int, y as int),
                        bounded(ctr@, 0x800000000),
                        out@.len() == (x * h + y) * spp + s,
                        forall|k: int|
                            0 <= k < out@.len() ==> ray_entry_ok(
                                c,
                                pos@,
                                spp as int,
                                k,
                                #[trigger] out@[k],
                            ),
                    decreases spp - s,
                {
                    let j1: i64 = rand_half();
                    let j2: i64 = rand_half();
                    let (u, v): (i64, i64) = random_in_disk();
                    let ph: i64 = div_small(self.vheight, self.iheight as i64);
                    let pw: i64 = div_small(self.vwidth, self.iwidth as i64);
                    proof {
                        vstd::arithmetic::div_mod::lemma_div_pos_is_pos(c.vheight, c.iheight);
                        vstd::arithmetic::div_mod::lemma_div_pos_is_pos(c.vwidth, c.iwidth);
                        vstd::arithmetic::div_mod::lemma_div_nonincreasing(c.vheight, c.iheight);
                        vstd::arithmetic::div_mod::lemma_div_nonincreasing(c.vwidth, c.iwidth);
                        lemma_fxmul_abs_le(c.vheight / c.iheight, j1 as int, COORD_MAX as int, SCALE as int);
                        lemma_fxmul_abs_le(c.vwidth / c.iwidth, j2 as int, COORD_MAX as int, SCALE as int);
                        lemma_vscale_bound(
                            fxmul(c.vheight / c.iheight, j1 as int),
                            c.up,
                            0x40000000000,
                            4 * SCALE as int,
                        );
                        lemma_vscale_bound(
                            fxmul(c.vwidth / c.iwidth, j2 as int),
                            c.right,
                            0x40000000000,
                            4 * SCALE as int,
                        );
                        lemma_vscale_bound(u as int, c.up, SCALE as int, 4 * SCALE as int);
                        lemma_vscale_bound(v as int, c.right, SCALE as int, 4 * SCALE as int);
                        lemma_vscale_bound(
                            defradius as int,
                            vadd(
                                vscale(u as int, c.up),
                                vscale(v as int, c.right),
                            ),
                            0x3000000,
                            8 * SCALE as int,
                        );
                    }
                    let jit_up: Vec3 = self.up.scale(fx_mul(ph, j1));
                    let jit_right: Vec3 = self.right.scale(fx_mul(pw, j2));
                    let sample: Vec3 = ctr.add(&jit_up).add(&jit_right);
                    let disk: Vec3 = self.up.scale(u).add(&self.right.scale(v));
                    let origin: Vec3 = pos.add(&disk.scale(defradius));
                    let d: Vec3 = sample.sub(&origin);
                    let dirv: Vec3 = if d.x == 0 && d.y == 0 && d.z == 0 {
                        self.dir
                    } else {
                        d
                    };
                    let ray: Ray = Ray::new(origin, dirv);
                    proof {
                        let k = out@.len() as int;
                        assert(k == (x * h + y) * spp + s);
                        vstd::arithmetic::div_mod::lemma_fundamental_div_mod_converse(
                            k,
                            spp as int,
                            (x * h + y) as int,
                            s as int,
                        );
                        vstd::arithmetic::div_mod::lemma_fundamental_div_mod_converse(
                            (x * h + y) as int,
                            h as int,
                            x as int,
                            y as int,
                        );
                        assert(ray@ == cam_ray(
                            c,
                            pos@,
                            x as int,
                            y as int,
                            j1 as int,
                            j2 as int,
                            u as int,
                            v as int,
                        ));
                        if c.defangle == 0 {
                            crate::fx::lemma_fxmul_zero(disk@.x);
                            crate::fx::lemma_fxmul_zero(disk@.y);
                            crate::fx::lemma_fxmul_zero(disk@.z);
                            assert(vscale(0, disk@) == (V3 { x: 0, y: 0, z: 0 }));
                            assert(ray@.pt == pos@);
                        }
                        assert(ray_sampled(c, pos@, x as int, y as int, ray@)) by {
                            assert(jitter_ok(j1 as int) && jitter_ok(j2 as int) && disk_ok(
                                u as int,
                                v as int,
                            ) && ray@ == cam_ray(
                                c,
                                pos@,
                                x as int,
                                y as int,
                                j1 as int,
                                j2 as int,
                                u as int,
                                v as int,
                            ));
                        }
                        assert(ray_entry_ok(c, pos@, spp as int, k, (ray, x, y)));
                    }
                    out.push((ray, x, y));
                    s = s + 1;
                }
                y = y + 1;
                proof {
                    assert((x * h + y - 1) * spp + spp == (x * h + y) * spp) by (nonlinear_arith);
                }
            }
            proof {
                assert((x * h + h) * spp == (x + 1) * h * spp) by (nonlinear_arith);
            }
        }
        proof {
            assert(w * h * spp == c.iwidth * c.iheight * spp);
        }
        out
    }
}

} // verus!
