//! The scene: named cameras and named placed objects, the brute-force
//! nearest-intersection search, the recursive light transport and the
//! order-independent pixel accumulation.

use vstd::prelude::*;
use crate::camera::{cam_wf, lookat_spec, Camera, CameraError};
use crate::color::{blend_spec, color_le, Color, blend};
use crate::fx::SCALE;
use crate::materials::{bounce_rel, mat_color, mat_refl, mat_wf, Material};
use crate::objects::{geom_hit, geom_normal_pre, geom_wf, Geometry};
use crate::ppm::PPMImage;
use crate::ray::{ray_wf, Ray, RayV};
use crate::vec3::{bounded, is_zero, norm_sq_raw, vsub, Vec3, V3, COORD_MAX};

verus! {

/// The minimum accepted ray parameter, rejecting self-intersections
/// (about 0.001 in fixed point).
pub const TOL: i64 = 66;

/// Errors raised by scene operations.
#[derive(Clone, Copy, Debug, PartialEq, Eq, Structural)]
pub enum WorldError {
    /// The named camera does not exist.
    CameraNotFound,
    /// A look-at left no usable camera orientation.
    DegenerateOrientation,
}

/// A geometry with a world position and a material.
pub struct PlacedObject {
    pub pos: Vec3,
    pub geometry: Geometry,
    pub material: Material,
}

/// Backgrounds: the injected environment function evaluated for rays
/// that escape the scene.  A function-valued field cannot carry a
/// specification, so the injectable environments form this closed set,
/// chosen at construction.
#[derive(Clone, Copy, Debug)]
pub enum Background {
    /// The same color in every direction.
    Solid(Color),
    /// A vertical blend from `bottom` (direction straight down) to
    /// `top` (straight up), by the ray direction's `y` component.
    VerticalGradient { bottom: Color, top: Color },
}

/// The color of the background in the direction of `r`.
pub open spec fn background_eval(b: Background, r: RayV) -> Color {
    match b {
        Background::Solid(c) => c,
        Background::VerticalGradient { bottom, top } => blend_spec(
            bottom,
            top,
            (r.dir.y + SCALE) / 2,
        ),
    }
}

/// A background's colors are 8-bit.
pub open spec fn background_wf(b: Background) -> bool {
    match b {
        Background::Solid(c) => color_le(c, 255),
        Background::VerticalGradient { bottom, top } => color_le(bottom, 255) && color_le(top, 255),
    }
}

/// A placed object is well formed.
pub open spec fn placed_wf(o: PlacedObject) -> bool {
    &&& bounded(o.pos@, COORD_MAX as int)
    &&& geom_wf(o.geometry)
    &&& geom_normal_pre(o.geometry)
    &&& mat_wf(o.material)
}

/// Keys of an association list are distinct.
pub open spec fn keys_unique<T>(s: Seq<(String, T)>) -> bool {
    forall|i: int, j: int| 0 <= i < j < s.len() ==> (#[trigger] s[i]).0@ != (#[trigger] s[j]).0@
}

/// The index of `key` in the association list, or -1.
pub open spec fn find_key<T>(s: Seq<(String, T)>, key: Seq<char>) -> int
    decreases s.len(),
{
    if s.len() == 0 {
        -1
    } else if s[0].0@ == key {
        0
    } else {
        let r = find_key(s.drop_first(), key);
        if r == -1 {
            -1
        } else {
            r + 1
        }
    }
}

/// The nearest intersection (squared distance to the ray origin) over
/// the objects, scanned in insertion order; ties keep the earlier
/// object.
pub open spec fn closest_hit(objs: Seq<(String, PlacedObject)>, r: RayV, tol: int) -> Option<
    (V3, int),
>
    decreases objs.len(),
{
    if objs.len() == 0 {
        None
    } else {
        let prev = closest_hit(objs.drop_last(), r, tol);
        let o = objs.last().1;
        let cur = geom_hit(o.geometry, o.pos@, r, tol);
        match cur {
            None => prev,
            Some(p) => match prev {
                None => Some((p, objs.len() - 1)),
                Some((q, i)) => if norm_sq_raw(vsub(r.pt, p)) < norm_sq_raw(vsub(r.pt, q)) {
                    Some((p, objs.len() - 1))
                } else {
                    Some((q, i))
                },
            },
        }
    }
}

/// The index returned by `closest_hit` is valid, and the hit point is
/// what its object reports.
pub proof fn lemma_closest_hit(objs: Seq<(String, PlacedObject)>, r: RayV, tol: int)
    ensures
        match closest_hit(objs, r, tol) {
            Some((p, i)) => 0 <= i < objs.len() && geom_hit(
                objs[i].1.geometry,
                objs[i].1.pos@,
                r,
                tol,
            ) == Some(p),
            None => true,
        },
    decreases objs.len(),
{
    if objs.len() > 0 {
        lemma_closest_hit(objs.drop_last(), r, tol);
    }
}

/// What `ray_color` may return: the background at the recursion limit
/// or when nothing is hit; otherwise the object's own color blended
/// with the color of some admissible bounce.
pub open spec fn ray_color_rel(
    objs: Seq<(String, PlacedObject)>,
    bg: Background,
    r: RayV,
    depth: int,
    max: int,
    c: Color,
) -> bool
    decreases max - depth, 1int,
{
    if depth >= max {
        c == background_eval(bg, r)
    } else {
        match closest_hit(objs, r, TOL as int) {
            None => c == background_eval(bg, r),
            Some((p, i)) => ray_color_step(objs, bg, r, depth, max, c, p, i),
        }
    }
}

/// One recursion step of `ray_color_rel`: some admissible bounce at the
/// hit point `p` of object `i` yields an admissible recursive color
/// that `c` blends with the object's own color.
pub open spec fn ray_color_step(
    objs: Seq<(String, PlacedObject)>,
    bg: Background,
    r: RayV,
    depth: int,
    max: int,
    c: Color,
    p: V3,
    i: int,
) -> bool
    decreases max - depth, 0int,
        when depth < max
{
    let o = objs[i].1;
    exists|br: RayV, c2: Color|
        #![trigger bounce_rel(o.material, o.geometry, o.pos@, r, p, br), blend_spec(
            mat_color(o.material),
            c2,
            mat_refl(o.material),
        )]
        bounce_rel(o.material, o.geometry, o.pos@, r, p, br) && ray_color_rel(
            objs,
            bg,
            br,
            depth + 1,
            max,
            c2,
        ) && color_le(c2, 255) && c == blend_spec(mat_color(o.material), c2, mat_refl(o.material))
}

/// Introduction rule for one step of `ray_color_rel`: an admissible
/// bounce whose recursive color is admissible gives an admissible
/// blended color.
pub proof fn lemma_ray_color_step(
    objs: Seq<(String, PlacedObject)>,
    bg: Background,
    r: RayV,
    depth: int,
    max: int,
    c: Color,
    p: V3,
    i: int,
    br: RayV,
    c2: Color,
)
    requires
        depth < max,
        0 <= i < objs.len(),
        closest_hit(objs, r, TOL as int) == Some((p, i)),
        bounce_rel(objs[i].1.material, objs[i].1.geometry, objs[i].1.pos@, r, p, br),
        ray_color_rel(objs, bg, br, depth + 1, max, c2),
        color_le(c2, 255),
        c == blend_spec(mat_color(objs[i].1.material), c2, mat_refl(objs[i].1.material)),
    ensures
        ray_color_rel(objs, bg, r, depth, max, c),
{
    let o = objs[i].1;
    assert(ray_color_step(objs, bg, r, depth, max, c, p, i)) by {
        assert(bounce_rel(o.material, o.geometry, o.pos@, r, p, br) && ray_color_rel(
            objs,
            bg,
            br,
            depth + 1,
            max,
            c2,
        ) && color_le(c2, 255) && c == blend_spec(mat_color(o.material), c2, mat_refl(o.material)));
    }
}

/// Channel sums and sample count accumulated at one pixel.
pub open spec fn pixel_sums(samples: Seq<(Color, usize, usize)>, x: int, y: int) -> (
    int,
    int,
    int,
    int,
)
    decreases samples.len(),
{
    if samples.len() == 0 {
        (0, 0, 0, 0)
    } else {
        let p = pixel_sums(samples.drop_last(), x, y);
        let e = samples.last();
        if e.1 as int == x && e.2 as int == y {
            (p.0 + e.0.r, p.1 + e.0.g, p.2 + e.0.b, p.3 + 1)
        } else {
            p
        }
    }
}

/// The running mean at one pixel: channel sums divided by the sample
/// count (black where no sample landed).
pub open spec fn pixel_average(samples: Seq<(Color, usize, usize)>, x: int, y: int) -> Color {
    let s = pixel_sums(samples, x, y);
    if s.3 == 0 {
        Color { r: 0u32, g: 0u32, b: 0u32 }
    } else {
        Color { r: (s.0 / s.3) as u32, g: (s.1 / s.3) as u32, b: (s.2 / s.3) as u32 }
    }
}

/// Sums are nonnegative, counts bound the sums of 8-bit channels.
pub proof fn lemma_pixel_sums_bounds(samples: Seq<(Color, usize, usize)>, x: int, y: int)
    requires
        forall|k: int| 0 <= k < samples.len() ==> color_le((#[trigger] samples[k]).0, 255),
    ensures
        0 <= pixel_sums(samples, x, y).3 <= samples.len(),
        0 <= pixel_sums(samples, x, y).0 <= 255 * pixel_sums(samples, x, y).3,
        0 <= pixel_sums(samples, x, y).1 <= 255 * pixel_sums(samples, x, y).3,
        0 <= pixel_sums(samples, x, y).2 <= 255 * pixel_sums(samples, x, y).3,
    decreases samples.len(),
{
    if samples.len() > 0 {
        lemma_pixel_sums_bounds(samples.drop_last(), x, y);
    }
}

/// The averaged channels of 8-bit samples are 8-bit.
pub proof fn lemma_pixel_average_le(samples: Seq<(Color, usize, usize)>, x: int, y: int)
    requires
        forall|k: int| 0 <= k < samples.len() ==> color_le((#[trigger] samples[k]).0, 255),
    ensures
        color_le(pixel_average(samples, x, y), 255),
{
    lemma_pixel_sums_bounds(samples, x, y);
    let s = pixel_sums(samples, x, y);
    if s.3 > 0 {
        vstd::arithmetic::div_mod::lemma_div_is_ordered(s.0, 255 * s.3, s.3);
        vstd::arithmetic::div_mod::lemma_div_is_ordered(s.1, 255 * s.3, s.3);
        vstd::arithmetic::div_mod::lemma_div_is_ordered(s.2, 255 * s.3, s.3);
        vstd::arithmetic::div_mod::lemma_div_by_multiple(255, s.3);
        assert(255 * s.3 == s.3 * 255);
        vstd::arithmetic::div_mod::lemma_div_pos_is_pos(s.0, s.3);
        vstd::arithmetic::div_mod::lemma_div_pos_is_pos(s.1, s.3);
        vstd::arithmetic::div_mod::lemma_div_pos_is_pos(s.2, s.3);
    }
}

/// The accumulator cell at pixel (x, y) holds exactly the channel sums
/// and count of the samples seen so far.
pub open spec fn sums_cell_ok(
    cell: (u64, u64, u64, u64),
    samples: Seq<(Color, usize, usize)>,
    x: int,
    y: int,
) -> bool {
    let s = pixel_sums(samples, x, y);
    &&& cell.0 as int == s.0
    &&& cell.1 as int == s.1
    &&& cell.2 as int == s.2
    &&& cell.3 as int == s.3
}

/// One accumulated sample of a render: its pixel indices follow from
/// its position in the emission order, its color is 8-bit, and it is
/// the transported color of some admissible camera ray for that pixel.
pub open spec fn render_sample_ok(
    objs: Seq<(String, PlacedObject)>,
    bg: Background,
    cam: crate::camera::CamV,
    pos: V3,
    spp: int,
    maxb: int,
    k: int,
    e: (Color, usize, usize),
) -> bool {
    &&& e.1 as int == (k / spp) / cam.iheight
    &&& e.2 as int == (k / spp) % cam.iheight
    &&& color_le(e.0, 255)
    &&& exists|rv: RayV|
        #[trigger] crate::camera::ray_sampled(cam, pos, e.1 as int, e.2 as int, rv)
            && ray_color_rel(objs, bg, rv, 0, maxb, e.0)
}

/// A full set of render samples: one admissible sample per
/// (pixel, sample) slot.
pub open spec fn render_samples_ok(
    objs: Seq<(String, PlacedObject)>,
    bg: Background,
    cam: crate::camera::CamV,
    pos: V3,
    spp: int,
    maxb: int,
    samples: Seq<(Color, usize, usize)>,
) -> bool {
    &&& samples.len() == cam.iwidth * cam.iheight * spp
    &&& forall|k: int|
        0 <= k < samples.len() ==> render_sample_ok(objs, bg, cam, pos, spp, maxb, k, #[trigger] samples[k])
}

/// Every pixel of the image is the average of the samples that landed
/// on it.
pub open spec fn image_matches(img: &PPMImage, samples: Seq<(Color, usize, usize)>) -> bool {
    forall|x: int, y: int|
        0 <= x < img.width() && 0 <= y < img.height() ==> #[trigger] img.pixel(x, y)
            == pixel_average(samples, x, y)
}

/// The named camera, if present, emits a batch that fits in memory.
pub open spec fn render_fits(
    cams: Seq<(String, (Vec3, Camera))>,
    key: Seq<char>,
    spp: int,
) -> bool {
    find_key(cams, key) >= 0 ==> {
        let c = cams[find_key(cams, key)].1.1@;
        c.iwidth * c.iheight * spp <= 0x10000000
    }
}

/// The scene.
pub struct World {
    cameras: Vec<(String, (Vec3, Camera))>,
    objects: Vec<(String, PlacedObject)>,
    background: Background,
}

/// Well-formedness of the whole scene.
pub open spec fn world_wf(w: &World) -> bool {
    &&& keys_unique(w.cameras())
    &&& keys_unique(w.objects())
    &&& forall|i: int|
        0 <= i < w.cameras().len() ==> {
            &&& cam_wf((#[trigger] w.cameras()[i]).1.1@)
            &&& bounded(w.cameras()[i].1.0@, COORD_MAX as int / 2)
        }
    &&& forall|i: int| 0 <= i < w.objects().len() ==> placed_wf((#[trigger] w.objects()[i]).1)
    &&& background_wf(w.background())
}

impl World {
    /// The stored cameras, in insertion order.
    pub closed spec fn cameras(&self) -> Seq<(String, (Vec3, Camera))> {
        self.cameras@
    }

    /// The stored objects, in insertion order.
    pub closed spec fn objects(&self) -> Seq<(String, PlacedObject)> {
        self.objects@
    }

    /// The injected background.
    pub closed spec fn background(&self) -> Background {
        self.background
    }

    /// An empty scene with the given background.
    pub fn new(background: Background) -> (r: World)
        requires
            background_wf(background),
        ensures
            r.cameras() =~= Seq::<(String, (Vec3, Camera))>::empty(),
            r.objects() =~= Seq::<(String, PlacedObject)>::empty(),
            r.background() == background,
            world_wf(&r),
    {
        World { cameras: Vec::new(), objects: Vec::new(), background }
    }

    /// Store (or replace) a camera under `key`, with its world position.
    pub fn add_camera(&mut self, camera: Camera, pos: Vec3, key: String)
        requires
            world_wf(old(self)),
            cam_wf(camera@),
            bounded(pos@, COORD_MAX as int / 2),
        ensures
            world_wf(final(self)),
            final(self).objects() == old(self).objects(),
            final(self).background() == old(self).background(),
            find_key(final(self).cameras(), key@) >= 0,
            final(self).cameras()[find_key(final(self).cameras(), key@)].0@ == key@,
            final(self).cameras()[find_key(final(self).cameras(), key@)].1.0 == pos,
            final(self).cameras()[find_key(final(self).cameras(), key@)].1.1 == camera,
            old(self).cameras().len() <= final(self).cameras().len() <= old(self).cameras().len()
                + 1,
            forall|j: int|
                0 <= j < old(self).cameras().len() && (#[trigger] old(self).cameras()[j]).0@
                    != key@ ==> final(self).cameras()[j] == old(self).cameras()[j],
    {
        let n: usize = self.cameras.len();
        let mut i: usize = 0;
        while i < n
            invariant
                world_wf(old(self)),
                cam_wf(camera@),
                bounded(pos@, COORD_MAX as int / 2),
                self.cameras@ == old(self).cameras@,
                self.objects@ == old(self).objects@,
                self.background == old(self).background,
                n == self.cameras@.len(),
                i <= n,
                forall|j: int| 0 <= j < i ==> (#[trigger] self.cameras@[j]).0@ != key@,
            decreases n - i,
        {
            if keys_equal(&self.cameras[i].0, &key) {
                self.cameras[i].1 = (pos, camera);
                proof {
                    assert forall|a: int, b: int| 0 <= a < b < self.cameras@.len() implies (
                    #[trigger] self.cameras@[a]).0@ != (#[trigger] self.cameras@[b]).0@ by {
                        assert(old(self).cameras@[a].0@ != old(self).cameras@[b].0@);
                    }
                    assert forall|a: int| 0 <= a < self.cameras@.len() implies cam_wf(
                        (#[trigger] self.cameras@[a]).1.1@,
                    ) && bounded(self.cameras@[a].1.0@, COORD_MAX as int / 2) by {
                        if a != i as int {
                            assert(self.cameras@[a] == old(self).cameras@[a]);
                            assert(cam_wf(old(self).cameras()[a].1.1@));
                        }
                    }
                    lemma_find_key_found(self.cameras@, key@, i as int);
                }
                return;
            }
            i = i + 1;
        }
        self.cameras.push((key, (pos, camera)));
        proof {
            assert forall|a: int, b: int| 0 <= a < b < self.cameras@.len() implies (
            #[trigger] self.cameras@[a]).0@ != (#[trigger] self.cameras@[b]).0@ by {
                if b < n as int {
                    assert(old(self).cameras@[a].0@ != old(self).cameras@[b].0@);
                } else {
                    assert(self.cameras@[a] == old(self).cameras@[a]);
                }
            }
            assert forall|a: int| 0 <= a < self.cameras@.len() implies cam_wf(
                (#[trigger] self.cameras@[a]).1.1@,
            ) && bounded(self.cameras@[a].1.0@, COORD_MAX as int / 2) by {
                if a < n as int {
                    assert(self.cameras@[a] == old(self).cameras@[a]);
                    assert(cam_wf(old(self).cameras()[a].1.1@));
                }
            }
            lemma_find_key_found(self.cameras@, key@, n as int);
        }
    }

    /// Store (or replace) an object under `key`.
    pub fn add_object(&mut self, object: Geometry, pos: Vec3, material: Material, key: String)
        requires
            world_wf(old(self)),
            geom_wf(object),
            geom_normal_pre(object),
            mat_wf(material),
            bounded(pos@, COORD_MAX as int),
        ensures
            world_wf(final(self)),
            final(self).cameras() == old(self).cameras(),
            final(self).background() == old(self).background(),
            find_key(final(self).objects(), key@) >= 0,
            final(self).objects()[find_key(final(self).objects(), key@)].0@ == key@,
            final(self).objects()[find_key(final(self).objects(), key@)].1.pos == pos,
            final(self).objects()[find_key(final(self).objects(), key@)].1.geometry == object,
            final(self).objects()[find_key(final(self).objects(), key@)].1.material == material,
            old(self).objects().len() <= final(self).objects().len() <= old(self).objects().len()
                + 1,
            forall|j: int|
                0 <= j < old(self).objects().len() && (#[trigger] old(self).objects()[j]).0@
                    != key@ ==> final(self).objects()[j] == old(self).objects()[j],
    {
        let placed = PlacedObject { pos, geometry: object, material };
        let n: usize = self.objects.len();
        let mut i: usize = 0;
        while i < n
            invariant
                world_wf(old(self)),
                placed_wf(placed),
                placed.pos == pos,
                placed.geometry == object,
                placed.material == material,
                self.cameras@ == old(self).cameras@,
                self.objects@ == old(self).objects@,
                self.background == old(self).background,
                n == self.objects@.len(),
                i <= n,
                forall|j: int| 0 <= j < i ==> (#[trigger] self.objects@[j]).0@ != key@,
            decreases n - i,
        {
            if keys_equal(&self.objects[i].0, &key) {
                self.objects[i].1 = placed;
                proof {
                    assert forall|a: int, b: int| 0 <= a < b < self.objects@.len() implies (
                    #[trigger] self.objects@[a]).0@ != (#[trigger] self.objects@[b]).0@ by {
                        assert(old(self).objects@[a].0@ != old(self).objects@[b].0@);
                    }
                    assert forall|a: int| 0 <= a < self.objects@.len() implies placed_wf(
                        (#[trigger] self.objects@[a]).1,
                    ) by {
                        if a != i as int {
                            assert(self.objects@[a] == old(self).objects@[a]);
                            assert(placed_wf(old(self).objects()[a].1));
                        }
                    }
                    lemma_find_key_found(self.objects@, key@, i as int);
                }
                return;
            }
            i = i + 1;
        }
        self.objects.push((key, placed));
        proof {
            assert forall|a: int, b: int| 0 <= a < b < self.objects@.len() implies (
            #[trigger] self.objects@[a]).0@ != (#[trigger] self.objects@[b]).0@ by {
                if b < n as int {
                    assert(old(self).objects@[a].0@ != old(self).objects@[b].0@);
                } else {
                    assert(self.objects@[a] == old(self).objects@[a]);
                }
            }
            assert forall|a: int| 0 <= a < self.objects@.len() implies placed_wf(
                (#[trigger] self.objects@[a]).1,
            ) by {
                if a < n as int {
                    assert(self.objects@[a] == old(self).objects@[a]);
                    assert(placed_wf(old(self).objects()[a].1));
                }
            }
            lemma_find_key_found(self.objects@, key@, n as int);
        }
    }

    /// Nearest intersection of `ray` across all placed objects, with
    /// the owning object's key.
    pub fn intersection(&self, ray: &Ray) -> (r: Option<(Vec3, String)>)
        requires
            world_wf(self),
            ray_wf(ray@),
        ensures
            match r {
                Some((p, key)) => {
                    &&& closest_hit(self.objects(), ray@, TOL as int) matches Some((q, i)) && q
                        == p@ && self.objects()[i].0@ == key@
                    &&& bounded(p@, COORD_MAX as int)
                },
                None => closest_hit(self.objects(), ray@, TOL as int) is None,
            },
    {
        proof {
            lemma_closest_hit(self.objects(), ray@, TOL as int);
        }
        match self.intersection_indexed(ray) {
            Some((p, i)) => {
                let key: String = clone_string(&self.objects[i].0);
                Some((p, key))
            },
            None => None,
        }
    }

    /// The color carried by `ray`: recursive light transport, terminal
    /// at the bounce limit, with the background for escaping rays.
    pub fn ray_color(&self, ray: &Ray, num_bounces: u8, max_bounces: u8) -> (c: Color)
        requires
            world_wf(self),
            ray_wf(ray@),
        ensures
            ray_color_rel(
                self.objects(),
                self.background(),
                ray@,
                num_bounces as int,
                max_bounces as int,
                c,
            ),
            color_le(c, 255),
            num_bounces >= max_bounces ==> c == background_eval(self.background(), ray@),
        decreases max_bounces - num_bounces,
    {
        if num_bounces >= max_bounces {
            return self.background_color(ray);
        }
        let hit = self.intersection_indexed(ray);
        match hit {
            None => self.background_color(ray),
            Some((point, idx)) => {
                proof {
                    lemma_closest_hit(self.objects(), ray@, TOL as int);
                }
                let entry = &self.objects[idx];
                let bounce: Ray = entry.1.material.bounce(
                    ray,
                    &entry.1.geometry,
                    &entry.1.pos,
                    &point,
                );
                let next: Color = self.ray_color(&bounce, num_bounces + 1, max_bounces);
                let own: Color = entry.1.material.color();
                let refl: i64 = entry.1.material.reflectance();
                let out: Color = blend(own, next, refl);
                proof {
                    lemma_ray_color_step(
                        self.objects(),
                        self.background(),
                        ray@,
                        num_bounces as int,
                        max_bounces as int,
                        out,
                        point@,
                        idx as int,
                        bounce@,
                        next,
                    );
                }
                out
            },
        }
    }

    /// The background color in the direction of `ray`.
    fn background_color(&self, ray: &Ray) -> (c: Color)
        requires
            world_wf(self),
            ray_wf(ray@),
        ensures
            c == background_eval(self.background(), ray@),
            color_le(c, 255),
    {
        match &self.background {
            Background::Solid(c) => *c,
            Background::VerticalGradient { bottom, top } => {
                let a: i64 = crate::fx::div_small(ray.dir().y + SCALE, 2);
                blend(*bottom, *top, a)
            },
        }
    }

    /// Nearest intersection, returning the owning object's index.
    fn intersection_indexed(&self, ray: &Ray) -> (r: Option<(Vec3, usize)>)
        requires
            world_wf(self),
            ray_wf(ray@),
        ensures
            match r {
                Some((p, i)) => closest_hit(self.objects(), ray@, TOL as int) == Some((
                    p@,
                    i as int,
                )) && i < self.objects().len() && bounded(p@, COORD_MAX as int),
                None => closest_hit(self.objects(), ray@, TOL as int) is None,
            },
    {
        let n: usize = self.objects.len();
        let mut best: Option<(Vec3, usize)> = None;
        proof {
            assert(self.objects().subrange(0, 0) =~= Seq::<(String, PlacedObject)>::empty());
        }
        for i in 0..n
            invariant
                world_wf(self),
                ray_wf(ray@),
                n == self.objects().len(),
                match best {
                    Some((q, bi)) => closest_hit(
                        self.objects().subrange(0, i as int),
                        ray@,
                        TOL as int,
                    ) == Some((q@, bi as int)) && bi < i && bounded(q@, COORD_MAX as int),
                    None => closest_hit(self.objects().subrange(0, i as int), ray@, TOL as int)
                        is None,
                },
        {
            let entry = &self.objects[i];
            let hit: Option<Vec3> = entry.1.geometry.intersection_point(&entry.1.pos, ray, TOL);
            match hit {
                Some(p) => {
                    match &best {
                        Some((q, _)) => {
                            if ray.pos().dist_sq(&p) < ray.pos().dist_sq(q) {
                                best = Some((p, i));
                            }
                        },
                        None => {
                            best = Some((p, i));
                        },
                    }
                },
                None => {},
            }
            proof {
                let pre = self.objects().subrange(0, i as int + 1);
                assert(pre.drop_last() =~= self.objects().subrange(0, i as int));
                assert(pre.last() == self.objects()[i as int]);
            }
        }
        proof {
            assert(self.objects().subrange(0, n as int) =~= self.objects());
        }
        best
    }

    /// Render through the camera stored under `key`: emit the sampled
    /// rays, evaluate each recursively, and average same-pixel samples
    /// into the image.  Fails when the name is unknown.
    #[verifier::rlimit(100)]
    pub fn render(&self, key: String, max_bounces: u8, rays_per_pixel: u32) -> (r: Result<
        PPMImage,
        WorldError,
    >)
        requires
            world_wf(self),
            render_fits(self.cameras(), key@, rays_per_pixel as int),
        ensures
            match r {
                Ok(img) => {
                    &&& find_key(self.cameras(), key@) >= 0
                    &&& img.wf()
                    &&& img.width() == self.cameras()[find_key(self.cameras(), key@)].1.1@.iwidth
                    &&& img.height() == self.cameras()[find_key(self.cameras(), key@)].1.1@.iheight
                    &&& img.max_value() == 255
                    &&& exists|samples: Seq<(Color, usize, usize)>|
                        #[trigger] render_samples_ok(
                            self.objects(),
                            self.background(),
                            self.cameras()[find_key(self.cameras(), key@)].1.1@,
                            self.cameras()[find_key(self.cameras(), key@)].1.0@,
                            rays_per_pixel as int,
                            max_bounces as int,
                            samples,
                        ) && image_matches(&img, samples)
                },
                Err(e) => e == WorldError::CameraNotFound && find_key(self.cameras(), key@) == -1,
            },
    {
        let n: usize = self.cameras.len();
        let mut i: usize = 0;
        while i < n
            invariant
                world_wf(self),
                render_fits(self.cameras(), key@, rays_per_pixel as int),
                n == self.cameras@.len(),
                i <= n,
                forall|j: int| 0 <= j < i ==> (#[trigger] self.cameras@[j]).0@ != key@,
            decreases n - i,
        {
            if keys_equal(&self.cameras[i].0, &key) {
                proof {
                    lemma_find_key_found(self.cameras@, key@, i as int);
                    assert(cam_wf(self.cameras()[i as int].1.1@));
                    assert(bounded(self.cameras()[i as int].1.0@, COORD_MAX as int / 2));
                }
                let cam: Camera = self.cameras[i].1.1;
                let pos: Vec3 = self.cameras[i].1.0;
                proof {
                    assert(find_key(self.cameras(), key@) == i as int);
                    assert(cam@ == self.cameras()[i as int].1.1@);
                    assert(cam@.iwidth * cam@.iheight * rays_per_pixel <= 0x10000000);
                }
                let img = self.render_through(&cam, &pos, max_bounces, rays_per_pixel);
                return Ok(img);
            }
            i = i + 1;
        }
        proof {
            lemma_find_key_none(self.cameras@, key@);
        }
        Err(WorldError::CameraNotFound)
    }

    /// Render through one camera at one position.
    #[verifier::rlimit(100)]
    fn render_through(
        &self,
        cam: &Camera,
        pos: &Vec3,
        max_bounces: u8,
        rays_per_pixel: u32,
    ) -> (img: PPMImage)
        requires
            world_wf(self),
            cam_wf(cam@),
            bounded(pos@, COORD_MAX as int / 2),
            cam@.iwidth * cam@.iheight * rays_per_pixel <= 0x10000000,
        ensures
            img.wf(),
            img.width() == cam@.iwidth,
            img.height() == cam@.iheight,
            img.max_value() == 255,
            exists|samples: Seq<(Color, usize, usize)>|
                #[trigger] render_samples_ok(
                    self.objects(),
                    self.background(),
                    cam@,
                    pos@,
                    rays_per_pixel as int,
                    max_bounces as int,
                    samples,
                ) && image_matches(&img, samples),
    {
        let ghost camv = cam@;
        let ghost spp = rays_per_pixel as int;
        let ghost maxb = max_bounces as int;
        let rays: Vec<(Ray, usize, usize)> = cam.get_rays(pos, rays_per_pixel);
        let w: usize = cam.get_iwidth();
        let h: usize = cam.get_iheight();
        let m: usize = rays.len();
        let mut samples: Vec<(Color, usize, usize)> = Vec::new();
        let mut k: usize = 0;
        while k < m
            invariant
                world_wf(self),
                cam_wf(camv),
                m == rays@.len(),
                m == camv.iwidth * camv.iheight * spp,
                spp == rays_per_pixel as int,
                maxb == max_bounces as int,
                forall|j: int|
                    0 <= j < m ==> crate::camera::ray_entry_ok(
                        camv,
                        pos@,
                        spp,
                        j,
                        #[trigger] rays@[j],
                    ),
                k <= m,
                samples@.len() == k,
                forall|j: int|
                    0 <= j < k ==> render_sample_ok(
                        self.objects(),
                        self.background(),
                        camv,
                        pos@,
                        spp,
                        maxb,
                        j,
                        #[trigger] samples@[j],
                    ),
            decreases m - k,
        {
            let entry = &rays[k];
            proof {
                assert(crate::camera::ray_entry_ok(camv, pos@, spp, k as int, rays@[k as int]));
            }
            let c: Color = self.ray_color(&entry.0, 0, max_bounces);
            proof {
                assert(crate::camera::ray_sampled(
                    camv,
                    pos@,
                    entry.1 as int,
                    entry.2 as int,
                    entry.0@,
                ));
                assert(exists|rv: RayV|
                    #[trigger] crate::camera::ray_sampled(
                        camv,
                        pos@,
                        entry.1 as int,
                        entry.2 as int,
                        rv,
                    ) && ray_color_rel(self.objects(), self.background(), rv, 0, maxb, c)) by {
                    assert(crate::camera::ray_sampled(
                        camv,
                        pos@,
                        entry.1 as int,
                        entry.2 as int,
                        entry.0@,
                    ) && ray_color_rel(
                        self.objects(),
                        self.background(),
                        entry.0@,
                        0,
                        maxb,
                        c,
                    ));
                }
                assert(render_sample_ok(
                    self.objects(),
                    self.background(),
                    camv,
                    pos@,
                    spp,
                    maxb,
                    k as int,
                    (c, entry.1, entry.2),
                ));
            }
            samples.push((c, entry.1, entry.2));
            k = k + 1;
        }
        self.accumulate(samples, w, h, Ghost(camv), Ghost(pos@), Ghost(spp), Ghost(maxb))
    }

    /// Average the per-sample colors into an image, pixel by pixel:
    /// running sums plus one division per channel at the end.
    #[verifier::rlimit(100)]
    fn accumulate(
        &self,
        samples: Vec<(Color, usize, usize)>,
        w: usize,
        h: usize,
        Ghost(camv): Ghost<crate::camera::CamV>,
        Ghost(posv): Ghost<V3>,
        Ghost(spp): Ghost<int>,
        Ghost(maxb): Ghost<int>,
    ) -> (img: PPMImage)
        requires
            w == camv.iwidth,
            h == camv.iheight,
            1 <= w <= 0x100000,
            1 <= h <= 0x1000000,
            spp >= 0,
            samples@.len() == w * h * spp,
            samples@.len() <= 0x10000000,
            forall|j: int|
                0 <= j < samples@.len() ==> render_sample_ok(
                    self.objects(),
                    self.background(),
                    camv,
                    posv,
                    spp,
                    maxb,
                    j,
                    #[trigger] samples@[j],
                ),
        ensures
            img.wf(),
            img.width() == w,
            img.height() == h,
            img.max_value() == 255,
            render_samples_ok(
                self.objects(),
                self.background(),
                camv,
                posv,
                spp,
                maxb,
                samples@,
            ),
            image_matches(&img, samples@),
    {
        let mut sums: Vec<Vec<(u64, u64, u64, u64)>> = Vec::new();
        let mut x0: usize = 0;
        while x0 < w
            invariant
                x0 <= w,
                sums@.len() == x0,
                forall|a: int| 0 <= a < x0 ==> (#[trigger] sums@[a])@.len() == h,
                forall|a: int, b: int|
                    0 <= a < x0 && 0 <= b < h ==> #[trigger] sums@[a]@[b] == (0u64, 0u64, 0u64, 0u64),
            decreases w - x0,
        {
            let mut col: Vec<(u64, u64, u64, u64)> = Vec::new();
            let mut y0: usize = 0;
            while y0 < h
                invariant
                    y0 <= h,
                    col@.len() == y0,
                    forall|b: int| 0 <= b < y0 ==> #[trigger] col@[b] == (0u64, 0u64, 0u64, 0u64),
                decreases h - y0,
            {
                col.push((0u64, 0u64, 0u64, 0u64));
                y0 = y0 + 1;
            }
            sums.push(col);
            x0 = x0 + 1;
        }
        proof {
            assert forall|a: int, b: int| 0 <= a < w && 0 <= b < h implies sums_cell_ok(
                sums@[a]@[b],
                samples@.subrange(0, 0),
                a,
                b,
            ) by {
                assert(samples@.subrange(0, 0) =~= Seq::<(Color, usize, usize)>::empty());
            }
        }
        let m: usize = samples.len();
        let mut k: usize = 0;
        while k < m
            invariant
                m == samples@.len(),
                m <= 0x10000000,
                w >= 1,
                h >= 1,
                spp >= 0,
                m == w * h * spp,
                forall|j: int|
                    0 <= j < m ==> render_sample_ok(
                        self.objects(),
                        self.background(),
                        camv,
                        posv,
                        spp,
                        maxb,
                        j,
                        #[trigger] samples@[j],
                    ),
                w == camv.iwidth,
                h == camv.iheight,
                k <= m,
                sums@.len() == w,
                forall|a: int| 0 <= a < w ==> (#[trigger] sums@[a])@.len() == h,
                forall|a: int, b: int|
                    0 <= a < w && 0 <= b < h ==> sums_cell_ok(
                        #[trigger] sums@[a]@[b],
                        samples@.subrange(0, k as int),
                        a,
                        b,
                    ),
            decreases m - k,
        {
            let e: (Color, usize, usize) = samples[k];
            proof {
                assert(render_sample_ok(
                    self.objects(),
                    self.background(),
                    camv,
                    posv,
                    spp,
                    maxb,
                    k as int,
                    samples@[k as int],
                ));
                assert(spp > 0) by {
                    if spp == 0 {
                        assert(m == w * h * 0);
                        assert((w * h) * 0 == 0) by (nonlinear_arith);
                        assert(w * h * spp == (w * h) * spp);
                    }
                }
                assert((k as int) < spp * (camv.iwidth * camv.iheight)) by (nonlinear_arith)
                    requires
                        (k as int) < camv.iwidth * camv.iheight * spp,
                ;
                vstd::arithmetic::div_mod::lemma_multiply_divide_lt(
                    k as int,
                    spp,
                    camv.iwidth * camv.iheight,
                );
                assert((k as int) / spp < camv.iheight * camv.iwidth) by (nonlinear_arith)
                    requires
                        (k as int) / spp < camv.iwidth * camv.iheight,
                ;
                vstd::arithmetic::div_mod::lemma_multiply_divide_lt(
                    (k as int) / spp,
                    camv.iheight,
                    camv.iwidth,
                );
                vstd::arithmetic::div_mod::lemma_mod_division_less_than_divisor(
                    (k as int) / spp,
                    camv.iheight,
                );
                lemma_pixel_sums_bounds(samples@.subrange(0, k as int), e.1 as int, e.2 as int);
                assert(forall|j: int|
                    0 <= j < k ==> color_le(
                        (#[trigger] samples@.subrange(0, k as int)[j]).0,
                        255,
                    ));
                assert(e.1 < w && e.2 < h);
                assert(sums_cell_ok(
                    sums@[e.1 as int]@[e.2 as int],
                    samples@.subrange(0, k as int),
                    e.1 as int,
                    e.2 as int,
                ));
            }
            let x: usize = e.1;
            let y: usize = e.2;
            let cell: (u64, u64, u64, u64) = sums[x][y];
            sums[x][y] = (
                cell.0 + e.0.r as u64,
                cell.1 + e.0.g as u64,
                cell.2 + e.0.b as u64,
                cell.3 + 1,
            );
            proof {
                let pre = samples@.subrange(0, k as int + 1);
                assert(pre.drop_last() =~= samples@.subrange(0, k as int));
                assert(pre.last() == samples@[k as int]);
                assert forall|a: int, b: int| 0 <= a < w && 0 <= b < h implies sums_cell_ok(
                    #[trigger] sums@[a]@[b],
                    pre,
                    a,
                    b,
                ) by {
                    assert(sums_cell_ok(sums@[a]@[b], samples@.subrange(0, k as int), a, b)
                        || (a == x as int && b == y as int));
                }
            }
            k = k + 1;
        }
        proof {
            assert(samples@.subrange(0, m as int) =~= samples@);
        }
        let mut img: PPMImage = PPMImage::new(w, h, 255);
        let mut x: usize = 0;
        while x < w
            invariant
                m == samples@.len(),
                forall|j: int|
                    0 <= j < m ==> render_sample_ok(
                        self.objects(),
                        self.background(),
                        camv,
                        posv,
                        spp,
                        maxb,
                        j,
                        #[trigger] samples@[j],
                    ),
                x <= w,
                sums@.len() == w,
                forall|a: int| 0 <= a < w ==> (#[trigger] sums@[a])@.len() == h,
                forall|a: int, b: int|
                    0 <= a < w && 0 <= b < h ==> sums_cell_ok(
                        #[trigger] sums@[a]@[b],
                        samples@,
                        a,
                        b,
                    ),
                img.wf(),
                img.width() == w,
                img.height() == h,
                img.max_value() == 255,
                forall|a: int, b: int|
                    0 <= a < x && 0 <= b < h ==> #[trigger] img.pixel(a, b) == pixel_average(
                        samples@,
                        a,
                        b,
                    ),
            decreases w - x,
        {
            let mut y: usize = 0;
            while y < h
                invariant
                    m == samples@.len(),
                    forall|j: int|
                        0 <= j < m ==> render_sample_ok(
                            self.objects(),
                            self.background(),
                            camv,
                            posv,
                            spp,
                            maxb,
                            j,
                            #[trigger] samples@[j],
                        ),
                    x < w,
                    y <= h,
                    sums@.len() == w,
                    forall|a: int| 0 <= a < w ==> (#[trigger] sums@[a])@.len() == h,
                    forall|a: int, b: int|
                        0 <= a < w && 0 <= b < h ==> sums_cell_ok(
                            #[trigger] sums@[a]@[b],
                            samples@,
                            a,
                            b,
                        ),
                    img.wf(),
                    img.width() == w,
                    img.height() == h,
                    img.max_value() == 255,
                    forall|a: int, b: int|
                        0 <= a < x && 0 <= b < h ==> #[trigger] img.pixel(a, b) == pixel_average(
                            samples@,
                            a,
                            b,
                        ),
                    forall|b: int|
                        0 <= b < y ==> #[trigger] img.pixel(x as int, b) == pixel_average(
                            samples@,
                            x as int,
                            b,
                        ),
                decreases h - y,
            {
                let cell: (u64, u64, u64, u64) = sums[x][y];
                proof {
                    lemma_pixel_average_le(samples@, x as int, y as int);
                    lemma_pixel_sums_bounds(samples@, x as int, y as int);
                }
                let c: Color = if cell.3 == 0 {
                    Color::black()
                } else {
                    Color::new(
                        (cell.0 / cell.3) as u32,
                        (cell.1 / cell.3) as u32,
                        (cell.2 / cell.3) as u32,
                    )
                };
                proof {
                    assert(c == pixel_average(samples@, x as int, y as int));
                }
                img.change_pixel(x, y, c);
                y = y + 1;
            }
            x = x + 1;
        }
        img
    }

    /// Move the camera stored under `key` to `new_pos`; fails when the
    /// name is unknown.
    pub fn move_camera_to(&mut self, new_pos: Vec3, key: String) -> (r: Result<(), WorldError>)
        requires
            world_wf(old(self)),
            bounded(new_pos@, COORD_MAX as int / 2),
        ensures
            world_wf(final(self)),
            final(self).objects() == old(self).objects(),
            final(self).background() == old(self).background(),
            match r {
                Ok(()) => {
                    let i = find_key(old(self).cameras(), key@);
                    &&& i >= 0
                    &&& final(self).cameras() == old(self).cameras().update(
                        i,
                        (
                            old(self).cameras()[i].0,
                            (new_pos, old(self).cameras()[i].1.1),
                        ),
                    )
                },
                Err(e) => e == WorldError::CameraNotFound && find_key(old(self).cameras(), key@)
                    == -1 && final(self).cameras() == old(self).cameras(),
            },
    {
        let n: usize = self.cameras.len();
        let mut i: usize = 0;
        while i < n
            invariant
                world_wf(old(self)),
                bounded(new_pos@, COORD_MAX as int / 2),
                n == self.cameras@.len(),
                i <= n,
                self.cameras@ == old(self).cameras@,
                self.objects@ == old(self).objects@,
                self.background == old(self).background,
                forall|j: int| 0 <= j < i ==> (#[trigger] self.cameras@[j]).0@ != key@,
            decreases n - i,
        {
            if keys_equal(&self.cameras[i].0, &key) {
                proof {
                    lemma_find_key_found(self.cameras@, key@, i as int);
                }
                let cam: Camera = self.cameras[i].1.1;
                self.cameras[i].1 = (new_pos, cam);
                proof {
                    assert(self.cameras@ =~= old(self).cameras().update(
                        i as int,
                        (
                            old(self).cameras()[i as int].0,
                            (new_pos, old(self).cameras()[i as int].1.1),
                        ),
                    ));
                    assert forall|a: int, b: int| 0 <= a < b < self.cameras@.len() implies (
                    #[trigger] self.cameras@[a]).0@ != (#[trigger] self.cameras@[b]).0@ by {
                        assert(old(self).cameras@[a].0@ != old(self).cameras@[b].0@);
                    }
                    assert forall|a: int| 0 <= a < self.cameras@.len() implies cam_wf(
                        (#[trigger] self.cameras@[a]).1.1@,
                    ) && bounded(self.cameras@[a].1.0@, COORD_MAX as int / 2) by {
                        assert(cam_wf(old(self).cameras()[a].1.1@));
                        if a != i as int {
                            assert(self.cameras@[a] == old(self).cameras@[a]);
                        }
                    }
                }
                return Ok(());
            }
            i = i + 1;
        }
        proof {
            lemma_find_key_none(self.cameras@, key@);
        }
        Err(WorldError::CameraNotFound)
    }

    /// Re-aim the camera stored under `key` at `target`: the stored
    /// camera is replaced by exactly what its own look-at yields, with
    /// its key and position kept and every other entry untouched.
    /// Fails with `CameraNotFound` when the name is unknown, and with
    /// `DegenerateOrientation` exactly when the target coincides with
    /// the camera position or the look-at itself is degenerate.
    pub fn make_camera_lookat(&mut self, target: Vec3, key: String) -> (r: Result<(), WorldError>)
        requires
            world_wf(old(self)),
            bounded(target@, COORD_MAX as int / 2),
        ensures
            world_wf(final(self)),
            final(self).objects() == old(self).objects(),
            final(self).background() == old(self).background(),
            match r {
                Ok(()) => {
                    let i = find_key(old(self).cameras(), key@);
                    &&& i >= 0
                    &&& lookat_spec(
                        old(self).cameras()[i].1.1@,
                        target@,
                        old(self).cameras()[i].1.0@,
                    ) == Ok::<_, CameraError>(final(self).cameras()[i].1.1@)
                    &&& final(self).cameras() == old(self).cameras().update(
                        i,
                        (
                            old(self).cameras()[i].0,
                            (old(self).cameras()[i].1.0, final(self).cameras()[i].1.1),
                        ),
                    )
                },
                Err(WorldError::CameraNotFound) => find_key(old(self).cameras(), key@) == -1
                    && final(self).cameras() == old(self).cameras(),
                Err(WorldError::DegenerateOrientation) => {
                    let i = find_key(old(self).cameras(), key@);
                    &&& i >= 0
                    &&& final(self).cameras() == old(self).cameras()
                    &&& (is_zero(vsub(target@, old(self).cameras()[i].1.0@)) || lookat_spec(
                        old(self).cameras()[i].1.1@,
                        target@,
                        old(self).cameras()[i].1.0@,
                    ) is Err)
                },
            },
    {
        let n: usize = self.cameras.len();
        let mut i: usize = 0;
        while i < n
            invariant
                world_wf(old(self)),
                bounded(target@, COORD_MAX as int / 2),
                n == self.cameras@.len(),
                i <= n,
                self.cameras@ == old(self).cameras@,
                self.objects@ == old(self).objects@,
                self.background == old(self).background,
                forall|j: int| 0 <= j < i ==> (#[trigger] self.cameras@[j]).0@ != key@,
            decreases n - i,
        {
            if keys_equal(&self.cameras[i].0, &key) {
                proof {
                    lemma_find_key_found(self.cameras@, key@, i as int);
                    assert(cam_wf(old(self).cameras()[i as int].1.1@));
                    assert(bounded(old(self).cameras()[i as int].1.0@, COORD_MAX as int / 2));
                }
                let pos: Vec3 = self.cameras[i].1.0;
                let mut cam: Camera = self.cameras[i].1.1;
                let same: Vec3 = target.sub(&pos);
                if same.x == 0 && same.y == 0 && same.z == 0 {
                    return Err(WorldError::DegenerateOrientation);
                }
                let la = cam.lookat(target, pos);
                match la {
                    Ok(()) => {
                        self.cameras[i].1 = (pos, cam);
                        proof {
                            assert(self.cameras@ =~= old(self).cameras@.update(
                                i as int,
                                (
                                    old(self).cameras@[i as int].0,
                                    (old(self).cameras@[i as int].1.0, cam),
                                ),
                            ));
                            assert forall|a: int, b: int| 0 <= a < b < self.cameras@.len() implies (
                            #[trigger] self.cameras@[a]).0@ != (#[trigger] self.cameras@[b]).0@ by {
                                assert(self.cameras@[i as int].0@ == old(self).cameras@[i as int].0@);
                                if a != i as int {
                                    assert(self.cameras@[a] == old(self).cameras@[a]);
                                }
                                if b != i as int {
                                    assert(self.cameras@[b] == old(self).cameras@[b]);
                                }
                                assert(old(self).cameras@[a].0@ != old(self).cameras@[b].0@);
                            }
                            assert forall|a: int| 0 <= a < self.cameras@.len() implies cam_wf(
                                (#[trigger] self.cameras@[a]).1.1@,
                            ) && bounded(self.cameras@[a].1.0@, COORD_MAX as int / 2) by {
                                assert(cam_wf(old(self).cameras()[a].1.1@));
                                if a != i as int {
                                    assert(self.cameras@[a] == old(self).cameras@[a]);
                                }
                            }
                        }
                        return Ok(());
                    },
                    Err(CameraError::DegenerateOrientation) => {
                        return Err(WorldError::DegenerateOrientation);
                    },
                }
            }
            i = i + 1;
        }
        proof {
            lemma_find_key_none(self.cameras@, key@);
        }
        Err(WorldError::CameraNotFound)
    }
}

/// String equality at the byte level.
fn keys_equal(a: &String, b: &String) -> (r: bool)
    ensures
        r == (a@ == b@),
{
    a.eq(b)
}

/// An owned copy of a string.
fn clone_string(s: &String) -> (r: String)
    ensures
        r@ == s@,
{
    s.clone()
}

/// If all keys before `i` differ and `s[i]` holds the key, `find_key`
/// returns `i`.
proof fn lemma_find_key_found<T>(s: Seq<(String, T)>, key: Seq<char>, i: int)
    requires
        0 <= i < s.len(),
        s[i].0@ == key,
        forall|j: int| 0 <= j < i ==> (#[trigger] s[j]).0@ != key,
    ensures
        find_key(s, key) == i,
    decreases s.len(),
{
    if i > 0 {
        assert(forall|j: int|
            1 <= j < s.len() ==> (#[trigger] s[j]) == s.drop_first()[j - 1]);
        lemma_find_key_found(s.drop_first(), key, i - 1);
    }
}

/// If no entry holds the key, `find_key` returns -1.
proof fn lemma_find_key_none<T>(s: Seq<(String, T)>, key: Seq<char>)
    requires
        forall|j: int| 0 <= j < s.len() ==> (#[trigger] s[j]).0@ != key,
    ensures
        find_key(s, key) == -1,
    decreases s.len(),
{
    if s.len() > 0 {
        assert(forall|j: int|
            1 <= j < s.len() ==> (#[trigger] s[j]) == s.drop_first()[j - 1]);
        lemma_find_key_none(s.drop_first(), key);
    }
}

} // verus!
