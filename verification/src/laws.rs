//! General laws of the renderer, stated and proved over the library's
//! own specifications.

use vstd::prelude::*;
use crate::camera::{cam_wf, ray_entry_ok, CamV};
use crate::color::Color;
use crate::fx::{absi, fxdiv, fxmul, sqrt_floor, tdiv, SCALE, lemma_abs_mul, lemma_mul_signs,
    lemma_sqrt_floor_square};
use crate::ray::{ray_at, Ray, RayV};
use crate::sphere::sphere_hit;
use crate::triangle::{inside_edges, tri_hit, TriV};
use crate::vec3::{bounded, vadd, vdot, vscale, vsub, V3, COORD_MAX, OP_MAX};
use crate::world::{
    background_eval, pixel_average, pixel_sums, ray_color_rel, Background, PlacedObject,
};

verus! {

/// A triangle intersection reports a point exactly when the plane hit
/// lies strictly inside all three edge planes: every returned point
/// passes the edge-sign test positively, and a plane hit outside any
/// edge yields no intersection.
pub proof fn lemma_triangle_hit_inside(t: TriV, pos: V3, r: RayV, tol: int)
    ensures
        tri_hit(t, pos, r, tol) matches Some(p) ==> inside_edges(
            t.snorm,
            vadd(pos, t.v1),
            vadd(pos, t.v2),
            vadd(pos, t.v3),
            p,
        ),
        ({
            let p1 = vadd(pos, t.v1);
            let p2 = vadd(pos, t.v2);
            let p3 = vadd(pos, t.v3);
            let den = vdot(t.snorm, r.dir);
            let tt = fxdiv(-(vdot(t.snorm, r.pt) + -vdot(t.snorm, p1)), den);
            den != 0 && tt > tol && tt <= OP_MAX as int && bounded(
                ray_at(r, tt),
                COORD_MAX as int,
            ) && !inside_edges(t.snorm, p1, p2, p3, ray_at(r, tt)) ==> tri_hit(t, pos, r, tol)
                is None
        }),
        ({
            let p1 = vadd(pos, t.v1);
            let p2 = vadd(pos, t.v2);
            let p3 = vadd(pos, t.v3);
            let den = vdot(t.snorm, r.dir);
            let tt = fxdiv(-(vdot(t.snorm, r.pt) + -vdot(t.snorm, p1)), den);
            den != 0 && tt > tol && tt <= OP_MAX as int && bounded(
                ray_at(r, tt),
                COORD_MAX as int,
            ) && inside_edges(t.snorm, p1, p2, p3, ray_at(r, tt)) ==> tri_hit(t, pos, r, tol)
                == Some(ray_at(r, tt))
        }),
{
}

/// At the bounce limit the transported color is the background,
/// whatever the scene holds.
pub proof fn lemma_ray_color_terminal(
    objs: Seq<(String, PlacedObject)>,
    bg: Background,
    r: RayV,
    depth: int,
    max: int,
    c: Color,
)
    requires
        ray_color_rel(objs, bg, r, depth, max, c),
        depth >= max,
    ensures
        c == background_eval(bg, r),
{
}

/// The incremental pixel mean is order-independent: averaging three
/// colors in any order yields the same pixel.
pub proof fn lemma_average_order_independent(
    c1: Color,
    c2: Color,
    c3: Color,
    x: usize,
    y: usize,
)
    ensures
        pixel_average(seq![(c1, x, y), (c2, x, y), (c3, x, y)], x as int, y as int)
            == pixel_average(seq![(c2, x, y), (c1, x, y), (c3, x, y)], x as int, y as int),
        pixel_average(seq![(c1, x, y), (c2, x, y), (c3, x, y)], x as int, y as int)
            == pixel_average(seq![(c3, x, y), (c2, x, y), (c1, x, y)], x as int, y as int),
        pixel_average(seq![(c1, x, y), (c2, x, y), (c3, x, y)], x as int, y as int)
            == pixel_average(seq![(c1, x, y), (c3, x, y), (c2, x, y)], x as int, y as int),
        pixel_average(seq![(c1, x, y), (c2, x, y), (c3, x, y)], x as int, y as int)
            == pixel_average(seq![(c2, x, y), (c3, x, y), (c1, x, y)], x as int, y as int),
        pixel_average(seq![(c1, x, y), (c2, x, y), (c3, x, y)], x as int, y as int)
            == pixel_average(seq![(c3, x, y), (c1, x, y), (c2, x, y)], x as int, y as int),
{
    lemma_sums3(c1, c2, c3, x, y);
    lemma_sums3(c2, c1, c3, x, y);
    lemma_sums3(c3, c2, c1, x, y);
    lemma_sums3(c1, c3, c2, x, y);
    lemma_sums3(c2, c3, c1, x, y);
    lemma_sums3(c3, c1, c2, x, y);
}

/// The pixel sums of three same-pixel samples are the channel sums.
proof fn lemma_sums3(a: Color, b: Color, c: Color, x: usize, y: usize)
    ensures
        pixel_sums(seq![(a, x, y), (b, x, y), (c, x, y)], x as int, y as int) == (
            a.r + b.r + c.r,
            a.g + b.g + c.g,
            a.b + b.b + c.b,
            3int,
        ),
{
    let s = seq![(a, x, y), (b, x, y), (c, x, y)];
    let xi = x as int;
    let yi = y as int;
    assert(s.drop_last() =~~= seq![(a, x, y), (b, x, y)]);
    assert(seq![(a, x, y), (b, x, y)].drop_last() =~~= seq![(a, x, y)]);
    assert(seq![(a, x, y)].drop_last() =~~= Seq::<(Color, usize, usize)>::empty());
    assert(pixel_sums(Seq::<(Color, usize, usize)>::empty(), xi, yi) == (0int, 0int, 0int, 0int));
    assert(seq![(a, x, y)].last() == (a, x, y));
    assert(pixel_sums(seq![(a, x, y)], xi, yi) == (a.r as int, a.g as int, a.b as int, 1int));
    assert(seq![(a, x, y), (b, x, y)].last() == (b, x, y));
    assert(pixel_sums(seq![(a, x, y), (b, x, y)], xi, yi) == (
        a.r + b.r,
        a.g + b.g,
        a.b + b.b,
        2int,
    ));
    assert(s.last() == (c, x, y));
}

/// Pixel (x, y) owns exactly the batch slot at index
/// x * height + y, whose origin is the camera position itself.
pub open spec fn one_per_pixel(
    c: CamV,
    pos: V3,
    r: Seq<(Ray, usize, usize)>,
    x: int,
    y: int,
) -> bool {
    let k = x * c.iheight + y;
    &&& 0 <= k < r.len()
    &&& r[k].1 as int == x
    &&& r[k].2 as int == y
    &&& r[k].0@.pt == pos
}

/// With one sample per pixel and no defocus, a camera batch holds
/// exactly one ray per pixel: the slot of pixel (x, y) is index
/// x * height + y, and every origin is the camera position itself.
pub proof fn lemma_single_sample_covers(
    c: CamV,
    pos: V3,
    r: Seq<(Ray, usize, usize)>,
)
    requires
        cam_wf(c),
        c.defangle == 0,
        r.len() == c.iwidth * c.iheight * 1,
        forall|k: int| 0 <= k < r.len() ==> ray_entry_ok(c, pos, 1, k, #[trigger] r[k]),
    ensures
        r.len() == c.iwidth * c.iheight,
        forall|x: int, y: int|
            0 <= x < c.iwidth && 0 <= y < c.iheight ==> #[trigger] one_per_pixel(c, pos, r, x, y),
        forall|k: int| 0 <= k < r.len() ==> (#[trigger] r[k]).0@.pt == pos,
{
    assert(c.iwidth * c.iheight * 1 == c.iwidth * c.iheight) by (nonlinear_arith);
    assert forall|x: int, y: int|
        0 <= x < c.iwidth && 0 <= y < c.iheight implies #[trigger] one_per_pixel(
        c,
        pos,
        r,
        x,
        y,
    ) by {
        let k = x * c.iheight + y;
        assert(0 <= k && k < c.iwidth * c.iheight) by (nonlinear_arith)
            requires
                0 <= x < c.iwidth,
                0 <= y < c.iheight,
                k == x * c.iheight + y,
        ;
        assert(ray_entry_ok(c, pos, 1, k, r[k]));
        assert(k / 1 == k);
        vstd::arithmetic::div_mod::lemma_fundamental_div_mod_converse(k, c.iheight, x, y);
    }
}

/// A ray fired along an axis straight at a sphere's center from outside
/// hits at parameter exactly the center distance minus the radius,
/// whenever the radius and distance are multiples of 1/256 (so their
/// squares are exact in the scale).
pub proof fn lemma_sphere_head_on(center: V3, rad: int, d: int, tol: int)
    requires
        0 <= tol,
        0 < rad <= COORD_MAX as int / 2,
        tol < d - rad,
        d <= COORD_MAX as int / 2,
        rad % 256 == 0,
        d % 256 == 0,
        bounded(center, COORD_MAX as int / 2),
    ensures
        ({
            let r = RayV {
                pt: vsub(center, V3 { x: d, y: 0, z: 0 }),
                dir: V3 { x: SCALE as int, y: 0, z: 0 },
            };
            sphere_hit(rad, center, r, tol) == Some(vsub(center, V3 { x: rad, y: 0, z: 0 }))
        }),
{
    let s = SCALE as int;
    let o = vsub(center, V3 { x: d, y: 0, z: 0 });
    let dirv = V3 { x: s, y: 0, z: 0 };
    let r = RayV { pt: o, dir: dirv };
    let dk = d / 256;
    let rk = rad / 256;
    vstd::arithmetic::div_mod::lemma_fundamental_div_mod(d, 256);
    vstd::arithmetic::div_mod::lemma_fundamental_div_mod(rad, 256);
    assert(d == dk * 256);
    assert(rad == rk * 256);
    vstd::arithmetic::div_mod::lemma_div_pos_is_pos(d, 256);
    vstd::arithmetic::div_mod::lemma_div_pos_is_pos(rad, 256);
    // the quadratic's coefficients are exact
    lemma_exact_cancel(s, s);
    let a = vdot(r.dir, r.dir);
    assert(a == tdiv(s * s, s) + tdiv(0int * 0int, s) + tdiv(0int * 0int, s));
    assert(tdiv(0int * 0int, s) == 0) by {
        assert(0int * 0int == 0) by (nonlinear_arith);
    }
    assert(a == s);
    let w = vsub(r.pt, center);
    assert(w == (V3 { x: -d, y: 0, z: 0 }));
    lemma_exact_cancel(-d, s);
    assert(vdot(r.dir, w) == tdiv(s * -d, s) + 0 + 0) by {
        assert(s * -d == -d * s) by (nonlinear_arith);
    }
    assert(vdot(r.dir, w) == -d);
    let b = 2 * vdot(r.dir, w);
    assert(b == -2 * d);
    // the squares of the distance and the radius are exact
    assert(tdiv(-d * -d, s) == dk * dk) by {
        assert(-d * -d == (dk * dk) * s) by (nonlinear_arith)
            requires
                d == dk * 256,
                s == 65536,
        ;
        lemma_exact_cancel(dk * dk, s);
    }
    assert(tdiv(rad * rad, s) == rk * rk) by {
        assert(rad * rad == (rk * rk) * s) by (nonlinear_arith)
            requires
                rad == rk * 256,
                s == 65536,
        ;
        lemma_exact_cancel(rk * rk, s);
    }
    let cc = vdot(w, w) - fxmul(rad, rad);
    assert(vdot(w, w) == dk * dk);
    assert(cc == dk * dk - rk * rk);
    // the discriminant is (2 rad)^2 / scale
    let disc = fxmul(b, b) - 4 * fxmul(a, cc);
    assert(fxmul(b, b) == 4 * (dk * dk)) by {
        assert(b * b == (4 * (dk * dk)) * s) by (nonlinear_arith)
            requires
                b == -2 * d,
                d == dk * 256,
                s == 65536,
        ;
        lemma_exact_cancel(4 * (dk * dk), s);
    }
    assert(fxmul(a, cc) == cc) by {
        assert(a * cc == cc * s) by (nonlinear_arith)
            requires
                a == s,
        ;
        lemma_exact_cancel(cc, s);
    }
    assert(disc == 4 * (rk * rk));
    assert(disc >= 0) by (nonlinear_arith)
        requires
            disc == 4 * (rk * rk),
            rk >= 0,
    ;
    // its square root is exactly twice the radius
    let sq = sqrt_floor(disc * s);
    assert(disc * s == (2 * rad) * (2 * rad)) by (nonlinear_arith)
        requires
            disc == 4 * (rk * rk),
            rad == rk * 256,
            s == 65536,
    ;
    lemma_sqrt_floor_square(2 * rad);
    assert(sq == 2 * rad);
    // the two roots are the far and the near surface crossing
    let t1 = fxdiv(-b + sq, 2 * a);
    let t2 = fxdiv(-b - sq, 2 * a);
    assert(t1 == d + rad) by {
        assert((-b + sq) * s == (d + rad) * (2 * s)) by (nonlinear_arith)
            requires
                b == -2 * d,
                sq == 2 * rad,
        ;
        lemma_exact_cancel2(d + rad, 2 * s);
    }
    assert(t2 == d - rad) by {
        assert((-b - sq) * s == (d - rad) * (2 * s)) by (nonlinear_arith)
            requires
                b == -2 * d,
                sq == 2 * rad,
        ;
        lemma_exact_cancel2(d - rad, 2 * s);
    }
    assert(t2 < t1);
    let t = t2;
    // the hit point is the surface point facing the origin
    lemma_exact_cancel(t, s);
    assert(vscale(t, r.dir) == (V3 { x: t, y: 0, z: 0 })) by {
        assert(fxmul(t, s) == t) by {
            lemma_exact_cancel(t, s);
        }
        assert(fxmul(t, 0) == 0) by {
            assert(t * 0 == 0) by (nonlinear_arith);
        }
    }
    assert(ray_at(r, t) == vsub(center, V3 { x: rad, y: 0, z: 0 }));
    assert(bounded(ray_at(r, t), COORD_MAX as int));
    assert(t <= OP_MAX as int);
}

/// Multiplying by the divisor and dividing again is the identity, for
/// the truncating division.
proof fn lemma_exact_cancel(q: int, s: int)
    requires
        s > 0,
    ensures
        tdiv(q * s, s) == q,
{
    lemma_mul_signs(q, s);
    lemma_abs_mul(q, s);
    vstd::arithmetic::div_mod::lemma_div_by_multiple(absi(q), s);
    assert(absi(q) * s == absi(q * s));
}

/// The same, stated as a fixed-point quotient: (q k) / k scaled back.
proof fn lemma_exact_cancel2(q: int, den: int)
    requires
        den > 0,
    ensures
        tdiv(q * den, den) == q,
{
    lemma_exact_cancel(q, den);
}

} // verus!
