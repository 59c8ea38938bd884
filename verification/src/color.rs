//! Integer RGB colors and the blending rule of the light-transport
//! recursion.

use vstd::prelude::*;
use crate::fx::SCALE;

verus! {

/// An RGB triple of integer channel values.
#[derive(Clone, Copy, Debug, PartialEq, Eq, Structural)]
pub struct Color {
    pub r: u32,
    pub g: u32,
    pub b: u32,
}

/// Every channel is at most `m`.
pub open spec fn color_le(c: Color, m: int) -> bool {
    c.r <= m && c.g <= m && c.b <= m
}

/// One blended channel: `(1 - refl) * base + refl * next`, evaluated in
/// fixed point and rounded down.
pub open spec fn blend_channel(base: int, next: int, refl: int) -> int {
    ((SCALE as int - refl) * base + refl * next) / (SCALE as int)
}

/// Blend a material's own color with the color returned by the next
/// bounce, weighting the latter by the material's reflectance.
pub open spec fn blend_spec(base: Color, next: Color, refl: int) -> Color {
    Color {
        r: blend_channel(base.r as int, next.r as int, refl) as u32,
        g: blend_channel(base.g as int, next.g as int, refl) as u32,
        b: blend_channel(base.b as int, next.b as int, refl) as u32,
    }
}

/// A blended channel stays within the range of its operands.
pub proof fn lemma_blend_channel_le(base: int, next: int, refl: int, m: int)
    requires
        0 <= refl <= SCALE as int,
        0 <= base <= m,
        0 <= next <= m,
    ensures
        0 <= blend_channel(base, next, refl) <= m,
{
    assert((SCALE as int - refl) * base + refl * next <= (SCALE as int) * m) by (nonlinear_arith)
        requires
            0 <= refl <= SCALE as int,
            0 <= base <= m,
            0 <= next <= m,
    ;
    crate::fx::lemma_mul_signs(SCALE as int - refl, base);
    crate::fx::lemma_mul_signs(refl, next);
    vstd::arithmetic::div_mod::lemma_div_is_ordered(
        (SCALE as int - refl) * base + refl * next,
        (SCALE as int) * m,
        SCALE as int,
    );
    vstd::arithmetic::div_mod::lemma_div_by_multiple(m, SCALE as int);
    assert(m * (SCALE as int) == (SCALE as int) * m);
    vstd::arithmetic::div_mod::lemma_div_pos_is_pos(
        (SCALE as int - refl) * base + refl * next,
        SCALE as int,
    );
}

fn blend_channel_exec(base: u32, next: u32, refl: i64) -> (r: u32)
    requires
        0 <= refl <= SCALE,
        base <= 255,
        next <= 255,
    ensures
        r == blend_channel(base as int, next as int, refl as int),
        r <= 255,
{
    proof {
        lemma_blend_channel_le(base as int, next as int, refl as int, 255);
    }
    let num: u64 = ((SCALE - refl) as u64) * (base as u64) + (refl as u64) * (next as u64);
    (num / (SCALE as u64)) as u32
}

/// Blend two colors with the given reflectance weight (both colors must
/// be 8-bit).
pub fn blend(base: Color, next: Color, refl: i64) -> (r: Color)
    requires
        0 <= refl <= SCALE,
        color_le(base, 255),
        color_le(next, 255),
    ensures
        r == blend_spec(base, next, refl as int),
        color_le(r, 255),
{
    proof {
        lemma_blend_channel_le(base.r as int, next.r as int, refl as int, 255);
        lemma_blend_channel_le(base.g as int, next.g as int, refl as int, 255);
        lemma_blend_channel_le(base.b as int, next.b as int, refl as int, 255);
    }
    Color {
        r: blend_channel_exec(base.r, next.r, refl),
        g: blend_channel_exec(base.g, next.g, refl),
        b: blend_channel_exec(base.b, next.b, refl),
    }
}

impl Color {
    /// Build a color from its channels.
    pub fn new(r: u32, g: u32, b: u32) -> (c: Color)
        ensures
            c.r == r,
            c.g == g,
            c.b == b,
    {
        Color { r, g, b }
    }

    /// Black: all channels zero.
    pub fn black() -> (c: Color)
        ensures
            c.r == 0,
            c.g == 0,
            c.b == 0,
    {
        Color { r: 0, g: 0, b: 0 }
    }
}

} // verus!
