//! Colours, and the linear blend that fades one colour into another.

use crate::fixed::{div_floor, lemma_product_bound, ONE};
use vstd::prelude::*;

verus! {

/// A colour with four channels of eight bits each.
#[derive(Clone, Copy, Debug, PartialEq, Eq, Structural)]
pub struct Color {
    pub r: u8,
    pub g: u8,
    pub b: u8,
    pub a: u8,
}

/// One channel of a blend: `bg * (1 - alpha) + fg * alpha`, rounded down and
/// held to the channel's range. `alpha` is in millionths.
pub open spec fn blend_channel(bg: u8, fg: u8, alpha: int) -> u8 {
    let v = (bg * (ONE - alpha) + fg * alpha) / (ONE as int);
    if v < 0 {
        0u8
    } else if v > 255 {
        255u8
    } else {
        v as u8
    }
}

/// Linear interpolation from `self`, at `alpha = 0`, to `other`, at `alpha = 1`.
pub trait Lerp<Rhs = Self>: Sized {
    /// The blend that `lerp` returns.
    spec fn spec_lerp(&self, other: &Rhs, alpha: int) -> Self;

    fn lerp(&self, other: &Rhs, alpha: i64) -> (blend: Self)
        ensures
            blend == self.spec_lerp(other, alpha as int),
    ;
}

/// Blends one channel.
fn lerp_channel(bg: u8, fg: u8, alpha: i64) -> (c: u8)
    ensures
        c == blend_channel(bg, fg, alpha as int),
{
    let rest: i128 = ONE as i128 - alpha as i128;
    proof {
        lemma_product_bound(bg as int, rest as int, 255, 0x1_0000_0000_0000_0000);
        lemma_product_bound(fg as int, alpha as int, 255, 0x1_0000_0000_0000_0000);
    }
    let v: i128 = div_floor(bg as i128 * rest + fg as i128 * alpha as i128, ONE as i128);
    if v < 0 {
        0
    } else if v > 255 {
        255
    } else {
        v as u8
    }
}

impl Color {
    /// Opaque black, the background that the curves fade into.
    pub open spec fn spec_black() -> Color {
        Color { r: 0, g: 0, b: 0, a: 255 }
    }

    /// Opaque black.
    pub fn black() -> (c: Color)
        ensures
            c == Color::spec_black(),
    {
        Color { r: 0, g: 0, b: 0, a: 255 }
    }

    /// The opaque colour `0xRRGGBB`; bits above the lowest 24 are ignored.
    pub fn from_hex(hex: u32) -> (c: Color)
        ensures
            c.r == (hex / 0x1_0000) % 0x100,
            c.g == (hex / 0x100) % 0x100,
            c.b == hex % 0x100,
            c.a == 255,
    {
        Color {
            r: ((hex / 0x1_0000) % 0x100) as u8,
            g: ((hex / 0x100) % 0x100) as u8,
            b: (hex % 0x100) as u8,
            a: 255,
        }
    }
}

impl Lerp for Color {
    open spec fn spec_lerp(&self, other: &Color, alpha: int) -> Color {
        Color {
            r: blend_channel(self.r, other.r, alpha),
            g: blend_channel(self.g, other.g, alpha),
            b: blend_channel(self.b, other.b, alpha),
            a: blend_channel(self.a, other.a, alpha),
        }
    }

    /// Blends every channel, the alpha channel included, by the same rule.
    fn lerp(&self, other: &Color, alpha: i64) -> (blend: Color) {
        Color {
            r: lerp_channel(self.r, other.r, alpha),
            g: lerp_channel(self.g, other.g, alpha),
            b: lerp_channel(self.b, other.b, alpha),
            a: lerp_channel(self.a, other.a, alpha),
        }
    }
}

/// A blend between equal channels is that channel, whatever the weight.
pub proof fn lemma_blend_channel_same(c: u8, alpha: int)
    ensures
        blend_channel(c, c, alpha) == c,
{
    assert(c * (ONE - alpha) + c * alpha == c * 1_000_000) by (nonlinear_arith);
}

/// Blending a colour with itself gives that colour, for every weight.
pub proof fn lemma_lerp_same(c: Color, alpha: int)
    ensures
        c.spec_lerp(&c, alpha) == c,
{
    lemma_blend_channel_same(c.r, alpha);
    lemma_blend_channel_same(c.g, alpha);
    lemma_blend_channel_same(c.b, alpha);
    lemma_blend_channel_same(c.a, alpha);
}

/// At weight zero the blend is the background, at weight one the foreground,
/// both exactly.
pub proof fn lemma_lerp_endpoints(bg: Color, fg: Color)
    ensures
        bg.spec_lerp(&fg, 0) == bg,
        bg.spec_lerp(&fg, ONE as int) == fg,
{
}

} // verus!
