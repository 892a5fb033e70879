//! The RGBA colour value type and the source-over alpha blend.

use vstd::prelude::*;

verus! {

/// An 8-bit sRGB colour with alpha. A value type, copied freely;
/// equality is exact per-channel comparison.
#[derive(Clone, Copy, Debug, PartialEq, Eq, Structural)]
pub struct Color {
    pub r: u8,
    pub g: u8,
    pub b: u8,
    pub a: u8,
}

impl Default for Color {
    /// The all-zero colour (transparent black), the encoder's initial
    /// "previously emitted" foreground and background state.
    fn default() -> (c: Color)
        ensures
            c == (Color { r: 0, g: 0, b: 0, a: 0 }),
    {
        Color { r: 0, g: 0, b: 0, a: 0 }
    }
}

/// One channel of the source-over blend: `out = bg*(1-a) + fg*a` with
/// `a` the foreground alpha as a fraction of 255, truncating.
pub open spec fn blend_channel(bg: int, fg: int, a: int) -> int {
    (bg * (255 - a) + fg * a) / 255
}

/// Source-over blend of `fg` over `bg`, per channel, weighted by `fg.a`.
pub open spec fn blend(bg: Color, fg: Color) -> Color {
    Color {
        r: blend_channel(bg.r as int, fg.r as int, fg.a as int) as u8,
        g: blend_channel(bg.g as int, fg.g as int, fg.a as int) as u8,
        b: blend_channel(bg.b as int, fg.b as int, fg.a as int) as u8,
        a: blend_channel(bg.a as int, fg.a as int, fg.a as int) as u8,
    }
}

/// A blended channel stays in the 8-bit range.
pub proof fn lemma_blend_channel_bounds(bg: int, fg: int, a: int)
    requires
        0 <= bg <= 255,
        0 <= fg <= 255,
        0 <= a <= 255,
    ensures
        0 <= blend_channel(bg, fg, a) <= 255,
{
    assert(0 <= bg * (255 - a) && 0 <= fg * a && bg * (255 - a) + fg * a <= 255 * 255)
        by (nonlinear_arith)
        requires
            0 <= bg <= 255,
            0 <= fg <= 255,
            0 <= a <= 255,
    ;
}

fn blend_one(bg: u8, fg: u8, a: u8) -> (out: u8)
    ensures
        out as int == blend_channel(bg as int, fg as int, a as int),
{
    proof {
        lemma_blend_channel_bounds(bg as int, fg as int, a as int);
        assert(0 <= bg as int * (255 - a as int) && 0 <= fg as int * (a as int)
            && bg as int * (255 - a as int) + fg as int * (a as int) <= 255 * 255)
            by (nonlinear_arith)
            requires
                bg as int <= 255,
                fg as int <= 255,
                0 <= a as int <= 255,
        ;
    }
    let na: u32 = 255 - (a as u32);
    let v: u32 = ((bg as u32) * na + (fg as u32) * (a as u32)) / 255;
    v as u8
}

/// Standard source-over alpha blend of `fg` over `bg`, truncating each
/// channel to the integer range.
pub fn composite(bg: Color, fg: Color) -> (out: Color)
    ensures
        out == blend(bg, fg),
{
    proof {
        lemma_blend_channel_bounds(bg.r as int, fg.r as int, fg.a as int);
        lemma_blend_channel_bounds(bg.g as int, fg.g as int, fg.a as int);
        lemma_blend_channel_bounds(bg.b as int, fg.b as int, fg.a as int);
        lemma_blend_channel_bounds(bg.a as int, fg.a as int, fg.a as int);
    }
    Color {
        r: blend_one(bg.r, fg.r, fg.a),
        g: blend_one(bg.g, fg.g, fg.a),
        b: blend_one(bg.b, fg.b, fg.a),
        a: blend_one(bg.a, fg.a, fg.a),
    }
}

/// At the extreme alpha values the blend returns one operand exactly.
proof fn lemma_blend_channel_extreme(bg: int, fg: int)
    requires
        0 <= bg <= 255,
        0 <= fg <= 255,
    ensures
        blend_channel(bg, fg, 0) == bg,
        blend_channel(bg, fg, 255) == fg,
{
    vstd::arithmetic::div_mod::lemma_div_multiples_vanish(bg, 255);
    vstd::arithmetic::div_mod::lemma_div_multiples_vanish(fg, 255);
    assert(bg * (255 - 0) + fg * 0 == 255 * bg);
    assert(bg * (255 - 255) + fg * 255 == 255 * fg);
}

/// Blend identity: a fully transparent foreground leaves the background
/// unchanged, and a fully opaque foreground replaces it.
pub proof fn lemma_blend_identity(bg: Color, fg: Color)
    ensures
        fg.a == 0 ==> blend(bg, fg) == bg,
        fg.a == 255 ==> blend(bg, fg) == fg,
{
    lemma_blend_channel_extreme(bg.r as int, fg.r as int);
    lemma_blend_channel_extreme(bg.g as int, fg.g as int);
    lemma_blend_channel_extreme(bg.b as int, fg.b as int);
    lemma_blend_channel_extreme(bg.a as int, fg.a as int);
}

} // verus!
