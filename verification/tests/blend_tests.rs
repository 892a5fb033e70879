use term_render::Color;
use term_render::color::composite;

fn rgba(r: u8, g: u8, b: u8, a: u8) -> Color {
    Color { r, g, b, a }
}

#[test]
fn blend_transparent_foreground_keeps_background() {
    let bg = rgba(12, 200, 7, 255);
    let fg = rgba(255, 255, 255, 0);
    assert_eq!(composite(bg, fg), bg);
    let bg2 = rgba(0, 1, 254, 3);
    assert_eq!(composite(bg2, fg), bg2);
}

#[test]
fn blend_opaque_foreground_replaces_background() {
    let bg = rgba(12, 200, 7, 255);
    let fg = rgba(91, 33, 250, 255);
    assert_eq!(composite(bg, fg), fg);
    let bg2 = rgba(0, 0, 0, 0);
    assert_eq!(composite(bg2, fg), fg);
}

#[test]
fn blend_half_alpha_truncates() {
    let bg = rgba(200, 0, 10, 255);
    let fg = rgba(100, 255, 10, 128);
    // per channel: (bg*(255-128) + fg*128) / 255, truncating
    let out = composite(bg, fg);
    assert_eq!(out.r, ((200u32 * 127 + 100 * 128) / 255) as u8);
    assert_eq!(out.g, ((0u32 * 127 + 255 * 128) / 255) as u8);
    assert_eq!(out.b, 10);
    assert_eq!(out.a, ((255u32 * 127 + 128 * 128) / 255) as u8);
}

#[test]
fn default_color_is_transparent_black() {
    let c: Color = Default::default();
    assert_eq!(c, rgba(0, 0, 0, 0));
}
