use term_render::{Color, Dims, FrameBuffer, Placement, Sprite};

fn rgba(r: u8, g: u8, b: u8, a: u8) -> Color {
    Color { r, g, b, a }
}

fn one_pixel_sprite(c: Color, z: i32) -> Sprite {
    Sprite { colors: vec![c], size: Dims { x: 1, y: 1 }, z_index: z }
}

#[test]
fn sprite_from_rgba8_copies_row_major() {
    let bytes = vec![1, 2, 3, 4, 5, 6, 7, 8];
    let s = Sprite::from_rgba8(&bytes, 2, 1, 9);
    assert_eq!(s.size, Dims { x: 2, y: 1 });
    assert_eq!(s.z_index, 9);
    assert_eq!(s.colors, vec![rgba(1, 2, 3, 4), rgba(5, 6, 7, 8)]);
}

#[test]
fn fresh_buffer_is_background() {
    let bg = rgba(20, 20, 20, 255);
    let buf = FrameBuffer::new(3, 4, bg);
    for y in 0..4 {
        for x in 0..3 {
            assert_eq!(buf.get(x, y), bg);
        }
    }
}

#[test]
fn centered_pixel_lands_in_the_middle() {
    // a 1x1 sprite at the rounded camera position maps to (w/2, h/2)
    let bg = rgba(0, 0, 0, 255);
    let red = rgba(255, 0, 0, 255);
    let mut buf = FrameBuffer::new(4, 4, bg);
    let sprite = one_pixel_sprite(red, 0);
    buf.draw_sprite(&sprite, Placement { x: 7, y: -3 }, Placement { x: 7, y: -3 });
    for y in 0..4 {
        for x in 0..4 {
            let want = if x == 2 && y == 2 { red } else { bg };
            assert_eq!(buf.get(x, y), want);
        }
    }
}

#[test]
fn offscreen_sprite_is_culled() {
    let bg = rgba(9, 9, 9, 255);
    let red = rgba(255, 0, 0, 255);
    let mut buf = FrameBuffer::new(4, 4, bg);
    let sprite = Sprite {
        colors: vec![red; 4],
        size: Dims { x: 2, y: 2 },
        z_index: 0,
    };
    // projected footprint lies entirely to the right of the buffer
    buf.draw_sprite(&sprite, Placement { x: 100, y: 0 }, Placement { x: 0, y: 0 });
    for y in 0..4 {
        for x in 0..4 {
            assert_eq!(buf.get(x, y), bg);
        }
    }
}

#[test]
fn partly_offscreen_sprite_keeps_visible_pixels() {
    let bg = rgba(0, 0, 0, 255);
    let red = rgba(255, 0, 0, 255);
    let mut buf = FrameBuffer::new(4, 4, bg);
    let sprite = Sprite {
        colors: vec![red; 4],
        size: Dims { x: 2, y: 2 },
        z_index: 0,
    };
    // origin (3, 1): columns 3 and 4, but column 4 is off the buffer
    buf.draw_sprite(&sprite, Placement { x: 2, y: 0 }, Placement { x: 0, y: 0 });
    assert_eq!(buf.get(3, 1), red);
    assert_eq!(buf.get(3, 2), red);
    assert_eq!(buf.get(2, 1), bg);
    assert_eq!(buf.get(2, 2), bg);
}

#[test]
fn sprites_blend_over_background() {
    let bg = rgba(100, 100, 100, 255);
    let half = rgba(200, 0, 0, 128);
    let mut buf = FrameBuffer::new(2, 2, bg);
    buf.draw_sprite(&one_pixel_sprite(half, 0), Placement { x: 0, y: 0 }, Placement { x: 0, y: 0 });
    let got = buf.get(1, 1);
    assert_eq!(got.r, ((100u32 * 127 + 200 * 128) / 255) as u8);
    assert_eq!(got.g, ((100u32 * 127) / 255) as u8);
    assert_eq!(got.b, ((100u32 * 127) / 255) as u8);
}
