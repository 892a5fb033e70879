use term_render::{CellPair, Color, FrameBuffer, Placement, Sprite, Dims};
use term_render::encode::encode;
use term_render::render::render;

fn rgba(r: u8, g: u8, b: u8, a: u8) -> Color {
    Color { r, g, b, a }
}

const PREFIX: &[u8] = b"\x1b[1;1H\x1b[?25l";
const SUFFIX: &[u8] = b"\x1b[0m\x1b[1;1H";
const GLYPH: &[u8] = &[0xE2, 0x96, 0x84];

fn fg_escape(c: Color) -> Vec<u8> {
    format!("\x1b[38;2;{};{};{}m", c.r, c.g, c.b).into_bytes()
}

fn bg_escape(c: Color) -> Vec<u8> {
    format!("\x1b[48;2;{};{};{}m", c.r, c.g, c.b).into_bytes()
}

/// Decodes the pixel region of an emitted frame, tracking cumulative
/// foreground/background state, and returns the per-cell (top, bottom)
/// pairs plus the count of colour escapes seen.
fn decode(stream: &[u8]) -> (Vec<CellPair>, usize) {
    assert!(stream.starts_with(PREFIX), "missing frame prefix");
    let rest = &stream[PREFIX.len()..];
    let end = rest
        .windows(SUFFIX.len())
        .position(|w| w == SUFFIX)
        .expect("missing frame suffix");
    let mut body = &rest[..end];
    let mut fg = rgba(0, 0, 0, 0);
    let mut bg = rgba(0, 0, 0, 0);
    let mut cells = Vec::new();
    let mut escapes = 0usize;
    while !body.is_empty() {
        if body[0] == 0x1b {
            assert_eq!(body[1], b'[');
            let intro = body[2];
            assert!(intro == b'3' || intro == b'4');
            assert_eq!(&body[3..7], b"8;2;");
            let m = body.iter().position(|&b| b == b'm').unwrap();
            let fields: Vec<u8> = std::str::from_utf8(&body[7..m])
                .unwrap()
                .split(';')
                .map(|s| s.parse().unwrap())
                .collect();
            assert_eq!(fields.len(), 3);
            let c = rgba(fields[0], fields[1], fields[2], fg.a);
            // the escape carries no alpha; reuse what the test expects below
            if intro == b'3' {
                fg = Color { a: fg.a, ..c };
            } else {
                bg = Color { a: bg.a, ..c };
            }
            escapes += 1;
            body = &body[m + 1..];
        } else {
            assert_eq!(&body[..3], GLYPH, "unexpected byte in pixel region");
            cells.push(CellPair { top: bg, bottom: fg });
            body = &body[3..];
        }
    }
    (cells, escapes)
}

#[test]
fn uniform_buffer_emits_one_escape_pair() {
    // every cell identical: exactly one fg escape and one bg escape, then
    // w * h glyphs
    let c = rgba(10, 20, 30, 255);
    let buf = FrameBuffer::new(5, 6, c);
    let out = encode(&buf, "");
    let mut want = Vec::new();
    want.extend_from_slice(PREFIX);
    want.extend_from_slice(&fg_escape(c));
    want.extend_from_slice(&bg_escape(c));
    for _ in 0..(5 * 3) {
        want.extend_from_slice(GLYPH);
    }
    want.extend_from_slice(SUFFIX);
    assert_eq!(out, want);
}

#[test]
fn overlay_is_appended_verbatim() {
    let c = rgba(1, 1, 1, 255);
    let buf = FrameBuffer::new(1, 2, c);
    let out = encode(&buf, "score: 42");
    assert!(out.ends_with(b"score: 42"));
    let suffix_then_overlay = [SUFFIX, b"score: 42"].concat();
    assert!(out.ends_with(&suffix_then_overlay));
}

#[test]
fn checkerboard_round_trips() {
    // decoding the emitted stream reproduces the exact per-cell pairs
    let a = rgba(250, 0, 0, 255);
    let b = rgba(0, 250, 0, 255);
    let mut buf = FrameBuffer::new(3, 4, a);
    let dot = Sprite { colors: vec![b], size: Dims { x: 1, y: 1 }, z_index: 0 };
    // stamp b onto a checker pattern
    for y in 0..4i32 {
        for x in 0..3i32 {
            if (x + y) % 2 == 0 {
                // world position that projects onto cell (x, y): the buffer
                // centre is (1, 2) for a 3x4 buffer
                buf.draw_sprite(&dot, Placement { x: x - 1, y: 2 - y }, Placement { x: 0, y: 0 });
            }
        }
    }
    let out = encode(&buf, "");
    let (cells, _escapes) = decode(&out);
    assert_eq!(cells.len(), 6);
    for k in 0..6 {
        let x = k % 3;
        let row_pair = k / 3;
        let top = buf.get(x, 2 * row_pair);
        let bottom = buf.get(x, 2 * row_pair + 1);
        let got = cells[k];
        assert_eq!((got.top.r, got.top.g, got.top.b), (top.r, top.g, top.b));
        assert_eq!(
            (got.bottom.r, got.bottom.g, got.bottom.b),
            (bottom.r, bottom.g, bottom.b)
        );
    }
}

#[test]
fn end_to_end_red_dot() {
    // background {20,20,20,255}, one 1x1 opaque red sprite at world (0,0),
    // camera at (0,0), viewport 4x2 (virtual buffer 4x4): buffer cell (2,2)
    // is red, everything else background
    let bg = rgba(20, 20, 20, 255);
    let red = rgba(255, 0, 0, 255);
    let sprites = vec![(
        Sprite { colors: vec![red], size: Dims { x: 1, y: 1 }, z_index: 0 },
        Placement { x: 0, y: 0 },
    )];
    let out = render(4, 2, bg, Placement { x: 0, y: 0 }, &sprites, "");
    let (cells, escapes) = decode(&out);
    assert_eq!(cells.len(), 8);
    for k in 0..8 {
        let (x, row_pair) = (k % 4, k / 4);
        let want_top = if x == 2 && row_pair == 1 { red } else { bg };
        let got = cells[k];
        // cell (2,2) is the top pixel of the second row pair at column 2
        assert_eq!((got.top.r, got.top.g, got.top.b), (want_top.r, want_top.g, want_top.b));
        assert_eq!((got.bottom.r, got.bottom.g, got.bottom.b), (bg.r, bg.g, bg.b));
    }
    // one escape pair for the opening cell, then exactly one colour change
    // entering the red cell and one leaving it
    assert_eq!(escapes, 4);
    // the red escape appears exactly once
    let red_esc = bg_escape(red);
    let count = out
        .windows(red_esc.len())
        .filter(|w| *w == red_esc.as_slice())
        .count();
    assert_eq!(count, 1);
}
