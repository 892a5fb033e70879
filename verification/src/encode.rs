//! The half-block encoder: walks the frame buffer two rows at a time and
//! emits an ANSI byte stream, de-duplicating colour escapes against the
//! previously emitted foreground and background across the whole frame.

use vstd::prelude::*;
use vstd::string::StringSliceAdditionalSpecFns;
use crate::color::Color;
use crate::frame::FrameBuffer;

verus! {

/// One terminal cell of a frame: the colours of its two stacked virtual
/// pixels. The top pixel is rendered as the character's background, the
/// bottom one as its foreground, under the lower-half-block glyph.
#[derive(Clone, Copy, Debug, PartialEq, Eq, Structural)]
pub struct CellPair {
    pub top: Color,
    pub bottom: Color,
}

/// One atom of the encoder's output: a set-foreground escape, a
/// set-background escape, or the half-block glyph itself.
#[derive(Clone, Copy, Debug, PartialEq, Eq, Structural)]
pub enum Token {
    Fg(Color),
    Bg(Color),
    Glyph,
}

/// The encoder's initial "previously emitted" colour state.
pub open spec fn initial_color() -> Color {
    Color { r: 0, g: 0, b: 0, a: 0 }
}

/// The tokens one cell adds to the stream: a foreground escape if its
/// bottom pixel differs from the previous foreground, a background escape
/// if its top pixel differs from the previous background, then the glyph.
pub open spec fn cell_tokens(c: CellPair, prev_fg: Color, prev_bg: Color) -> Seq<Token> {
    (if c.bottom != prev_fg {
        seq![Token::Fg(c.bottom)]
    } else {
        Seq::<Token>::empty()
    }) + (if c.top != prev_bg {
        seq![Token::Bg(c.top)]
    } else {
        Seq::<Token>::empty()
    }) + seq![Token::Glyph]
}

/// The token stream for a whole sequence of cells, threading the
/// previously emitted colours from each cell to the next.
pub open spec fn encode_cells(cells: Seq<CellPair>, prev_fg: Color, prev_bg: Color) -> Seq<Token>
    decreases cells.len(),
{
    if cells.len() == 0 {
        Seq::<Token>::empty()
    } else {
        cell_tokens(cells[0], prev_fg, prev_bg)
            + encode_cells(cells.drop_first(), cells[0].bottom, cells[0].top)
    }
}

/// The foreground state after a sequence of cells has been encoded.
pub open spec fn fg_after(cells: Seq<CellPair>, fg0: Color) -> Color {
    if cells.len() == 0 {
        fg0
    } else {
        cells.last().bottom
    }
}

/// The background state after a sequence of cells has been encoded.
pub open spec fn bg_after(cells: Seq<CellPair>, bg0: Color) -> Color {
    if cells.len() == 0 {
        bg0
    } else {
        cells.last().top
    }
}

/// A decoder for the token stream: escapes update the tracked foreground
/// and background, and every glyph reproduces one cell from the tracked
/// state.
pub open spec fn decode_tokens(tokens: Seq<Token>, fg: Color, bg: Color) -> Seq<CellPair>
    decreases tokens.len(),
{
    if tokens.len() == 0 {
        Seq::<CellPair>::empty()
    } else {
        match tokens[0] {
            Token::Fg(c) => decode_tokens(tokens.drop_first(), c, bg),
            Token::Bg(c) => decode_tokens(tokens.drop_first(), fg, c),
            Token::Glyph => seq![CellPair { top: bg, bottom: fg }]
                + decode_tokens(tokens.drop_first(), fg, bg),
        }
    }
}

/// Decoding one cell's tokens yields that cell and continues in the state
/// the cell left behind.
proof fn lemma_decode_cell(c: CellPair, rest: Seq<Token>, fg: Color, bg: Color)
    ensures
        decode_tokens(cell_tokens(c, fg, bg) + rest, fg, bg)
            == seq![c] + decode_tokens(rest, c.bottom, c.top),
{
    let glyph = seq![Token::Glyph];
    let cell = seq![CellPair { top: c.top, bottom: c.bottom }];
    assert(cell =~= seq![c]);
    // the glyph, decoded in the state the cell's escapes establish,
    // reproduces the cell
    assert((glyph + rest)[0] == Token::Glyph);
    assert((glyph + rest).drop_first() =~= rest);
    assert(decode_tokens(glyph + rest, c.bottom, c.top)
        == cell + decode_tokens(rest, c.bottom, c.top));
    if c.bottom != fg {
        let s1 = seq![Token::Fg(c.bottom)];
        if c.top != bg {
            let s2 = seq![Token::Bg(c.top)];
            assert(cell_tokens(c, fg, bg) + rest =~= s1 + (s2 + (glyph + rest)));
            assert((s1 + (s2 + (glyph + rest)))[0] == Token::Fg(c.bottom));
            assert((s1 + (s2 + (glyph + rest))).drop_first() =~= s2 + (glyph + rest));
            assert(decode_tokens(s1 + (s2 + (glyph + rest)), fg, bg)
                == decode_tokens(s2 + (glyph + rest), c.bottom, bg));
            assert((s2 + (glyph + rest))[0] == Token::Bg(c.top));
            assert((s2 + (glyph + rest)).drop_first() =~= glyph + rest);
            assert(decode_tokens(s2 + (glyph + rest), c.bottom, bg)
                == decode_tokens(glyph + rest, c.bottom, c.top));
        } else {
            assert(cell_tokens(c, fg, bg) + rest =~= s1 + (glyph + rest));
            assert((s1 + (glyph + rest))[0] == Token::Fg(c.bottom));
            assert((s1 + (glyph + rest)).drop_first() =~= glyph + rest);
            assert(decode_tokens(s1 + (glyph + rest), fg, bg)
                == decode_tokens(glyph + rest, c.bottom, bg));
            assert(c.top == bg);
        }
    } else {
        if c.top != bg {
            let s2 = seq![Token::Bg(c.top)];
            assert(cell_tokens(c, fg, bg) + rest =~= s2 + (glyph + rest));
            assert((s2 + (glyph + rest))[0] == Token::Bg(c.top));
            assert((s2 + (glyph + rest)).drop_first() =~= glyph + rest);
            assert(decode_tokens(s2 + (glyph + rest), fg, bg)
                == decode_tokens(glyph + rest, fg, c.top));
            assert(c.bottom == fg);
        } else {
            assert(cell_tokens(c, fg, bg) + rest =~= glyph + rest);
            assert(c.bottom == fg && c.top == bg);
        }
    }
}

/// Encoder correctness, as a round trip: decoding the emitted token
/// stream, tracking cumulative foreground and background state from the
/// same initial colours, reproduces the exact per-cell (top, bottom)
/// pairs of the source, for every cell sequence.
pub proof fn lemma_encode_decode(cells: Seq<CellPair>, fg: Color, bg: Color)
    ensures
        decode_tokens(encode_cells(cells, fg, bg), fg, bg) == cells,
    decreases cells.len(),
{
    if cells.len() == 0 {
        assert(decode_tokens(encode_cells(cells, fg, bg), fg, bg) =~= cells);
    } else {
        let c = cells[0];
        let rest = encode_cells(cells.drop_first(), c.bottom, c.top);
        lemma_decode_cell(c, rest, fg, bg);
        lemma_encode_decode(cells.drop_first(), c.bottom, c.top);
        assert(seq![c] + cells.drop_first() =~= cells);
    }
}

/// A run of identical cells past the first emits no further escapes.
proof fn lemma_uniform_tail(c: CellPair, n: nat)
    ensures
        encode_cells(Seq::new(n, |k: int| c), c.bottom, c.top)
            == Seq::new(n, |k: int| Token::Glyph),
    decreases n,
{
    let cells = Seq::new(n, |k: int| c);
    let glyphs = Seq::new(n, |k: int| Token::Glyph);
    if n == 0 {
        assert(encode_cells(cells, c.bottom, c.top) =~= glyphs);
    } else {
        lemma_uniform_tail(c, (n - 1) as nat);
        assert(cells.drop_first() =~= Seq::new((n - 1) as nat, |k: int| c));
        assert(cell_tokens(c, c.bottom, c.top) =~= seq![Token::Glyph]);
        assert(encode_cells(cells, c.bottom, c.top)
            =~= seq![Token::Glyph] + Seq::new((n - 1) as nat, |k: int| Token::Glyph));
        assert(seq![Token::Glyph] + Seq::new((n - 1) as nat, |k: int| Token::Glyph) =~= glyphs);
    }
}

/// Idempotent-run compression: for a buffer where every cell is the same
/// pair, and that pair differs from the initial colour state, the encoder
/// emits exactly one foreground escape and one background escape, followed
/// by one glyph per cell.
pub proof fn lemma_uniform_run(c: CellPair, n: nat, fg0: Color, bg0: Color)
    requires
        n > 0,
        c.bottom != fg0,
        c.top != bg0,
    ensures
        encode_cells(Seq::new(n, |k: int| c), fg0, bg0)
            == seq![Token::Fg(c.bottom), Token::Bg(c.top)]
                + Seq::new(n, |k: int| Token::Glyph),
{
    let cells = Seq::new(n, |k: int| c);
    lemma_uniform_tail(c, (n - 1) as nat);
    assert(cells.drop_first() =~= Seq::new((n - 1) as nat, |k: int| c));
    assert(cell_tokens(c, fg0, bg0)
        =~= seq![Token::Fg(c.bottom)] + seq![Token::Bg(c.top)] + seq![Token::Glyph]);
    assert(cell_tokens(c, fg0, bg0) + Seq::new((n - 1) as nat, |k: int| Token::Glyph)
        =~= seq![Token::Fg(c.bottom), Token::Bg(c.top)] + Seq::new(n, |k: int| Token::Glyph));
}

/// The decimal digits of a non-negative integer, as ASCII bytes.
pub open spec fn dec_digits(n: int) -> Seq<u8>
    decreases n,
{
    if n < 10 {
        seq![(48 + n) as u8]
    } else {
        dec_digits(n / 10) + seq![(48 + n % 10) as u8]
    }
}

/// The bytes of a 24-bit colour escape: `ESC [ <intro> 8 ; 2 ; r ; g ; b m`,
/// with `intro` the ASCII digit 3 (foreground) or 4 (background).
pub open spec fn color_escape(intro: u8, c: Color) -> Seq<u8> {
    seq![27u8, 91u8, intro, 56u8, 59u8, 50u8, 59u8] + dec_digits(c.r as int) + seq![59u8]
        + dec_digits(c.g as int) + seq![59u8] + dec_digits(c.b as int) + seq![109u8]
}

/// The UTF-8 bytes of one token.
pub open spec fn token_bytes(t: Token) -> Seq<u8> {
    match t {
        Token::Fg(c) => color_escape(51u8, c),
        Token::Bg(c) => color_escape(52u8, c),
        // the lower-half-block character
        Token::Glyph => seq![226u8, 150u8, 132u8],
    }
}

/// The UTF-8 bytes of a token stream.
pub open spec fn tokens_bytes(tokens: Seq<Token>) -> Seq<u8>
    decreases tokens.len(),
{
    if tokens.len() == 0 {
        Seq::<u8>::empty()
    } else {
        token_bytes(tokens[0]) + tokens_bytes(tokens.drop_first())
    }
}

proof fn lemma_tokens_bytes_singleton(t: Token)
    ensures
        tokens_bytes(seq![t]) == token_bytes(t),
{
    let s = seq![t];
    assert(s.drop_first().len() == 0);
    assert(tokens_bytes(s.drop_first()) =~= Seq::<u8>::empty());
    assert(token_bytes(t) + Seq::<u8>::empty() =~= token_bytes(t));
}

proof fn lemma_tokens_bytes_append(a: Seq<Token>, b: Seq<Token>)
    ensures
        tokens_bytes(a + b) == tokens_bytes(a) + tokens_bytes(b),
    decreases a.len(),
{
    if a.len() == 0 {
        assert(a + b =~= b);
        assert(tokens_bytes(a) + tokens_bytes(b) =~= tokens_bytes(b));
    } else {
        lemma_tokens_bytes_append(a.drop_first(), b);
        assert((a + b).drop_first() =~= a.drop_first() + b);
        assert((a + b)[0] == a[0]);
        assert(token_bytes(a[0]) + (tokens_bytes(a.drop_first()) + tokens_bytes(b))
            =~= (token_bytes(a[0]) + tokens_bytes(a.drop_first())) + tokens_bytes(b));
    }
}

/// Appending one cell to an encoded run appends that cell's tokens,
/// emitted from the state the run left behind.
proof fn lemma_encode_snoc(cells: Seq<CellPair>, c: CellPair, fg0: Color, bg0: Color)
    ensures
        encode_cells(cells.push(c), fg0, bg0)
            == encode_cells(cells, fg0, bg0)
                + cell_tokens(c, fg_after(cells, fg0), bg_after(cells, bg0)),
    decreases cells.len(),
{
    if cells.len() == 0 {
        assert(cells =~= Seq::<CellPair>::empty());
        assert(cells.push(c).drop_first() =~= cells);
        assert(cells.push(c)[0] == c);
        assert(encode_cells(cells, c.bottom, c.top) =~= Seq::<Token>::empty());
        assert(encode_cells(cells, fg0, bg0) =~= Seq::<Token>::empty());
        assert(encode_cells(cells.push(c), fg0, bg0)
            =~= cell_tokens(c, fg0, bg0) + encode_cells(cells, c.bottom, c.top));
        assert(cell_tokens(c, fg0, bg0) + Seq::<Token>::empty() =~= cell_tokens(c, fg0, bg0));
        assert(Seq::<Token>::empty() + cell_tokens(c, fg0, bg0) =~= cell_tokens(c, fg0, bg0));
    } else {
        let h = cells[0];
        lemma_encode_snoc(cells.drop_first(), c, h.bottom, h.top);
        assert(cells.push(c).drop_first() =~= cells.drop_first().push(c));
        assert(cells.push(c)[0] == h);
        assert(fg_after(cells.drop_first(), h.bottom) == fg_after(cells, fg0));
        assert(bg_after(cells.drop_first(), h.top) == bg_after(cells, bg0));
        assert(cell_tokens(h, fg0, bg0)
            + (encode_cells(cells.drop_first(), h.bottom, h.top)
                + cell_tokens(c, fg_after(cells, fg0), bg_after(cells, bg0)))
            =~= (cell_tokens(h, fg0, bg0) + encode_cells(cells.drop_first(), h.bottom, h.top))
                + cell_tokens(c, fg_after(cells, fg0), bg_after(cells, bg0)));
    }
}

/// The (top, bottom) cell pairs of a row-major grid of even height `h`,
/// in the order the encoder walks them: row pairs top to bottom, columns
/// left to right.
pub open spec fn grid_pairs(grid: Seq<Color>, w: int, h: int) -> Seq<CellPair> {
    Seq::new((w * (h / 2)) as nat, |k: int| CellPair {
        top: grid[2 * (k / w) * w + (k % w)],
        bottom: grid[(2 * (k / w) + 1) * w + (k % w)],
    })
}

/// The bytes emitted before the pixel region: cursor home, hide cursor.
pub open spec fn frame_prefix() -> Seq<u8> {
    seq![27u8, 91u8, 49u8, 59u8, 49u8, 72u8, 27u8, 91u8, 63u8, 50u8, 53u8, 108u8]
}

/// The bytes emitted after the pixel region: reset attributes, cursor home.
pub open spec fn frame_suffix() -> Seq<u8> {
    seq![27u8, 91u8, 48u8, 109u8, 27u8, 91u8, 49u8, 59u8, 49u8, 72u8]
}

/// The full byte stream of one frame: prefix, the encoded pixel region
/// (starting from the all-zero colour state), suffix, then the raw
/// (unstyled) text overlay.
pub open spec fn frame_bytes(cells: Seq<CellPair>, overlay: Seq<u8>) -> Seq<u8> {
    frame_prefix() + tokens_bytes(encode_cells(cells, initial_color(), initial_color()))
        + frame_suffix() + overlay
}

/// Appends the decimal digits of `v`.
fn push_decimal(out: &mut Vec<u8>, v: u8)
    ensures
        final(out)@ == old(out)@ + dec_digits(v as int),
{
    let ghost pre = out@;
    if v >= 100 {
        out.push(48 + v / 100);
        out.push(48 + (v / 10) % 10);
        out.push(48 + v % 10);
        proof {
            assert(v as int / 10 / 10 == v as int / 100) by (nonlinear_arith);
            assert(v as int / 10 >= 10 && v as int / 100 < 10 && 1 <= v as int / 100);
            assert(dec_digits(v as int / 100) =~= seq![(48 + v as int / 100) as u8]);
            assert(dec_digits(v as int / 10)
                =~= dec_digits(v as int / 100) + seq![(48 + (v as int / 10) % 10) as u8]);
            assert(dec_digits(v as int)
                =~= dec_digits(v as int / 10) + seq![(48 + v as int % 10) as u8]);
            assert(out@ =~= pre + dec_digits(v as int));
        }
    } else if v >= 10 {
        out.push(48 + v / 10);
        out.push(48 + v % 10);
        proof {
            assert(v as int / 10 < 10);
            assert(dec_digits(v as int / 10) =~= seq![(48 + v as int / 10) as u8]);
            assert(dec_digits(v as int)
                =~= dec_digits(v as int / 10) + seq![(48 + v as int % 10) as u8]);
            assert(out@ =~= pre + dec_digits(v as int));
        }
    } else {
        out.push(48 + v);
        proof {
            assert(dec_digits(v as int) =~= seq![(48 + v as int) as u8]);
            assert(out@ =~= pre + dec_digits(v as int));
        }
    }
}

/// Appends one 24-bit colour escape.
fn push_color_escape(out: &mut Vec<u8>, intro: u8, c: Color)
    ensures
        final(out)@ == old(out)@ + color_escape(intro, c),
{
    let ghost pre = out@;
    out.push(27);
    out.push(91);
    out.push(intro);
    out.push(56);
    out.push(59);
    out.push(50);
    out.push(59);
    push_decimal(out, c.r);
    out.push(59);
    push_decimal(out, c.g);
    out.push(59);
    push_decimal(out, c.b);
    out.push(109);
    proof {
        assert(out@ =~= pre + color_escape(intro, c));
    }
}

/// Encodes a painted buffer of even height into the byte stream that
/// renders it on a terminal supporting 24-bit ANSI colour and UTF-8,
/// followed by the raw overlay text.
#[verifier::rlimit(50)]
pub fn encode(buf: &FrameBuffer, overlay: &str) -> (out: Vec<u8>)
    requires
        buf.wf(),
        buf.h() % 2 == 0,
    ensures
        out@ == frame_bytes(grid_pairs(buf.grid(), buf.w(), buf.h()), overlay.spec_bytes()),
{
    let w = buf.width();
    let h = buf.height();
    let ghost cells = grid_pairs(buf.grid(), buf.w(), buf.h());
    let mut out: Vec<u8> = Vec::new();
    out.push(27);
    out.push(91);
    out.push(49);
    out.push(59);
    out.push(49);
    out.push(72);
    out.push(27);
    out.push(91);
    out.push(63);
    out.push(50);
    out.push(53);
    out.push(108);
    assert(out@ =~= frame_prefix());
    let mut prev_fg = Color { r: 0, g: 0, b: 0, a: 0 };
    let mut prev_bg = Color { r: 0, g: 0, b: 0, a: 0 };
    let rows = h / 2;
    let _cap = buf.cell_count();
    let ghost total = cells.len();
    proof {
        assert(h as int == 2 * rows as int);
        assert(w as int * h as int == 2 * (w as int * rows as int)) by (nonlinear_arith)
            requires h as int == 2 * rows as int,
        ;
        assert(total == w as int * rows as int);
    }
    let n: usize = w * rows;
    proof {
        assert(cells.take(0) =~= Seq::<CellPair>::empty());
        assert(tokens_bytes(encode_cells(cells.take(0), initial_color(), initial_color()))
            =~= Seq::<u8>::empty());
        assert(out@ =~= frame_prefix()
            + tokens_bytes(encode_cells(cells.take(0), initial_color(), initial_color())));
    }
    let mut k: usize = 0;
    while k < n
        invariant
            buf.wf(),
            buf.h() % 2 == 0,
            w as int == buf.w(),
            h as int == buf.h(),
            rows as int == h as int / 2,
            n as int == total,
            total == cells.len(),
            cells == grid_pairs(buf.grid(), buf.w(), buf.h()),
            k <= n,
            prev_fg == fg_after(cells.take(k as int), initial_color()),
            prev_bg == bg_after(cells.take(k as int), initial_color()),
            out@ == frame_prefix()
                + tokens_bytes(encode_cells(cells.take(k as int), initial_color(), initial_color())),
        decreases n - k,
    {
        proof {
            crate::frame::lemma_row_major(k as int, w as int, rows as int);
        }
        let col: usize = k % w;
        let row: usize = k / w;
        let top = buf.get(col, 2 * row);
        let bottom = buf.get(col, 2 * row + 1);
        let ghost c = cells[k as int];
        proof {
            crate::frame::lemma_grid_index_bounds(w as int, h as int, col as int, 2 * row as int);
            crate::frame::lemma_grid_index_bounds(w as int, h as int, col as int, 2 * row as int + 1);
            assert(c.top == top && c.bottom == bottom);
        }
        let ghost out_before = out@;
        let ghost fg_before = prev_fg;
        let ghost bg_before = prev_bg;
        if bottom.r != prev_fg.r || bottom.g != prev_fg.g || bottom.b != prev_fg.b
            || bottom.a != prev_fg.a {
            push_color_escape(&mut out, 51, bottom);
            prev_fg = bottom;
        }
        let ghost out_mid = out@;
        if top.r != prev_bg.r || top.g != prev_bg.g || top.b != prev_bg.b || top.a != prev_bg.a {
            push_color_escape(&mut out, 52, top);
            prev_bg = top;
        }
        out.push(226);
        out.push(150);
        out.push(132);
        proof {
            let ct = cell_tokens(c, fg_before, bg_before);
            assert(out@ =~= out_before + tokens_bytes(ct)) by {
                if c.bottom != fg_before {
                    if c.top != bg_before {
                        assert(ct =~= seq![Token::Fg(c.bottom)] + (seq![Token::Bg(c.top)]
                            + seq![Token::Glyph]));
                        lemma_tokens_bytes_append(
                            seq![Token::Fg(c.bottom)],
                            seq![Token::Bg(c.top)] + seq![Token::Glyph],
                        );
                        lemma_tokens_bytes_append(seq![Token::Bg(c.top)], seq![Token::Glyph]);
                    } else {
                        assert(ct =~= seq![Token::Fg(c.bottom)] + seq![Token::Glyph]);
                        lemma_tokens_bytes_append(seq![Token::Fg(c.bottom)], seq![Token::Glyph]);
                    }
                } else {
                    if c.top != bg_before {
                        assert(ct =~= seq![Token::Bg(c.top)] + seq![Token::Glyph]);
                        lemma_tokens_bytes_append(seq![Token::Bg(c.top)], seq![Token::Glyph]);
                    } else {
                        assert(ct =~= seq![Token::Glyph]);
                    }
                }
                lemma_tokens_bytes_singleton(Token::Glyph);
                lemma_tokens_bytes_singleton(Token::Fg(c.bottom));
                lemma_tokens_bytes_singleton(Token::Bg(c.top));
            }
            lemma_encode_snoc(cells.take(k as int), c, initial_color(), initial_color());
            assert(cells.take(k as int).push(c) =~= cells.take(k as int + 1));
            lemma_tokens_bytes_append(
                encode_cells(cells.take(k as int), initial_color(), initial_color()),
                ct,
            );
            assert(out@ =~= frame_prefix()
                + tokens_bytes(encode_cells(cells.take(k as int + 1), initial_color(), initial_color())));
            assert(prev_fg == fg_after(cells.take(k as int + 1), initial_color()));
            assert(prev_bg == bg_after(cells.take(k as int + 1), initial_color()));
        }
        k = k + 1;
    }
    proof {
        assert(cells.take(n as int) =~= cells);
    }
    out.push(27);
    out.push(91);
    out.push(48);
    out.push(109);
    out.push(27);
    out.push(91);
    out.push(49);
    out.push(59);
    out.push(49);
    out.push(72);
    let ghost before_overlay = out@;
    assert(before_overlay =~= frame_prefix()
        + tokens_bytes(encode_cells(cells, initial_color(), initial_color())) + frame_suffix());
    let overlay_bytes: &[u8] = overlay.as_bytes();
    out.extend_from_slice(overlay_bytes);
    proof {
        assert(out@ =~= frame_bytes(cells, overlay.spec_bytes()));
    }
    out
}

} // verus!
