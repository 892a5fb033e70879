//! The per-frame render pass: fill a fresh frame buffer with the
//! background, composite every supplied sprite in caller order, and encode
//! the result as one terminal byte stream.

use vstd::prelude::*;
use vstd::string::StringSliceAdditionalSpecFns;
use crate::color::Color;
use crate::sprite::{Sprite, Placement};
use crate::frame::{FrameBuffer, draw_fun, origin_x, origin_y, lemma_draws_fun};
use crate::encode::{encode, frame_bytes, grid_pairs};

verus! {

/// The grid a whole scene paints: the background fill, with each sprite of
/// the list drawn over it in order (so later sprites blend over earlier
/// ones).
pub open spec fn scene_grid(
    w: int,
    h: int,
    background: Color,
    cam: Placement,
    sprites: Seq<(Sprite, Placement)>,
) -> Seq<Color>
    decreases sprites.len(),
{
    if sprites.len() == 0 {
        Seq::new((w * h) as nat, |k: int| background)
    } else {
        let last = sprites.last();
        draw_fun(
            scene_grid(w, h, background, cam, sprites.drop_last()),
            w,
            last.0,
            origin_x(last.1, cam, w, last.0.size),
            origin_y(last.1, cam, h, last.0.size),
        )
    }
}

/// Renders one frame. The terminal is `cols` columns by `rows` character
/// rows; the virtual buffer doubles the rows for half-block sub-cell
/// resolution. Sprites are composited in the order supplied by the caller
/// (their declared `z_index` is carried but not consulted); the camera
/// position must already be rounded, as a `Placement`. The returned bytes
/// are the complete escape stream for the frame, ending with the raw
/// overlay text.
pub fn render(
    cols: usize,
    rows: usize,
    background: Color,
    cam: Placement,
    sprites: &Vec<(Sprite, Placement)>,
    overlay: &str,
) -> (out: Vec<u8>)
    requires
        2 * rows as int <= usize::MAX as int,
        cols as int * (2 * rows as int) <= usize::MAX as int,
        forall|i: int| 0 <= i < sprites@.len() ==> (#[trigger] sprites@[i]).0.wf(),
    ensures
        out@ == frame_bytes(
            grid_pairs(
                scene_grid(cols as int, 2 * rows as int, background, cam, sprites@),
                cols as int,
                2 * rows as int,
            ),
            overlay.spec_bytes(),
        ),
{
    let height: usize = 2 * rows;
    let mut buf = FrameBuffer::new(cols, height, background);
    let ghost sseq = sprites@;
    proof {
        assert(buf.grid() =~= scene_grid(cols as int, height as int, background, cam, sseq.take(0)));
    }
    let n = sprites.len();
    let mut i: usize = 0;
    while i < n
        invariant
            n == sseq.len(),
            sseq == sprites@,
            forall|j: int| 0 <= j < sseq.len() ==> (#[trigger] sseq[j]).0.wf(),
            i <= n,
            buf.wf(),
            buf.w() == cols as int,
            buf.h() == height as int,
            buf.grid() == scene_grid(cols as int, height as int, background, cam, sseq.take(i as int)),
        decreases n - i,
    {
        let ghost before = buf.grid();
        let pair: &(Sprite, Placement) = &sprites[i];
        buf.draw_sprite(&pair.0, pair.1, cam);
        proof {
            lemma_draws_fun(
                before,
                buf.grid(),
                cols as int,
                height as int,
                pair.0,
                origin_x(pair.1, cam, cols as int, pair.0.size),
                origin_y(pair.1, cam, height as int, pair.0.size),
            );
            assert(sseq.take(i as int + 1).drop_last() =~= sseq.take(i as int));
            assert(sseq.take(i as int + 1).last() == sseq[i as int]);
        }
        i = i + 1;
    }
    proof {
        assert(sseq.take(n as int) =~= sseq);
        assert(height as int % 2 == 0);
    }
    encode(&buf, overlay)
}

} // verus!
