//! The frame buffer and the compositor: camera-relative projection and
//! back-to-front alpha blending into a grid of virtual (sub-cell) pixels.

use vstd::prelude::*;
use vstd::arithmetic::div_mod::{lemma_fundamental_div_mod, lemma_mod_bound, lemma_multiply_divide_lt};
use crate::color::{Color, blend, composite};
use crate::sprite::{Sprite, Placement, Dims};

verus! {

/// The colour of the cell in column `x` of row `y` of a row-major grid of
/// width `w`.
pub open spec fn cell_at(grid: Seq<Color>, w: int, x: int, y: int) -> Color {
    grid[y * w + x]
}

/// Whether buffer cell `(x, y)` lies under a sprite whose top-left cell is
/// `(x0, y0)`.
pub open spec fn covered(x: int, y: int, x0: int, y0: int, size: Dims) -> bool {
    x0 <= x < x0 + size.x as int && y0 <= y < y0 + size.y as int
}

/// The buffer column of a sprite's left edge: the camera-relative world
/// column, shifted so the camera sits in the middle column, minus half the
/// sprite width so the sprite is centred on its position.
pub open spec fn origin_x(pos: Placement, cam: Placement, w: int, size: Dims) -> int {
    pos.x - cam.x + w / 2 - size.x as int / 2
}

/// The buffer row of a sprite's top edge. Y is inverted: increasing world Y
/// moves up the screen, decreasing the buffer row.
pub open spec fn origin_y(pos: Placement, cam: Placement, h: int, size: Dims) -> int {
    -(pos.y - cam.y) + h / 2 - size.y as int / 2
}

/// What one sprite draw does to a grid of width `w` and height `h`: every
/// covered in-bounds cell is blended with the texel over it, every other
/// cell is unchanged. Cells a sprite would cover outside the grid are
/// silently culled.
pub open spec fn draws(
    pre: Seq<Color>,
    post: Seq<Color>,
    w: int,
    h: int,
    sprite: Sprite,
    x0: int,
    y0: int,
) -> bool {
    &&& post.len() == pre.len()
    &&& forall|x: int, y: int| 0 <= x < w && 0 <= y < h ==> #[trigger] cell_at(post, w, x, y)
        == (if covered(x, y, x0, y0, sprite.size) {
            blend(cell_at(pre, w, x, y), sprite.pixel(x - x0, y - y0))
        } else {
            cell_at(pre, w, x, y)
        })
}

/// As `draws`, but only the texels before index `n` of the row-major texel
/// sequence have been applied yet: the compositor's loop invariant.
pub open spec fn draws_upto(
    pre: Seq<Color>,
    post: Seq<Color>,
    w: int,
    h: int,
    sprite: Sprite,
    x0: int,
    y0: int,
    n: int,
) -> bool {
    &&& post.len() == pre.len()
    &&& forall|x: int, y: int| 0 <= x < w && 0 <= y < h ==> #[trigger] cell_at(post, w, x, y)
        == (if covered(x, y, x0, y0, sprite.size) && 0 <= (y - y0) * sprite.size.x as int + (x - x0) < n {
            blend(cell_at(pre, w, x, y), sprite.pixel(x - x0, y - y0))
        } else {
            cell_at(pre, w, x, y)
        })
}

/// Distinct in-bounds coordinates address distinct cells of a row-major grid.
proof fn lemma_grid_index_injective(w: int, x1: int, y1: int, x2: int, y2: int)
    requires
        0 <= x1 < w,
        0 <= x2 < w,
        y1 * w + x1 == y2 * w + x2,
    ensures
        x1 == x2 && y1 == y2,
{
    assert(x1 == x2 && y1 == y2) by (nonlinear_arith)
        requires
            0 <= x1 < w,
            0 <= x2 < w,
            y1 * w + x1 == y2 * w + x2,
    ;
}

/// An in-bounds coordinate pair addresses a cell inside the grid.
pub proof fn lemma_grid_index_bounds(w: int, h: int, x: int, y: int)
    requires
        0 <= x < w,
        0 <= y < h,
    ensures
        0 <= y * w + x < w * h,
{
    assert(0 <= y * w + x < w * h) by (nonlinear_arith)
        requires
            0 <= x < w,
            0 <= y < h,
    ;
}

/// Index `i` of a row-major grid of width `sx` sits in column `i % sx` of
/// row `i / sx`.
pub proof fn lemma_row_major(i: int, sx: int, sy: int)
    requires
        0 <= i,
        0 <= sx,
        0 <= sy,
        i < sx * sy,
    ensures
        0 < sx,
        0 <= i % sx < sx,
        0 <= i / sx < sy,
        (i / sx) * sx + (i % sx) == i,
{
    assert(0 < sx) by (nonlinear_arith)
        requires 0 <= i && 0 <= sx && 0 <= sy && i < sx * sy,
    ;
    lemma_fundamental_div_mod(i, sx);
    lemma_mod_bound(i, sx);
    lemma_multiply_divide_lt(i, sx, sy);
    assert(sx * (i / sx) == (i / sx) * sx) by (nonlinear_arith);
}

/// The grid a sprite draw produces, as a function: the sequence form of the
/// `draws` relation, convenient for chaining draws in specifications.
pub open spec fn draw_fun(pre: Seq<Color>, w: int, sprite: Sprite, x0: int, y0: int) -> Seq<Color> {
    Seq::new(pre.len(), |k: int| if covered(k % w, k / w, x0, y0, sprite.size) {
        blend(pre[k], sprite.pixel(k % w - x0, k / w - y0))
    } else {
        pre[k]
    })
}

/// The `draws` relation determines the drawn grid: it is `draw_fun` of the
/// grid before.
pub proof fn lemma_draws_fun(pre: Seq<Color>, post: Seq<Color>, w: int, h: int, sprite: Sprite, x0: int, y0: int)
    requires
        pre.len() == w * h,
        0 <= w,
        0 <= h,
        draws(pre, post, w, h, sprite, x0, y0),
    ensures
        post == draw_fun(pre, w, sprite, x0, y0),
{
    assert forall|k: int| 0 <= k < pre.len() implies post[k] == draw_fun(
        pre, w, sprite, x0, y0,
    )[k] by {
        lemma_row_major(k, w, h);
        let x = k % w;
        let y = k / w;
        assert(cell_at(post, w, x, y) == post[y * w + x]);
        assert(y * w + x == k);
    }
    assert(post =~= draw_fun(pre, w, sprite, x0, y0));
}

/// Culling: a sprite whose projected footprint lies entirely outside
/// `[0, w) x [0, h)` leaves the grid unchanged.
pub proof fn lemma_culling(pre: Seq<Color>, w: int, h: int, sprite: Sprite, x0: int, y0: int)
    requires
        pre.len() == w * h,
        0 <= w,
        0 <= h,
        x0 >= w || x0 + sprite.size.x as int <= 0 || y0 >= h || y0 + sprite.size.y as int <= 0,
    ensures
        draw_fun(pre, w, sprite, x0, y0) == pre,
{
    assert forall|k: int| 0 <= k < pre.len() implies draw_fun(pre, w, sprite, x0, y0)[k]
        == pre[k] by {
        lemma_row_major(k, w, h);
        assert(!covered(k % w, k / w, x0, y0, sprite.size));
    }
    assert(draw_fun(pre, w, sprite, x0, y0) =~= pre);
}

/// Projection centering: a 1x1 sprite whose (rounded) world position equals
/// the (rounded) camera position projects exactly to the buffer's centre
/// cell `(w / 2, h / 2)`.
pub proof fn lemma_projection_centering(pos: Placement, cam: Placement, w: int, h: int, size: Dims)
    requires
        pos == cam,
        size.x == 1,
        size.y == 1,
    ensures
        origin_x(pos, cam, w, size) == w / 2,
        origin_y(pos, cam, h, size) == h / 2,
        forall|x: int, y: int| covered(x, y, origin_x(pos, cam, w, size), origin_y(pos, cam, h, size), size)
            <==> x == w / 2 && y == h / 2,
{
}

/// A mutable 2-D grid of colours at virtual (sub-cell) resolution: one cell
/// per terminal column, two rows of cells per terminal row. Filled with a
/// background colour at the start of each frame and painted over by the
/// compositor.
pub struct FrameBuffer {
    cells: Vec<Color>,
    width: usize,
    height: usize,
}

impl FrameBuffer {
    /// The buffer width in cells.
    pub closed spec fn w(self) -> int {
        self.width as int
    }

    /// The buffer height in cells (twice the terminal row count).
    pub closed spec fn h(self) -> int {
        self.height as int
    }

    /// The cells, row-major.
    pub closed spec fn grid(self) -> Seq<Color> {
        self.cells@
    }

    /// The grid holds exactly one colour per cell.
    pub open spec fn wf(self) -> bool {
        self.grid().len() == self.w() * self.h()
    }

    /// The colour of the cell in column `x` of row `y`.
    pub open spec fn cell(self, x: int, y: int) -> Color {
        cell_at(self.grid(), self.w(), x, y)
    }

    pub fn width(&self) -> (w: usize)
        ensures
            w as int == self.w(),
    {
        self.width
    }

    pub fn height(&self) -> (h: usize)
        ensures
            h as int == self.h(),
    {
        self.height
    }

    /// A fresh buffer with every cell filled with the background colour.
    pub fn new(width: usize, height: usize, background: Color) -> (buf: FrameBuffer)
        requires
            width as int * height as int <= usize::MAX as int,
        ensures
            buf.wf(),
            buf.w() == width,
            buf.h() == height,
            forall|x: int, y: int| 0 <= x < width && 0 <= y < height
                ==> #[trigger] buf.cell(x, y) == background,
            forall|k: int| 0 <= k < buf.grid().len() ==> #[trigger] buf.grid()[k] == background,
    {
        let total: usize = width * height;
        let cells: Vec<Color> = vec![background; total];
        let buf = FrameBuffer { cells, width, height };
        proof {
            assert forall|x: int, y: int| 0 <= x < width && 0 <= y < height
                implies #[trigger] buf.cell(x, y) == background by {
                lemma_grid_index_bounds(width as int, height as int, x, y);
            }
        }
        buf
    }

    /// The number of cells in the grid.
    pub fn cell_count(&self) -> (n: usize)
        requires
            self.wf(),
        ensures
            n as int == self.w() * self.h(),
    {
        self.cells.len()
    }

    /// Reads one cell.
    pub fn get(&self, x: usize, y: usize) -> (c: Color)
        requires
            self.wf(),
            x < self.w(),
            y < self.h(),
        ensures
            c == self.cell(x as int, y as int),
    {
        let _cap = self.cells.len();
        proof {
            lemma_grid_index_bounds(self.w(), self.h(), x as int, y as int);
        }
        self.cells[y * self.width + x]
    }

    /// Projects the sprite's position through the camera and alpha-blends
    /// each of its texels over the cell under it; texels that project
    /// outside the buffer are silently skipped.
    pub fn draw_sprite(&mut self, sprite: &Sprite, pos: Placement, cam: Placement)
        requires
            old(self).wf(),
            sprite.wf(),
        ensures
            final(self).wf(),
            final(self).w() == old(self).w(),
            final(self).h() == old(self).h(),
            draws(
                old(self).grid(),
                final(self).grid(),
                old(self).w(),
                old(self).h(),
                *sprite,
                origin_x(pos, cam, old(self).w(), sprite.size),
                origin_y(pos, cam, old(self).h(), sprite.size),
            ),
    {
        let w = self.width;
        let h = self.height;
        let sx: usize = sprite.size.x as usize;
        let x0: i128 = pos.x as i128 - cam.x as i128 + (w / 2) as i128 - (sprite.size.x / 2) as i128;
        let y0: i128 = -(pos.y as i128 - cam.y as i128) + (h / 2) as i128 - (sprite.size.y / 2) as i128;
        let ghost gx0: int = origin_x(pos, cam, w as int, sprite.size);
        let ghost gy0: int = origin_y(pos, cam, h as int, sprite.size);
        assert(x0 as int == gx0);
        assert(y0 as int == gy0);
        let n = sprite.colors.len();
        let _cap = self.cells.len();
        let ghost pre: Seq<Color> = self.cells@;
        assert(pre.len() <= usize::MAX as int);
        let mut i: usize = 0;
        while i < n
            invariant
                n == sprite.colors@.len(),
                sprite.wf(),
                i <= n,
                w == self.width,
                h == self.height,
                sx as int == sprite.size.x as int,
                x0 as int == gx0,
                y0 as int == gy0,
                gx0 == origin_x(pos, cam, w as int, sprite.size),
                gy0 == origin_y(pos, cam, h as int, sprite.size),
                self.cells@.len() == pre.len(),
                pre.len() == w as int * h as int,
                pre.len() <= usize::MAX as int,
                draws_upto(pre, self.cells@, w as int, h as int, *sprite, gx0, gy0, i as int),
            decreases n - i,
        {
            proof {
                lemma_row_major(i as int, sprite.size.x as int, sprite.size.y as int);
            }
            let dx: usize = i % sx;
            let dy: usize = i / sx;
            let x: i128 = x0 + dx as i128;
            let y: i128 = y0 + dy as i128;
            let ghost prev: Seq<Color> = self.cells@;
            if 0 <= x && x < w as i128 && 0 <= y && y < h as i128 {
                let xi: usize = x as usize;
                let yi: usize = y as usize;
                proof {
                    lemma_grid_index_bounds(w as int, h as int, xi as int, yi as int);
                }
                let idx: usize = yi * w + xi;
                assert(cell_at(prev, w as int, xi as int, yi as int) == prev[idx as int]);
                assert(covered(xi as int, yi as int, gx0, gy0, sprite.size));
                assert((yi as int - gy0) * sprite.size.x as int + (xi as int - gx0) == i as int);
                assert(prev[idx as int] == cell_at(pre, w as int, xi as int, yi as int));
                assert(sprite.pixel(xi as int - gx0, yi as int - gy0)
                    == sprite.colors@[i as int]);
                let blended = composite(self.cells[idx], sprite.colors[i]);
                self.cells[idx] = blended;
                proof {
                    lemma_draw_step_in_bounds(
                        pre, prev, self.cells@, w as int, h as int, *sprite, gx0, gy0, i as int,
                        xi as int, yi as int,
                    );
                }
            } else {
                proof {
                    lemma_draw_step_out_of_bounds(
                        pre, prev, w as int, h as int, *sprite, gx0, gy0, i as int,
                    );
                }
            }
            i = i + 1;
        }
        proof {
            assert forall|x: int, y: int| 0 <= x < w as int && 0 <= y < h as int
                implies #[trigger] cell_at(self.cells@, w as int, x, y)
                    == (if covered(x, y, gx0, gy0, sprite.size) {
                        blend(cell_at(pre, w as int, x, y), sprite.pixel(x - gx0, y - gy0))
                    } else {
                        cell_at(pre, w as int, x, y)
                    }) by {
                if covered(x, y, gx0, gy0, sprite.size) {
                    assert(0 <= (y - gy0) * sprite.size.x as int + (x - gx0) < n as int) by (nonlinear_arith)
                        requires
                            0 <= x - gx0 < sprite.size.x as int,
                            0 <= y - gy0 < sprite.size.y as int,
                            n as int == sprite.size.x as int * sprite.size.y as int,
                    ;
                }
            }
        }
    }
}

/// One in-bounds texel applied: the partial-draw invariant advances by one.
proof fn lemma_draw_step_in_bounds(
    pre: Seq<Color>,
    prev: Seq<Color>,
    post: Seq<Color>,
    w: int,
    h: int,
    sprite: Sprite,
    x0: int,
    y0: int,
    i: int,
    xi: int,
    yi: int,
)
    requires
        sprite.wf(),
        0 <= i < sprite.colors@.len(),
        pre.len() == w * h,
        draws_upto(pre, prev, w, h, sprite, x0, y0, i),
        0 <= xi < w,
        0 <= yi < h,
        xi - x0 == i % sprite.size.x as int,
        yi - y0 == i / sprite.size.x as int,
        0 <= xi - x0 < sprite.size.x as int,
        0 <= yi - y0 < sprite.size.y as int,
        (yi - y0) * sprite.size.x as int + (xi - x0) == i,
        post == prev.update(yi * w + xi, blend(cell_at(pre, w, xi, yi), sprite.pixel(xi - x0, yi - y0))),
    ensures
        draws_upto(pre, post, w, h, sprite, x0, y0, i + 1),
{
    lemma_grid_index_bounds(w, h, xi, yi);
    assert forall|x: int, y: int| 0 <= x < w && 0 <= y < h
        implies #[trigger] cell_at(post, w, x, y)
            == (if covered(x, y, x0, y0, sprite.size)
                    && 0 <= (y - y0) * sprite.size.x as int + (x - x0) < i + 1 {
                blend(cell_at(pre, w, x, y), sprite.pixel(x - x0, y - y0))
            } else {
                cell_at(pre, w, x, y)
            }) by {
        lemma_grid_index_bounds(w, h, x, y);
        if x == xi && y == yi {
            assert(cell_at(post, w, x, y) == post[yi * w + xi]);
        } else {
            if y * w + x == yi * w + xi {
                lemma_grid_index_injective(w, x, y, xi, yi);
                assert(false);
            }
            assert(cell_at(post, w, x, y) == cell_at(prev, w, x, y));
            if covered(x, y, x0, y0, sprite.size)
                && (y - y0) * sprite.size.x as int + (x - x0) == i {
                // texel i covers exactly one cell, and it is (xi, yi)
                lemma_grid_index_injective(
                    sprite.size.x as int, x - x0, y - y0, xi - x0, yi - y0,
                );
                assert(false);
            }
        }
    }
}

/// One out-of-bounds texel skipped: no in-bounds cell corresponds to it, so
/// the partial-draw invariant advances by one with the grid unchanged.
proof fn lemma_draw_step_out_of_bounds(
    pre: Seq<Color>,
    prev: Seq<Color>,
    w: int,
    h: int,
    sprite: Sprite,
    x0: int,
    y0: int,
    i: int,
)
    requires
        sprite.wf(),
        0 <= i < sprite.colors@.len(),
        pre.len() == w * h,
        draws_upto(pre, prev, w, h, sprite, x0, y0, i),
        !(0 <= x0 + i % (sprite.size.x as int) && x0 + i % (sprite.size.x as int) < w
            && 0 <= y0 + i / (sprite.size.x as int) && y0 + i / (sprite.size.x as int) < h),
        0 <= i % (sprite.size.x as int) && i % (sprite.size.x as int) < sprite.size.x as int,
        0 <= i / (sprite.size.x as int) && i / (sprite.size.x as int) < sprite.size.y as int,
        (i / (sprite.size.x as int)) * (sprite.size.x as int) + (i % (sprite.size.x as int)) == i,
    ensures
        draws_upto(pre, prev, w, h, sprite, x0, y0, i + 1),
{
    assert forall|x: int, y: int| 0 <= x < w && 0 <= y < h
        implies #[trigger] cell_at(prev, w, x, y)
            == (if covered(x, y, x0, y0, sprite.size)
                    && 0 <= (y - y0) * sprite.size.x as int + (x - x0) < i + 1 {
                blend(cell_at(pre, w, x, y), sprite.pixel(x - x0, y - y0))
            } else {
                cell_at(pre, w, x, y)
            }) by {
        if covered(x, y, x0, y0, sprite.size)
            && (y - y0) * sprite.size.x as int + (x - x0) == i {
            lemma_grid_index_injective(
                sprite.size.x as int, x - x0, y - y0, i % sprite.size.x as int,
                i / sprite.size.x as int,
            );
            assert(false);
        }
    }
}

} // verus!
