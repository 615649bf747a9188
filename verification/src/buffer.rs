//! Frame-buffer compositing primitives: an owned ARGB32 pixel buffer, the
//! opaque rectangle fill, and the alpha-blended glyph paint.  Every write is
//! clipped to the buffer bounds; out-of-range pixels are silently dropped.

use vstd::prelude::*;
use vstd::arithmetic::div_mod::lemma_fundamental_div_mod;
use vstd::arithmetic::div_mod::lemma_mod_division_less_than_divisor;

use crate::color::{alpha_of, blue_of, green_of, pack_argb, red_of};
use crate::color::{blue_channel, green_channel, pack_opaque, red_channel};
use crate::color::lemma_pack_extract;
use crate::glyph::{GlyphBitmap, GlyphView};

verus! {

/// An owned contiguous ARGB32 frame buffer, row-major, stride equal to the
/// width.
pub struct PixelBuffer {
    pub width: usize,
    pub height: usize,
    pub data: Vec<u32>,
}

impl View for PixelBuffer {
    type V = Seq<u32>;

    open spec fn view(&self) -> Seq<u32> {
        self.data@
    }
}

impl PixelBuffer {
    /// The buffer holds exactly one pixel per cell of its width × height grid.
    pub open spec fn wf(&self) -> bool {
        self.data@.len() == self.width * self.height
    }

    /// Allocates a buffer of the given dimensions with every pixel set to the
    /// given color.
    pub fn new(width: usize, height: usize, fill: u32) -> (r: Option<PixelBuffer>)
        ensures
            r is Some <==> width * height <= usize::MAX,
            r is Some ==> {
                &&& r->0.wf()
                &&& r->0.width == width
                &&& r->0.height == height
                &&& r->0@ == Seq::new((width * height) as nat, |i: int| fill)
            },
    {
        if width != 0 && height > usize::MAX / width {
            proof {
                assert(width * height > usize::MAX) by (nonlinear_arith)
                    requires
                        width >= 1,
                        height > usize::MAX as int / width as int,
                ;
            }
            return None;
        }
        let cells: usize = if width == 0 {
            0
        } else {
            proof {
                assert(width * height <= usize::MAX) by (nonlinear_arith)
                    requires
                        width >= 1,
                        height <= usize::MAX as int / width as int,
                ;
            }
            width * height
        };
        let mut data: Vec<u32> = Vec::new();
        let mut i: usize = 0;
        while i < cells
            invariant
                i <= cells,
                data@ == Seq::new(i as nat, |j: int| fill),
            decreases cells - i,
        {
            data.push(fill);
            proof {
                assert(data@ =~= Seq::new((i + 1) as nat, |j: int| fill));
            }
            i = i + 1;
        }
        Some(PixelBuffer { width, height, data })
    }

    /// Replaces every pixel with the pixels of `src`; both buffers must have
    /// the same dimensions.  This is the per-frame copy of the static
    /// background.
    pub fn copy_from(&mut self, src: &PixelBuffer)
        requires
            old(self).wf(),
            src.wf(),
            old(self).width == src.width,
            old(self).height == src.height,
        ensures
            final(self).wf(),
            final(self).width == old(self).width,
            final(self).height == old(self).height,
            final(self)@ == src@,
    {
        let mut data: Vec<u32> = Vec::new();
        let mut i: usize = 0;
        let n: usize = src.data.len();
        while i < n
            invariant
                i <= n,
                n == src.data@.len(),
                data@ == src.data@.take(i as int),
            decreases n - i,
        {
            data.push(src.data[i]);
            proof {
                assert(data@ =~= src.data@.take(i + 1));
            }
            i = i + 1;
        }
        proof {
            assert(data@ =~= src.data@);
        }
        self.data = data;
    }

    /// Reads the pixel at column `x`, row `y`.
    pub fn pixel(&self, x: usize, y: usize) -> (p: u32)
        requires
            self.wf(),
            x < self.width,
            y < self.height,
        ensures
            p == self@[y * self.width + x],
    {
        let n: usize = self.data.len();
        proof {
            lemma_grid_index(y as int, x as int, self.width as int, self.height as int);
        }
        self.data[y * self.width + x]
    }
}

/// Index arithmetic of a row-major grid: a (row, col) cell within bounds maps
/// to an index below `width * height`, and the index decomposes back into the
/// same row and column.
pub proof fn lemma_grid_index(row: int, col: int, width: int, height: int)
    requires
        0 <= col < width,
        0 <= row < height,
    ensures
        0 <= row * width + col < width * height,
        (row * width + col) / width == row,
        (row * width + col) % width == col,
{
    assert(0 <= row * width + col < width * height) by (nonlinear_arith)
        requires
            0 <= col < width,
            0 <= row < height,
    ;
    assert((row * width + col) / width == row && (row * width + col) % width == col)
        by (nonlinear_arith)
        requires
            0 <= col < width,
            0 <= row,
    ;
}

/// A buffer index below `width * height` decomposes into a row below `height`
/// and a column below `width`.
pub proof fn lemma_index_decompose(i: int, width: int, height: int)
    requires
        0 <= width,
        0 <= height,
        0 <= i < width * height,
    ensures
        0 < width,
        0 < height,
        0 <= i % width < width,
        0 <= i / width < height,
        i == (i / width) * width + (i % width),
{
    assert(0 < width && 0 < height) by (nonlinear_arith)
        requires
            0 <= width,
            0 <= height,
            0 <= i < width * height,
    ;
    lemma_fundamental_div_mod(i, width);
    lemma_mod_division_less_than_divisor(i, width);
    assert((i / width) * width == width * (i / width)) by (nonlinear_arith);
    assert(0 <= i / width < height) by (nonlinear_arith)
        requires
            i == width * (i / width) + (i % width),
            0 <= i % width < width,
            0 <= i < width * height,
            0 < width,
    ;
}

/// Whether the cell at column `col`, row `row` lies inside the rectangle of
/// origin (`x`, `y`) and extent `w` × `h`.
pub open spec fn rect_covers(x: int, y: int, w: int, h: int, col: int, row: int) -> bool {
    x <= col < x + w && y <= row < y + h
}

/// The value of pixel `i` after the cells of the rectangle that come before
/// (`upto_row`, `upto_col`) in row-major order have been filled with `color`.
pub open spec fn fill_upto_value(
    buf0: Seq<u32>,
    width: int,
    x: int,
    y: int,
    w: int,
    h: int,
    color: u32,
    upto_row: int,
    upto_col: int,
    i: int,
) -> u32 {
    if rect_covers(x, y, w, h, i % width, i / width) && (i / width < upto_row || (i / width
        == upto_row && i % width < upto_col)) {
        color
    } else {
        buf0[i]
    }
}

/// The buffer contents after an opaque fill of the given rectangle, clipped to
/// the buffer bounds: every pixel inside the rectangle becomes `color`, every
/// pixel outside keeps its value.
pub open spec fn fill_rect_spec(
    buf: Seq<u32>,
    width: int,
    x: int,
    y: int,
    w: int,
    h: int,
    color: u32,
) -> Seq<u32> {
    Seq::new(buf.len(), |i: int| if rect_covers(x, y, w, h, i % width, i / width) {
        color
    } else {
        buf[i]
    })
}

/// After a rectangle fill, every pixel whose cell lies inside the rectangle
/// holds the fill color, and every pixel outside it keeps its previous
/// value, alpha included.
pub proof fn lemma_fill_rect_pointwise(
    buf0: Seq<u32>,
    width: int,
    x: int,
    y: int,
    w: int,
    h: int,
    color: u32,
    i: int,
)
    requires
        0 <= i < buf0.len(),
    ensures
        rect_covers(x, y, w, h, i % width, i / width) ==> fill_rect_spec(
            buf0,
            width,
            x,
            y,
            w,
            h,
            color,
        )[i] == color,
        !rect_covers(x, y, w, h, i % width, i / width) ==> fill_rect_spec(
            buf0,
            width,
            x,
            y,
            w,
            h,
            color,
        )[i] == buf0[i],
{
}

/// Writes `color` to every pixel of the rectangle clipped to the buffer
/// bounds; fully opaque, no blending, and no pixel outside the rectangle is
/// modified.
pub fn fill_rect(buf: &mut PixelBuffer, x: usize, y: usize, w: usize, h: usize, color: u32)
    requires
        old(buf).wf(),
    ensures
        final(buf).wf(),
        final(buf).width == old(buf).width,
        final(buf).height == old(buf).height,
        final(buf)@ == fill_rect_spec(
            old(buf)@,
            old(buf).width as int,
            x as int,
            y as int,
            w as int,
            h as int,
            color,
        ),
{
    let width = buf.width;
    let height = buf.height;
    let n: usize = buf.data.len();
    let ghost buf0 = buf@;
    let row_end: usize = if y > height || h > height - y {
        height
    } else {
        y + h
    };
    let col_end: usize = if x > width || w > width - x {
        width
    } else {
        x + w
    };

    let mut row: usize = y;
    while row < row_end
        invariant
            buf.wf(),
            buf.width == width,
            buf.height == height,
            buf@.len() == buf0.len(),
            y <= row,
            row <= row_end || row == y,
            row_end <= height,
            col_end <= width,
            y + h <= height ==> row_end == y + h,
            y + h > height ==> row_end == height,
            x + w <= width ==> col_end == x + w,
            x + w > width ==> col_end == width,
            buf0.len() == width * height,
            buf0.len() == n,
            forall|i: int|
                0 <= i < buf0.len() ==> buf@[i] == fill_upto_value(
                    buf0,
                    width as int,
                    x as int,
                    y as int,
                    w as int,
                    h as int,
                    color,
                    row as int,
                    x as int,
                    i,
                ),
        decreases row_end - row,
    {
        let mut col: usize = x;
        while col < col_end
            invariant
                buf.wf(),
                buf.width == width,
                buf.height == height,
                buf@.len() == buf0.len(),
                y <= row < row_end,
                x <= col,
                col <= col_end || col == x,
                row_end <= height,
                col_end <= width,
                y + h <= height ==> row_end == y + h,
                y + h > height ==> row_end == height,
                x + w <= width ==> col_end == x + w,
                x + w > width ==> col_end == width,
                buf0.len() == width * height,
                buf0.len() == n,
                forall|i: int|
                    0 <= i < buf0.len() ==> buf@[i] == fill_upto_value(
                        buf0,
                        width as int,
                        x as int,
                        y as int,
                        w as int,
                        h as int,
                        color,
                        row as int,
                        col as int,
                        i,
                    ),
            decreases col_end - col,
        {
            proof {
                lemma_grid_index(row as int, col as int, width as int, height as int);
            }
            let idx: usize = row * width + col;
            buf.data.set(idx, color);
            proof {
                assert forall|i: int| 0 <= i < buf0.len() implies buf@[i] == fill_upto_value(
                    buf0,
                    width as int,
                    x as int,
                    y as int,
                    w as int,
                    h as int,
                    color,
                    row as int,
                    col as int + 1,
                    i,
                ) by {
                    lemma_index_decompose(i, width as int, height as int);
                    let v0 = fill_upto_value(
                        buf0,
                        width as int,
                        x as int,
                        y as int,
                        w as int,
                        h as int,
                        color,
                        row as int,
                        col as int,
                        i,
                    );
                    assert(i != idx ==> buf@[i] == v0);
                }
            }
            col = col + 1;
        }
        row = row + 1;
        proof {
            assert forall|i: int| 0 <= i < buf0.len() implies buf@[i] == fill_upto_value(
                buf0,
                width as int,
                x as int,
                y as int,
                w as int,
                h as int,
                color,
                row as int,
                x as int,
                i,
            ) by {
                lemma_index_decompose(i, width as int, height as int);
            }
        }
    }
    proof {
        assert forall|i: int| 0 <= i < buf0.len() implies buf@[i] == fill_rect_spec(
            buf0,
            width as int,
            x as int,
            y as int,
            w as int,
            h as int,
            color,
        )[i] by {
            lemma_index_decompose(i, width as int, height as int);
        }
        assert(buf@ =~= fill_rect_spec(
            buf0,
            width as int,
            x as int,
            y as int,
            w as int,
            h as int,
            color,
        ));
    }
}

/// One channel of a source-over blend onto an opaque background: the text
/// channel weighted by the coverage against the destination channel weighted
/// by its complement, truncated toward zero.
pub open spec fn blend_channel(t: int, d: int, cov: int) -> int {
    (t * cov + d * (255 - cov)) / 255
}

/// The pixel written by a glyph paint at coverage `cov`: each RGB channel
/// blended, the destination alpha pinned to fully opaque.
pub open spec fn blend_pixel(dest: u32, text: u32, cov: u8) -> int {
    pack_argb(
        0xFF,
        blend_channel(red_of(text), red_of(dest), cov as int),
        blend_channel(green_of(text), green_of(dest), cov as int),
        blend_channel(blue_of(text), blue_of(dest), cov as int),
    )
}

/// A blended channel of in-range channels is again in [0, 255].
pub proof fn lemma_blend_channel_range(t: int, d: int, cov: int)
    requires
        0 <= t < 256,
        0 <= d < 256,
        0 <= cov < 256,
    ensures
        0 <= blend_channel(t, d, cov) <= 255,
{
    assert(0 <= t * cov + d * (255 - cov) <= 255 * 255) by (nonlinear_arith)
        requires
            0 <= t < 256,
            0 <= d < 256,
            0 <= cov < 256,
    ;
    assert(0 <= (t * cov + d * (255 - cov)) / 255 <= 255) by (nonlinear_arith)
        requires
            0 <= t * cov + d * (255 - cov) <= 255 * 255,
    ;
}

/// At full coverage the blend reproduces the text color's RGB channels
/// exactly, under a fully opaque alpha.
pub proof fn lemma_blend_full_coverage(dest: u32, text: u32)
    ensures
        red_of(blend_pixel(dest, text, 255) as u32) == red_of(text),
        green_of(blend_pixel(dest, text, 255) as u32) == green_of(text),
        blue_of(blend_pixel(dest, text, 255) as u32) == blue_of(text),
        alpha_of(blend_pixel(dest, text, 255) as u32) == 0xFF,
{
    crate::color::lemma_channels_in_range(dest);
    crate::color::lemma_channels_in_range(text);
    assert forall|t: int, d: int| 0 <= t < 256 && 0 <= d < 256 implies #[trigger] blend_channel(
        t,
        d,
        255,
    ) == t by {
        assert((t * 255 + d * 0) / 255 == t) by (nonlinear_arith)
            requires
                0 <= t,
        ;
    }
    lemma_pack_extract(
        0xFF,
        blend_channel(red_of(text), red_of(dest), 255),
        blend_channel(green_of(text), green_of(dest), 255),
        blend_channel(blue_of(text), blue_of(dest), 255),
    );
}

/// At zero coverage the blend leaves every destination RGB channel unchanged.
pub proof fn lemma_blend_zero_coverage(t: int, d: int)
    requires
        0 <= d,
    ensures
        blend_channel(t, d, 0) == d,
{
    assert((t * 0 + d * 255) / 255 == d) by (nonlinear_arith)
        requires
            0 <= d,
    ;
}

/// Blends one pixel: source-over of `text` onto the opaque `dest` at the
/// given 8-bit coverage.
pub fn blend(dest: u32, text: u32, cov: u8) -> (r: u32)
    ensures
        r == blend_pixel(dest, text, cov),
{
    proof {
        crate::color::lemma_channels_in_range(dest);
        crate::color::lemma_channels_in_range(text);
        lemma_blend_channel_range(red_of(text), red_of(dest), cov as int);
        lemma_blend_channel_range(green_of(text), green_of(dest), cov as int);
        lemma_blend_channel_range(blue_of(text), blue_of(dest), cov as int);
    }
    let a: u32 = cov as u32;
    let r: u32 = (red_channel(text) * a + red_channel(dest) * (255 - a)) / 255;
    let g: u32 = (green_channel(text) * a + green_channel(dest) * (255 - a)) / 255;
    let b: u32 = (blue_channel(text) * a + blue_channel(dest) * (255 - a)) / 255;
    pack_opaque(r, g, b)
}

/// The value of pixel `i` after painting the glyph cells that come before row
/// `upto_r`, or in row `upto_r` before column `upto_c`, in row-major glyph
/// order.  Cells with zero coverage and cells outside the buffer leave the
/// pixel unchanged.
pub open spec fn paint_upto_value(
    buf0: Seq<u32>,
    width: int,
    ox: int,
    oy: int,
    g: GlyphView,
    color: u32,
    upto_r: int,
    upto_c: int,
    i: int,
) -> u32 {
    let gr = i / width - oy;
    let gc = i % width - ox;
    if 0 <= gr < g.height && 0 <= gc < g.width && (gr < upto_r || (gr == upto_r && gc < upto_c))
        && g.coverage[gr * g.width + gc] != 0 {
        blend_pixel(buf0[i], color, g.coverage[gr * g.width + gc]) as u32
    } else {
        buf0[i]
    }
}

/// The value of pixel `i` after a full glyph paint at origin (`ox`, `oy`):
/// blended where the glyph covers the pixel with a nonzero coverage byte,
/// unchanged everywhere else.
pub open spec fn paint_pixel_value(
    buf0: Seq<u32>,
    width: int,
    ox: int,
    oy: int,
    g: GlyphView,
    color: u32,
    i: int,
) -> u32 {
    paint_upto_value(buf0, width, ox, oy, g, color, g.height, 0, i)
}

/// The buffer contents after an alpha-blended glyph paint, clipped to the
/// buffer bounds.
pub open spec fn paint_glyph_spec(
    buf0: Seq<u32>,
    width: int,
    ox: int,
    oy: int,
    g: GlyphView,
    color: u32,
) -> Seq<u32> {
    Seq::new(buf0.len(), |i: int| paint_pixel_value(buf0, width, ox, oy, g, color, i))
}

/// A pixel whose coverage byte is zero is left exactly as it was by a glyph
/// paint, alpha channel included.
pub proof fn lemma_paint_keeps_uncovered_pixel(
    buf0: Seq<u32>,
    width: int,
    ox: int,
    oy: int,
    g: GlyphView,
    color: u32,
    i: int,
)
    requires
        0 <= i < buf0.len(),
        g.coverage[(i / width - oy) * g.width + (i % width - ox)] == 0 || !(0 <= i / width - oy
            < g.height) || !(0 <= i % width - ox < g.width),
    ensures
        paint_glyph_spec(buf0, width, ox, oy, g, color)[i] == buf0[i],
{
}

/// A pixel covered by a glyph cell with a nonzero coverage byte is the blend
/// of its old value with the text color at that coverage.
pub proof fn lemma_paint_blends_covered_pixel(
    buf0: Seq<u32>,
    width: int,
    ox: int,
    oy: int,
    g: GlyphView,
    color: u32,
    i: int,
)
    requires
        0 <= i < buf0.len(),
        0 <= i / width - oy < g.height,
        0 <= i % width - ox < g.width,
        g.coverage[(i / width - oy) * g.width + (i % width - ox)] != 0,
    ensures
        paint_glyph_spec(buf0, width, ox, oy, g, color)[i] == blend_pixel(
            buf0[i],
            color,
            g.coverage[(i / width - oy) * g.width + (i % width - ox)],
        ) as u32,
{
}

/// Paints a glyph's coverage bitmap onto the buffer at the given signed
/// origin: every cell with a nonzero coverage byte that lands inside the
/// buffer is source-over blended with `color`; cells outside the buffer are
/// clipped; pixels the glyph does not cover are untouched.
pub fn paint_glyph(buf: &mut PixelBuffer, origin_x: i128, origin_y: i128, g: &GlyphBitmap, color: u32)
    requires
        old(buf).wf(),
        g@.wf(),
        origin_x + g@.width <= i128::MAX,
        origin_y + g@.height <= i128::MAX,
    ensures
        final(buf).wf(),
        final(buf).width == old(buf).width,
        final(buf).height == old(buf).height,
        final(buf)@ == paint_glyph_spec(
            old(buf)@,
            old(buf).width as int,
            origin_x as int,
            origin_y as int,
            g@,
            color,
        ),
{
    let width = buf.width;
    let height = buf.height;
    let n: usize = buf.data.len();
    let cn: usize = g.coverage.len();
    let gw = g.width;
    let gh = g.height;
    let ghost buf0 = buf@;
    let ghost gv = g@;

    let mut gr: usize = 0;
    while gr < gh
        invariant
            buf.wf(),
            buf.width == width,
            buf.height == height,
            buf@.len() == buf0.len(),
            buf0.len() == width * height,
            buf0.len() == n,
            gr <= gh,
            gv == g@,
            gv.wf(),
            gw == gv.width,
            gh == gv.height,
            cn == gv.coverage.len(),
            origin_x + gv.width <= i128::MAX,
            origin_y + gv.height <= i128::MAX,
            forall|i: int|
                0 <= i < buf0.len() ==> buf@[i] == paint_upto_value(
                    buf0,
                    width as int,
                    origin_x as int,
                    origin_y as int,
                    gv,
                    color,
                    gr as int,
                    0,
                    i,
                ),
        decreases gh - gr,
    {
        let py: i128 = origin_y + gr as i128;
        if py >= 0 && py < height as i128 {
            let mut gc: usize = 0;
            while gc < gw
                invariant
                    buf.wf(),
                    buf.width == width,
                    buf.height == height,
                    buf@.len() == buf0.len(),
                    buf0.len() == width * height,
                    buf0.len() == n,
                    gr < gh,
                    gc <= gw,
                    gv == g@,
                    gv.wf(),
                    gw == gv.width,
                    gh == gv.height,
                    cn == gv.coverage.len(),
                    origin_x + gv.width <= i128::MAX,
                    py == origin_y + gr,
                    0 <= py < height,
                    forall|i: int|
                        0 <= i < buf0.len() ==> buf@[i] == paint_upto_value(
                            buf0,
                            width as int,
                            origin_x as int,
                            origin_y as int,
                            gv,
                            color,
                            gr as int,
                            gc as int,
                            i,
                        ),
                decreases gw - gc,
            {
                let px: i128 = origin_x + gc as i128;
                if px >= 0 && px < width as i128 {
                    proof {
                        lemma_grid_index(gr as int, gc as int, gw as int, gh as int);
                    }
                    let cov: u8 = g.coverage[gr * gw + gc];
                    if cov != 0 {
                        let pyu: usize = py as usize;
                        let pxu: usize = px as usize;
                        proof {
                            lemma_grid_index(pyu as int, pxu as int, width as int, height as int);
                        }
                        let idx: usize = pyu * width + pxu;
                        let v: u32 = blend(buf.data[idx], color, cov);
                        buf.data.set(idx, v);
                        proof {
                            assert forall|i: int| 0 <= i < buf0.len() implies buf@[i]
                                == paint_upto_value(
                                buf0,
                                width as int,
                                origin_x as int,
                                origin_y as int,
                                gv,
                                color,
                                gr as int,
                                gc as int + 1,
                                i,
                            ) by {
                                lemma_index_decompose(i, width as int, height as int);
                                let v0 = paint_upto_value(
                                    buf0,
                                    width as int,
                                    origin_x as int,
                                    origin_y as int,
                                    gv,
                                    color,
                                    gr as int,
                                    gc as int,
                                    i,
                                );
                                assert(i != idx ==> buf@[i] == v0);
                            }
                        }
                    } else {
                        proof {
                            assert forall|i: int| 0 <= i < buf0.len() implies buf@[i]
                                == paint_upto_value(
                                buf0,
                                width as int,
                                origin_x as int,
                                origin_y as int,
                                gv,
                                color,
                                gr as int,
                                gc as int + 1,
                                i,
                            ) by {
                                lemma_index_decompose(i, width as int, height as int);
                                let v0 = paint_upto_value(
                                    buf0,
                                    width as int,
                                    origin_x as int,
                                    origin_y as int,
                                    gv,
                                    color,
                                    gr as int,
                                    gc as int,
                                    i,
                                );
                            }
                        }
                    }
                } else {
                    proof {
                        assert forall|i: int| 0 <= i < buf0.len() implies buf@[i]
                            == paint_upto_value(
                            buf0,
                            width as int,
                            origin_x as int,
                            origin_y as int,
                            gv,
                            color,
                            gr as int,
                            gc as int + 1,
                            i,
                        ) by {
                            lemma_index_decompose(i, width as int, height as int);
                            let v0 = paint_upto_value(
                                buf0,
                                width as int,
                                origin_x as int,
                                origin_y as int,
                                gv,
                                color,
                                gr as int,
                                gc as int,
                                i,
                            );
                        }
                    }
                }
                gc = gc + 1;
            }
            proof {
                assert forall|i: int| 0 <= i < buf0.len() implies buf@[i] == paint_upto_value(
                    buf0,
                    width as int,
                    origin_x as int,
                    origin_y as int,
                    gv,
                    color,
                    gr as int + 1,
                    0,
                    i,
                ) by {
                    lemma_index_decompose(i, width as int, height as int);
                    let v0 = paint_upto_value(
                        buf0,
                        width as int,
                        origin_x as int,
                        origin_y as int,
                        gv,
                        color,
                        gr as int,
                        gw as int,
                        i,
                    );
                }
            }
        } else {
            proof {
                assert forall|i: int| 0 <= i < buf0.len() implies buf@[i] == paint_upto_value(
                    buf0,
                    width as int,
                    origin_x as int,
                    origin_y as int,
                    gv,
                    color,
                    gr as int + 1,
                    0,
                    i,
                ) by {
                    lemma_index_decompose(i, width as int, height as int);
                    let v0 = paint_upto_value(
                        buf0,
                        width as int,
                        origin_x as int,
                        origin_y as int,
                        gv,
                        color,
                        gr as int,
                        0,
                        i,
                    );
                }
            }
        }
        gr = gr + 1;
    }
    proof {
        assert forall|i: int| 0 <= i < buf0.len() implies buf@[i] == paint_glyph_spec(
            buf0,
            width as int,
            origin_x as int,
            origin_y as int,
            gv,
            color,
        )[i] by {
            let v0 = paint_upto_value(
                buf0,
                width as int,
                origin_x as int,
                origin_y as int,
                gv,
                color,
                gh as int,
                0,
                i,
            );
        }
        assert(buf@ =~= paint_glyph_spec(
            buf0,
            width as int,
            origin_x as int,
            origin_y as int,
            gv,
            color,
        ));
    }
}

/// Fills one key's rectangle with an opaque color: the rectangle fill under
/// the name the key renderer calls it by.
pub fn rectangle(buffer: &mut PixelBuffer, x: usize, y: usize, width: usize, height: usize, color: u32)
    requires
        old(buffer).wf(),
    ensures
        final(buffer).wf(),
        final(buffer).width == old(buffer).width,
        final(buffer).height == old(buffer).height,
        final(buffer)@ == fill_rect_spec(
            old(buffer)@,
            old(buffer).width as int,
            x as int,
            y as int,
            width as int,
            height as int,
            color,
        ),
{
    fill_rect(buffer, x, y, width, height, color)
}

} // verus!
