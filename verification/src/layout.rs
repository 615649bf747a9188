//! Text layout: horizontal centering by summed advance widths, per-glyph
//! vertical centering, and the glyph-by-glyph paint over the compositor.

use vstd::prelude::*;

use crate::buffer::{paint_glyph, paint_glyph_spec, PixelBuffer};
use crate::glyph::{GlyphBitmap, GlyphCache, GlyphView, MAX_PIXEL_SIZE};

verus! {

/// Pixel size of key labels.
pub const KEY_LABEL_SIZE: u32 = 24;

/// Color of key labels: a light gray under a fully opaque alpha.
pub const KEY_LABEL_COLOR: u32 = 0xFFC8C8C8;

/// Color of the status overlay text: pure green under a fully opaque alpha.
pub const OVERLAY_COLOR: u32 = 0xFF00FF00;

/// The glyph values of a list of glyph bitmaps.
pub open spec fn views_of(s: Seq<GlyphBitmap>) -> Seq<GlyphView> {
    s.map_values(|g: GlyphBitmap| g@)
}

/// Every glyph value in the list is well formed.
pub open spec fn wf_views(s: Seq<GlyphView>) -> bool {
    forall|i: int| 0 <= i < s.len() ==> (#[trigger] s[i]).wf()
}

/// The summed advance widths of a glyph run.
pub open spec fn advance_sum(s: Seq<GlyphView>) -> int
    decreases s.len(),
{
    if s.len() == 0 {
        0
    } else {
        advance_sum(s.drop_last()) + s.last().advance
    }
}

/// Halving that truncates toward zero, as machine division does.
pub open spec fn half_toward_zero(v: int) -> int {
    if v >= 0 {
        v / 2
    } else {
        -((-v) / 2)
    }
}

/// The horizontal start cursor that centers a run of total advance `total`
/// inside a box of origin `box_x` and width `box_w`; negative when the run
/// overflows the box.
pub open spec fn start_cursor(box_x: int, box_w: int, total: int) -> int {
    box_x + half_toward_zero(box_w - total)
}

/// The horizontal paint origin of a glyph at cursor position `cursor`.
pub open spec fn glyph_origin_x(cursor: int, g: GlyphView) -> int {
    cursor + g.xmin
}

/// The vertical paint origin of a glyph centered on the box's vertical
/// center by its own bitmap height.
pub open spec fn glyph_origin_y(box_y: int, box_h: int, g: GlyphView) -> int {
    box_y + box_h / 2 - g.height / 2 - g.ymin
}

/// The buffer after one glyph of the run: painted at the cursor unless the
/// bitmap is empty, in which case only the cursor advances.
pub open spec fn paint_one(
    buf0: Seq<u32>,
    width: int,
    g: GlyphView,
    cursor: int,
    box_y: int,
    box_h: int,
    color: u32,
) -> Seq<u32> {
    if g.width <= 0 || g.height <= 0 {
        buf0
    } else {
        paint_glyph_spec(
            buf0,
            width,
            glyph_origin_x(cursor, g),
            glyph_origin_y(box_y, box_h, g),
            g,
            color,
        )
    }
}

/// The buffer after painting a whole glyph run left to right from the given
/// cursor, each glyph advancing the cursor by its advance width.
pub open spec fn paint_run(
    buf0: Seq<u32>,
    width: int,
    glyphs: Seq<GlyphView>,
    cursor: int,
    box_y: int,
    box_h: int,
    color: u32,
) -> Seq<u32>
    decreases glyphs.len(),
{
    if glyphs.len() == 0 {
        buf0
    } else {
        paint_run(
            paint_one(buf0, width, glyphs.first(), cursor, box_y, box_h, color),
            width,
            glyphs.drop_first(),
            cursor + glyphs.first().advance,
            box_y,
            box_h,
            color,
        )
    }
}

/// The advance sum of a run of well-formed glyphs is nonnegative and at most
/// one maximal advance per glyph.
pub proof fn lemma_advance_sum_bounds(s: Seq<GlyphView>)
    requires
        wf_views(s),
    ensures
        0 <= advance_sum(s) <= s.len() * 0xFFFFFFFF,
    decreases s.len(),
{
    if s.len() > 0 {
        assert(wf_views(s.drop_last()));
        lemma_advance_sum_bounds(s.drop_last());
        assert(s.last().wf());
    }
}

/// A prefix sum of advances grows by exactly the next glyph's advance.
proof fn lemma_advance_sum_take_step(s: Seq<GlyphView>, i: int)
    requires
        0 <= i < s.len(),
    ensures
        advance_sum(s.take(i + 1)) == advance_sum(s.take(i)) + s[i].advance,
{
    assert(s.take(i + 1).drop_last() =~= s.take(i));
    assert(s.take(i + 1).last() == s[i]);
}

/// Lays a run of glyph bitmaps out inside the box and paints it: the cursor
/// starts at the centering position `start_cursor` and each glyph is painted
/// at its own offsets, empty bitmaps advancing the cursor without painting.
pub fn draw_glyphs(
    buf: &mut PixelBuffer,
    box_x: usize,
    box_y: usize,
    box_w: usize,
    box_h: usize,
    glyphs: &Vec<GlyphBitmap>,
    color: u32,
)
    requires
        old(buf).wf(),
        wf_views(views_of(glyphs@)),
    ensures
        final(buf).wf(),
        final(buf).width == old(buf).width,
        final(buf).height == old(buf).height,
        final(buf)@ == paint_run(
            old(buf)@,
            old(buf).width as int,
            views_of(glyphs@),
            start_cursor(box_x as int, box_w as int, advance_sum(views_of(glyphs@))),
            box_y as int,
            box_h as int,
            color,
        ),
{
    let ghost views = views_of(glyphs@);
    let n: usize = glyphs.len();
    let width = buf.width;
    let height = buf.height;
    let ghost buf0 = buf@;

    let mut total: i128 = 0;
    let mut i: usize = 0;
    while i < n
        invariant
            i <= n,
            n == glyphs@.len(),
            views == views_of(glyphs@),
            wf_views(views),
            views.len() == n,
            total == advance_sum(views.take(i as int)),
            0 <= total <= (i as int) * 0xFFFFFFFF,
        decreases n - i,
    {
        proof {
            lemma_advance_sum_take_step(views, i as int);
            assert(views[i as int] == glyphs@[i as int]@);
            assert(views[i as int].wf());
        }
        total = total + glyphs[i].advance as i128;
        i = i + 1;
    }
    proof {
        assert(views.take(n as int) =~= views);
    }

    let bw: i128 = box_w as i128;
    let half: i128 = if total <= bw {
        (((bw - total) as u128) / 2) as i128
    } else {
        -((((total - bw) as u128) / 2) as i128)
    };
    let start: i128 = box_x as i128 + half;
    proof {
        assert(half == half_toward_zero(box_w as int - advance_sum(views)));
        assert(start == start_cursor(box_x as int, box_w as int, advance_sum(views)));
        assert(box_x as int - (n as int) * 0xFFFFFFFF <= start <= box_x as int + box_w as int);
    }

    let mut cursor: i128 = start;
    let mut j: usize = 0;
    while j < n
        invariant
            buf.wf(),
            buf.width == width,
            buf.height == height,
            j <= n,
            n == glyphs@.len(),
            views == views_of(glyphs@),
            wf_views(views),
            views.len() == n,
            cursor == start + advance_sum(views.take(j as int)),
            0 <= advance_sum(views.take(j as int)) <= (j as int) * 0xFFFFFFFF,
            box_x as int - (n as int) * 0xFFFFFFFF <= start <= box_x as int + box_w as int,
            paint_run(
                buf@,
                width as int,
                views.skip(j as int),
                cursor as int,
                box_y as int,
                box_h as int,
                color,
            ) == paint_run(
                buf0,
                width as int,
                views,
                start as int,
                box_y as int,
                box_h as int,
                color,
            ),
        decreases n - j,
    {
        proof {
            assert(views[j as int] == glyphs@[j as int]@);
            assert(views[j as int].wf());
            assert(views.skip(j as int).first() == views[j as int]);
            assert(views.skip(j as int).drop_first() =~= views.skip(j as int + 1));
            lemma_advance_sum_take_step(views, j as int);
        }
        let g = &glyphs[j];
        if g.width > 0 && g.height > 0 {
            let ox: i128 = cursor + g.xmin as i128;
            let oy: i128 = box_y as i128 + (box_h / 2) as i128 - (g.height / 2) as i128
                - g.ymin as i128;
            proof {
                assert(ox as int == glyph_origin_x(cursor as int, views[j as int]));
                assert(oy as int == glyph_origin_y(box_y as int, box_h as int, views[j as int]));
            }
            paint_glyph(buf, ox, oy, g, color);
        }
        cursor = cursor + g.advance as i128;
        j = j + 1;
    }
    proof {
        assert(views.skip(n as int) =~= Seq::<GlyphView>::empty());
    }
}

/// The set of cache keys a text at a given pixel size needs.
pub open spec fn text_keys(text: Seq<char>, size: u32) -> Set<(char, u32)> {
    Set::new(|k: (char, u32)| k.1 == size && text.contains(k.0))
}

/// The glyph run a cache yields for a text at a pixel size.
pub open spec fn cache_views(
    cache: Map<(char, u32), GlyphView>,
    text: Seq<char>,
    size: u32,
) -> Seq<GlyphView> {
    Seq::new(text.len(), |i: int| cache[(text[i], size)])
}

/// Extending a text by one character extends its key set by that character's
/// key.
proof fn lemma_text_keys_step(text: Seq<char>, size: u32, i: int)
    requires
        0 <= i < text.len(),
    ensures
        text_keys(text.take(i + 1), size) =~= text_keys(text.take(i), size).insert(
            (text[i], size),
        ),
{
    let a = text_keys(text.take(i + 1), size);
    let b = text_keys(text.take(i), size).insert((text[i], size));
    assert forall|k: (char, u32)| a.contains(k) implies b.contains(k) by {
        let j = choose|j: int| 0 <= j < text.take(i + 1).len() && #[trigger] text.take(i + 1)[j] == k.0;
        if j < i {
            assert(text.take(i)[j] == k.0);
            assert(text.take(i).contains(k.0));
        } else {
            assert(k.0 == text[i]);
        }
    }
    assert forall|k: (char, u32)| b.contains(k) implies a.contains(k) by {
        if k.1 == size && text.take(i).contains(k.0) {
            let j = choose|j: int| 0 <= j < text.take(i).len() && #[trigger] text.take(i)[j] == k.0;
            assert(text.take(i + 1)[j] == k.0);
            assert(text.take(i + 1).contains(k.0));
        } else {
            assert(k == (text[i], size));
            assert(text.take(i + 1)[i] == text[i]);
            assert(text.take(i + 1).contains(k.0));
        }
    }
}

/// What a layout call leaves behind: the cache has grown by exactly the keys
/// of the text (existing entries untouched, and nothing at all changed when
/// every key was already cached), and the buffer holds the run of the
/// cache's glyphs painted from the centering start cursor.
pub open spec fn layout_post(
    buf0: Seq<u32>,
    buf1: Seq<u32>,
    width: int,
    cache0: Map<(char, u32), GlyphView>,
    cache1: Map<(char, u32), GlyphView>,
    box_x: int,
    box_y: int,
    box_w: int,
    box_h: int,
    text: Seq<char>,
    size: u32,
    color: u32,
) -> bool {
    &&& cache0.submap_of(cache1)
    &&& cache1.dom() == cache0.dom() + text_keys(text, size)
    &&& ((forall|i: int| 0 <= i < text.len() ==> cache0.dom().contains(((#[trigger] text[i]), size)))
        ==> cache1 == cache0)
    &&& wf_views(cache_views(cache1, text, size))
    &&& buf1 == paint_run(
        buf0,
        width,
        cache_views(cache1, text, size),
        start_cursor(box_x, box_w, advance_sum(cache_views(cache1, text, size))),
        box_y,
        box_h,
        color,
    )
}

/// Centers the text inside the box and paints it glyph by glyph: each
/// character's glyph is fetched through the cache (rasterizing on a miss),
/// the run is centered horizontally by its summed advance widths, and every
/// glyph is vertically centered by its own bitmap height.
pub fn draw_text(
    font: &fontdue::Font,
    cache: &mut GlyphCache,
    buf: &mut PixelBuffer,
    box_x: usize,
    box_y: usize,
    box_w: usize,
    box_h: usize,
    text: &Vec<char>,
    size: u32,
    color: u32,
)
    requires
        old(buf).wf(),
        old(cache).wf(),
        size <= MAX_PIXEL_SIZE,
    ensures
        final(buf).wf(),
        final(buf).width == old(buf).width,
        final(buf).height == old(buf).height,
        final(cache).wf(),
        layout_post(
            old(buf)@,
            final(buf)@,
            old(buf).width as int,
            old(cache)@,
            final(cache)@,
            box_x as int,
            box_y as int,
            box_w as int,
            box_h as int,
            text@,
            size,
            color,
        ),
{
    let ghost cache0 = cache@;
    let n: usize = text.len();
    let mut glyphs: Vec<GlyphBitmap> = Vec::new();
    let mut i: usize = 0;
    while i < n
        invariant
            cache.wf(),
            size <= MAX_PIXEL_SIZE,
            i <= n,
            n == text@.len(),
            glyphs@.len() == i,
            cache0.submap_of(cache@),
            cache@.dom() == cache0.dom() + text_keys(text@.take(i as int), size),
            (forall|j: int|
                0 <= j < text@.len() ==> cache0.dom().contains(((#[trigger] text@[j]), size)))
                ==> cache@ == cache0,
            forall|j: int|
                0 <= j < i ==> cache@.dom().contains(((#[trigger] text@[j]), size)),
            forall|j: int|
                0 <= j < i ==> (#[trigger] glyphs@[j])@ == cache@[(text@[j], size)],
            forall|j: int| 0 <= j < i ==> (#[trigger] glyphs@[j])@.wf(),
        decreases n - i,
    {
        let ghost prev = cache@;
        let g = cache.get(font, text[i], size);
        glyphs.push(g);
        proof {
            let k = (text@[i as int], size);
            assert(cache0.submap_of(cache@)) by {
                assert forall|k2: (char, u32)| cache0.dom().contains(k2) implies cache@
                    .dom().contains(k2) && cache@[k2] == cache0[k2] by {
                    assert(prev.dom().contains(k2) && prev[k2] == cache0[k2]);
                }
            }
            lemma_text_keys_step(text@, size, i as int);
            assert(cache@.dom() =~= cache0.dom() + text_keys(text@.take(i as int + 1), size));
        }
        i = i + 1;
    }
    proof {
        assert(text@.take(n as int) =~= text@);
        assert(cache_views(cache@, text@, size) =~= views_of(glyphs@));
    }
    draw_glyphs(buf, box_x, box_y, box_w, box_h, &glyphs, color);
}

/// Paints a key's label centered in the key's rectangle, at the fixed label
/// size and color.
pub fn key_text(
    font: &fontdue::Font,
    buffer: &mut PixelBuffer,
    x: usize,
    y: usize,
    width: usize,
    height: usize,
    text: &Vec<char>,
    glyph_cache: &mut GlyphCache,
)
    requires
        old(buffer).wf(),
        old(glyph_cache).wf(),
    ensures
        final(buffer).wf(),
        final(buffer).width == old(buffer).width,
        final(buffer).height == old(buffer).height,
        final(glyph_cache).wf(),
        layout_post(
            old(buffer)@,
            final(buffer)@,
            old(buffer).width as int,
            old(glyph_cache)@,
            final(glyph_cache)@,
            x as int,
            y as int,
            width as int,
            height as int,
            text@,
            KEY_LABEL_SIZE,
            KEY_LABEL_COLOR,
        ),
{
    draw_text(font, glyph_cache, buffer, x, y, width, height, text, KEY_LABEL_SIZE, KEY_LABEL_COLOR)
}

/// Paints a status message centered in the whole buffer, at the given overlay
/// size and the fixed overlay color.
pub fn settings_text(
    font: &fontdue::Font,
    font_settings_size: u32,
    buffer: &mut PixelBuffer,
    text: &Vec<char>,
    glyph_cache: &mut GlyphCache,
)
    requires
        old(buffer).wf(),
        old(glyph_cache).wf(),
        font_settings_size <= MAX_PIXEL_SIZE,
    ensures
        final(buffer).wf(),
        final(buffer).width == old(buffer).width,
        final(buffer).height == old(buffer).height,
        final(glyph_cache).wf(),
        layout_post(
            old(buffer)@,
            final(buffer)@,
            old(buffer).width as int,
            old(glyph_cache)@,
            final(glyph_cache)@,
            0,
            0,
            old(buffer).width as int,
            old(buffer).height as int,
            text@,
            font_settings_size,
            OVERLAY_COLOR,
        ),
{
    let w = buffer.width;
    let h = buffer.height;
    draw_text(font, glyph_cache, buffer, 0, 0, w, h, text, font_settings_size, OVERLAY_COLOR)
}

/// The uppercase form of an ASCII lowercase letter; every other character is
/// unchanged.
pub open spec fn upper_char(c: char) -> char {
    if 'a' <= c && c <= 'z' {
        ((c as u32) - 32) as char
    } else {
        c
    }
}

/// The text a key displays: a single-character label is uppercased while
/// shift is held; longer labels are never case-transformed.
pub fn label_for_display(label: &Vec<char>, shift: bool) -> (r: Vec<char>)
    ensures
        shift && label@.len() == 1 ==> r@ == seq![upper_char(label@[0])],
        !(shift && label@.len() == 1) ==> r@ == label@,
{
    if shift && label.len() == 1 {
        let c = label[0];
        let u: char = if c >= 'a' && c <= 'z' {
            (((c as u32) - 32) as u8) as char
        } else {
            c
        };
        let mut out: Vec<char> = Vec::new();
        out.push(u);
        proof {
            assert(out@ =~= seq![upper_char(label@[0])]);
        }
        out
    } else {
        let mut out: Vec<char> = Vec::new();
        let mut i: usize = 0;
        let n = label.len();
        while i < n
            invariant
                i <= n,
                n == label@.len(),
                out@ == label@.take(i as int),
            decreases n - i,
        {
            out.push(label[i]);
            proof {
                assert(out@ =~= label@.take(i as int + 1));
            }
            i = i + 1;
        }
        proof {
            assert(out@ =~= label@);
        }
        out
    }
}

/// Re-running a layout with the cache state the first run produced changes
/// nothing and paints the same pixels: after the first run every key is
/// cached, so the second run leaves the cache untouched and its output is
/// the same function of the starting buffer, the cache, the box and the
/// text.
pub proof fn lemma_layout_idempotent(
    buf0: Seq<u32>,
    buf1: Seq<u32>,
    buf2: Seq<u32>,
    width: int,
    cache0: Map<(char, u32), GlyphView>,
    cache1: Map<(char, u32), GlyphView>,
    cache2: Map<(char, u32), GlyphView>,
    box_x: int,
    box_y: int,
    box_w: int,
    box_h: int,
    text: Seq<char>,
    size: u32,
    color: u32,
)
    requires
        layout_post(
            buf0,
            buf1,
            width,
            cache0,
            cache1,
            box_x,
            box_y,
            box_w,
            box_h,
            text,
            size,
            color,
        ),
        layout_post(
            buf0,
            buf2,
            width,
            cache1,
            cache2,
            box_x,
            box_y,
            box_w,
            box_h,
            text,
            size,
            color,
        ),
    ensures
        cache2 == cache1,
        buf2 == buf1,
{
    assert forall|i: int| 0 <= i < text.len() implies cache1.dom().contains(
        ((#[trigger] text[i]), size),
    ) by {
        assert(text.contains(text[i]));
        assert(text_keys(text, size).contains((text[i], size)));
        assert((cache0.dom() + text_keys(text, size)).contains((text[i], size)));
    }
}

} // verus!
