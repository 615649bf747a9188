//! Rasterized glyph bitmaps and the cache that memoizes them per
//! (codepoint, pixel size) key.

use vstd::prelude::*;

verus! {

/// Largest pixel size the rasterizer interface accepts; sizes are handed to
/// the font engine as a 16-bit quantity.
pub const MAX_PIXEL_SIZE: u32 = 0xFFFF;

/// Mathematical value of a rasterized glyph: dimensions, placement offsets,
/// advance width and the 8-bit coverage rows, top-left first.
pub struct GlyphView {
    pub width: int,
    pub height: int,
    pub xmin: int,
    pub ymin: int,
    pub advance: int,
    pub coverage: Seq<u8>,
}

impl GlyphView {
    /// A glyph is well formed when its coverage holds exactly one byte per
    /// pixel of its width × height grid and its fields lie in the ranges of
    /// the machine types they are stored in.
    pub open spec fn wf(self) -> bool {
        &&& self.coverage.len() == self.width * self.height
        &&& 0 <= self.width
        &&& 0 <= self.height
        &&& 0 <= self.advance <= u32::MAX
        &&& i32::MIN <= self.xmin <= i32::MAX
        &&& i32::MIN <= self.ymin <= i32::MAX
    }
}

/// A rasterized glyph: an 8-bit coverage bitmap of `width * height` bytes in
/// row-major order, placement offsets, and the horizontal advance in whole
/// pixels.  Immutable once produced.
pub struct GlyphBitmap {
    pub width: usize,
    pub height: usize,
    pub xmin: i32,
    pub ymin: i32,
    pub advance: u32,
    pub coverage: Vec<u8>,
}

impl View for GlyphBitmap {
    type V = GlyphView;

    open spec fn view(&self) -> GlyphView {
        GlyphView {
            width: self.width as int,
            height: self.height as int,
            xmin: self.xmin as int,
            ymin: self.ymin as int,
            advance: self.advance as int,
            coverage: self.coverage@,
        }
    }
}

impl GlyphBitmap {
    /// Builds a glyph, accepted only when the coverage length matches the
    /// dimensions.
    pub fn new(width: usize, height: usize, xmin: i32, ymin: i32, advance: u32, coverage: Vec<u8>)
        -> (r: Option<GlyphBitmap>)
        ensures
            r is Some <==> coverage@.len() == width * height,
            r is Some ==> {
                &&& r->0@ == (GlyphView {
                    width: width as int,
                    height: height as int,
                    xmin: xmin as int,
                    ymin: ymin as int,
                    advance: advance as int,
                    coverage: coverage@,
                })
                &&& r->0@.wf()
            },
    {
        let n: usize = coverage.len();
        if width != 0 && height > usize::MAX / width {
            proof {
                assert(width * height > usize::MAX) by (nonlinear_arith)
                    requires
                        width >= 1,
                        height > usize::MAX as int / width as int,
                ;
            }
            return None;
        }
        let cells: usize = if width == 0 {
            0
        } else {
            proof {
                assert(width * height <= usize::MAX) by (nonlinear_arith)
                    requires
                        width >= 1,
                        height <= usize::MAX as int / width as int,
                ;
            }
            width * height
        };
        if n == cells {
            Some(GlyphBitmap { width, height, xmin, ymin, advance, coverage })
        } else {
            None
        }
    }

    /// A value-identical copy of the glyph.
    pub fn duplicate(&self) -> (r: GlyphBitmap)
        ensures
            r@ == self@,
    {
        let mut coverage: Vec<u8> = Vec::new();
        let mut i: usize = 0;
        while i < self.coverage.len()
            invariant
                i <= self.coverage.len(),
                coverage@ == self.coverage@.take(i as int),
            decreases self.coverage.len() - i,
        {
            coverage.push(self.coverage[i]);
            proof {
                assert(coverage@ =~= self.coverage@.take(i + 1));
            }
            i = i + 1;
        }
        proof {
            assert(coverage@ =~= self.coverage@);
        }
        GlyphBitmap {
            width: self.width,
            height: self.height,
            xmin: self.xmin,
            ymin: self.ymin,
            advance: self.advance,
            coverage,
        }
    }
}

/// Distinctness of the (codepoint, pixel size) keys of a cache entry list.
pub open spec fn distinct_keys(s: Seq<(char, u32, GlyphBitmap)>) -> bool {
    forall|i: int, j: int|
        0 <= i < j < s.len() ==> !(s[i].0 == s[j].0 && s[i].1 == s[j].1)
}

/// The mapping from (codepoint, pixel size) keys to glyph values that an
/// entry list denotes.
pub open spec fn entries_map(s: Seq<(char, u32, GlyphBitmap)>) -> Map<(char, u32), GlyphView>
    decreases s.len(),
{
    if s.len() == 0 {
        Map::empty()
    } else {
        entries_map(s.drop_last()).insert((s.last().0, s.last().1), s.last().2@)
    }
}

/// With distinct keys, the entry at index `i` is what the denoted map stores
/// under its key.
proof fn lemma_entries_map_get(s: Seq<(char, u32, GlyphBitmap)>, i: int)
    requires
        distinct_keys(s),
        0 <= i < s.len(),
    ensures
        entries_map(s).dom().contains((s[i].0, s[i].1)),
        entries_map(s)[(s[i].0, s[i].1)] == s[i].2@,
    decreases s.len(),
{
    if i < s.len() - 1 {
        lemma_entries_map_get(s.drop_last(), i);
    }
}

/// A key that no entry carries is absent from the denoted map.
proof fn lemma_entries_map_absent(s: Seq<(char, u32, GlyphBitmap)>, c: char, size: u32)
    requires
        forall|j: int| 0 <= j < s.len() ==> !(s[j].0 == c && s[j].1 == size),
    ensures
        !entries_map(s).dom().contains((c, size)),
    decreases s.len(),
{
    if s.len() > 0 {
        lemma_entries_map_absent(s.drop_last(), c, size);
    }
}

/// A rasterization cache: one glyph per (codepoint, pixel size) key, grown on
/// demand and never evicted.  Its mathematical value is the map from keys to
/// glyph values.
pub struct GlyphCache {
    entries: Vec<(char, u32, GlyphBitmap)>,
}

impl View for GlyphCache {
    type V = Map<(char, u32), GlyphView>;

    closed spec fn view(&self) -> Map<(char, u32), GlyphView> {
        entries_map(self.entries@)
    }
}

impl GlyphCache {
    /// Keys are unique and every stored glyph is well formed.
    pub closed spec fn wf(&self) -> bool {
        &&& distinct_keys(self.entries@)
        &&& forall|i: int| 0 <= i < self.entries@.len() ==> (#[trigger] self.entries@[i]).2@.wf()
    }

    /// An empty cache.
    pub fn new() -> (r: GlyphCache)
        ensures
            r.wf(),
            r@ == Map::<(char, u32), GlyphView>::empty(),
    {
        GlyphCache { entries: Vec::new() }
    }

    /// The index of the entry holding the key, if any.
    fn find_index(&self, c: char, size: u32) -> (r: Option<usize>)
        requires
            self.wf(),
        ensures
            r is Some ==> {
                &&& r->0 < self.entries@.len()
                &&& self.entries@[r->0 as int].0 == c
                &&& self.entries@[r->0 as int].1 == size
                &&& self@.dom().contains((c, size))
                &&& self@[(c, size)] == self.entries@[r->0 as int].2@
            },
            r is None ==> !self@.dom().contains((c, size)),
    {
        let n = self.entries.len();
        let mut i: usize = 0;
        while i < n
            invariant
                self.wf(),
                i <= n,
                n == self.entries@.len(),
                forall|j: int| 0 <= j < i ==> !((#[trigger] self.entries@[j]).0 == c
                    && self.entries@[j].1 == size),
            decreases n - i,
        {
            if self.entries[i].0 == c && self.entries[i].1 == size {
                proof {
                    lemma_entries_map_get(self.entries@, i as int);
                }
                return Some(i);
            }
            i = i + 1;
        }
        proof {
            lemma_entries_map_absent(self.entries@, c, size);
        }
        None
    }

    /// Whether the cache already holds a glyph for the key.
    pub fn contains(&self, c: char, size: u32) -> (r: bool)
        requires
            self.wf(),
        ensures
            r == self@.dom().contains((c, size)),
    {
        self.find_index(c, size).is_some()
    }

    /// A copy of the cached glyph for the key, when one is stored.
    pub fn lookup(&self, c: char, size: u32) -> (r: Option<GlyphBitmap>)
        requires
            self.wf(),
        ensures
            r is Some <==> self@.dom().contains((c, size)),
            r is Some ==> r->0@ == self@[(c, size)] && r->0@.wf(),
    {
        match self.find_index(c, size) {
            Some(i) => {
                proof {
                    assert(self.entries@[i as int].2@.wf());
                }
                Some(self.entries[i].2.duplicate())
            },
            None => None,
        }
    }

    /// Stores a glyph under a key not yet present.
    pub fn insert(&mut self, c: char, size: u32, g: GlyphBitmap)
        requires
            old(self).wf(),
            !old(self)@.dom().contains((c, size)),
            g@.wf(),
        ensures
            final(self).wf(),
            final(self)@ == old(self)@.insert((c, size), g@),
    {
        proof {
            assert forall|j: int| 0 <= j < self.entries@.len() implies !((
            #[trigger] self.entries@[j]).0 == c && self.entries@[j].1 == size) by {
                if self.entries@[j].0 == c && self.entries@[j].1 == size {
                    lemma_entries_map_get(self.entries@, j);
                }
            }
        }
        let ghost s0 = self.entries@;
        let ghost gv = g@;
        self.entries.push((c, size, g));
        proof {
            assert(self.entries@.drop_last() =~= s0);
            assert(self.entries@.last() == (c, size, g));
            assert(entries_map(self.entries@) == entries_map(s0).insert((c, size), gv));
            assert forall|i: int| 0 <= i < self.entries@.len() implies (
            #[trigger] self.entries@[i]).2@.wf() by {
                if i < s0.len() {
                    assert(self.entries@[i] == s0[i]);
                }
            }
        }
    }
}

#[verifier::external_type_specification]
#[verifier::external_body]
pub struct ExFont(fontdue::Font);

/// Relies on fontdue::Font::rasterize: the returned coverage vector holds
/// exactly `metrics.width * metrics.height` bytes, one 8-bit coverage value
/// per pixel, starting at the top-left corner of the glyph.  The float
/// advance width is rounded to whole pixels here; the pixel size is handed to
/// the rasterizer as a 16-bit quantity.
#[verifier::external_body]
fn rasterize_glyph(font: &fontdue::Font, c: char, size: u32) -> (g: GlyphBitmap)
    requires
        size <= MAX_PIXEL_SIZE,
    ensures
        g@.wf(),
{
    let (m, coverage) = font.rasterize(c, (size as u16).into());
    GlyphBitmap {
        width: m.width,
        height: m.height,
        xmin: m.xmin,
        ymin: m.ymin,
        advance: m.advance_width.round() as u32,
        coverage,
    }
}

impl GlyphCache {
    /// The glyph for the key: returned straight from the cache on a hit
    /// (the cache is left untouched and no rasterization happens), rasterized
    /// through the font and inserted before returning on a miss.  Either way
    /// the cache afterwards maps the key to the returned glyph.
    pub fn get(&mut self, font: &fontdue::Font, c: char, size: u32) -> (g: GlyphBitmap)
        requires
            old(self).wf(),
            size <= MAX_PIXEL_SIZE,
        ensures
            final(self).wf(),
            g@.wf(),
            final(self)@ == old(self)@.insert((c, size), g@),
            final(self)@.dom() == old(self)@.dom().insert((c, size)),
            old(self)@.dom().contains((c, size)) ==> final(self)@ == old(self)@ && g@ == old(
                self,
            )@[(c, size)],
    {
        match self.lookup(c, size) {
            Some(g) => {
                proof {
                    assert(self@.insert((c, size), g@) =~= self@);
                    assert(self@.dom().insert((c, size)) =~= self@.dom());
                }
                g
            },
            None => {
                let g = rasterize_glyph(font, c, size);
                let out = g.duplicate();
                self.insert(c, size, g);
                out
            },
        }
    }
}

/// Every key the denoted map holds is carried by some entry, and with that
/// entry's glyph as its value when keys are distinct.
proof fn lemma_entries_map_to_index(s: Seq<(char, u32, GlyphBitmap)>, k: (char, u32))
    requires
        entries_map(s).dom().contains(k),
    ensures
        exists|i: int|
            0 <= i < s.len() && ((#[trigger] s[i]).0, s[i].1) == k && entries_map(s)[k] == s[
                i
            ].2@,
    decreases s.len(),
{
    if s.len() > 0 {
        let last = s.len() - 1;
        if (s[last].0, s[last].1) == k {
            assert(0 <= last < s.len() && (s[last].0, s[last].1) == k && entries_map(s)[k] == s[
                last
            ].2@);
        } else {
            lemma_entries_map_to_index(s.drop_last(), k);
            let i = choose|i: int|
                0 <= i < s.drop_last().len() && ((#[trigger] s.drop_last()[i]).0, s.drop_last()[
                    i
                ].1) == k && entries_map(s.drop_last())[k] == s.drop_last()[i].2@;
            assert(0 <= i < s.len() && (s[i].0, s[i].1) == k && entries_map(s)[k] == s[i].2@);
        }
    }
}

/// Every glyph a well-formed cache stores is well formed.
pub proof fn lemma_cache_values_wf(cache: &GlyphCache, k: (char, u32))
    requires
        cache.wf(),
        cache@.dom().contains(k),
    ensures
        cache@[k].wf(),
{
    lemma_entries_map_to_index(cache.entries@, k);
}

/// Fetching a key twice memoizes: the first fetch leaves the key cached, so
/// the second is a hit that returns the identical glyph value and leaves the
/// cache untouched.  The hypotheses are exactly what two successive `get`
/// calls on the same key ensure.
pub proof fn lemma_get_memoizes(
    cache0: Map<(char, u32), GlyphView>,
    cache1: Map<(char, u32), GlyphView>,
    cache2: Map<(char, u32), GlyphView>,
    g1: GlyphView,
    g2: GlyphView,
    c: char,
    size: u32,
)
    requires
        cache1 == cache0.insert((c, size), g1),
        cache2 == cache1.insert((c, size), g2),
        cache1.dom().contains((c, size)) ==> cache2 == cache1 && g2 == cache1[(c, size)],
    ensures
        cache2 == cache1,
        g2 == g1,
{
    assert(cache1.dom().contains((c, size)));
}

} // verus!
