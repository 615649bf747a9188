use keylayout::{GlyphBitmap, GlyphCache};

fn sample_glyph(seed: u8) -> GlyphBitmap {
    GlyphBitmap::new(2, 3, -1, 2, 11, vec![seed, 0, 255, 7, 9, seed]).expect("coverage matches")
}

fn assert_same_glyph(a: &GlyphBitmap, b: &GlyphBitmap) {
    assert_eq!(a.width, b.width);
    assert_eq!(a.height, b.height);
    assert_eq!(a.xmin, b.xmin);
    assert_eq!(a.ymin, b.ymin);
    assert_eq!(a.advance, b.advance);
    assert_eq!(a.coverage, b.coverage);
}

#[test]
fn lookup_returns_the_stored_bitmap_bit_identically() {
    let mut cache = GlyphCache::new();
    let glyph = sample_glyph(42);
    cache.insert('a', 24, glyph.duplicate());
    let first = cache.lookup('a', 24).expect("stored");
    let second = cache.lookup('a', 24).expect("still stored");
    assert_same_glyph(&first, &glyph);
    assert_same_glyph(&first, &second);
}

#[test]
fn entries_are_keyed_by_codepoint_and_size() {
    let mut cache = GlyphCache::new();
    cache.insert('a', 24, sample_glyph(1));
    cache.insert('a', 64, sample_glyph(2));
    cache.insert('b', 24, sample_glyph(3));
    assert!(cache.contains('a', 24));
    assert!(cache.contains('a', 64));
    assert!(cache.contains('b', 24));
    assert!(!cache.contains('b', 64));
    assert!(!cache.contains('c', 24));
    let a24 = cache.lookup('a', 24).expect("stored");
    let a64 = cache.lookup('a', 64).expect("stored");
    assert_eq!(a24.coverage[0], 1);
    assert_eq!(a64.coverage[0], 2);
}

#[test]
fn duplicate_is_value_identical() {
    let glyph = sample_glyph(9);
    let copy = glyph.duplicate();
    assert_same_glyph(&glyph, &copy);
}

#[test]
fn zero_size_bitmap_is_accepted_with_empty_coverage() {
    let glyph = GlyphBitmap::new(0, 0, 0, 0, 12, vec![]).expect("empty coverage matches");
    assert_eq!(glyph.width, 0);
    assert_eq!(glyph.height, 0);
    assert_eq!(glyph.advance, 12);
}

#[test]
fn mismatched_coverage_is_rejected() {
    assert!(GlyphBitmap::new(2, 2, 0, 0, 1, vec![255; 3]).is_none());
    assert!(GlyphBitmap::new(2, 2, 0, 0, 1, vec![255; 5]).is_none());
}
