use keylayout::{draw_glyphs, label_for_display, GlyphBitmap, PixelBuffer};

fn buffer(w: usize, h: usize, fill: u32) -> PixelBuffer {
    PixelBuffer::new(w, h, fill).expect("dimensions fit")
}

fn full_glyph(w: usize, h: usize, xmin: i32, ymin: i32, advance: u32) -> GlyphBitmap {
    GlyphBitmap::new(w, h, xmin, ymin, advance, vec![255; w * h]).expect("coverage matches")
}

#[test]
fn label_centered_in_box() {
    // Box (0, 0, 50, 50), one glyph with advance 12: the horizontal start is
    // (50 - 12) / 2 = 19, and the glyph's left edge lands at 19 + xmin.
    let bg = 0xFF000000;
    let text = 0xFFAABBCC;
    let mut buf = buffer(60, 60, bg);
    let glyph = full_glyph(2, 2, 1, 0, 12);
    let glyphs = vec![glyph];
    draw_glyphs(&mut buf, 0, 0, 50, 50, &glyphs, text);
    // Vertical origin: 0 + 50/2 - 2/2 - 0 = 24.
    for y in 24..26usize {
        assert_eq!(buf.pixel(19, y), bg, "left of the glyph at row {y}");
        assert_eq!(buf.pixel(20, y), text, "glyph left edge at row {y}");
        assert_eq!(buf.pixel(21, y), text, "glyph right edge at row {y}");
        assert_eq!(buf.pixel(22, y), bg, "right of the glyph at row {y}");
    }
    assert_eq!(buf.pixel(20, 23), bg);
    assert_eq!(buf.pixel(20, 26), bg);
}

#[test]
fn two_glyphs_advance_additively() {
    // Two glyphs of advance 10 each in a box of width 30: start = (30-20)/2
    // = 5; first glyph at 5 + xmin, second at 15 + xmin.
    let bg = 0xFF000000;
    let text = 0xFFFFFFFF;
    let mut buf = buffer(40, 20, bg);
    let glyphs = vec![full_glyph(1, 1, 0, 0, 10), full_glyph(1, 1, 0, 0, 10)];
    draw_glyphs(&mut buf, 0, 0, 30, 10, &glyphs, text);
    // Vertical origin of both: 0 + 10/2 - 1/2 - 0 = 5.
    assert_eq!(buf.pixel(5, 5), text);
    assert_eq!(buf.pixel(15, 5), text);
    assert_eq!(buf.pixel(6, 5), bg);
    assert_eq!(buf.pixel(14, 5), bg);
}

#[test]
fn empty_glyph_still_advances_cursor() {
    // An empty bitmap paints nothing but its advance shifts what follows.
    let bg = 0xFF000000;
    let text = 0xFFFFFFFF;
    let mut buf = buffer(40, 20, bg);
    let empty = GlyphBitmap::new(0, 0, 0, 0, 8, vec![]).expect("coverage matches");
    let glyphs = vec![empty, full_glyph(1, 1, 0, 0, 2)];
    draw_glyphs(&mut buf, 0, 0, 10, 10, &glyphs, text);
    // Total advance 10, start = 0, second glyph painted at cursor 8, on the
    // vertical origin 0 + 10/2 - 1/2 - 0 = 5.
    assert_eq!(buf.pixel(8, 5), text);
    for x in 0..8usize {
        assert_eq!(buf.pixel(x, 5), bg);
    }
}

#[test]
fn repeated_layout_paints_identically() {
    let bg = 0xFF101010;
    let text = 0xFF00FF00;
    let glyphs = vec![full_glyph(3, 4, 1, -1, 7), full_glyph(2, 2, 0, 2, 5)];
    let mut first = buffer(30, 30, bg);
    let mut second = buffer(30, 30, bg);
    draw_glyphs(&mut first, 2, 3, 20, 18, &glyphs, text);
    draw_glyphs(&mut second, 2, 3, 20, 18, &glyphs, text);
    for y in 0..30usize {
        for x in 0..30usize {
            assert_eq!(first.pixel(x, y), second.pixel(x, y), "pixel ({x}, {y})");
        }
    }
}

#[test]
fn overflowing_text_clips_at_buffer_edge() {
    // A run wider than the box: the start goes negative and painting clips.
    let bg = 0xFF000000;
    let text = 0xFFFFFFFF;
    let mut buf = buffer(4, 6, bg);
    let glyphs = vec![full_glyph(8, 1, 0, 0, 8)];
    // start = (4 - 8) / 2 = -2: columns -2..6 of the glyph, clipped to 0..4,
    // on the vertical origin 0 + 6/2 - 1/2 - 0 = 3.
    draw_glyphs(&mut buf, 0, 0, 4, 6, &glyphs, text);
    for x in 0..4usize {
        assert_eq!(buf.pixel(x, 3), text);
    }
    assert_eq!(buf.pixel(0, 2), bg);
    assert_eq!(buf.pixel(0, 4), bg);
}

#[test]
fn shift_uppercases_single_letter_labels_only() {
    let a: Vec<char> = vec!['a'];
    let up = label_for_display(&a, true);
    assert_eq!(up, vec!['A']);
    let same = label_for_display(&a, false);
    assert_eq!(same, vec!['a']);
    let dash: Vec<char> = vec!['-'];
    assert_eq!(label_for_display(&dash, true), vec!['-']);
    let digit: Vec<char> = vec!['7'];
    assert_eq!(label_for_display(&digit, true), vec!['7']);
    let word: Vec<char> = "Enter".chars().collect();
    assert_eq!(label_for_display(&word, true), word);
}
