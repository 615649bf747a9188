use keylayout::{fill_rect, paint_glyph, rectangle, GlyphBitmap, PixelBuffer};

fn buffer(w: usize, h: usize, fill: u32) -> PixelBuffer {
    PixelBuffer::new(w, h, fill).expect("dimensions fit")
}

#[test]
fn fill_rect_inside_and_outside() {
    let bg = 0xFF111111;
    let red = 0xFFFF0000;
    let mut buf = buffer(10, 8, bg);
    fill_rect(&mut buf, 2, 3, 4, 2, red);
    for y in 0..8usize {
        for x in 0..10usize {
            let expect = if (2..6).contains(&x) && (3..5).contains(&y) {
                red
            } else {
                bg
            };
            assert_eq!(buf.pixel(x, y), expect, "pixel ({x}, {y})");
        }
    }
}

#[test]
fn fill_rect_clips_at_buffer_edges() {
    let bg = 0xFF000000;
    let c = 0xFF00FF00;
    let mut buf = buffer(10, 8, bg);
    fill_rect(&mut buf, 8, 6, 5, 5, c);
    for y in 0..8usize {
        for x in 0..10usize {
            let expect = if x >= 8 && y >= 6 { c } else { bg };
            assert_eq!(buf.pixel(x, y), expect, "pixel ({x}, {y})");
        }
    }
}

#[test]
fn fill_rect_fully_outside_changes_nothing() {
    let bg = 0xFFABCDEF;
    let mut buf = buffer(6, 6, bg);
    fill_rect(&mut buf, 6, 0, 4, 4, 0xFF123456);
    fill_rect(&mut buf, 0, 6, 4, 4, 0xFF123456);
    for y in 0..6usize {
        for x in 0..6usize {
            assert_eq!(buf.pixel(x, y), bg);
        }
    }
}

#[test]
fn paint_full_coverage_writes_text_color_exactly() {
    let bg = 0xFF123456;
    let text = 0xFFAABBCC;
    let mut buf = buffer(8, 8, bg);
    let glyph =
        GlyphBitmap::new(2, 2, 0, 0, 10, vec![255, 255, 255, 255]).expect("coverage matches");
    paint_glyph(&mut buf, 3, 4, &glyph, text);
    assert_eq!(buf.pixel(3, 4), text);
    assert_eq!(buf.pixel(4, 4), text);
    assert_eq!(buf.pixel(3, 5), text);
    assert_eq!(buf.pixel(4, 5), text);
    assert_eq!(buf.pixel(2, 4), bg);
    assert_eq!(buf.pixel(5, 4), bg);
}

#[test]
fn paint_zero_coverage_leaves_destination_untouched() {
    let bg = 0xFF123456;
    let mut buf = buffer(8, 8, bg);
    let glyph = GlyphBitmap::new(2, 2, 0, 0, 10, vec![0, 0, 0, 0]).expect("coverage matches");
    paint_glyph(&mut buf, 3, 4, &glyph, 0xFFFFFFFF);
    for y in 0..8usize {
        for x in 0..8usize {
            assert_eq!(buf.pixel(x, y), bg);
        }
    }
}

#[test]
fn paint_half_coverage_blends() {
    // White over black at coverage 128: each channel (255*128 + 0*127)/255 = 128.
    let mut buf = buffer(4, 4, 0xFF000000);
    let glyph = GlyphBitmap::new(1, 1, 0, 0, 1, vec![128]).expect("coverage matches");
    paint_glyph(&mut buf, 1, 1, &glyph, 0xFFFFFFFF);
    assert_eq!(buf.pixel(1, 1), 0xFF808080);
}

#[test]
fn paint_clips_at_negative_origin() {
    let bg = 0xFF101010;
    let text = 0xFFFFFFFF;
    let mut buf = buffer(4, 4, bg);
    let glyph =
        GlyphBitmap::new(2, 2, 0, 0, 10, vec![255, 255, 255, 255]).expect("coverage matches");
    paint_glyph(&mut buf, -1, -1, &glyph, text);
    assert_eq!(buf.pixel(0, 0), text);
    assert_eq!(buf.pixel(1, 0), bg);
    assert_eq!(buf.pixel(0, 1), bg);
    assert_eq!(buf.pixel(1, 1), bg);
}

#[test]
fn buffer_copy_matches_source() {
    let mut a = buffer(5, 5, 0xFF010203);
    let mut b = buffer(5, 5, 0xFF000000);
    fill_rect(&mut a, 1, 1, 2, 2, 0xFFFFFFFF);
    b.copy_from(&a);
    for y in 0..5usize {
        for x in 0..5usize {
            assert_eq!(a.pixel(x, y), b.pixel(x, y));
        }
    }
}

#[test]
fn rectangle_is_the_opaque_key_fill() {
    let bg = 0xFF202020;
    let c = 0xFF808080;
    let mut buf = buffer(10, 8, bg);
    rectangle(&mut buf, 1, 1, 3, 2, c);
    for y in 0..8usize {
        for x in 0..10usize {
            let expect = if (1..4).contains(&x) && (1..3).contains(&y) {
                c
            } else {
                bg
            };
            assert_eq!(buf.pixel(x, y), expect, "pixel ({x}, {y})");
        }
    }
}
