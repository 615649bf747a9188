//! ARGB32 color arithmetic: channel extraction, packing, clamped channel
//! adjustment of the persisted accent color.

use vstd::prelude::*;

verus! {

/// The accent color used when no persisted value can be read.
pub const DEFAULT_ACCENT_COLOR: u32 = 0xFF808080;

/// Alpha channel of an ARGB32 color, as a mathematical integer in [0, 255].
pub open spec fn alpha_of(c: u32) -> int {
    c as int / 0x1000000
}

/// Red channel of an ARGB32 color.
pub open spec fn red_of(c: u32) -> int {
    (c as int / 0x10000) % 0x100
}

/// Green channel of an ARGB32 color.
pub open spec fn green_of(c: u32) -> int {
    (c as int / 0x100) % 0x100
}

/// Blue channel of an ARGB32 color.
pub open spec fn blue_of(c: u32) -> int {
    c as int % 0x100
}

/// The ARGB32 word holding the four given channels.
pub open spec fn pack_argb(a: int, r: int, g: int, b: int) -> int {
    a * 0x1000000 + r * 0x10000 + g * 0x100 + b
}

/// A channel value forced into the representable range [0, 255].
pub open spec fn clamp_channel(v: int) -> int {
    if v < 0 {
        0
    } else if v > 255 {
        255
    } else {
        v
    }
}

/// Packing in-range channels and reading them back is the identity, and the
/// packed word fits in 32 bits.
pub proof fn lemma_pack_extract(a: int, r: int, g: int, b: int)
    requires
        0 <= a < 256,
        0 <= r < 256,
        0 <= g < 256,
        0 <= b < 256,
    ensures
        0 <= pack_argb(a, r, g, b) <= u32::MAX,
        alpha_of(pack_argb(a, r, g, b) as u32) == a,
        red_of(pack_argb(a, r, g, b) as u32) == r,
        green_of(pack_argb(a, r, g, b) as u32) == g,
        blue_of(pack_argb(a, r, g, b) as u32) == b,
{
    let p = pack_argb(a, r, g, b);
    assert(p == (a * 0x100 + r) * 0x10000 + (g * 0x100 + b));
    assert(0 <= g * 0x100 + b < 0x10000);
    assert(p / 0x10000 == a * 0x100 + r) by (nonlinear_arith)
        requires
            p == (a * 0x100 + r) * 0x10000 + (g * 0x100 + b),
            0 <= g * 0x100 + b < 0x10000,
            0 <= a * 0x100 + r,
    ;
    assert(p % 0x10000 == g * 0x100 + b) by (nonlinear_arith)
        requires
            p == (a * 0x100 + r) * 0x10000 + (g * 0x100 + b),
            0 <= g * 0x100 + b < 0x10000,
            0 <= a * 0x100 + r,
    ;
    assert((a * 0x100 + r) / 0x100 == a && (a * 0x100 + r) % 0x100 == r) by (nonlinear_arith)
        requires
            0 <= r < 0x100,
            0 <= a,
    ;
    assert((g * 0x100 + b) / 0x100 == g && (g * 0x100 + b) % 0x100 == b) by (nonlinear_arith)
        requires
            0 <= b < 0x100,
            0 <= g,
    ;
    assert(p / 0x1000000 == (p / 0x10000) / 0x100) by (nonlinear_arith)
        requires
            0 <= p,
    ;
    assert(p % 0x100 == (p % 0x10000) % 0x100) by (nonlinear_arith)
        requires
            0 <= p,
    ;
    assert((p / 0x100) % 0x100 == (p % 0x10000) / 0x100) by (nonlinear_arith)
        requires
            0 <= p,
    ;
}

/// Every channel of an ARGB32 word lies in [0, 255].
pub proof fn lemma_channels_in_range(c: u32)
    ensures
        0 <= alpha_of(c) < 256,
        0 <= red_of(c) < 256,
        0 <= green_of(c) < 256,
        0 <= blue_of(c) < 256,
{
    assert(0 <= c as int / 0x1000000 < 256) by (nonlinear_arith)
        requires
            0 <= c <= 0xFFFFFFFFu32,
    ;
}

/// Red channel of a color, as executable code.
pub fn red_channel(c: u32) -> (r: u32)
    ensures
        r == red_of(c),
        r < 256,
{
    (c / 0x10000) % 0x100
}

/// Green channel of a color, as executable code.
pub fn green_channel(c: u32) -> (r: u32)
    ensures
        r == green_of(c),
        r < 256,
{
    (c / 0x100) % 0x100
}

/// Blue channel of a color, as executable code.
pub fn blue_channel(c: u32) -> (r: u32)
    ensures
        r == blue_of(c),
        r < 256,
{
    c % 0x100
}

/// Packs RGB channels under a fully opaque alpha.
pub fn pack_opaque(r: u32, g: u32, b: u32) -> (c: u32)
    requires
        r < 256,
        g < 256,
        b < 256,
    ensures
        c == pack_argb(0xFF, r as int, g as int, b as int),
        alpha_of(c) == 0xFF,
        red_of(c) == r,
        green_of(c) == g,
        blue_of(c) == b,
{
    proof {
        lemma_pack_extract(0xFF, r as int, g as int, b as int);
    }
    0xFF000000u32 + r * 0x10000 + g * 0x100 + b
}

/// Adds a signed delta to a channel value and clamps the sum to [0, 255].
pub fn adjust_channel(current: u32, delta: i32) -> (r: u32)
    requires
        current < 256,
    ensures
        r == clamp_channel(current + delta),
        r < 256,
{
    let sum: i64 = current as i64 + delta as i64;
    if sum < 0 {
        0
    } else if sum > 255 {
        255
    } else {
        sum as u32
    }
}

/// Adjusts one RGB component of the accent color by a signed amount, clamped
/// to the representable channel range; the alpha channel is pinned to fully
/// opaque.  A component other than 'R', 'G' or 'B' means no component is
/// selected: the color is left untouched and the call reports rejection so
/// that the caller can show a hint instead.
pub fn scroll_color(color: &mut u32, scroll_amount: i32, component: char) -> (accepted: bool)
    ensures
        accepted <==> (component == 'R' || component == 'G' || component == 'B'),
        component == 'R' ==> {
            &&& red_of(*final(color)) == clamp_channel(red_of(*old(color)) + scroll_amount)
            &&& green_of(*final(color)) == green_of(*old(color))
            &&& blue_of(*final(color)) == blue_of(*old(color))
        },
        component == 'G' ==> {
            &&& red_of(*final(color)) == red_of(*old(color))
            &&& green_of(*final(color)) == clamp_channel(green_of(*old(color)) + scroll_amount)
            &&& blue_of(*final(color)) == blue_of(*old(color))
        },
        component == 'B' ==> {
            &&& red_of(*final(color)) == red_of(*old(color))
            &&& green_of(*final(color)) == green_of(*old(color))
            &&& blue_of(*final(color)) == clamp_channel(blue_of(*old(color)) + scroll_amount)
        },
        accepted ==> alpha_of(*final(color)) == 0xFF,
        !accepted ==> *final(color) == *old(color),
{
    let mut red = red_channel(*color);
    let mut green = green_channel(*color);
    let mut blue = blue_channel(*color);

    match component {
        'R' => {
            red = adjust_channel(red, scroll_amount);
        },
        'G' => {
            green = adjust_channel(green, scroll_amount);
        },
        'B' => {
            blue = adjust_channel(blue, scroll_amount);
        },
        _ => {
            return false;
        },
    }

    *color = pack_opaque(red, green, blue);
    true
}

/// Clamping keeps every accent-color channel inside [0, 255], whatever the
/// magnitude or sign of the applied delta.
pub proof fn lemma_adjustment_stays_in_range(current: int, delta: int)
    ensures
        0 <= clamp_channel(current + delta) <= 255,
{
}

} // verus!
