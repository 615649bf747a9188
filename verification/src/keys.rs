//! The static key table entry: a labeled rectangle bound to an input code.
//! The table itself is supplied by the host at startup and never mutated.

use vstd::prelude::*;

verus! {

/// Fill color of a pressed key's rectangle.
pub const PRESSED_KEY_COLOR: u32 = 0xFFFFFFFF;

/// One key of the on-screen keyboard: its input code, its rectangle in the
/// frame buffer, and its label.
pub struct KeyRegion {
    pub code: u64,
    pub x: usize,
    pub y: usize,
    pub width: usize,
    pub height: usize,
    pub label: Vec<char>,
}

impl KeyRegion {
    /// Builds a key table entry.
    pub fn new(
        code: u64,
        x: usize,
        y: usize,
        width: usize,
        height: usize,
        label: Vec<char>,
    ) -> (r: KeyRegion)
        ensures
            r.code == code,
            r.x == x,
            r.y == y,
            r.width == width,
            r.height == height,
            r.label@ == label@,
    {
        KeyRegion { code, x, y, width, height, label }
    }
}

} // verus!
