//! The palette of sources and plot lines.
use vstd::prelude::*;

verus! {

/// Red, green and blue.
#[derive(Clone, Copy, PartialEq, Eq, Structural, Debug)]
pub struct Rgb {
    pub r: u8,
    pub g: u8,
    pub b: u8,
}

/// A small categorical palette, cycled by index, used both for per-source accent colors and
/// per-series plot line colors.
///
/// A source's colour is picked once, when it is imported, and a plot line's when it is added;
/// neither is re-picked when the theme changes, and an exported figure is usually the opposite
/// theme of the app it was exported from. So there is one palette rather than a light and a
/// dark one, and every entry is a mid-tone that stands out on both a white page and a
/// near-black one.
pub const PALETTE: [(u8, u8, u8); 8] = [
    (0x2E, 0x7E, 0xE6),
    (0xE8, 0x59, 0x0C),
    (0x22, 0xA0, 0x5E),
    (0xE6, 0x49, 0x80),
    (0x8B, 0x5C, 0xF6),
    (0xB0, 0x88, 0x00),
    (0x0E, 0x94, 0x94),
    (0xC2, 0x5B, 0xC2),
];

/// The colour at an index of the palette, which repeats.
pub fn color_for_index(i: usize) -> (c: Rgb)
    ensures
        (c.r, c.g, c.b) == PALETTE@[i as int % 8],
{
    let (r, g, b) = PALETTE[i % 8];
    Rgb { r, g, b }
}

/// Eight lines in a row have eight colours.
pub proof fn neighbours_differ(i: int, j: int)
    requires
        0 <= i < j < 8,
    ensures
        PALETTE@[i] != PALETTE@[j],
{
}

} // verus!
