pub mod events;
pub mod graph;
pub mod handler;
pub mod slider;
pub mod solver;
pub mod text;
pub mod ui;

use vstd::prelude::*;

verus! {

/// Converts a font size in points to pixels, assuming a 96 dpi display
/// (1 pt = 1/72 inch), rounding down.
pub fn pt_to_px(font_size_in_points: i64) -> (r: i64)
    requires
        0 <= font_size_in_points <= 0x1000_0000,
    ensures
        r == (font_size_in_points * 4) / 3,
{
    (font_size_in_points * 4) / 3
}

/// Converts a font size in pixels back to points, assuming a 96 dpi
/// display, rounding down.
pub fn px_to_pt(font_size_in_px: i64) -> (r: i64)
    requires
        0 <= font_size_in_px <= 0x1000_0000,
    ensures
        r == (font_size_in_px * 3) / 4,
{
    (font_size_in_px * 3) / 4
}

} // verus!
