//! Fixed-point geometry: grid and pixel coordinates in thousandths.

use crate::fixed::{lemma_mul_abs_bound, SUBUNIT};
use vstd::prelude::*;

verus! {

/// A grid position in fixed-point cells (thousandths of a cell).
#[derive(Clone, Copy, Debug, PartialEq, Eq, Structural)]
pub struct GridPos {
    pub x: i64,
    pub y: i64,
}

/// A grid size in whole cells.
#[derive(Clone, Copy, Debug, PartialEq, Eq, Structural)]
pub struct GridSize {
    pub width: u32,
    pub height: u32,
}

/// An axis-aligned grid rectangle in fixed-point cells.
#[derive(Clone, Copy, Debug, PartialEq, Eq, Structural)]
pub struct GridRect {
    pub min: GridPos,
    pub max: GridPos,
}

/// A pixel rectangle in fixed-point pixels (thousandths of a pixel).
#[derive(Clone, Copy, Debug, PartialEq, Eq, Structural)]
pub struct PixelRect {
    pub left: i64,
    pub top: i64,
    pub right: i64,
    pub bottom: i64,
}

/// Pixels per cell, fixed-point: converts grid to pixel coordinates.
#[derive(Clone, Copy, Debug, PartialEq, Eq, Structural)]
pub struct GridScale {
    pub width: i64,
    pub height: i64,
}

/// Coordinates are kept within this bound so that every product with a
/// scale or `SUBUNIT` stays far inside `i64`.
pub const COORD_LIMIT: i64 = 0x4000_0000;

/// Pixel sizes of one cell stay within this bound.
pub const SCALE_LIMIT: i64 = 0x10_0000;

impl GridPos {
    pub open spec fn in_bounds(&self) -> bool {
        &&& -COORD_LIMIT <= self.x <= COORD_LIMIT
        &&& -COORD_LIMIT <= self.y <= COORD_LIMIT
    }

    pub fn new(x: i64, y: i64) -> (r: GridPos)
        ensures
            r.x == x,
            r.y == y,
    {
        GridPos { x, y }
    }
}

/// A coordinate loose enough for rectangle arithmetic: stored positions
/// plus a few window sizes.
pub open spec fn coord_ok(c: int) -> bool {
    -16 * (COORD_LIMIT as int) <= c <= 16 * (COORD_LIMIT as int)
}

/// An animated position: may drift a few windows past the stored range
/// while easing toward a clamped target.
pub open spec fn pos_loose(p: GridPos) -> bool {
    &&& -8 * (COORD_LIMIT as int) <= p.x <= 8 * (COORD_LIMIT as int)
    &&& -8 * (COORD_LIMIT as int) <= p.y <= 8 * (COORD_LIMIT as int)
}

impl GridRect {
    pub open spec fn in_bounds(&self) -> bool {
        &&& coord_ok(self.min.x as int)
        &&& coord_ok(self.min.y as int)
        &&& coord_ok(self.max.x as int)
        &&& coord_ok(self.max.y as int)
    }
}

impl GridScale {
    pub open spec fn in_bounds(&self) -> bool {
        &&& 0 < self.width <= SCALE_LIMIT
        &&& 0 < self.height <= SCALE_LIMIT
    }
}

impl PixelRect {
    /// Pixel coordinates produced from in-bounds grid rectangles stay
    /// within this range.
    pub open spec fn in_bounds(&self) -> bool {
        &&& -0x2000_0000_0000 <= self.left <= 0x2000_0000_0000
        &&& -0x2000_0000_0000 <= self.top <= 0x2000_0000_0000
        &&& -0x2000_0000_0000 <= self.right <= 0x2000_0000_0000
        &&& -0x2000_0000_0000 <= self.bottom <= 0x2000_0000_0000
    }

    /// Does this rectangle contain `other` entirely?
    pub fn contains_rect(&self, other: &PixelRect) -> (r: bool)
        ensures
            r == (self.left <= other.left && self.top <= other.top && other.right <= self.right
                && other.bottom <= self.bottom),
    {
        self.left <= other.left && self.top <= other.top && other.right <= self.right
            && other.bottom <= self.bottom
    }
}

/// Dividing a bounded product by `SUBUNIT` lands in the pixel range.
proof fn lemma_div_bound_milli(x: int)
    requires
        -0x40_0000_0000_0000 <= x <= 0x40_0000_0000_0000,
    ensures
        -0x2000_0000_0000 <= x / (SUBUNIT as int) <= 0x2000_0000_0000,
{
    vstd::arithmetic::div_mod::lemma_div_is_ordered(
        -0x40_0000_0000_0000,
        x,
        SUBUNIT as int,
    );
    vstd::arithmetic::div_mod::lemma_div_is_ordered(x, 0x40_0000_0000_0000, SUBUNIT as int);
}

/// The pixel rectangle covered by a grid rectangle under a scale.
/// Multiplying fixed-point cells by fixed-point pixels-per-cell needs one
/// renormalization by `SUBUNIT`.
pub open spec fn spec_grid_to_pixel(rect: GridRect, scale: GridScale) -> PixelRect {
    PixelRect {
        left: (rect.min.x * scale.width / (SUBUNIT as int)) as i64,
        top: (rect.min.y * scale.height / (SUBUNIT as int)) as i64,
        right: (rect.max.x * scale.width / (SUBUNIT as int)) as i64,
        bottom: (rect.max.y * scale.height / (SUBUNIT as int)) as i64,
    }
}

pub fn grid_to_pixel(rect: GridRect, scale: GridScale) -> (r: PixelRect)
    requires
        rect.in_bounds(),
        scale.in_bounds(),
    ensures
        r == spec_grid_to_pixel(rect, scale),
        r.in_bounds(),
{
    proof {
        lemma_mul_abs_bound(rect.min.x as int, scale.width as int, 16 * (COORD_LIMIT as int), SCALE_LIMIT as int);
        lemma_mul_abs_bound(rect.min.y as int, scale.height as int, 16 * (COORD_LIMIT as int), SCALE_LIMIT as int);
        lemma_mul_abs_bound(rect.max.x as int, scale.width as int, 16 * (COORD_LIMIT as int), SCALE_LIMIT as int);
        lemma_mul_abs_bound(rect.max.y as int, scale.height as int, 16 * (COORD_LIMIT as int), SCALE_LIMIT as int);
        lemma_div_bound_milli(rect.min.x as int * scale.width);
        lemma_div_bound_milli(rect.min.y as int * scale.height);
        lemma_div_bound_milli(rect.max.x as int * scale.width);
        lemma_div_bound_milli(rect.max.y as int * scale.height);
    }
    PixelRect {
        left: (rect.min.x * scale.width).checked_div_euclid(SUBUNIT).unwrap(),
        top: (rect.min.y * scale.height).checked_div_euclid(SUBUNIT).unwrap(),
        right: (rect.max.x * scale.width).checked_div_euclid(SUBUNIT).unwrap(),
        bottom: (rect.max.y * scale.height).checked_div_euclid(SUBUNIT).unwrap(),
    }
}

} // verus!
