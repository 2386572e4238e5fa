//! The viewport: the on-screen rectangle in world coordinates.
//!
//! Offsets are kept in fixed-point subcell units, `SUBCELL` units per world
//! cell, so that pans and zooms stay exact integer arithmetic. `offset_x`
//! is the world cell at the left edge of the visible area; `offset_y` is
//! the generation at the top edge, never negative.
use vstd::prelude::*;

use crate::constants::{DEFAULT_CELL_SIZE, MAX_ZOOM_CELL_SIZE, MIN_ZOOM_CELL_SIZE, SUBCELL};

verus! {

/// Bound on viewport offsets, in subcell units. Pans and zooms clamp into
/// it so that all viewport arithmetic stays far from overflow.
pub const MAX_OFFSET_SUB: i64 = 0x10_0000_0000_0000;

/// Viewport state in world space, offsets in subcell units.
#[derive(Debug, Clone, Copy, PartialEq, Eq, Structural)]
pub struct Viewport {
    /// World cell at the left edge, in subcell units; may be negative.
    pub offset_x_sub: i64,
    /// Generation at the top edge, in subcell units; never negative.
    pub offset_y_sub: i64,
    /// On-screen size of a cell, in pixels.
    pub cell_size: u32,
}

impl Viewport {
    /// In-range offsets, clamped vertical origin, cell size on the ladder's
    /// range.
    pub open spec fn wf(&self) -> bool {
        &&& -MAX_OFFSET_SUB <= self.offset_x_sub <= MAX_OFFSET_SUB
        &&& 0 <= self.offset_y_sub <= MAX_OFFSET_SUB
        &&& MIN_ZOOM_CELL_SIZE <= self.cell_size <= MAX_ZOOM_CELL_SIZE
    }

    /// The initial viewport: origin at the top-left, default cell size.
    pub fn new() -> (out: Self)
        ensures
            out.offset_x_sub == 0,
            out.offset_y_sub == 0,
            out.cell_size == DEFAULT_CELL_SIZE,
            out.wf(),
    {
        Viewport { offset_x_sub: 0, offset_y_sub: 0, cell_size: DEFAULT_CELL_SIZE }
    }
}

/// Clamp a subcell offset into the representable range.
pub fn clamp_offset_sub(v: i64) -> (out: i64)
    ensures
        out == spec_clamp_offset_sub(v),
{
    if v < -MAX_OFFSET_SUB {
        -MAX_OFFSET_SUB
    } else if v > MAX_OFFSET_SUB {
        MAX_OFFSET_SUB
    } else {
        v
    }
}

pub open spec fn spec_clamp_offset_sub(v: i64) -> i64 {
    if v < -MAX_OFFSET_SUB {
        (-MAX_OFFSET_SUB) as i64
    } else if v > MAX_OFFSET_SUB {
        MAX_OFFSET_SUB
    } else {
        v
    }
}

/// Clamp a subcell offset into range and onto the nonnegative half-line,
/// for the vertical offset.
pub fn clamp_offset_y_sub(v: i64) -> (out: i64)
    ensures
        out == spec_clamp_offset_y_sub(v),
        out >= 0,
{
    if v < 0 {
        0
    } else if v > MAX_OFFSET_SUB {
        MAX_OFFSET_SUB
    } else {
        v
    }
}

pub open spec fn spec_clamp_offset_y_sub(v: i64) -> i64 {
    if v < 0 {
        0i64
    } else if v > MAX_OFFSET_SUB {
        MAX_OFFSET_SUB
    } else {
        v
    }
}

/// The whole world cell an offset lies in: the floor of the subcell
/// offset over the subcell scale.
pub open spec fn spec_offset_cells(sub: i64) -> int {
    sub as int / SUBCELL as int
}

} // verus!
