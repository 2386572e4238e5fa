//! Viewport planning: from a viewport and window to the visible cell
//! rectangle, under the device safety limits.
use vstd::prelude::*;

use crate::constants::{MAX_CELLS_X, MAX_CELLS_Y, MAX_TOTAL_CELLS, MIN_CELL_SIZE, SUBCELL};
use crate::viewport::{spec_offset_cells, Viewport, MAX_OFFSET_SUB};

verus! {

/// Floor division by a positive divisor: rounds toward minus infinity, so
/// negative world coordinates land in the right tile.
pub fn floor_div(a: i64, b: i64) -> (q: i64)
    requires
        1 <= b <= 0x1_0000_0000,
        -0x4000_0000_0000_0000 <= a <= 0x4000_0000_0000_0000,
    ensures
        q == a as int / b as int,
{
    if a >= 0 {
        ((a as u64) / (b as u64)) as i64
    } else {
        let m: u64 = (-a) as u64;
        let q1: u64 = (m + (b as u64) - 1) / (b as u64);
        proof {
            let bi = b as int;
            let mi = m as int;
            let qq = (mi + bi - 1) / bi;
            vstd::arithmetic::div_mod::lemma_fundamental_div_mod(mi + bi - 1, bi);
            vstd::arithmetic::div_mod::lemma_mod_bound(mi + bi - 1, bi);
            let rr = (mi + bi - 1) % bi;
            assert(bi * qq == mi + bi - 1 - rr);
            assert((-qq) * bi == -(bi * qq)) by (nonlinear_arith);
            vstd::arithmetic::div_mod::lemma_fundamental_div_mod_converse(
                -mi,
                bi,
                -qq,
                bi - 1 - rr,
            );
        }
        -(q1 as i64)
    }
}

/// Ceiling division of positive quantities: how many cells of the given
/// size cover the given extent.
pub fn ceil_div_u32(a: u32, b: u32) -> (q: u32)
    requires
        1 <= b,
    ensures
        q == ((a + b - 1) as int) / (b as int),
        q * b >= a,
        a >= 1 ==> (q - 1) * b < a,
{
    let q64: u64 = ((a as u64) + (b as u64) - 1) / (b as u64);
    proof {
        let ai = a as int;
        let bi = b as int;
        let qq = (ai + bi - 1) / bi;
        let rr = (ai + bi - 1) % bi;
        vstd::arithmetic::div_mod::lemma_fundamental_div_mod(ai + bi - 1, bi);
        vstd::arithmetic::div_mod::lemma_mod_bound(ai + bi - 1, bi);
        assert(bi * qq == ai + bi - 1 - rr);
        assert((qq - 1) * bi == bi * qq - bi && qq * bi == bi * qq) by (nonlinear_arith);
        vstd::arithmetic::div_mod::lemma_fundamental_div_mod_converse(
            ai * bi + bi - 1,
            bi,
            ai,
            bi - 1,
        );
        assert(ai <= ai * bi) by (nonlinear_arith)
            requires ai >= 0, bi >= 1;
        vstd::arithmetic::div_mod::lemma_div_is_ordered(ai + bi - 1, ai * bi + bi - 1, bi);
    }
    q64 as u32
}

/// Why a recomputation was refused.
#[derive(Debug, Clone, Copy, PartialEq, Eq, Structural)]
pub enum SkipReason {
    /// The cell size is below the safe minimum.
    CellSizeTooSmall,
    /// The visible cell rectangle exceeds a per-axis limit.
    TooManyCells,
    /// The padded cell count exceeds the total budget.
    TooManyTotalCells,
}

/// The visible cell rectangle a recomputation must cover.
#[derive(Debug, Clone, PartialEq, Eq, Structural)]
pub struct Plan {
    /// Cells across the window, left edge included, right edge rounded up.
    pub visible_cells_x: u32,
    /// Generations down the window, rounded up.
    pub visible_cells_y: u32,
    /// World cell of the left viewport edge, rounded toward minus
    /// infinity.
    pub x_start: i64,
    /// Generation of the top viewport edge, never negative.
    pub y_start: i64,
}

/// The visible cell counts of a window under a cell size.
pub open spec fn spec_visible_cells(window_px: u32, cell_size: u32) -> int {
    (window_px + cell_size - 1) as int / cell_size as int
}

/// Whether the planner accepts this viewport, and with which rectangle.
/// The checks mirror the device safety limits, in order.
pub open spec fn spec_plan(vp: Viewport, window_width: u32, window_height: u32) -> Result<Plan, SkipReason> {
    let vx = spec_visible_cells(window_width, vp.cell_size);
    let vy = spec_visible_cells(window_height, vp.cell_size);
    if vp.cell_size < MIN_CELL_SIZE {
        Result::Err(SkipReason::CellSizeTooSmall)
    } else if vx > MAX_CELLS_X || vy > MAX_CELLS_Y {
        Result::Err(SkipReason::TooManyCells)
    } else if vx * 3 * vy > MAX_TOTAL_CELLS {
        Result::Err(SkipReason::TooManyTotalCells)
    } else {
        Result::Ok(
            Plan {
                visible_cells_x: vx as u32,
                visible_cells_y: vy as u32,
                x_start: spec_offset_cells(vp.offset_x_sub) as i64,
                y_start: spec_offset_cells(vp.offset_y_sub) as i64,
            },
        )
    }
}

/// Translate a viewport and window into the visible cell rectangle, or
/// refuse it when a safety limit is exceeded.
pub fn plan_viewport(vp: &Viewport, window_width: u32, window_height: u32) -> (out: Result<Plan, SkipReason>)
    requires
        vp.wf(),
    ensures
        out == spec_plan(*vp, window_width, window_height),
        out matches Result::Ok(p) ==> {
            &&& window_width >= 1 ==> p.visible_cells_x >= 1
            &&& window_height >= 1 ==> p.visible_cells_y >= 1
            &&& p.visible_cells_x <= MAX_CELLS_X
            &&& p.visible_cells_y <= MAX_CELLS_Y
            &&& p.y_start >= 0
            &&& -MAX_OFFSET_CELLS <= p.x_start <= MAX_OFFSET_CELLS
            &&& p.y_start <= MAX_OFFSET_CELLS
        },
{
    let vx = ceil_div_u32(window_width, vp.cell_size);
    let vy = ceil_div_u32(window_height, vp.cell_size);
    if vp.cell_size < MIN_CELL_SIZE {
        return Result::Err(SkipReason::CellSizeTooSmall);
    }
    if vx > MAX_CELLS_X || vy > MAX_CELLS_Y {
        return Result::Err(SkipReason::TooManyCells);
    }
    proof {
        assert(vx <= MAX_CELLS_X && vy <= MAX_CELLS_Y);
        assert((vx as int) * 3 * (vy as int) <= 75_000_000_000) by (nonlinear_arith)
            requires vx <= 5000, vy <= 5000;
    }
    if (vx as u64) * 3 * (vy as u64) > MAX_TOTAL_CELLS {
        return Result::Err(SkipReason::TooManyTotalCells);
    }
    let x_start = floor_div(vp.offset_x_sub, SUBCELL);
    let y_start = floor_div(vp.offset_y_sub, SUBCELL);
    proof {
        vstd::arithmetic::div_mod::lemma_fundamental_div_mod_converse(
            -MAX_OFFSET_SUB as int,
            SUBCELL as int,
            -MAX_OFFSET_CELLS as int,
            0,
        );
        vstd::arithmetic::div_mod::lemma_fundamental_div_mod_converse(
            MAX_OFFSET_SUB as int,
            SUBCELL as int,
            MAX_OFFSET_CELLS as int,
            0,
        );
        if window_width >= 1 {
            vstd::arithmetic::div_mod::lemma_fundamental_div_mod_converse(
                vp.cell_size as int,
                vp.cell_size as int,
                1,
                0,
            );
            vstd::arithmetic::div_mod::lemma_div_is_ordered(
                vp.cell_size as int,
                window_width + vp.cell_size - 1,
                vp.cell_size as int,
            );
        }
        if window_height >= 1 {
            vstd::arithmetic::div_mod::lemma_fundamental_div_mod_converse(
                vp.cell_size as int,
                vp.cell_size as int,
                1,
                0,
            );
            vstd::arithmetic::div_mod::lemma_div_is_ordered(
                vp.cell_size as int,
                window_height + vp.cell_size - 1,
                vp.cell_size as int,
            );
        }
        vstd::arithmetic::div_mod::lemma_div_is_ordered(
            -MAX_OFFSET_SUB as int,
            vp.offset_x_sub as int,
            SUBCELL as int,
        );
        vstd::arithmetic::div_mod::lemma_div_is_ordered(
            vp.offset_x_sub as int,
            MAX_OFFSET_SUB as int,
            SUBCELL as int,
        );
        vstd::arithmetic::div_mod::lemma_div_is_ordered(
            0,
            vp.offset_y_sub as int,
            SUBCELL as int,
        );
        vstd::arithmetic::div_mod::lemma_div_is_ordered(
            vp.offset_y_sub as int,
            MAX_OFFSET_SUB as int,
            SUBCELL as int,
        );
    }
    Result::Ok(Plan { visible_cells_x: vx, visible_cells_y: vy, x_start, y_start })
}

/// Bound on whole-cell viewport coordinates that follows from the offset
/// bound.
pub const MAX_OFFSET_CELLS: i64 = 0x400_0000_0000;

/// Floor division shrinks magnitudes: the quotient lies between the
/// dividend and zero.
pub proof fn lemma_floor_div_bounds(a: int, b: int)
    requires
        b >= 1,
    ensures
        a >= 0 ==> 0 <= a / b <= a,
        a < 0 ==> a <= a / b <= 0,
{
    vstd::arithmetic::div_mod::lemma_fundamental_div_mod(a, b);
    vstd::arithmetic::div_mod::lemma_mod_bound(a, b);
    let q = a / b;
    let r = a % b;
    if a >= 0 {
        assert(0 <= q <= a) by (nonlinear_arith)
            requires a == b * q + r, 0 <= r < b, a >= 0, b >= 1;
    } else {
        assert(a <= q <= 0) by (nonlinear_arith)
            requires a == b * q + r, 0 <= r < b, a < 0, b >= 1;
    }
}

} // verus!
