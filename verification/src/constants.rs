//! Tunable engine constants.
use vstd::prelude::*;

verus! {

/// Default on-screen size of a cell, in pixels.
pub const DEFAULT_CELL_SIZE: u32 = 10;

/// Default window dimensions, in pixels.
pub const DEFAULT_WIDTH: u32 = 1280;

pub const DEFAULT_HEIGHT: u32 = 960;

/// Default debounce time before recomputing after a viewport change.
pub const DEFAULT_DEBOUNCE_MS: u64 = 0;

/// Default number of cached tiles.
pub const DEFAULT_CACHE_TILES: usize = 64;

/// Default tile edge, in cells.
pub const DEFAULT_TILE_SIZE: u32 = 256;

/// Default rule byte.
pub const DEFAULT_RULE: u8 = 30;

/// Smallest cell size the zoom ladder may reach: the default cell size
/// scaled by the minimum zoom factor, and at least one pixel.
pub const MIN_ZOOM_CELL_SIZE: u32 = 1;

/// Largest cell size the zoom ladder may reach: the default cell size
/// scaled by the maximum zoom factor.
pub const MAX_ZOOM_CELL_SIZE: u32 = 500;

/// Safety limits that keep one recomputation from destabilizing the
/// compute device.
pub const MAX_CELLS_X: u32 = 5000;

pub const MAX_CELLS_Y: u32 = 5000;

pub const MIN_CELL_SIZE: u32 = 2;

pub const MAX_TOTAL_CELLS: u64 = 10_000_000;

/// Budget, in 32-bit cell words, for any single simulation or viewport
/// buffer. Requests beyond it are rejected rather than attempted.
pub const MAX_BUFFER_WORDS: u64 = 0x1000_0000;

/// Minimum time between two render-uniform updates.
pub const RENDER_PARAMS_THROTTLE_MS: u64 = 16;

/// Fixed-point scale of viewport offsets: subcell units per world cell.
pub const SUBCELL: i64 = 1024;

} // verus!
