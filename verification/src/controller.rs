//! The interaction controller: input deltas become viewport mutations,
//! recomputation is debounced, zoom is quantized to a ladder and anchored
//! at the cursor, and vertical panning is clamped at generation 0.
//!
//! All pixel positions arrive as whole pixels; all times arrive as
//! milliseconds. The controller itself performs no I/O and reads no clock.
use vstd::prelude::*;

use crate::constants::{
    DEFAULT_CELL_SIZE, MAX_ZOOM_CELL_SIZE, MIN_ZOOM_CELL_SIZE, RENDER_PARAMS_THROTTLE_MS, SUBCELL,
};
use crate::planner::floor_div;
use crate::viewport::{
    clamp_offset_sub, clamp_offset_y_sub, spec_clamp_offset_sub, spec_clamp_offset_y_sub, Viewport,
    MAX_OFFSET_SUB,
};

verus! {

/// Bound on pixel coordinates the controller accepts.
pub const MAX_PX: i64 = 0x8000_0000;

/// An active mouse or single-touch drag.
#[derive(Debug, Clone, Copy, PartialEq, Eq, Structural)]
pub struct DragState {
    pub active: bool,
    pub start_x: i64,
    pub start_y: i64,
    pub viewport_at_start: Viewport,
}

/// One finger on the screen.
#[derive(Debug, Clone, Copy, PartialEq, Eq, Structural)]
pub struct TouchPoint {
    pub id: u64,
    pub x: i64,
    pub y: i64,
}

/// Touch bookkeeping: one finger pans, two pinch.
#[derive(Debug, Clone, Copy, PartialEq, Eq, Structural)]
pub struct TouchState {
    pub single_touch: Option<TouchPoint>,
    pub touch1: Option<TouchPoint>,
    pub touch2: Option<TouchPoint>,
    pub initial_distance_sq: Option<u128>,
    pub initial_cell_size: Option<u32>,
    pub viewport_at_pinch_start: Option<Viewport>,
}

impl TouchState {
    pub fn new() -> (out: Self)
        ensures
            out.single_touch is None,
            out.touch1 is None,
            out.touch2 is None,
            out.initial_distance_sq is None,
            out.initial_cell_size is None,
            out.viewport_at_pinch_start is None,
    {
        TouchState {
            single_touch: Option::None,
            touch1: Option::None,
            touch2: Option::None,
            initial_distance_sq: Option::None,
            initial_cell_size: Option::None,
            viewport_at_pinch_start: Option::None,
        }
    }
}

/// A touch event's phase.
#[derive(Debug, Clone, Copy, PartialEq, Eq, Structural)]
pub enum TouchPhase {
    Started,
    Moved,
    Ended,
    Cancelled,
}

/// The uniform block handed to the external fragment shader.
#[derive(Debug, Clone, PartialEq, Eq, Structural)]
pub struct RenderParams {
    pub visible_width: u32,
    pub visible_height: u32,
    pub simulated_width: u32,
    pub padding_left: u32,
    pub cell_size: u32,
    pub window_width: u32,
    pub window_height: u32,
    pub viewport_offset_x: i32,
    pub viewport_offset_y: i32,
    pub buffer_offset_x: i32,
    pub buffer_offset_y: i32,
}

/// The whole cell an offset lies in, saturated into `i32`.
pub open spec fn spec_cells_floor_i32(sub: i64) -> i32 {
    let q = sub as int / SUBCELL as int;
    if q < i32::MIN {
        i32::MIN
    } else if q > i32::MAX {
        i32::MAX
    } else {
        q as i32
    }
}

/// The whole cell an offset lies in, saturated into `i32`.
pub fn cells_floor_i32(sub: i64) -> (out: i32)
    requires
        -0x4000_0000_0000_0000 <= sub <= 0x4000_0000_0000_0000,
    ensures
        out == spec_cells_floor_i32(sub),
{
    let q = floor_div(sub, SUBCELL);
    if q < i32::MIN as i64 {
        i32::MIN
    } else if q > i32::MAX as i64 {
        i32::MAX
    } else {
        q as i32
    }
}

/// The pan displacement in subcell units: screen pixels over the cell
/// size, direction reversed, rounded toward minus infinity.
pub open spec fn spec_pan_delta_sub(delta_px: int, cell_size: int) -> int {
    (-delta_px * SUBCELL) / cell_size
}

/// The subcell world coordinate under a screen position.
pub open spec fn spec_world_at(offset_sub: int, px: int, cell_size: int) -> int {
    offset_sub + (px * SUBCELL) / cell_size
}

/// The drag in progress, if one is active.
pub open spec fn spec_active_drag(c: &InteractionController) -> Option<DragState> {
    match c.drag_state {
        Option::Some(d) => if d.active {
            Option::Some(d)
        } else {
            Option::<DragState>::None
        },
        Option::None => Option::<DragState>::None,
    }
}

/// The engine side of the event loop: viewport state, drag and touch
/// state, and the debounce machinery.
pub struct InteractionController {
    pub viewport: Viewport,
    /// The viewport the currently bound buffer was computed for.
    pub buffer_viewport: Viewport,
    pub drag_state: Option<DragState>,
    /// When the viewport last changed, if a recomputation is still owed.
    pub last_viewport_change: Option<u64>,
    pub needs_recompute: bool,
    pub cursor_position: (i64, i64),
    pub touch_state: TouchState,
    pub window_width: u32,
    pub window_height: u32,
    /// Outer window position, for resize-edge detection.
    pub window_position: Option<(i32, i32)>,
    pub debounce_ms: u64,
    /// Layout of the currently bound buffer.
    pub buffer_simulated_width: u32,
    pub buffer_padding_left: u32,
    pub last_params_update: Option<u64>,
}

impl InteractionController {
    /// Well-formed: both viewports in range, drag and pinch snapshots too.
    pub open spec fn wf(&self) -> bool {
        &&& self.viewport.wf()
        &&& self.buffer_viewport.wf()
        &&& (self.drag_state matches Option::Some(d) ==> d.viewport_at_start.wf())
        &&& (self.touch_state.viewport_at_pinch_start matches Option::Some(v) ==> v.wf())
        &&& -MAX_PX <= self.cursor_position.0 <= MAX_PX
        &&& -MAX_PX <= self.cursor_position.1 <= MAX_PX
        &&& (self.drag_state matches Option::Some(d)
            ==> -MAX_PX <= d.start_x <= MAX_PX && -MAX_PX <= d.start_y <= MAX_PX)
        &&& (self.touch_state.touch1 matches Option::Some(t)
            ==> -MAX_PX <= t.x <= MAX_PX && -MAX_PX <= t.y <= MAX_PX)
        &&& (self.touch_state.touch2 matches Option::Some(t)
            ==> -MAX_PX <= t.x <= MAX_PX && -MAX_PX <= t.y <= MAX_PX)
        &&& (self.touch_state.single_touch matches Option::Some(t)
            ==> -MAX_PX <= t.x <= MAX_PX && -MAX_PX <= t.y <= MAX_PX)
        &&& (self.touch_state.initial_cell_size matches Option::Some(ic)
            ==> MIN_ZOOM_CELL_SIZE <= ic <= MAX_ZOOM_CELL_SIZE)
    }

    /// A fresh controller: world origin centered horizontally, generation
    /// 0 at the top, recomputation owed.
    pub fn new(window_width: u32, window_height: u32, debounce_ms: u64) -> (out: Self)
        ensures
            out.wf(),
            out.viewport.cell_size == DEFAULT_CELL_SIZE,
            out.viewport.offset_x_sub == -(((window_width as int) * (SUBCELL as int))
                / (2 * DEFAULT_CELL_SIZE as int)),
            out.viewport.offset_y_sub == 0,
            out.needs_recompute,
            out.last_viewport_change is None,
            out.window_width == window_width,
            out.window_height == window_height,
            out.debounce_ms == debounce_ms,
            out.drag_state is None,
            out.cursor_position.0 == window_width / 2 && out.cursor_position.1 == window_height / 2,
    {
        proof {
            assert((window_width as int) * (SUBCELL as int) <= 0x4_0000_0000_0000)
                by (nonlinear_arith)
                requires window_width <= 0xFFFF_FFFFu32;
            crate::planner::lemma_floor_div_bounds(
                (window_width as int) * (SUBCELL as int),
                2 * DEFAULT_CELL_SIZE as int,
            );
        }
        let half_span: u64 = ((window_width as u64) * (SUBCELL as u64)) / ((2 * DEFAULT_CELL_SIZE) as u64);
        let mut vp = Viewport::new();
        vp.offset_x_sub = -(half_span as i64);
        InteractionController {
            viewport: vp,
            buffer_viewport: Viewport::new(),
            drag_state: Option::None,
            last_viewport_change: Option::None,
            needs_recompute: true,
            cursor_position: ((window_width / 2) as i64, (window_height / 2) as i64),
            touch_state: TouchState::new(),
            window_width,
            window_height,
            window_position: Option::None,
            debounce_ms,
            buffer_simulated_width: 0,
            buffer_padding_left: 0,
            last_params_update: Option::None,
        }
    }

    /// Record that the viewport changed: a recomputation is owed once the
    /// input has been quiet for the debounce time.
    pub fn mark_viewport_changed(&mut self, now_ms: u64)
        ensures
            *final(self) == (InteractionController {
                last_viewport_change: Option::Some(now_ms),
                needs_recompute: true,
                ..*old(self)
            }),
    {
        self.last_viewport_change = Option::Some(now_ms);
        self.needs_recompute = true;
    }

    /// Whether a recomputation should fire now.
    pub open spec fn spec_should_fire(&self, now_ms: u64) -> bool {
        self.needs_recompute && match self.last_viewport_change {
            Option::Some(t) => now_ms >= t && now_ms - t >= self.debounce_ms,
            Option::None => false,
        }
    }

    /// Check the debounce clock: fire exactly when a recomputation is
    /// owed and the debounce time has elapsed since the last change; on
    /// firing, the owed work is considered taken.
    pub fn check_debounce_and_recompute(&mut self, now_ms: u64) -> (fire: bool)
        ensures
            fire == old(self).spec_should_fire(now_ms),
            fire ==> *final(self) == (InteractionController {
                last_viewport_change: Option::None,
                needs_recompute: false,
                ..*old(self)
            }),
            !fire ==> *final(self) == *old(self),
    {
        match self.last_viewport_change {
            Option::Some(t) => {
                if self.needs_recompute && now_ms >= t && now_ms - t >= self.debounce_ms {
                    self.last_viewport_change = Option::None;
                    self.needs_recompute = false;
                    true
                } else {
                    false
                }
            },
            Option::None => false,
        }
    }

    /// Record what the freshly computed buffer was made for.
    pub fn note_computed(&mut self, simulated_width: u32, padding_left: u32)
        ensures
            *final(self) == (InteractionController {
                buffer_viewport: old(self).viewport,
                buffer_simulated_width: simulated_width,
                buffer_padding_left: padding_left,
                needs_recompute: false,
                ..*old(self)
            }),
    {
        self.buffer_viewport = self.viewport;
        self.buffer_simulated_width = simulated_width;
        self.buffer_padding_left = padding_left;
        self.needs_recompute = false;
    }

    /// Restore the initial viewport: default cell size, generation 0 at
    /// the top, world origin centered horizontally.
    pub fn reset_viewport(&mut self, now_ms: u64)
        requires
            old(self).wf(),
        ensures
            final(self).wf(),
            final(self).viewport.cell_size == DEFAULT_CELL_SIZE,
            final(self).viewport.offset_y_sub == 0,
            final(self).viewport.offset_x_sub == -(((old(self).window_width as int)
                * (SUBCELL as int)) / (2 * DEFAULT_CELL_SIZE as int)),
            final(self).needs_recompute,
            final(self).last_viewport_change == Option::Some(now_ms),
            final(self).window_width == old(self).window_width,
            final(self).window_height == old(self).window_height,
            final(self).debounce_ms == old(self).debounce_ms,
    {
        proof {
            assert((self.window_width as int) * (SUBCELL as int) <= 0x4_0000_0000_0000)
                by (nonlinear_arith)
                requires self.window_width <= 0xFFFF_FFFFu32;
            crate::planner::lemma_floor_div_bounds(
                (self.window_width as int) * (SUBCELL as int),
                2 * DEFAULT_CELL_SIZE as int,
            );
        }
        let half_span: u64 = ((self.window_width as u64) * (SUBCELL as u64)) / ((2 * DEFAULT_CELL_SIZE) as u64);
        self.viewport.cell_size = DEFAULT_CELL_SIZE;
        self.viewport.offset_x_sub = -(half_span as i64);
        self.viewport.offset_y_sub = 0;
        self.mark_viewport_changed(now_ms);
    }

    /// Begin or end a left-button drag at the current cursor position.
    pub fn mouse_input(&mut self, pressed: bool)
        requires
            old(self).wf(),
        ensures
            final(self).wf(),
            pressed ==> final(self).drag_state == Option::Some(
                (DragState {
                    active: true,
                    start_x: old(self).cursor_position.0,
                    start_y: old(self).cursor_position.1,
                    viewport_at_start: old(self).viewport,
                }),
            ),
            pressed ==> *final(self) == (InteractionController {
                drag_state: final(self).drag_state,
                ..*old(self)
            }),
            !pressed ==> final(self).viewport == old(self).viewport,
            !pressed ==> (old(self).drag_state matches Option::Some(d)
                ==> final(self).drag_state == Option::Some((DragState { active: false, ..d }))),
            !pressed ==> (old(self).drag_state is None ==> final(self).drag_state is None),
    {
        if pressed {
            self.drag_state = Option::Some(
                DragState {
                    active: true,
                    start_x: self.cursor_position.0,
                    start_y: self.cursor_position.1,
                    viewport_at_start: self.viewport,
                },
            );
        } else {
            match self.drag_state {
                Option::Some(d) => {
                    self.drag_state = Option::Some(DragState { active: false, ..d });
                },
                Option::None => {},
            }
        }
    }

    /// Track the cursor; while a drag is active, pan: the world moves
    /// opposite the cursor, one cell per cell-size pixels, and the
    /// vertical offset never goes above generation 0.
    pub fn cursor_moved(&mut self, x_px: i64, y_px: i64, now_ms: u64)
        requires
            old(self).wf(),
            -MAX_PX <= x_px <= MAX_PX,
            -MAX_PX <= y_px <= MAX_PX,
        ensures
            final(self).wf(),
            final(self).cursor_position == (x_px, y_px),
            final(self).viewport.cell_size == old(self).viewport.cell_size,
            spec_active_drag(old(self)) matches Option::Some(d) ==> {
                &&& final(self).viewport.offset_x_sub == spec_clamp_offset_sub(
                    (d.viewport_at_start.offset_x_sub + spec_pan_delta_sub(
                        x_px - d.start_x,
                        old(self).viewport.cell_size as int,
                    )) as i64,
                )
                &&& final(self).viewport.offset_y_sub == spec_clamp_offset_y_sub(
                    (d.viewport_at_start.offset_y_sub + spec_pan_delta_sub(
                        y_px - d.start_y,
                        old(self).viewport.cell_size as int,
                    )) as i64,
                )
                &&& final(self).viewport.offset_y_sub >= 0
                &&& final(self).needs_recompute
                &&& final(self).last_viewport_change == Option::Some(now_ms)
            },
            spec_active_drag(old(self)) is None ==> final(self).viewport == old(self).viewport,
    {
        self.cursor_position = (x_px, y_px);
        let drag = self.drag_state;
        match drag {
            Option::Some(d) => {
                if d.active {
                    let cell: i64 = self.viewport.cell_size as i64;
                    let dx: i64 = x_px - d.start_x;
                    let dy: i64 = y_px - d.start_y;
                    let delta_x_sub: i64 = floor_div(-dx * SUBCELL, cell);
                    let delta_y_sub: i64 = floor_div(-dy * SUBCELL, cell);
                    proof {
                        crate::planner::lemma_floor_div_bounds(-(dx as int) * (SUBCELL as int), cell as int);
                        crate::planner::lemma_floor_div_bounds(-(dy as int) * (SUBCELL as int), cell as int);
                        assert(-0x2000_0000_0000_0000 <= -(dx as int) * (SUBCELL as int)
                            <= 0x2000_0000_0000_0000
                            && -0x2000_0000_0000_0000 <= -(dy as int) * (SUBCELL as int)
                            <= 0x2000_0000_0000_0000)
                            by (nonlinear_arith)
                            requires
                                -0x8000_0000_0000 <= dx <= 0x8000_0000_0000,
                                -0x8000_0000_0000 <= dy <= 0x8000_0000_0000,
                                SUBCELL == 1024;
                    }
                    let new_x: i64 = clamp_offset_sub(d.viewport_at_start.offset_x_sub + delta_x_sub);
                    let new_y: i64 = clamp_offset_y_sub(d.viewport_at_start.offset_y_sub + delta_y_sub);
                    self.viewport.offset_x_sub = new_x;
                    self.viewport.offset_y_sub = new_y;
                    self.mark_viewport_changed(now_ms);
                }
            },
            Option::None => {},
        }
    }
}

/// The wheel-zoom ladder of cell sizes, within the zoom bounds.
pub open spec fn spec_zoom_levels() -> Seq<u32> {
    seq![
        2u32, 3, 4, 5, 6, 7, 8, 9, 10, 12, 14, 16, 18, 20, 24, 28, 32, 36, 40, 45, 50, 60, 70,
        80, 90, 100, 120, 140, 160, 180, 200, 250, 300, 350, 400, 450, 500,
    ]
}

/// Build the wheel-zoom ladder.
pub fn zoom_levels() -> (out: Vec<u32>)
    ensures
        out@ == spec_zoom_levels(),
        out@.len() > 0,
{
    let mut v: Vec<u32> = Vec::new();
    v.push(2);
    v.push(3);
    v.push(4);
    v.push(5);
    v.push(6);
    v.push(7);
    v.push(8);
    v.push(9);
    v.push(10);
    v.push(12);
    v.push(14);
    v.push(16);
    v.push(18);
    v.push(20);
    v.push(24);
    v.push(28);
    v.push(32);
    v.push(36);
    v.push(40);
    v.push(45);
    v.push(50);
    v.push(60);
    v.push(70);
    v.push(80);
    v.push(90);
    v.push(100);
    v.push(120);
    v.push(140);
    v.push(160);
    v.push(180);
    v.push(200);
    v.push(250);
    v.push(300);
    v.push(350);
    v.push(400);
    v.push(450);
    v.push(500);
    proof {
        assert(v@ =~= spec_zoom_levels());
    }
    v
}

/// The first ladder index whose cell size is at least the given one, or
/// -1 when the whole ladder is smaller.
pub open spec fn spec_first_at_least(levels: Seq<u32>, size: u32) -> int
    decreases levels.len(),
{
    if levels.len() == 0 {
        -1
    } else if levels[0] >= size {
        0
    } else {
        let r = spec_first_at_least(levels.drop_first(), size);
        if r == -1 {
            -1
        } else {
            r + 1
        }
    }
}

/// The ladder cell size one wheel tick away from the current one.
pub open spec fn spec_zoom_target(levels: Seq<u32>, current: u32, zoom_in: bool) -> u32 {
    let found = spec_first_at_least(levels, current);
    let idx = if found == -1 {
        levels.len() - 1
    } else {
        found
    };
    let ni = if zoom_in {
        if idx + 1 < levels.len() {
            idx + 1
        } else {
            levels.len() - 1
        }
    } else {
        if idx >= 1 {
            idx - 1
        } else {
            0
        }
    };
    levels[ni]
}

/// What the scan for the first fitting ladder entry finds.
proof fn lemma_first_at_least_at(levels: Seq<u32>, size: u32, i: int)
    requires
        0 <= i < levels.len(),
        levels[i] >= size,
        forall|j: int| 0 <= j < i ==> #[trigger] levels[j] < size,
    ensures
        spec_first_at_least(levels, size) == i,
    decreases levels.len(),
{
    if i > 0 {
        assert forall|j: int| 0 <= j < i - 1 implies #[trigger] levels.drop_first()[j] < size by {
            assert(levels.drop_first()[j] == levels[j + 1]);
        }
        assert(levels.drop_first()[i - 1] == levels[i]);
        lemma_first_at_least_at(levels.drop_first(), size, i - 1);
    }
}

/// A scan past the whole ladder found nothing.
proof fn lemma_first_at_least_none(levels: Seq<u32>, size: u32)
    requires
        forall|j: int| 0 <= j < levels.len() ==> #[trigger] levels[j] < size,
    ensures
        spec_first_at_least(levels, size) == -1,
    decreases levels.len(),
{
    if levels.len() > 0 {
        assert forall|j: int| 0 <= j < levels.len() - 1
            implies #[trigger] levels.drop_first()[j] < size by {
            assert(levels.drop_first()[j] == levels[j + 1]);
        }
        lemma_first_at_least_none(levels.drop_first(), size);
    }
}

impl InteractionController {
    /// One wheel tick of zoom, anchored at the cursor: step one entry on
    /// the ladder, then move the offsets so the world position under the
    /// cursor stays put; the vertical offset stays at or below the view
    /// of generation 0.
    pub fn handle_zoom(&mut self, zoom_in: bool, cursor_x: i64, cursor_y: i64, now_ms: u64)
        requires
            old(self).wf(),
            0 <= cursor_x <= MAX_PX,
            0 <= cursor_y <= MAX_PX,
        ensures
            final(self).wf(),
            final(self).window_width == old(self).window_width,
            final(self).window_height == old(self).window_height,
            spec_zoom_target(spec_zoom_levels(), old(self).viewport.cell_size, zoom_in)
                == old(self).viewport.cell_size ==> *final(self) == *old(self),
            spec_zoom_target(spec_zoom_levels(), old(self).viewport.cell_size, zoom_in)
                != old(self).viewport.cell_size ==> {
                let ns = spec_zoom_target(spec_zoom_levels(), old(self).viewport.cell_size, zoom_in);
                let os = old(self).viewport.cell_size;
                &&& final(self).viewport.cell_size == ns
                &&& final(self).viewport.offset_x_sub == spec_clamp_offset_sub(
                    ((old(self).viewport.offset_x_sub
                        + (cursor_x * SUBCELL) / (os as int))
                        - (cursor_x * SUBCELL) / (ns as int)) as i64,
                )
                &&& final(self).viewport.offset_y_sub == spec_clamp_offset_y_sub(
                    ((old(self).viewport.offset_y_sub
                        + (cursor_y * SUBCELL) / (os as int))
                        - (cursor_y * SUBCELL) / (ns as int)) as i64,
                )
                &&& final(self).viewport.offset_y_sub >= 0
                &&& final(self).needs_recompute
                &&& final(self).last_viewport_change == Option::Some(now_ms)
            },
    {
        let levels = zoom_levels();
        let n = levels.len();
        let old_size = self.viewport.cell_size;
        let mut i: usize = 0;
        let mut found: i64 = -1;
        while i < n && found == -1
            invariant
                n == levels@.len(),
                levels@ == spec_zoom_levels(),
                found == -1 ==> i <= n,
                found == -1 ==> forall|j: int| 0 <= j < i ==> #[trigger] levels@[j] < old_size,
                found != -1 ==> found == spec_first_at_least(levels@, old_size),
                found != -1 ==> 0 <= found < n,
            decreases n - i + (if found == -1 { 1int } else { 0int }),
        {
            if levels[i] >= old_size {
                proof {
                    lemma_first_at_least_at(levels@, old_size, i as int);
                }
                found = i as i64;
            } else {
                i = i + 1;
            }
        }
        proof {
            if found == -1 {
                lemma_first_at_least_none(levels@, old_size);
            }
        }
        let idx: usize = if found == -1 {
            n - 1
        } else {
            found as usize
        };
        let ni: usize = if zoom_in {
            if idx + 1 < n {
                idx + 1
            } else {
                n - 1
            }
        } else {
            if idx >= 1 {
                idx - 1
            } else {
                0
            }
        };
        let new_size = levels[ni];
        proof {
            assert(new_size == spec_zoom_target(spec_zoom_levels(), old_size, zoom_in));
            assert(forall|j: int| 0 <= j < spec_zoom_levels().len()
                ==> 2 <= #[trigger] spec_zoom_levels()[j] <= 500);
        }
        if new_size != old_size {
            let wx: i64 = self.viewport.offset_x_sub + floor_div(cursor_x * SUBCELL, old_size as i64);
            let wy: i64 = self.viewport.offset_y_sub + floor_div(cursor_y * SUBCELL, old_size as i64);
            proof {
                crate::planner::lemma_floor_div_bounds((cursor_x as int) * (SUBCELL as int), old_size as int);
                crate::planner::lemma_floor_div_bounds((cursor_y as int) * (SUBCELL as int), old_size as int);
                crate::planner::lemma_floor_div_bounds((cursor_x as int) * (SUBCELL as int), new_size as int);
                crate::planner::lemma_floor_div_bounds((cursor_y as int) * (SUBCELL as int), new_size as int);
                assert(0 <= (cursor_x as int) * (SUBCELL as int) <= 0x2_0000_0000_0000
                    && 0 <= (cursor_y as int) * (SUBCELL as int) <= 0x2_0000_0000_0000)
                    by (nonlinear_arith)
                    requires 0 <= cursor_x <= MAX_PX, 0 <= cursor_y <= MAX_PX, SUBCELL == 1024;
            }
            let nx: i64 = clamp_offset_sub(wx - floor_div(cursor_x * SUBCELL, new_size as i64));
            let ny: i64 = clamp_offset_y_sub(wy - floor_div(cursor_y * SUBCELL, new_size as i64));
            self.viewport.cell_size = new_size;
            self.viewport.offset_x_sub = nx;
            self.viewport.offset_y_sub = ny;
            self.mark_viewport_changed(now_ms);
        }
    }
}


/// Absolute difference.
pub open spec fn abs_diff(a: int, b: int) -> int {
    if a >= b {
        a - b
    } else {
        b - a
    }
}

/// The integer square root's defining property.
pub open spec fn is_sqrt_floor(r: int, v: int) -> bool {
    0 <= r && r * r <= v && v < (r + 1) * (r + 1)
}

/// The integer square root: the unique nonnegative root whose square
/// does not exceed the value.
pub open spec fn spec_isqrt(v: int) -> int {
    choose|r: int| is_sqrt_floor(r, v)
}

/// The square-root property picks exactly one value.
pub proof fn lemma_isqrt_unique(v: int, r: int)
    requires
        is_sqrt_floor(r, v),
    ensures
        spec_isqrt(v) == r,
{
    assert(is_sqrt_floor(spec_isqrt(v), v));
    let q = spec_isqrt(v);
    assert(q == r) by (nonlinear_arith)
        requires
            0 <= r, r * r <= v, v < (r + 1) * (r + 1),
            0 <= q, q * q <= v, v < (q + 1) * (q + 1);
}

/// Integer square root by bisection.
pub fn isqrt128(v: u128) -> (r: u64)
    ensures
        is_sqrt_floor(r as int, v as int),
        r == spec_isqrt(v as int),
{
    let mut lo: u64 = 0;
    let mut hi: u64 = 0xFFFF_FFFF_FFFF_FFFF;
    proof {
        assert(((hi as int) + 1) * ((hi as int) + 1) > v as int) by (nonlinear_arith)
            requires v <= 0xFFFF_FFFF_FFFF_FFFF_FFFF_FFFF_FFFF_FFFFu128, hi == 0xFFFF_FFFF_FFFF_FFFFu64;
    }
    while lo < hi
        invariant
            lo <= hi,
            (lo as int) * (lo as int) <= v as int,
            ((hi as int) + 1) * ((hi as int) + 1) > v as int,
        decreases hi - lo,
    {
        let mid: u64 = lo + (hi - lo) / 2 + 1;
        proof {
            assert((mid as int) * (mid as int) <= 0xFFFF_FFFF_FFFF_FFFE_0000_0000_0000_0001)
                by (nonlinear_arith)
                requires mid <= 0xFFFF_FFFF_FFFF_FFFFu64;
        }
        if (mid as u128) * (mid as u128) <= v {
            lo = mid;
        } else {
            hi = mid - 1;
        }
    }
    proof {
        lemma_isqrt_unique(v as int, lo as int);
    }
    lo
}

/// The ladder entry nearest a target size; the earlier entry wins ties.
pub open spec fn spec_nearest_level(levels: Seq<u32>, target: int) -> u32
    decreases levels.len(),
{
    if levels.len() == 0 {
        0u32
    } else if levels.len() == 1 {
        levels[0]
    } else {
        let prev = spec_nearest_level(levels.drop_last(), target);
        if abs_diff(levels.last() as int, target) < abs_diff(prev as int, target) {
            levels.last()
        } else {
            prev
        }
    }
}

/// Find the ladder entry nearest a target size.
pub fn nearest_level(levels: &Vec<u32>, target: u32) -> (out: u32)
    requires
        levels@.len() >= 1,
    ensures
        out == spec_nearest_level(levels@, target as int),
        exists|i: int| 0 <= i < levels@.len() && levels@[i] == out,
{
    let n = levels.len();
    let mut best: u32 = levels[0];
    let mut i: usize = 1;
    proof {
        assert(levels@.take(1).len() == 1 && levels@.take(1)[0] == levels@[0]);
    }
    while i < n
        invariant
            1 <= i <= n,
            n == levels@.len(),
            best == spec_nearest_level(levels@.take(i as int), target as int),
            exists|k: int| 0 <= k < i && levels@[k] == best,
        decreases n - i,
    {
        let cand = levels[i];
        let cd: u32 = if cand >= target { cand - target } else { target - cand };
        let bd: u32 = if best >= target { best - target } else { target - best };
        proof {
            assert(levels@.take(i + 1).drop_last() =~= levels@.take(i as int));
            assert(levels@.take(i + 1).last() == levels@[i as int]);
        }
        if cd < bd {
            best = cand;
        }
        i = i + 1;
    }
    proof {
        assert(levels@.take(n as int) =~= levels@);
    }
    best
}

/// The pinch-zoom ladder of cell sizes, within the zoom bounds.
pub open spec fn spec_pinch_levels() -> Seq<u32> {
    seq![
        1u32, 2, 3, 4, 5, 6, 7, 8, 9, 10, 12, 15, 20, 25, 30, 40, 50, 75, 100, 150, 200, 300,
        400, 500,
    ]
}

/// Build the pinch-zoom ladder.
pub fn pinch_levels() -> (out: Vec<u32>)
    ensures
        out@ == spec_pinch_levels(),
        out@.len() >= 1,
{
    let mut v: Vec<u32> = Vec::new();
    v.push(1);
    v.push(2);
    v.push(3);
    v.push(4);
    v.push(5);
    v.push(6);
    v.push(7);
    v.push(8);
    v.push(9);
    v.push(10);
    v.push(12);
    v.push(15);
    v.push(20);
    v.push(25);
    v.push(30);
    v.push(40);
    v.push(50);
    v.push(75);
    v.push(100);
    v.push(150);
    v.push(200);
    v.push(300);
    v.push(400);
    v.push(500);
    proof {
        assert(v@ =~= spec_pinch_levels());
    }
    v
}

/// The squared distance between two touch points.
pub open spec fn spec_dist_sq(a: TouchPoint, b: TouchPoint) -> int {
    (a.x - b.x) * (a.x - b.x) + (a.y - b.y) * (a.y - b.y)
}

/// The cell size a pinch selects: the current distance against the
/// initial one scales the initial cell size; the result is clamped to
/// the zoom bounds and snapped to the nearest pinch ladder entry. A
/// degenerate initial pinch (zero distance) zooms all the way in.
pub open spec fn spec_pinch_cell_size(initial_cell: u32, initial_sq: int, current_sq: int) -> u32 {
    if initial_sq == 0 {
        spec_nearest_level(spec_pinch_levels(), MAX_ZOOM_CELL_SIZE as int)
    } else {
        let s = spec_isqrt(((initial_cell * initial_cell) * current_sq) / initial_sq);
        let s1 = if s < 1 {
            1int
        } else {
            s
        };
        let s2 = if s1 > MAX_ZOOM_CELL_SIZE {
            MAX_ZOOM_CELL_SIZE as int
        } else {
            s1
        };
        spec_nearest_level(spec_pinch_levels(), s2)
    }
}


/// The state after a pan step of an active drag at cursor `(x, y)`.
pub open spec fn spec_touch_pan(c: InteractionController, d: DragState, x: int, y: int, now: u64) -> InteractionController {
    InteractionController {
        viewport: Viewport {
            offset_x_sub: spec_clamp_offset_sub(
                (d.viewport_at_start.offset_x_sub + spec_pan_delta_sub(
                    x - d.start_x,
                    c.viewport.cell_size as int,
                )) as i64,
            ),
            offset_y_sub: spec_clamp_offset_y_sub(
                (d.viewport_at_start.offset_y_sub + spec_pan_delta_sub(
                    y - d.start_y,
                    c.viewport.cell_size as int,
                )) as i64,
            ),
            cell_size: c.viewport.cell_size,
        },
        last_viewport_change: Option::Some(now),
        needs_recompute: true,
        ..c
    }
}

/// The state after a pinch step with the two fingers at `t1` and `t2`:
/// the pinch-selected cell size is applied about the pinch center.
pub open spec fn spec_pinch_step(c: InteractionController, t1: TouchPoint, t2: TouchPoint, now: u64) -> InteractionController {
    let with_touches = InteractionController {
        touch_state: TouchState { touch1: Option::Some(t1), touch2: Option::Some(t2), ..c.touch_state },
        ..c
    };
    match (c.touch_state.initial_distance_sq, c.touch_state.initial_cell_size, c.touch_state.viewport_at_pinch_start) {
        (Option::Some(init_sq), Option::Some(init_cell), Option::Some(_)) => {
            let ns = spec_pinch_cell_size(init_cell, init_sq as int, spec_dist_sq(t1, t2));
            if ns != c.viewport.cell_size {
                let cx = (t1.x + t2.x) as int / 2;
                let cy = (t1.y + t2.y) as int / 2;
                let os = c.viewport.cell_size as int;
                InteractionController {
                    viewport: Viewport {
                        offset_x_sub: spec_clamp_offset_sub(
                            ((c.viewport.offset_x_sub + (cx * SUBCELL) / os)
                                - (cx * SUBCELL) / (ns as int)) as i64,
                        ),
                        offset_y_sub: spec_clamp_offset_y_sub(
                            ((c.viewport.offset_y_sub + (cy * SUBCELL) / os)
                                - (cy * SUBCELL) / (ns as int)) as i64,
                        ),
                        cell_size: ns,
                    },
                    last_viewport_change: Option::Some(now),
                    needs_recompute: true,
                    ..with_touches
                }
            } else {
                with_touches
            }
        },
        _ => with_touches,
    }
}

/// A moved touch that is not the panning finger: a pinch update when two
/// fingers are down, else nothing.
pub open spec fn spec_touch_moved_other(c: InteractionController, id: u64, x: int, y: int, now: u64) -> InteractionController {
    match (c.touch_state.touch1, c.touch_state.touch2) {
        (Option::Some(t1), Option::Some(t2)) => {
            let n1 = if t1.id == id {
                TouchPoint { id: t1.id, x: x as i64, y: y as i64 }
            } else {
                t1
            };
            let n2 = if t2.id == id {
                TouchPoint { id: t2.id, x: x as i64, y: y as i64 }
            } else {
                t2
            };
            spec_pinch_step(c, n1, n2, now)
        },
        _ => c,
    }
}

/// The whole touch state machine: what one touch event does to the
/// controller.
pub open spec fn spec_handle_touch(c: InteractionController, phase: TouchPhase, id: u64, x: int, y: int, now: u64) -> InteractionController {
    let tp = TouchPoint { id, x: x as i64, y: y as i64 };
    match phase {
        TouchPhase::Started => {
            if c.touch_state.touch1 is None {
                InteractionController {
                    touch_state: TouchState {
                        touch1: Option::Some(tp),
                        single_touch: Option::Some(tp),
                        ..c.touch_state
                    },
                    drag_state: Option::Some(
                        DragState {
                            active: true,
                            start_x: x as i64,
                            start_y: y as i64,
                            viewport_at_start: c.viewport,
                        },
                    ),
                    ..c
                }
            } else if c.touch_state.touch2 is None {
                let t1 = c.touch_state.touch1->Some_0;
                InteractionController {
                    touch_state: TouchState {
                        touch2: Option::Some(tp),
                        single_touch: Option::None,
                        initial_distance_sq: Option::Some(spec_dist_sq(t1, tp) as u128),
                        initial_cell_size: Option::Some(c.viewport.cell_size),
                        viewport_at_pinch_start: Option::Some(c.viewport),
                        ..c.touch_state
                    },
                    drag_state: Option::None,
                    ..c
                }
            } else {
                c
            }
        },
        TouchPhase::Moved => {
            match c.touch_state.single_touch {
                Option::Some(st) => {
                    if st.id == id {
                        match c.drag_state {
                            Option::Some(d) => spec_touch_pan(c, d, x, y, now),
                            Option::None => c,
                        }
                    } else {
                        c
                    }
                },
                Option::None => spec_touch_moved_other(c, id, x, y, now),
            }
        },
        TouchPhase::Ended | TouchPhase::Cancelled => {
            let ts0 = c.touch_state;
            let ts1 = match ts0.touch1 {
                Option::Some(t1) => if t1.id == id {
                    TouchState { touch1: ts0.touch2, touch2: Option::None, ..ts0 }
                } else {
                    ts0
                },
                Option::None => ts0,
            };
            let ts2 = match ts1.touch2 {
                Option::Some(t2) => if t2.id == id {
                    TouchState { touch2: Option::None, ..ts1 }
                } else {
                    ts1
                },
                Option::None => ts1,
            };
            let cleared_single = match ts2.single_touch {
                Option::Some(st) => st.id == id,
                Option::None => false,
            };
            let ts3 = if cleared_single {
                TouchState { single_touch: Option::None, ..ts2 }
            } else {
                ts2
            };
            let ts4 = if ts3.touch1 is None {
                TouchState {
                    initial_distance_sq: Option::None,
                    initial_cell_size: Option::None,
                    viewport_at_pinch_start: Option::None,
                    ..ts3
                }
            } else {
                ts3
            };
            match (ts4.touch1, ts4.touch2) {
                (Option::Some(t1), Option::None) => InteractionController {
                    touch_state: TouchState { single_touch: Option::Some(t1), ..ts4 },
                    drag_state: Option::Some(
                        DragState {
                            active: true,
                            start_x: t1.x,
                            start_y: t1.y,
                            viewport_at_start: c.viewport,
                        },
                    ),
                    ..c
                },
                _ => InteractionController {
                    touch_state: ts4,
                    drag_state: if cleared_single {
                        Option::None
                    } else {
                        c.drag_state
                    },
                    ..c
                },
            }
        },
    }
}

impl InteractionController {
    /// One touch event: a first finger pans like a mouse drag, a second
    /// starts a pinch that rescales about the pinch center, and lifting
    /// fingers unwinds the states in order.
    pub fn handle_touch(&mut self, phase: TouchPhase, id: u64, x_px: i64, y_px: i64, now_ms: u64)
        requires
            old(self).wf(),
            -MAX_PX <= x_px <= MAX_PX,
            -MAX_PX <= y_px <= MAX_PX,
        ensures
            final(self).wf(),
            *final(self) == spec_handle_touch(*old(self), phase, id, x_px as int, y_px as int, now_ms),
    {
        let tp = TouchPoint { id, x: x_px, y: y_px };
        match phase {
            TouchPhase::Started => {
                if self.touch_state.touch1.is_none() {
                    self.touch_state.touch1 = Option::Some(tp);
                    self.touch_state.single_touch = Option::Some(tp);
                    self.drag_state = Option::Some(
                        DragState {
                            active: true,
                            start_x: x_px,
                            start_y: y_px,
                            viewport_at_start: self.viewport,
                        },
                    );
                } else if self.touch_state.touch2.is_none() {
                    let t1 = match self.touch_state.touch1 {
                        Option::Some(t) => t,
                        Option::None => tp,
                    };
                    let dsq = dist_sq(t1, tp);
                    self.touch_state.touch2 = Option::Some(tp);
                    self.touch_state.single_touch = Option::None;
                    self.drag_state = Option::None;
                    self.touch_state.initial_distance_sq = Option::Some(dsq);
                    self.touch_state.initial_cell_size = Option::Some(self.viewport.cell_size);
                    self.touch_state.viewport_at_pinch_start = Option::Some(self.viewport);
                }
            },
            TouchPhase::Moved => {
                let single = self.touch_state.single_touch;
                match single {
                    Option::Some(st) => if st.id == id {
                        let drag = self.drag_state;
                        match drag {
                            Option::Some(d) => {
                                let cell: i64 = self.viewport.cell_size as i64;
                                let dx: i64 = x_px - d.start_x;
                                let dy: i64 = y_px - d.start_y;
                                proof {
                                    crate::planner::lemma_floor_div_bounds(
                                        -(dx as int) * (SUBCELL as int),
                                        cell as int,
                                    );
                                    crate::planner::lemma_floor_div_bounds(
                                        -(dy as int) * (SUBCELL as int),
                                        cell as int,
                                    );
                                    assert(-0x2000_0000_0000_0000 <= -(dx as int) * (SUBCELL as int)
                                        <= 0x2000_0000_0000_0000
                                        && -0x2000_0000_0000_0000 <= -(dy as int) * (SUBCELL as int)
                                        <= 0x2000_0000_0000_0000)
                                        by (nonlinear_arith)
                                        requires
                                            -0x8000_0000_0000 <= dx <= 0x8000_0000_0000,
                                            -0x8000_0000_0000 <= dy <= 0x8000_0000_0000,
                                            SUBCELL == 1024;
                                }
                                let delta_x_sub: i64 = floor_div(-dx * SUBCELL, cell);
                                let delta_y_sub: i64 = floor_div(-dy * SUBCELL, cell);
                                self.viewport.offset_x_sub = clamp_offset_sub(
                                    d.viewport_at_start.offset_x_sub + delta_x_sub,
                                );
                                self.viewport.offset_y_sub = clamp_offset_y_sub(
                                    d.viewport_at_start.offset_y_sub + delta_y_sub,
                                );
                                self.mark_viewport_changed(now_ms);
                            },
                            Option::None => {},
                        }
                    },
                    Option::None => {
                        if self.touch_state.touch1.is_some() && self.touch_state.touch2.is_some() {
                            let t1o = match self.touch_state.touch1 {
                                Option::Some(t) => t,
                                Option::None => tp,
                            };
                            let t2o = match self.touch_state.touch2 {
                                Option::Some(t) => t,
                                Option::None => tp,
                            };
                            let n1 = if t1o.id == id {
                                TouchPoint { id: t1o.id, x: x_px, y: y_px }
                            } else {
                                t1o
                            };
                            let n2 = if t2o.id == id {
                                TouchPoint { id: t2o.id, x: x_px, y: y_px }
                            } else {
                                t2o
                            };
                            self.pinch_step(n1, n2, now_ms);
                        }
                    },
                }
            },
            TouchPhase::Ended | TouchPhase::Cancelled => {
                match self.touch_state.touch1 {
                    Option::Some(t1) => {
                        if t1.id == id {
                            self.touch_state.touch1 = self.touch_state.touch2;
                            self.touch_state.touch2 = Option::None;
                        }
                    },
                    Option::None => {},
                }
                match self.touch_state.touch2 {
                    Option::Some(t2) => {
                        if t2.id == id {
                            self.touch_state.touch2 = Option::None;
                        }
                    },
                    Option::None => {},
                }
                match self.touch_state.single_touch {
                    Option::Some(st) => {
                        if st.id == id {
                            self.touch_state.single_touch = Option::None;
                            self.drag_state = Option::None;
                        }
                    },
                    Option::None => {},
                }
                if self.touch_state.touch1.is_none() {
                    self.touch_state.initial_distance_sq = Option::None;
                    self.touch_state.initial_cell_size = Option::None;
                    self.touch_state.viewport_at_pinch_start = Option::None;
                }
                if self.touch_state.touch1.is_some() && self.touch_state.touch2.is_none() {
                    let t1 = match self.touch_state.touch1 {
                        Option::Some(t) => t,
                        Option::None => tp,
                    };
                    self.touch_state.single_touch = Option::Some(t1);
                    self.drag_state = Option::Some(
                        DragState {
                            active: true,
                            start_x: t1.x,
                            start_y: t1.y,
                            viewport_at_start: self.viewport,
                        },
                    );
                }
            },
        }
    }

    /// Apply one pinch movement with the fingers now at `t1` and `t2`.
    fn pinch_step(&mut self, t1: TouchPoint, t2: TouchPoint, now_ms: u64)
        requires
            old(self).wf(),
            -MAX_PX <= t1.x <= MAX_PX,
            -MAX_PX <= t1.y <= MAX_PX,
            -MAX_PX <= t2.x <= MAX_PX,
            -MAX_PX <= t2.y <= MAX_PX,
        ensures
            final(self).wf(),
            *final(self) == spec_pinch_step(*old(self), t1, t2, now_ms),
    {
        self.touch_state.touch1 = Option::Some(t1);
        self.touch_state.touch2 = Option::Some(t2);
        let init_sq_opt = self.touch_state.initial_distance_sq;
        let init_cell_opt = self.touch_state.initial_cell_size;
        let pinch_vp = self.touch_state.viewport_at_pinch_start;
        match (init_sq_opt, init_cell_opt, pinch_vp) {
            (Option::Some(init_sq), Option::Some(init_cell), Option::Some(_)) => {
                let cur_sq = dist_sq(t1, t2);
                let ns = pinch_cell_size(init_cell, init_sq, cur_sq);
                if ns != self.viewport.cell_size {
                    let cx: i64 = floor_div(t1.x + t2.x, 2);
                    let cy: i64 = floor_div(t1.y + t2.y, 2);
                    let os: i64 = self.viewport.cell_size as i64;
                    proof {
                        crate::planner::lemma_floor_div_bounds(t1.x + t2.x, 2);
                        crate::planner::lemma_floor_div_bounds(t1.y + t2.y, 2);
                        crate::planner::lemma_floor_div_bounds((cx as int) * (SUBCELL as int), os as int);
                        crate::planner::lemma_floor_div_bounds((cy as int) * (SUBCELL as int), os as int);
                        crate::planner::lemma_floor_div_bounds((cx as int) * (SUBCELL as int), ns as int);
                        crate::planner::lemma_floor_div_bounds((cy as int) * (SUBCELL as int), ns as int);
                        assert(-0x2000_0000_0000_0000 <= (cx as int) * (SUBCELL as int)
                            <= 0x2000_0000_0000_0000
                            && -0x2000_0000_0000_0000 <= (cy as int) * (SUBCELL as int)
                            <= 0x2000_0000_0000_0000)
                            by (nonlinear_arith)
                            requires
                                -0x1_0000_0000 <= cx <= 0x1_0000_0000,
                                -0x1_0000_0000 <= cy <= 0x1_0000_0000,
                                SUBCELL == 1024;
                    }
                    let wx: i64 = self.viewport.offset_x_sub + floor_div(cx * SUBCELL, os);
                    let wy: i64 = self.viewport.offset_y_sub + floor_div(cy * SUBCELL, os);
                    let nxo: i64 = clamp_offset_sub(wx - floor_div(cx * SUBCELL, ns as i64));
                    let nyo: i64 = clamp_offset_y_sub(wy - floor_div(cy * SUBCELL, ns as i64));
                    self.viewport.cell_size = ns;
                    self.viewport.offset_x_sub = nxo;
                    self.viewport.offset_y_sub = nyo;
                    self.mark_viewport_changed(now_ms);
                }
            },
            _ => {},
        }
    }
}

/// The squared distance between two touch points.
pub fn dist_sq(a: TouchPoint, b: TouchPoint) -> (out: u128)
    requires
        -MAX_PX <= a.x <= MAX_PX,
        -MAX_PX <= a.y <= MAX_PX,
        -MAX_PX <= b.x <= MAX_PX,
        -MAX_PX <= b.y <= MAX_PX,
    ensures
        out == spec_dist_sq(a, b),
        out <= 0x2_0000_0000_0000_0000,
{
    let dx: u64 = if a.x >= b.x {
        (a.x - b.x) as u64
    } else {
        (b.x - a.x) as u64
    };
    let dy: u64 = if a.y >= b.y {
        (a.y - b.y) as u64
    } else {
        (b.y - a.y) as u64
    };
    proof {
        assert((dx as int) * (dx as int) == (a.x - b.x) * (a.x - b.x)
            && (dy as int) * (dy as int) == (a.y - b.y) * (a.y - b.y)
            && 0 <= (dx as int) * (dx as int) <= 0x1_0000_0000_0000_0000
            && 0 <= (dy as int) * (dy as int) <= 0x1_0000_0000_0000_0000)
            by (nonlinear_arith)
            requires
                dx == (if a.x >= b.x { a.x - b.x } else { b.x - a.x }),
                dy == (if a.y >= b.y { a.y - b.y } else { b.y - a.y }),
                0 <= dx <= 0x1_0000_0000,
                0 <= dy <= 0x1_0000_0000;
    }
    (dx as u128) * (dx as u128) + (dy as u128) * (dy as u128)
}

/// The pinch-selected cell size, from the initial pinch capture and the
/// current squared distance.
pub fn pinch_cell_size(initial_cell: u32, initial_sq: u128, current_sq: u128) -> (out: u32)
    requires
        1 <= initial_cell <= MAX_ZOOM_CELL_SIZE,
        current_sq <= 0x2_0000_0000_0000_0000,
    ensures
        out == spec_pinch_cell_size(initial_cell, initial_sq as int, current_sq as int),
        1 <= out <= MAX_ZOOM_CELL_SIZE,
{
    let levels = pinch_levels();
    proof {
        assert(forall|j: int| 0 <= j < spec_pinch_levels().len()
            ==> 1 <= #[trigger] spec_pinch_levels()[j] <= 500);
    }
    if initial_sq == 0 {
        nearest_level(&levels, MAX_ZOOM_CELL_SIZE)
    } else {
        proof {
            assert((initial_cell as int) * (initial_cell as int) <= 250000)
                by (nonlinear_arith)
                requires 1 <= initial_cell <= 500;
            assert(((initial_cell as int) * (initial_cell as int)) * (current_sq as int)
                <= 0x7_A120_0000_0000_0000_0000)
                by (nonlinear_arith)
                requires
                    (initial_cell as int) * (initial_cell as int) <= 250000,
                    0 <= current_sq <= 0x2_0000_0000_0000_0000u128;
        }
        let scaled: u128 = ((initial_cell as u128) * (initial_cell as u128)) * current_sq
            / initial_sq;
        let s: u64 = isqrt128(scaled);
        let s1: u64 = if s < 1 {
            1
        } else {
            s
        };
        let s2: u64 = if s1 > MAX_ZOOM_CELL_SIZE as u64 {
            MAX_ZOOM_CELL_SIZE as u64
        } else {
            s1
        };
        nearest_level(&levels, s2 as u32)
    }
}


/// The state after a window resize: dimensions update; when the host
/// reports that the top-left corner moved, the opposite edge stays
/// anchored; a minimized window only records its size.
pub open spec fn spec_handle_resize(c: InteractionController, new_w: u32, new_h: u32, outer: Option<(i32, i32)>, now: u64) -> InteractionController {
    let resized = InteractionController { window_width: new_w, window_height: new_h, ..c };
    if new_w == 0 || new_h == 0 {
        resized
    } else {
        let cell = c.viewport.cell_size as int;
        let anchored = match (outer, c.window_position) {
            (Option::Some(np), Option::Some(op)) => {
                let ox = if np.0 != op.0 {
                    spec_clamp_offset_sub(
                        ((c.viewport.offset_x_sub + (c.window_width * SUBCELL) / cell)
                            - (new_w * SUBCELL) / cell) as i64,
                    )
                } else {
                    c.viewport.offset_x_sub
                };
                let oy = if np.1 != op.1 {
                    spec_clamp_offset_y_sub(
                        ((c.viewport.offset_y_sub + (c.window_height * SUBCELL) / cell)
                            - (new_h * SUBCELL) / cell) as i64,
                    )
                } else {
                    c.viewport.offset_y_sub
                };
                InteractionController {
                    viewport: Viewport { offset_x_sub: ox, offset_y_sub: oy, ..c.viewport },
                    ..resized
                }
            },
            _ => resized,
        };
        let placed = match outer {
            Option::Some(_) => InteractionController { window_position: outer, ..anchored },
            Option::None => anchored,
        };
        InteractionController {
            last_viewport_change: Option::Some(now),
            needs_recompute: true,
            ..placed
        }
    }
}

/// The render uniform for the current viewport against the bound buffer.
pub open spec fn spec_render_params(c: &InteractionController) -> RenderParams {
    RenderParams {
        visible_width: (((c.window_width + c.viewport.cell_size - 1) as int
            / c.viewport.cell_size as int) as u32),
        visible_height: (((c.window_height + c.viewport.cell_size - 1) as int
            / c.viewport.cell_size as int) as u32),
        simulated_width: c.buffer_simulated_width,
        padding_left: c.buffer_padding_left,
        cell_size: c.viewport.cell_size,
        window_width: c.window_width,
        window_height: c.window_height,
        viewport_offset_x: spec_cells_floor_i32(c.viewport.offset_x_sub),
        viewport_offset_y: spec_cells_floor_i32(c.viewport.offset_y_sub),
        buffer_offset_x: spec_cells_floor_i32(c.buffer_viewport.offset_x_sub),
        buffer_offset_y: spec_cells_floor_i32(c.buffer_viewport.offset_y_sub),
    }
}

impl InteractionController {
    /// React to a window resize, anchoring the edge opposite a moved one.
    pub fn handle_resize(&mut self, new_w: u32, new_h: u32, outer: Option<(i32, i32)>, now_ms: u64)
        requires
            old(self).wf(),
        ensures
            final(self).wf(),
            *final(self) == spec_handle_resize(*old(self), new_w, new_h, outer, now_ms),
    {
        let old_w = self.window_width;
        let old_h = self.window_height;
        self.window_width = new_w;
        self.window_height = new_h;
        if new_w == 0 || new_h == 0 {
            return;
        }
        let cell: u64 = self.viewport.cell_size as u64;
        match (outer, self.window_position) {
            (Option::Some(np), Option::Some(op)) => {
                if np.0 != op.0 {
                    let old_vis: u64 = ((old_w as u64) * (SUBCELL as u64)) / cell;
                    let new_vis: u64 = ((new_w as u64) * (SUBCELL as u64)) / cell;
                    proof {
                        crate::planner::lemma_floor_div_bounds(
                            (old_w as int) * (SUBCELL as int),
                            cell as int,
                        );
                        crate::planner::lemma_floor_div_bounds(
                            (new_w as int) * (SUBCELL as int),
                            cell as int,
                        );
                        assert((old_w as int) * (SUBCELL as int) <= 0x4_0000_0000_0000
                            && (new_w as int) * (SUBCELL as int) <= 0x4_0000_0000_0000)
                            by (nonlinear_arith)
                            requires old_w <= 0xFFFF_FFFFu32, new_w <= 0xFFFF_FFFFu32, SUBCELL == 1024;
                    }
                    self.viewport.offset_x_sub = clamp_offset_sub(
                        self.viewport.offset_x_sub + (old_vis as i64) - (new_vis as i64),
                    );
                }
                if np.1 != op.1 {
                    let old_vis: u64 = ((old_h as u64) * (SUBCELL as u64)) / cell;
                    let new_vis: u64 = ((new_h as u64) * (SUBCELL as u64)) / cell;
                    proof {
                        crate::planner::lemma_floor_div_bounds(
                            (old_h as int) * (SUBCELL as int),
                            cell as int,
                        );
                        crate::planner::lemma_floor_div_bounds(
                            (new_h as int) * (SUBCELL as int),
                            cell as int,
                        );
                        assert((old_h as int) * (SUBCELL as int) <= 0x4_0000_0000_0000
                            && (new_h as int) * (SUBCELL as int) <= 0x4_0000_0000_0000)
                            by (nonlinear_arith)
                            requires old_h <= 0xFFFF_FFFFu32, new_h <= 0xFFFF_FFFFu32, SUBCELL == 1024;
                    }
                    self.viewport.offset_y_sub = clamp_offset_y_sub(
                        self.viewport.offset_y_sub + (old_vis as i64) - (new_vis as i64),
                    );
                }
            },
            _ => {},
        }
        if outer.is_some() {
            self.window_position = outer;
        }
        self.mark_viewport_changed(now_ms);
    }

    /// Produce a fresh render uniform, at most once per throttle period;
    /// between periods the previous uniform stays bound.
    pub fn update_render_params(&mut self, now_ms: u64) -> (out: Option<RenderParams>)
        requires
            old(self).wf(),
        ensures
            final(self).wf(),
            final(self).viewport == old(self).viewport,
            (match old(self).last_params_update {
                Option::Some(t) => now_ms < t || now_ms - t < RENDER_PARAMS_THROTTLE_MS,
                Option::None => false,
            }) ==> out is None && *final(self) == *old(self),
            !(match old(self).last_params_update {
                Option::Some(t) => now_ms < t || now_ms - t < RENDER_PARAMS_THROTTLE_MS,
                Option::None => false,
            }) ==> out == Option::Some(spec_render_params(old(self)))
                && *final(self) == (InteractionController {
                last_params_update: Option::Some(now_ms),
                ..*old(self)
            }),
    {
        match self.last_params_update {
            Option::Some(t) => {
                if now_ms < t || now_ms - t < RENDER_PARAMS_THROTTLE_MS {
                    return Option::None;
                }
            },
            Option::None => {},
        }
        let cell = self.viewport.cell_size;
        let vis_w: u32 = crate::planner::ceil_div_u32(self.window_width, cell);
        let vis_h: u32 = crate::planner::ceil_div_u32(self.window_height, cell);
        let params = RenderParams {
            visible_width: vis_w,
            visible_height: vis_h,
            simulated_width: self.buffer_simulated_width,
            padding_left: self.buffer_padding_left,
            cell_size: cell,
            window_width: self.window_width,
            window_height: self.window_height,
            viewport_offset_x: cells_floor_i32(self.viewport.offset_x_sub),
            viewport_offset_y: cells_floor_i32(self.viewport.offset_y_sub),
            buffer_offset_x: cells_floor_i32(self.buffer_viewport.offset_x_sub),
            buffer_offset_y: cells_floor_i32(self.buffer_viewport.offset_y_sub),
        };
        self.last_params_update = Option::Some(now_ms);
        Option::Some(params)
    }
}


/// Zoom-about-cursor stability: as long as the adjusted offset stays in
/// the representable range, the world position under the cursor after a
/// zoom step equals the one before it, to the subcell.
pub proof fn lemma_zoom_about_cursor(offset_sub: int, cursor_px: int, old_size: int, new_size: int)
    requires
        old_size >= 1,
        new_size >= 1,
        i64::MIN <= offset_sub + (cursor_px * SUBCELL) / old_size - (cursor_px * SUBCELL) / new_size
            <= i64::MAX,
        -MAX_OFFSET_SUB <= offset_sub + (cursor_px * SUBCELL) / old_size
            - (cursor_px * SUBCELL) / new_size <= MAX_OFFSET_SUB,
    ensures
        spec_world_at(
            spec_clamp_offset_sub(
                (offset_sub + (cursor_px * SUBCELL) / old_size
                    - (cursor_px * SUBCELL) / new_size) as i64,
            ) as int,
            cursor_px,
            new_size,
        ) == spec_world_at(offset_sub, cursor_px, old_size),
{
}

/// Pan clamping: a drag that would pull the top of the view above
/// generation 0 stores a vertical offset of exactly 0.
pub proof fn lemma_pan_clamping(start_y_sub: int, delta_sub: int)
    requires
        i64::MIN <= start_y_sub + delta_sub <= i64::MAX,
        start_y_sub + delta_sub < 0,
    ensures
        spec_clamp_offset_y_sub((start_y_sub + delta_sub) as i64) == 0,
{
}

/// Debounce, first half: after a recomputation fires, no further one can
/// fire, at any time, until the viewport is marked changed again.
pub proof fn lemma_debounce_at_most_one(c: InteractionController, now1: u64, now2: u64)
    requires
        c.spec_should_fire(now1),
    ensures
        !(InteractionController {
            last_viewport_change: Option::None,
            needs_recompute: false,
            ..c
        }).spec_should_fire(now2),
{
}

/// Debounce, second half: a recomputation fires exactly at the first
/// check whose time is at least the debounce interval after the last
/// viewport change.
pub proof fn lemma_debounce_fires_when_due(c: InteractionController, t: u64, now: u64)
    requires
        c.needs_recompute,
        c.last_viewport_change == Option::Some(t),
        now >= t,
        now - t >= c.debounce_ms,
    ensures
        c.spec_should_fire(now),
{
}

} // verus!
