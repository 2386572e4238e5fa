use caelib::constants::SUBCELL;
use caelib::controller::{InteractionController, TouchPhase};

fn controller() -> InteractionController {
    InteractionController::new(1000, 1000, 100)
}

/// Zoom about the cursor: after one wheel step the world cell under the
/// cursor is unchanged, to within one cell.
#[test]
fn zoom_keeps_cursor_cell() {
    let mut c = controller();
    let (cx, cy) = (640i64, 400i64);
    let old_size = c.viewport.cell_size as i64;
    let world_before = c.viewport.offset_x_sub + (cx * SUBCELL) / old_size;
    c.handle_zoom(true, cx, cy, 0);
    let new_size = c.viewport.cell_size as i64;
    assert_ne!(new_size, old_size);
    let world_after = c.viewport.offset_x_sub + (cx * SUBCELL) / new_size;
    assert!((world_after - world_before).abs() <= SUBCELL);
}

/// The wheel ladder moves one entry per tick and stays within bounds.
#[test]
fn zoom_ladder_steps() {
    let mut c = controller();
    assert_eq!(c.viewport.cell_size, 10);
    c.handle_zoom(true, 0, 0, 0);
    assert_eq!(c.viewport.cell_size, 12);
    c.handle_zoom(false, 0, 0, 0);
    assert_eq!(c.viewport.cell_size, 10);
    for _ in 0..100 {
        c.handle_zoom(false, 0, 0, 0);
    }
    assert_eq!(c.viewport.cell_size, 2);
    for _ in 0..100 {
        c.handle_zoom(true, 0, 0, 0);
    }
    assert_eq!(c.viewport.cell_size, 500);
}

/// Pan clamping: a drag that would pull the viewport above generation 0
/// stores a vertical offset of exactly 0.
#[test]
fn pan_clamps_vertical_offset() {
    let mut c = controller();
    c.cursor_moved(100, 100, 0);
    c.mouse_input(true);
    // Drag downward on screen: the world moves up, offset_y would go
    // negative, and is clamped at generation 0.
    c.cursor_moved(100, 400, 1);
    assert_eq!(c.viewport.offset_y_sub, 0);
    // Drag upward on screen: offset_y grows.
    c.cursor_moved(100, 40, 2);
    let expected = -(-60i64 * SUBCELL) / 10;
    assert_eq!(c.viewport.offset_y_sub, expected);
}

/// Horizontal pan moves the viewport opposite the cursor by pixels over
/// cell size.
#[test]
fn pan_horizontal_exact() {
    let mut c = controller();
    let x0 = c.viewport.offset_x_sub;
    c.cursor_moved(500, 500, 0);
    c.mouse_input(true);
    c.cursor_moved(520, 500, 1);
    // 20 px to the right at cell size 10: the world shifts left 2 cells.
    assert_eq!(c.viewport.offset_x_sub, x0 - (20 * SUBCELL) / 10);
    c.mouse_input(false);
    // With the button up, further motion does not pan.
    let frozen = c.viewport.offset_x_sub;
    c.cursor_moved(900, 500, 2);
    assert_eq!(c.viewport.offset_x_sub, frozen);
}

/// Debounce: a burst of changes within the debounce window fires at most
/// one recomputation, and one fires exactly when the window has elapsed
/// since the last change.
#[test]
fn debounce_single_fire_per_burst() {
    let mut c = controller();
    c.check_debounce_and_recompute(0);
    c.mark_viewport_changed(0);
    assert!(!c.check_debounce_and_recompute(50));
    c.mark_viewport_changed(60);
    assert!(!c.check_debounce_and_recompute(120));
    assert!(c.check_debounce_and_recompute(160));
    // The owed work was taken: nothing more fires until the next change.
    assert!(!c.check_debounce_and_recompute(161));
    assert!(!c.check_debounce_and_recompute(100_000));
    c.mark_viewport_changed(200);
    assert!(c.check_debounce_and_recompute(300));
}

/// A zero debounce fires on the first check after a change.
#[test]
fn debounce_zero_fires_immediately() {
    let mut c = InteractionController::new(1000, 1000, 0);
    c.mark_viewport_changed(5);
    assert!(c.check_debounce_and_recompute(5));
    assert!(!c.check_debounce_and_recompute(5));
}

/// Reset restores the default cell size and centers world column 0.
#[test]
fn reset_restores_initial_view() {
    let mut c = controller();
    c.handle_zoom(true, 0, 0, 0);
    c.mouse_input(true);
    c.cursor_moved(300, 100, 1);
    c.reset_viewport(2);
    assert_eq!(c.viewport.cell_size, 10);
    assert_eq!(c.viewport.offset_y_sub, 0);
    assert_eq!(c.viewport.offset_x_sub, -((1000 * SUBCELL) / (2 * 10)));
    assert!(c.needs_recompute);
}

/// A pinch that doubles the finger distance doubles the cell size, up to
/// ladder quantization.
#[test]
fn pinch_zoom_doubles_cell_size() {
    let mut c = controller();
    c.handle_touch(TouchPhase::Started, 1, 0, 0, 0);
    c.handle_touch(TouchPhase::Started, 2, 100, 0, 1);
    c.handle_touch(TouchPhase::Moved, 2, 200, 0, 2);
    assert_eq!(c.viewport.cell_size, 20);
    // Lifting one finger resumes single-touch panning.
    c.handle_touch(TouchPhase::Ended, 2, 200, 0, 3);
    assert!(c.drag_state.is_some());
    c.handle_touch(TouchPhase::Ended, 1, 0, 0, 4);
    assert!(c.touch_state.touch1.is_none());
}

/// A single-finger drag pans exactly like a mouse drag.
#[test]
fn single_touch_pans() {
    let mut c = controller();
    let x0 = c.viewport.offset_x_sub;
    c.handle_touch(TouchPhase::Started, 7, 500, 500, 0);
    c.handle_touch(TouchPhase::Moved, 7, 530, 500, 1);
    assert_eq!(c.viewport.offset_x_sub, x0 - (30 * SUBCELL) / 10);
}

/// A resize with the left edge moved keeps the right edge anchored.
#[test]
fn resize_anchors_opposite_edge() {
    let mut c = controller();
    c.handle_resize(1000, 1000, Some((100, 100)), 0);
    let right_before = c.viewport.offset_x_sub + (1000 * SUBCELL) / 10;
    // The left edge moves 200 px to the right; width shrinks to 800.
    c.handle_resize(800, 1000, Some((300, 100)), 1);
    let right_after = c.viewport.offset_x_sub + (800 * SUBCELL) / 10;
    assert_eq!(right_before, right_after);
}

/// Render-uniform updates are throttled to one per interval.
#[test]
fn render_params_throttled() {
    let mut c = controller();
    let first = c.update_render_params(100);
    assert!(first.is_some());
    assert!(c.update_render_params(110).is_none());
    let later = c.update_render_params(116);
    assert!(later.is_some());
    let p = later.unwrap();
    assert_eq!(p.cell_size, 10);
    assert_eq!(p.window_width, 1000);
    assert_eq!(p.visible_width, 100);
    assert_eq!(p.viewport_offset_x, -50);
}

/// A minimized window only records its size: no anchoring, no owed
/// recomputation.
#[test]
fn minimized_resize_records_size_only() {
    let mut c = controller();
    let vp = c.viewport.clone();
    c.handle_resize(0, 500, Some((0, 0)), 7);
    assert_eq!(c.window_width, 0);
    assert_eq!(c.window_height, 500);
    assert_eq!(c.viewport, vp);
    assert!(c.last_viewport_change.is_none());
}
