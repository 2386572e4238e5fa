use caelib::cache::TileCache;
use caelib::compute::{compute_tile, run_ca, run_ca_with_cache};

fn visible_cell(r: &caelib::compute::CaResult, row: u32, col: u32) -> u32 {
    r.cells[(row * r.simulated_width + r.padding_left + col) as usize]
}

/// Light-cone determinism: the same tile computed twice, independently,
/// is bitwise identical, for tiles on and off the origin.
#[test]
fn tile_deterministic() {
    for (tx, ty) in [(0i32, 0i32), (-1, 0), (1, 1), (-2, 2)] {
        let a = compute_tile(30, tx, ty, 64, &None);
        let b = compute_tile(30, tx, ty, 64, &None);
        assert_eq!(a.simulated_width, b.simulated_width);
        assert_eq!(a.padding_left, b.padding_left);
        assert_eq!(a.cells, b.cells);
    }
}

/// A tile's visible cells agree with a monolithic run over the same
/// world rectangle.
#[test]
fn tile_matches_monolithic() {
    let t = 64u32;
    let (tx, ty) = (-1i32, 1i32);
    let tile = compute_tile(30, tx, ty, t, &None);
    let mono = run_ca(30, (ty as u32) * t, t - 1, t, tx * t as i32, None);
    for gi in 0..t {
        for xi in 0..t {
            let tile_cell = tile.cells[(gi * tile.simulated_width + tile.padding_left + xi) as usize];
            assert_eq!(tile_cell, visible_cell(&mono, gi, xi), "row {} col {}", gi, xi);
        }
    }
}

/// Tile assembly matches the monolithic run over a viewport spanning a
/// 2-by-2 tile grid, rule 30, default initial state.
#[test]
fn assembly_matches_monolithic() {
    let mut cache = TileCache::new(16, 64);
    let visible = 100u32;
    let iterations = 100u32;
    let offset = -50i32;
    let tiled = run_ca_with_cache(30, 14, iterations, visible, offset, None, &mut cache);
    let mono = run_ca(30, 14, iterations, visible, offset, None);
    for g in 0..iterations {
        for c in 0..visible {
            assert_eq!(
                visible_cell(&tiled, g, c),
                visible_cell(&mono, g, c),
                "row {} col {}",
                g,
                c
            );
        }
    }
}

/// Cache reuse on scrolling down one tile: the still-visible row of
/// tiles hits the cache, and the miss count grows by exactly the number
/// of tile columns.
#[test]
fn scenario_cache_reuse_on_scroll() {
    let t = 64u32;
    let mut cache = TileCache::new(64, t);
    let visible = 2 * t;
    let iterations = 2 * t;
    let _ = run_ca_with_cache(30, 0, iterations, visible, 0, None, &mut cache);
    assert_eq!(cache.hits, 0);
    assert_eq!(cache.misses, 4);

    // Scroll down by one tile: two tiles stay visible, two are new.
    let _ = run_ca_with_cache(30, t, iterations, visible, 0, None, &mut cache);
    assert_eq!(cache.hits, 2);
    assert_eq!(cache.misses, 4 + 2);
}

/// Cache capacity below the working set: after one pass over a 2-by-3
/// tile viewport with capacity 4, four tiles remain cached, and a second
/// identical pass hits on exactly those four of its six lookups.
#[test]
fn scenario_cache_capacity_pressure() {
    let t = 64u32;
    let mut cache = TileCache::new(4, t);
    let visible = 2 * t;
    let iterations = 3 * t;
    let _ = run_ca_with_cache(30, 0, iterations, visible, 0, None, &mut cache);
    assert_eq!(cache.len(), 4);
    assert_eq!(cache.misses, 6);

    let before_hits = cache.hits;
    let before_misses = cache.misses;
    let _ = run_ca_with_cache(30, 0, iterations, visible, 0, None, &mut cache);
    assert_eq!(cache.hits - before_hits, 4);
    assert_eq!(cache.misses - before_misses, 2);
}

/// The cached path gives the same cells whether tiles were cold or warm.
#[test]
fn warm_cache_same_output() {
    let mut cache = TileCache::new(16, 64);
    let cold = run_ca_with_cache(90, 3, 40, 80, -40, None, &mut cache);
    let warm = run_ca_with_cache(90, 3, 40, 80, -40, None, &mut cache);
    assert_eq!(cold.cells, warm.cells);
}

/// An explicit initial state flows through the cached path and the cache
/// keys keep states with distinct digests apart.
#[test]
fn cached_explicit_initial_state() {
    let mut cache = TileCache::new(16, 64);
    let init = Some("11".to_string());
    let tiled = run_ca_with_cache(30, 0, 10, 20, -10, init.clone(), &mut cache);
    let mono = run_ca(30, 0, 10, 20, -10, init);
    for g in 0..10 {
        for c in 0..20 {
            assert_eq!(visible_cell(&tiled, g, c), visible_cell(&mono, g, c));
        }
    }
}

/// The padding and trailing row of an assembled viewport buffer are
/// black (zero), per the render contract.
#[test]
fn assembled_padding_is_zero() {
    let mut cache = TileCache::new(16, 64);
    let r = run_ca_with_cache(30, 0, 10, 20, -10, None, &mut cache);
    for g in 0..=10u32 {
        for col in 0..r.simulated_width {
            let in_visible = g < 10 && col >= r.padding_left && col < r.padding_left + r.visible_width;
            if !in_visible {
                assert_eq!(r.cells[(g * r.simulated_width + col) as usize], 0);
            }
        }
    }
}
