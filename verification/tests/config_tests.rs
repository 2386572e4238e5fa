use caelib::cache::TileCache;
use caelib::compute::compute_viewport;
use caelib::planner::{plan_viewport, SkipReason};
use caelib::viewport::Viewport;
use caelib::{Config, ConfigError};

/// The default configuration is valid.
#[test]
fn default_config_is_valid() {
    let config = Config::default();
    assert!(config.validate().is_ok());
    assert_eq!(config.rule, 30);
    assert_eq!(config.width, 1280);
    assert_eq!(config.height, 960);
    assert_eq!(config.debounce_ms, 0);
    assert_eq!(config.cache_tiles, 64);
    assert_eq!(config.tile_size, 256);
    assert!(config.initial_state.is_none());
    assert!(!config.fullscreen);
}

/// Every bound violation is reported, each with its own error.
#[test]
fn validation_errors_each_bound() {
    let base = Config::default();

    let c = Config { initial_state: Some("10x1".to_string()), ..base.clone() };
    assert_eq!(c.validate().unwrap_err(), vec![ConfigError::InitialStateNotBinary]);

    let c = Config { initial_state: Some("0101".to_string()), ..base.clone() };
    assert!(c.validate().is_ok());

    let c = Config { initial_state: Some(String::new()), ..base.clone() };
    assert!(c.validate().is_ok());

    let c = Config { width: 499, ..base.clone() };
    assert_eq!(c.validate().unwrap_err(), vec![ConfigError::WidthTooSmall]);

    let c = Config { width: 8193, ..base.clone() };
    assert_eq!(c.validate().unwrap_err(), vec![ConfigError::WidthTooLarge]);

    let c = Config { height: 100, ..base.clone() };
    assert_eq!(c.validate().unwrap_err(), vec![ConfigError::HeightTooSmall]);

    let c = Config { height: 9000, ..base.clone() };
    assert_eq!(c.validate().unwrap_err(), vec![ConfigError::HeightTooLarge]);

    let c = Config { cache_tiles: 257, ..base.clone() };
    assert_eq!(c.validate().unwrap_err(), vec![ConfigError::CacheTilesTooMany]);

    let c = Config { tile_size: 63, ..base.clone() };
    assert_eq!(c.validate().unwrap_err(), vec![ConfigError::TileSizeTooSmall]);

    let c = Config { tile_size: 1025, ..base.clone() };
    assert_eq!(c.validate().unwrap_err(), vec![ConfigError::TileSizeTooLarge]);

    let c = Config { tile_size: 0, ..base.clone() };
    assert_eq!(
        c.validate().unwrap_err(),
        vec![ConfigError::TileSizeTooSmall, ConfigError::TileSizeZero]
    );

    let c = Config { debounce_ms: 5001, ..base.clone() };
    assert_eq!(c.validate().unwrap_err(), vec![ConfigError::DebounceTooLarge]);

    let c = Config { width: 1, height: 9000, tile_size: 2000, ..base };
    assert_eq!(
        c.validate().unwrap_err(),
        vec![
            ConfigError::WidthTooSmall,
            ConfigError::HeightTooLarge,
            ConfigError::TileSizeTooLarge,
        ]
    );
}

/// The tile-size clamp substitutes the default for zero and clamps into
/// range.
#[test]
fn tile_size_clamping() {
    let mut c = Config { tile_size: 0, ..Config::default() };
    c.validate_tile_size();
    assert_eq!(c.tile_size, 256);

    let mut c = Config { tile_size: 30, ..Config::default() };
    c.validate_tile_size();
    assert_eq!(c.tile_size, 64);

    let mut c = Config { tile_size: 5000, ..Config::default() };
    c.validate_tile_size();
    assert_eq!(c.tile_size, 1024);

    let mut c = Config { tile_size: 512, ..Config::default() };
    c.validate_tile_size();
    assert_eq!(c.tile_size, 512);
}

/// The planner refuses unsafe viewports, in check order, and otherwise
/// reports the visible cell rectangle.
#[test]
fn planner_limits() {
    let vp = Viewport { offset_x_sub: -51200, offset_y_sub: 0, cell_size: 10 };
    let plan = plan_viewport(&vp, 1000, 800).unwrap();
    assert_eq!(plan.visible_cells_x, 100);
    assert_eq!(plan.visible_cells_y, 80);
    assert_eq!(plan.x_start, -50);
    assert_eq!(plan.y_start, 0);

    let tiny = Viewport { cell_size: 1, ..vp.clone() };
    assert_eq!(plan_viewport(&tiny, 1000, 800), Err(SkipReason::CellSizeTooSmall));

    let wide = Viewport { cell_size: 2, ..vp.clone() };
    assert_eq!(plan_viewport(&wide, 20000, 800), Err(SkipReason::TooManyCells));

    let dense = Viewport { cell_size: 2, ..vp };
    assert_eq!(plan_viewport(&dense, 8192, 8192), Err(SkipReason::TooManyTotalCells));
}

/// The planner floors offsets toward minus infinity, so negative world
/// positions land in the right cell.
#[test]
fn planner_floors_negative_offsets() {
    let vp = Viewport { offset_x_sub: -1, offset_y_sub: 0, cell_size: 10 };
    let plan = plan_viewport(&vp, 1000, 800).unwrap();
    assert_eq!(plan.x_start, -1);
}

/// One whole recomputation pass through planner, cache, and assembler.
#[test]
fn compute_viewport_end_to_end() {
    let mut cache = TileCache::new(16, 64);
    let vp = Viewport { offset_x_sub: -5 * 1024, offset_y_sub: 0, cell_size: 10 };
    let result = compute_viewport(30, None, &vp, 100, 60, &mut cache).unwrap();
    assert_eq!(result.visible_width, 10);
    assert_eq!(result.height, 7);
    // World column 0 at generation 0 is the single live cell.
    let row0 = |x: i64| result.cells[(result.padding_left as i64 + (x + 5)) as usize];
    assert_eq!(row0(0), 1);
    assert_eq!(row0(1), 0);
    assert_eq!(row0(-1), 0);

    // A too-small cell size skips the pass and leaves the cache alone.
    let before = cache.len();
    let tiny = Viewport { cell_size: 1, ..vp };
    assert!(compute_viewport(30, None, &tiny, 100, 60, &mut cache).is_none());
    assert_eq!(cache.len(), before);
}

/// With caching disabled the direct path produces the same cells as the
/// cached one.
#[test]
fn uncached_path_matches_cached() {
    let vp = Viewport { offset_x_sub: -10 * 1024, offset_y_sub: 0, cell_size: 10 };
    let mut none_cache = TileCache::new(0, 64);
    let mut some_cache = TileCache::new(16, 64);
    let direct = compute_viewport(30, None, &vp, 200, 120, &mut none_cache).unwrap();
    let cached = compute_viewport(30, None, &vp, 200, 120, &mut some_cache).unwrap();
    assert_eq!(none_cache.len(), 0);
    for g in 0..12u32 {
        for c in 0..20u32 {
            assert_eq!(
                direct.cells[(g * direct.simulated_width + direct.padding_left + c) as usize],
                cached.cells[(g * cached.simulated_width + cached.padding_left + c) as usize],
            );
        }
    }
}
