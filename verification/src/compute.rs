//! Tile production and viewport computation.
//!
//! A tile at grid position `(tile_x, tile_y)` covers world columns
//! `[tile_x*T, (tile_x+1)*T)` and generations `[tile_y*T, (tile_y+1)*T)`.
//! Its buffer is simulated from generation 0 with light-cone padding of
//! `(tile_y+1)*T` columns on each side, which makes every visible cell of
//! the tile exact: the padding covers the whole light cone of the tile's
//! last generation, so the tile is independent of anything outside its own
//! buffer.
use vstd::prelude::*;

use crate::automaton::{grid_cell, init_chars, simulate_span, world_cell};
use crate::cache::{
    has_key, lemma_find_key, lemma_has_key, lemma_insert_entries, lemma_touch_entries,
    lemma_touch_preserves_keys, lru_insert, lru_touch, spec_initial_state_digest, tile_copy,
    tile_eq, Tile, TileCache, TileKey,
};
use crate::constants::MAX_BUFFER_WORDS;
use crate::planner::{floor_div, lemma_floor_div_bounds, plan_viewport, spec_plan, Plan};
use crate::viewport::Viewport;
use crate::rule::is_bit;

verus! {

/// A computed viewport buffer: `height` rows of `simulated_width` cell
/// words, the `visible_width` columns from `padding_left` on holding the
/// viewport's cells.
pub struct CaResult {
    pub cells: Vec<u32>,
    pub simulated_width: u32,
    pub visible_width: u32,
    pub height: u32,
    pub padding_left: u32,
}

/// A tile whose visible cells are exactly the world cells of its grid
/// position, with the stated padding layout.
pub open spec fn tile_matches_world(
    r: u8,
    init: Option<Seq<char>>,
    tile_size: u32,
    tile_x: int,
    tile_y: int,
    t: Tile,
) -> bool {
    &&& t.padding_left == (tile_y + 1) * tile_size
    &&& t.simulated_width == tile_size + 2 * (t.padding_left as int)
    &&& t.cells@.len() == tile_size * t.simulated_width
    &&& forall|gi: int, xi: int|
        0 <= gi < tile_size && 0 <= xi < tile_size
            ==> #[trigger] grid_cell(t.cells@, t.simulated_width as nat, gi, t.padding_left + xi)
                == world_cell(r, init, (tile_y * tile_size + gi) as nat, tile_x * tile_size + xi)
}

/// The light-cone padding of a tile row: wide enough for all generations
/// from 0 through the tile's last one.
pub open spec fn tile_padding(tile_y: int, tile_size: int) -> int {
    (tile_y + 1) * tile_size
}

/// Words a tile's simulation keeps resident: its padded width times its
/// height.
pub open spec fn tile_footprint(tile_y: int, tile_size: int) -> int {
    (tile_size + 2 * tile_padding(tile_y, tile_size)) * tile_size
}

/// Words a direct viewport simulation keeps resident.
pub open spec fn ca_footprint(start_generation: int, iterations: int, visible_width: int) -> int {
    (iterations + 1) * (visible_width + 2 * (start_generation + iterations))
}

/// Compute one tile from generation 0: build the padded generation-0 row,
/// advance it one generation at a time, and keep the tile's own rows.
pub fn compute_tile(rule: u8, tile_x: i32, tile_y: i32, tile_size: u32, initial_state: &Option<String>) -> (out: Tile)
    requires
        tile_y >= 0,
        1 <= tile_size <= 1024,
        tile_footprint(tile_y as int, tile_size as int) <= MAX_BUFFER_WORDS,
    ensures
        tile_matches_world(rule, init_chars(initial_state), tile_size, tile_x as int, tile_y as int, out),
        forall|k: int| 0 <= k < out.cells@.len() ==> is_bit(#[trigger] out.cells@[k]),
{
    let t64 = tile_size as u64;
    let ty64 = tile_y as u64;
    proof {
        assert(t64 == tile_size as int && ty64 == tile_y as int);
        assert((ty64 as int + 1) * (t64 as int) <= 0x2_0000_0000_0000
            && (ty64 as int) * (t64 as int) >= 0
            && (ty64 as int) * (t64 as int) + t64 as int == (ty64 as int + 1) * (t64 as int))
            by (nonlinear_arith)
            requires 0 <= ty64 <= 0x8000_0000, 1 <= t64 <= 1024;
    }
    let padding: u64 = (ty64 + 1) * t64;
    proof {
        assert(padding as int == tile_padding(tile_y as int, tile_size as int));
        assert(2 * padding <= MAX_BUFFER_WORDS && t64 + 2 * padding <= 2 * MAX_BUFFER_WORDS)
            by (nonlinear_arith)
            requires
                (t64 as int + 2 * (padding as int)) * (t64 as int) <= MAX_BUFFER_WORDS,
                1 <= t64,
                0 <= padding;
    }
    let simulated_width: u64 = t64 + 2 * padding;
    let first_row: u64 = ty64 * t64;
    proof {
        assert((tile_x as int) * (tile_size as int) <= 0x2_0000_0000_0000
            && (tile_x as int) * (tile_size as int) >= -0x2_0000_0000_0000)
            by (nonlinear_arith)
            requires -0x8000_0000 <= tile_x <= 0x8000_0000, 1 <= tile_size <= 1024;
    }
    let wbase: i64 = (tile_x as i64) * (tile_size as i64) - (padding as i64);
    proof {
        assert(first_row + t64 == padding);
        assert((tile_size as int) * (simulated_width as int) <= MAX_BUFFER_WORDS)
            by (nonlinear_arith)
            requires
                (simulated_width as int) == (tile_size as int) + 2 * (padding as int),
                ((tile_size as int) + 2 * (padding as int)) * (tile_size as int)
                    <= MAX_BUFFER_WORDS;
    }
    let cells = simulate_span(
        rule,
        initial_state,
        wbase,
        simulated_width as usize,
        first_row as u32,
        tile_size,
    );
    let out = Tile {
        cells,
        simulated_width: simulated_width as u32,
        padding_left: padding as u32,
    };
    proof {
        let t = tile_size as int;
        let ty = tile_y as int;
        let p = padding as int;
        let w = simulated_width as int;
        let fr = first_row as int;
        assert forall|gi: int, xi: int| 0 <= gi < tile_size && 0 <= xi < tile_size
            implies #[trigger] grid_cell(out.cells@, out.simulated_width as nat, gi, out.padding_left + xi)
                == world_cell(rule, init_chars(initial_state), (ty * t + gi) as nat, tile_x * t + xi) by {
            assert(fr + gi <= p + xi && p + xi < w - (fr + gi)) by (nonlinear_arith)
                requires
                    0 <= gi < t,
                    0 <= xi < t,
                    fr == ty * t,
                    p == (ty + 1) * t,
                    w == t + 2 * p,
                    ty >= 0,
                    t >= 1;
            assert(wbase + (p + xi) == tile_x * t + xi);
            assert(grid_cell(out.cells@, w as nat, gi, p + xi)
                == world_cell(rule, init_chars(initial_state), (fr + gi) as nat, wbase + (p + xi)));
        }
    }
    out
}

/// Two tiles computed for the same rule, initial state, and grid position
/// agree on every visible cell: each equals the world, so the tile is
/// deterministic and independent of any surrounding computation.
pub proof fn lemma_tile_deterministic(
    r: u8,
    init: Option<Seq<char>>,
    tile_size: u32,
    tile_x: int,
    tile_y: int,
    t1: Tile,
    t2: Tile,
)
    requires
        tile_matches_world(r, init, tile_size, tile_x, tile_y, t1),
        tile_matches_world(r, init, tile_size, tile_x, tile_y, t2),
    ensures
        t1.simulated_width == t2.simulated_width,
        t1.padding_left == t2.padding_left,
        forall|gi: int, xi: int|
            0 <= gi < tile_size && 0 <= xi < tile_size
                ==> #[trigger] grid_cell(t1.cells@, t1.simulated_width as nat, gi, t1.padding_left + xi)
                    == grid_cell(t2.cells@, t2.simulated_width as nat, gi, t2.padding_left + xi),
{
}

/// Compute a viewport buffer directly, with no tiles: one simulation wide
/// enough that every visible cell of every visible generation is exact.
pub fn run_ca(
    rule: u8,
    start_generation: u32,
    iterations: u32,
    visible_width: u32,
    horizontal_offset: i32,
    initial_state: Option<String>,
) -> (out: CaResult)
    requires
        visible_width + 2 * ((start_generation + iterations) as int) <= u32::MAX,
        ca_footprint(start_generation as int, iterations as int, visible_width as int)
            <= MAX_BUFFER_WORDS,
    ensures
        out.visible_width == visible_width,
        out.padding_left == start_generation + iterations,
        out.simulated_width == visible_width + 2 * (out.padding_left as int),
        out.height == iterations + 1,
        out.cells@.len() == out.height * out.simulated_width,
        forall|ri: int, c: int|
            0 <= ri <= iterations && 0 <= c < visible_width
                ==> #[trigger] grid_cell(out.cells@, out.simulated_width as nat, ri, out.padding_left + c)
                    == world_cell(
                    rule,
                    init_chars(&initial_state),
                    (start_generation + ri) as nat,
                    horizontal_offset + c,
                ),
        forall|k: int| 0 <= k < out.cells@.len() ==> is_bit(#[trigger] out.cells@[k]),
{
    let padding: u32 = start_generation + iterations;
    let simulated_width: u32 = visible_width + 2 * padding;
    let height: u32 = iterations + 1;
    let wbase: i64 = (horizontal_offset as i64) - (padding as i64);
    proof {
        assert((height as int) * (simulated_width as int) <= MAX_BUFFER_WORDS);
    }
    let cells = simulate_span(
        rule,
        &initial_state,
        wbase,
        simulated_width as usize,
        start_generation,
        height,
    );
    let out = CaResult {
        cells,
        simulated_width,
        visible_width,
        height,
        padding_left: padding,
    };
    proof {
        let p = padding as int;
        let w = simulated_width as int;
        let sg = start_generation as int;
        assert forall|ri: int, c: int| 0 <= ri <= iterations && 0 <= c < visible_width
            implies #[trigger] grid_cell(out.cells@, out.simulated_width as nat, ri, out.padding_left + c)
                == world_cell(rule, init_chars(&initial_state), (sg + ri) as nat, horizontal_offset + c) by {
            assert(sg + ri <= p + c && p + c < w - (sg + ri));
            assert(wbase + (p + c) == horizontal_offset + c);
            assert(grid_cell(out.cells@, w as nat, ri, p + c)
                == world_cell(rule, init_chars(&initial_state), (sg + ri) as nat, wbase + (p + c)));
        }
    }
    out
}

/// The first tile column covering world coordinate `v` under tile size
/// `t`: floor division.
pub open spec fn tile_cover_lo(v: int, t: int) -> int {
    v / t
}

/// The last tile column covering the half-open range ending at `v_end`.
pub open spec fn tile_cover_hi(v_end: int, t: int) -> int {
    (v_end - 1) / t
}

/// What one cell of an assembled viewport buffer must hold: a world cell
/// in the visible region, 0 in the padding and in the trailing row.
pub open spec fn viewport_out_cell(
    rule: u8,
    init: Option<Seq<char>>,
    start: int,
    iterations: int,
    visible: int,
    offset: int,
    rr: int,
    cc: int,
) -> u32 {
    let padding = start + iterations;
    if 0 <= rr < iterations && padding <= cc < padding + visible {
        world_cell(rule, init, (start + rr) as nat, offset + (cc - padding))
    } else {
        0u32
    }
}

/// Stitch a row-major grid of valid tiles into one viewport buffer: each
/// visible cell is read out of the tile that covers it.
#[verifier::rlimit(50)]
fn assemble_from_tiles(
    rule: u8,
    initial_state: &Option<String>,
    tiles: &Vec<Tile>,
    start_generation: u32,
    iterations: u32,
    visible_width: u32,
    horizontal_offset: i32,
    tile_size: u32,
    txs: i64,
    tys: i64,
    nx: u64,
) -> (cells: Vec<u32>)
    requires
        1 <= visible_width,
        1 <= iterations,
        1 <= tile_size <= 1024,
        (horizontal_offset as int) + visible_width <= 0x8000_0000,
        visible_width + 2 * ((start_generation + iterations) as int) <= u32::MAX,
        ca_footprint(start_generation as int, iterations as int, visible_width as int)
            <= MAX_BUFFER_WORDS,
        txs == tile_cover_lo(horizontal_offset as int, tile_size as int),
        tys == tile_cover_lo(start_generation as int, tile_size as int),
        nx == tile_cover_hi(horizontal_offset + visible_width, tile_size as int) - txs + 1,
        tiles@.len() == nx
            * (tile_cover_hi((start_generation + iterations) as int, tile_size as int) - tys + 1),
        forall|m: int| 0 <= m < tiles@.len()
            ==> tile_matches_world(
                rule,
                init_chars(initial_state),
                tile_size,
                txs + (m % (nx as int)),
                tys + (m / (nx as int)),
                #[trigger] tiles@[m],
            ),
    ensures
        cells@.len() == ((iterations + 1) as int)
            * ((visible_width + 2 * (start_generation + iterations)) as int),
        forall|rr: int, cc: int|
            0 <= rr <= iterations && 0 <= cc < visible_width + 2 * (start_generation + iterations)
                ==> #[trigger] grid_cell(
                    cells@,
                    (visible_width + 2 * (start_generation + iterations)) as nat,
                    rr,
                    cc,
                ) == viewport_out_cell(
                    rule,
                    init_chars(initial_state),
                    start_generation as int,
                    iterations as int,
                    visible_width as int,
                    horizontal_offset as int,
                    rr,
                    cc,
                ),
{
    let ghost init = init_chars(initial_state);
    let t64: i64 = tile_size as i64;
    let vx0: i64 = horizontal_offset as i64;
    let vy0: i64 = start_generation as i64;
    let padding: u32 = start_generation + iterations;
    let w_out: u32 = visible_width + 2 * padding;
    let height: u32 = iterations + 1;
    let ghost txe = tile_cover_hi(horizontal_offset + visible_width, tile_size as int);
    let ghost tye = tile_cover_hi((start_generation + iterations) as int, tile_size as int);
    let ghost spec_cell = |rr: int, cc: int| viewport_out_cell(
        rule,
        init,
        start_generation as int,
        iterations as int,
        visible_width as int,
        horizontal_offset as int,
        rr,
        cc,
    );
    let n_tiles: usize = tiles.len();
    let mut cells: Vec<u32> = Vec::new();
    let mut ri: u32 = 0;
    while ri < height
        invariant
            0 <= ri <= height,
            height == iterations + 1,
            padding == start_generation + iterations,
            w_out == visible_width + 2 * padding,
            1 <= visible_width,
            1 <= iterations,
            1 <= tile_size <= 1024,
            t64 == tile_size,
            vx0 == horizontal_offset,
            vy0 == start_generation,
            (horizontal_offset as int) + visible_width <= 0x8000_0000,
            visible_width + 2 * ((start_generation + iterations) as int) <= u32::MAX,
            ca_footprint(start_generation as int, iterations as int, visible_width as int)
                <= MAX_BUFFER_WORDS,
            txs == tile_cover_lo(horizontal_offset as int, tile_size as int),
            tys == tile_cover_lo(start_generation as int, tile_size as int),
            txe == tile_cover_hi(horizontal_offset + visible_width, tile_size as int),
            tye == tile_cover_hi((start_generation + iterations) as int, tile_size as int),
            nx == txe - txs + 1,
            tiles@.len() == nx * (tye - tys + 1),
            n_tiles == tiles@.len(),
            forall|m: int| 0 <= m < tiles@.len()
                ==> tile_matches_world(
                    rule,
                    init,
                    tile_size,
                    txs + (m % (nx as int)),
                    tys + (m / (nx as int)),
                    #[trigger] tiles@[m],
                ),
            init == init_chars(initial_state),
            spec_cell == (|rr: int, cc: int| viewport_out_cell(
                rule,
                init,
                start_generation as int,
                iterations as int,
                visible_width as int,
                horizontal_offset as int,
                rr,
                cc,
            )),
            cells@.len() == ri * w_out,
            forall|rr: int, cc: int|
                0 <= rr < ri && 0 <= cc < w_out
                    ==> #[trigger] grid_cell(cells@, w_out as nat, rr, cc) == spec_cell(rr, cc),
        decreases height - ri,
    {
        let mut col: u32 = 0;
        while col < w_out
            invariant
                0 <= col <= w_out,
                0 <= ri < height,
                height == iterations + 1,
                padding == start_generation + iterations,
                w_out == visible_width + 2 * padding,
                1 <= visible_width,
                1 <= iterations,
                1 <= tile_size <= 1024,
                t64 == tile_size,
                vx0 == horizontal_offset,
                vy0 == start_generation,
                (horizontal_offset as int) + visible_width <= 0x8000_0000,
                visible_width + 2 * ((start_generation + iterations) as int) <= u32::MAX,
                ca_footprint(start_generation as int, iterations as int, visible_width as int)
                    <= MAX_BUFFER_WORDS,
                txs == tile_cover_lo(horizontal_offset as int, tile_size as int),
                tys == tile_cover_lo(start_generation as int, tile_size as int),
                txe == tile_cover_hi(horizontal_offset + visible_width, tile_size as int),
                tye == tile_cover_hi((start_generation + iterations) as int, tile_size as int),
                nx == txe - txs + 1,
                tiles@.len() == nx * (tye - tys + 1),
                n_tiles == tiles@.len(),
                forall|m: int| 0 <= m < tiles@.len()
                    ==> tile_matches_world(
                        rule,
                        init,
                        tile_size,
                        txs + (m % (nx as int)),
                        tys + (m / (nx as int)),
                        #[trigger] tiles@[m],
                    ),
                init == init_chars(initial_state),
                spec_cell == (|rr: int, cc: int| viewport_out_cell(
                    rule,
                    init,
                    start_generation as int,
                    iterations as int,
                    visible_width as int,
                    horizontal_offset as int,
                    rr,
                    cc,
                )),
                cells@.len() == ri * w_out + col,
                forall|rr: int, cc: int|
                    0 <= rr < ri && 0 <= cc < w_out
                        ==> #[trigger] grid_cell(cells@, w_out as nat, rr, cc) == spec_cell(rr, cc),
                forall|cc: int|
                    0 <= cc < col
                        ==> #[trigger] grid_cell(cells@, w_out as nat, ri as int, cc)
                            == spec_cell(ri as int, cc),
            decreases w_out - col,
        {
            let val: u32;
            if ri < iterations && col >= padding && col < padding + visible_width {
                let c: u32 = col - padding;
                let g: i64 = vy0 + ri as i64;
                let x: i64 = vx0 + c as i64;
                let a: i64 = floor_div(g, t64);
                let b: i64 = floor_div(x, t64);
                proof {
                    assert(t64 as int == tile_size as int);
                    assert(a == (g as int) / (tile_size as int) && b == (x as int) / (tile_size as int));
                    vstd::arithmetic::div_mod::lemma_div_is_ordered(vy0 as int, g as int, tile_size as int);
                    vstd::arithmetic::div_mod::lemma_div_is_ordered(g as int, vy0 + iterations - 1, tile_size as int);
                    vstd::arithmetic::div_mod::lemma_div_is_ordered(vx0 as int, x as int, tile_size as int);
                    vstd::arithmetic::div_mod::lemma_div_is_ordered(x as int, vx0 + visible_width - 1, tile_size as int);
                    lemma_floor_div_bounds(g as int, tile_size as int);
                    lemma_floor_div_bounds(x as int, tile_size as int);
                    vstd::arithmetic::div_mod::lemma_fundamental_div_mod(g as int, tile_size as int);
                    vstd::arithmetic::div_mod::lemma_mod_bound(g as int, tile_size as int);
                    vstd::arithmetic::div_mod::lemma_fundamental_div_mod(x as int, tile_size as int);
                    vstd::arithmetic::div_mod::lemma_mod_bound(x as int, tile_size as int);
                    assert(tys <= a <= tye && txs <= b <= txe);
                    assert(0 <= a <= g && -0x8000_0000 <= b <= 0x8000_0000);
                    lemma_floor_div_bounds(horizontal_offset as int, tile_size as int);
                    lemma_floor_div_bounds(start_generation as int, tile_size as int);
                    assert(-0x8000_0000 <= txs && 0 <= tys);
                    assert(a * (t64 as int) == (tile_size as int) * ((g as int) / (tile_size as int))
                        && b * (t64 as int) == (tile_size as int) * ((x as int) / (tile_size as int)))
                        by (nonlinear_arith)
                        requires
                            t64 as int == tile_size as int,
                            a == (g as int) / (tile_size as int),
                            b == (x as int) / (tile_size as int);
                    assert(0 <= a * (t64 as int) <= 0x1_0000_0000_0000
                        && -0x1_0000_0000_0000 <= b * (t64 as int) <= 0x1_0000_0000_0000)
                        by (nonlinear_arith)
                        requires 0 <= a <= 0x1_0000_0000, -0x8000_0000 <= b <= 0x8000_0000, 1 <= t64 <= 1024;
                }
                let gi: i64 = g - a * t64;
                let xi: i64 = x - b * t64;
                proof {
                    assert(gi == (g as int) % (tile_size as int) && xi == (x as int) % (tile_size as int));
                    assert(0 <= gi < t64 && 0 <= xi < t64);
                    assert((a - tys) * (nx as int) + (b - txs) < (tye - tys + 1) * (nx as int)
                        && 0 <= (a - tys) * (nx as int) + (b - txs)
                        && (tye - tys + 1) * (nx as int) == (nx as int) * (tye - tys + 1))
                        by (nonlinear_arith)
                        requires tys <= a <= tye, txs <= b <= txe, nx == txe - txs + 1, nx >= 1;
                    assert((a - tys) * (nx as int) + (b - txs) < tiles@.len());
                    assert((((a - tys) as u64) as int) * (nx as int) == (a - tys) * (nx as int))
                        by (nonlinear_arith)
                        requires ((a - tys) as u64) as int == a - tys;
                }
                let m: u64 = ((a - tys) as u64) * nx + ((b - txs) as u64);
                proof {
                    assert(m == (a - tys) * (nx as int) + (b - txs));
                    vstd::arithmetic::div_mod::lemma_fundamental_div_mod_converse(
                        m as int,
                        nx as int,
                        a - tys,
                        b - txs,
                    );
                    assert(txs + ((m as int) % (nx as int)) == b
                        && tys + ((m as int) / (nx as int)) == a);
                    assert(tile_matches_world(rule, init, tile_size, b as int, a as int, tiles@[m as int]));
                }
                let tile = &tiles[m as usize];
                let wt: u32 = tile.simulated_width;
                let pl: u32 = tile.padding_left;
                proof {
                    assert(pl == ((a as int) + 1) * (tile_size as int));
                    assert((tile_size as int) <= pl) by (nonlinear_arith)
                        requires pl == ((a as int) + 1) * (tile_size as int), a >= 0, tile_size >= 1;
                    assert(wt == (tile_size as int) + 2 * (pl as int));
                    assert(pl + xi < wt);
                    assert(tiles@[m as int].cells@.len() == (tile_size as int) * (wt as int));
                    assert((gi as int) * (wt as int) + ((pl as int) + (xi as int))
                        < (tile_size as int) * (wt as int)
                        && 0 <= (gi as int) * (wt as int))
                        by (nonlinear_arith)
                        requires
                            0 <= gi, (gi as int) < (tile_size as int),
                            0 <= (pl as int) + (xi as int), (pl as int) + (xi as int) < wt,
                            wt >= 1;
                    assert(((gi as u64) as int) * ((wt as u64) as int)
                        == (gi as int) * (wt as int))
                        by (nonlinear_arith)
                        requires (gi as u64) as int == gi as int, (wt as u64) as int == wt as int;
                    assert((gi as int) * (wt as int) <= 0x400_0000_0000) by (nonlinear_arith)
                        requires 0 <= gi <= 1024, 0 <= wt <= 0xFFFF_FFFF;
                }
                let cell_idx: u64 = (gi as u64) * (wt as u64) + (pl as u64) + (xi as u64);
                let tlen: usize = tile.cells.len();
                proof {
                    assert(cell_idx == (gi as int) * (wt as int) + (pl as int) + (xi as int));
                    assert(tlen == tiles@[m as int].cells@.len());
                    assert((cell_idx as int) < (tlen as int));
                }
                val = tile.cells[cell_idx as usize];
                proof {
                    assert((gi as int) * (((wt as nat)) as int) == (gi as int) * (wt as int))
                        by (nonlinear_arith)
                        requires ((wt as nat)) as int == wt as int;
                    assert(val == tiles@[m as int].cells@[(gi as int) * (wt as int) + (pl as int) + (xi as int)]);
                    assert(val == grid_cell(tiles@[m as int].cells@, wt as nat, gi as int, (pl as int) + (xi as int)));
                    assert(val == world_cell(rule, init, ((a as int) * (tile_size as int) + gi) as nat, (b as int) * (tile_size as int) + xi));
                    assert((a as int) * (tile_size as int) + gi == g
                        && (b as int) * (tile_size as int) + xi == x)
                        by (nonlinear_arith)
                        requires
                            gi == g - a * (t64 as int),
                            xi == x - b * (t64 as int),
                            t64 as int == tile_size as int;
                    assert(val == spec_cell(ri as int, col as int));
                }
            } else {
                val = 0;
                proof {
                    assert(spec_cell(ri as int, col as int) == 0);
                }
            }
            let ghost cells0 = cells@;
            cells.push(val);
            proof {
                assert forall|cc: int|
                    0 <= cc < col + 1
                        implies #[trigger] grid_cell(cells@, w_out as nat, ri as int, cc)
                            == spec_cell(ri as int, cc) by {
                    assert((ri as int) * (w_out as int) + cc <= (ri as int) * (w_out as int) + col);
                    if cc < col {
                        assert(grid_cell(cells@, w_out as nat, ri as int, cc)
                            == grid_cell(cells0, w_out as nat, ri as int, cc));
                    } else {
                        assert(cells@[(ri as int) * (w_out as int) + col] == val);
                    }
                }
                assert forall|rr: int, cc: int|
                    0 <= rr < ri && 0 <= cc < w_out
                        implies #[trigger] grid_cell(cells@, w_out as nat, rr, cc) == spec_cell(rr, cc) by {
                    assert(rr * w_out + cc < (ri as int) * (w_out as int))
                        by (nonlinear_arith)
                        requires 0 <= rr < ri, 0 <= cc < w_out;
                    assert(grid_cell(cells@, w_out as nat, rr, cc)
                        == grid_cell(cells0, w_out as nat, rr, cc));
                }
            }
            col = col + 1;
        }
        proof {
            assert(((ri + 1) as int) * (w_out as int) == (ri as int) * (w_out as int) + (w_out as int))
                by (nonlinear_arith);
            assert forall|rr: int, cc: int|
                0 <= rr < ri + 1 && 0 <= cc < w_out
                    implies #[trigger] grid_cell(cells@, w_out as nat, rr, cc) == spec_cell(rr, cc) by {
            }
        }
        ri = ri + 1;
    }
    proof {
        assert(cells@.len() == (height as int) * (w_out as int));
        assert forall|rr: int, cc: int|
            0 <= rr <= iterations && 0 <= cc < visible_width + 2 * (start_generation + iterations)
                implies #[trigger] grid_cell(cells@, w_out as nat, rr, cc)
                    == viewport_out_cell(
                    rule,
                    init,
                    start_generation as int,
                    iterations as int,
                    visible_width as int,
                    horizontal_offset as int,
                    rr,
                    cc,
                ) by {
            assert(grid_cell(cells@, w_out as nat, rr, cc) == spec_cell(rr, cc));
        }
    }
    cells
}

/// Entries whose keys all carry this rule and digest, name valid grid
/// positions, and whose tiles hold the world cells of those positions.
pub open spec fn entries_consistent(
    es: Seq<(TileKey, Tile)>,
    tile_size: u32,
    rule: u8,
    init: Option<Seq<char>>,
) -> bool {
    forall|i: int| 0 <= i < es.len() ==> {
        let e = #[trigger] es[i];
        &&& e.0.rule == rule
        &&& e.0.initial_state_hash == spec_initial_state_digest(init)
        &&& e.0.tile_y >= 0
        &&& tile_matches_world(rule, init, tile_size, e.0.tile_x as int, e.0.tile_y as int, e.1)
    }
}

/// A cache every entry of which was produced for this rule and initial
/// state.
pub open spec fn cache_consistent(c: &TileCache, rule: u8, init: Option<Seq<char>>) -> bool {
    entries_consistent(c.entries_view(), c.tile_size, rule, init)
}

/// Whether the cache holds a tile for every grid position of the cover.
pub open spec fn covering_keys_present(
    c: &TileCache,
    rule: u8,
    digest: u64,
    txs: int,
    txe: int,
    tys: int,
    tye: int,
) -> bool {
    forall|a: int, b: int|
        tys <= a <= tye && txs <= b <= txe
            ==> #[trigger] has_key(
                c.entries_view(),
                TileKey { rule, initial_state_hash: digest, tile_x: b as i32, tile_y: a as i32 },
            )
}

/// How many tiles one pass looks up: the tile grid covering the viewport.
pub open spec fn spec_pass_tiles(offset: int, visible: int, start: int, iterations: int, t: int) -> int {
    (tile_cover_hi(offset + visible, t) - tile_cover_lo(offset, t) + 1)
        * (tile_cover_hi(start + iterations, t) - tile_cover_lo(start, t) + 1)
}

/// A tile with the same contents matches the same world region.
proof fn lemma_tile_eq_matches(
    r: u8,
    init: Option<Seq<char>>,
    tile_size: u32,
    tx: int,
    ty: int,
    t1: Tile,
    t2: Tile,
)
    requires
        tile_eq(t1, t2),
        tile_matches_world(r, init, tile_size, tx, ty, t2),
    ensures
        tile_matches_world(r, init, tile_size, tx, ty, t1),
{
    assert forall|gi: int, xi: int| 0 <= gi < tile_size && 0 <= xi < tile_size
        implies #[trigger] grid_cell(t1.cells@, t1.simulated_width as nat, gi, t1.padding_left + xi)
            == world_cell(r, init, (ty * tile_size + gi) as nat, tx * tile_size + xi) by {
        assert(grid_cell(t1.cells@, t1.simulated_width as nat, gi, t1.padding_left + xi)
            == grid_cell(t2.cells@, t2.simulated_width as nat, gi, t2.padding_left + xi));
    }
}

/// A touch keeps the entries consistent: it only reorders them.
proof fn lemma_touch_consistent(
    es: Seq<(TileKey, Tile)>,
    k: TileKey,
    tile_size: u32,
    rule: u8,
    init: Option<Seq<char>>,
)
    requires
        entries_consistent(es, tile_size, rule, init),
    ensures
        entries_consistent(lru_touch(es, k), tile_size, rule, init),
{
    lemma_touch_entries(es, k);
    let out = lru_touch(es, k);
    assert forall|i: int| 0 <= i < out.len() implies {
        let e = #[trigger] out[i];
        &&& e.0.rule == rule
        &&& e.0.initial_state_hash == spec_initial_state_digest(init)
        &&& e.0.tile_y >= 0
        &&& tile_matches_world(rule, init, tile_size, e.0.tile_x as int, e.0.tile_y as int, e.1)
    } by {
        let j = choose|j: int| 0 <= j < es.len() && out[i] == #[trigger] es[j];
        assert(es[j] == out[i]);
    }
}

/// An insert of a consistent entry keeps the entries consistent.
proof fn lemma_insert_consistent(
    es: Seq<(TileKey, Tile)>,
    cap: int,
    k: TileKey,
    t: Tile,
    tile_size: u32,
    rule: u8,
    init: Option<Seq<char>>,
)
    requires
        cap >= 0,
        entries_consistent(es, tile_size, rule, init),
        k.rule == rule,
        k.initial_state_hash == spec_initial_state_digest(init),
        k.tile_y >= 0,
        tile_matches_world(rule, init, tile_size, k.tile_x as int, k.tile_y as int, t),
    ensures
        entries_consistent(lru_insert(es, cap, k, t), tile_size, rule, init),
{
    lemma_insert_entries(es, cap, k, t);
    let out = lru_insert(es, cap, k, t);
    assert forall|i: int| 0 <= i < out.len() implies {
        let e = #[trigger] out[i];
        &&& e.0.rule == rule
        &&& e.0.initial_state_hash == spec_initial_state_digest(init)
        &&& e.0.tile_y >= 0
        &&& tile_matches_world(rule, init, tile_size, e.0.tile_x as int, e.0.tile_y as int, e.1)
    } by {
        if out[i] != (k, t) {
            let j = choose|j: int| 0 <= j < es.len() && out[i] == #[trigger] es[j];
            assert(es[j] == out[i]);
        }
    }
}

/// Compute a viewport buffer through the tile cache: look up every
/// covering tile (one lookup each), produce and cache the missing ones,
/// and stitch the visible intersection of each tile into the output.
#[verifier::rlimit(100)]
pub fn run_ca_with_cache(
    rule: u8,
    start_generation: u32,
    iterations: u32,
    visible_width: u32,
    horizontal_offset: i32,
    initial_state: Option<String>,
    cache: &mut TileCache,
) -> (out: CaResult)
    requires
        old(cache).wf(),
        old(cache).tile_size <= 1024,
        cache_consistent(old(cache), rule, init_chars(&initial_state)),
        1 <= visible_width,
        1 <= iterations,
        (horizontal_offset as int) + visible_width <= 0x8000_0000,
        visible_width + 2 * ((start_generation + iterations) as int) <= u32::MAX,
        ca_footprint(start_generation as int, iterations as int, visible_width as int)
            <= MAX_BUFFER_WORDS,
        tile_footprint(
            tile_cover_hi((start_generation + iterations) as int, old(cache).tile_size as int),
            old(cache).tile_size as int,
        ) <= MAX_BUFFER_WORDS,
        old(cache).hits + spec_pass_tiles(
            horizontal_offset as int,
            visible_width as int,
            start_generation as int,
            iterations as int,
            old(cache).tile_size as int,
        ) <= u64::MAX,
        old(cache).misses + spec_pass_tiles(
            horizontal_offset as int,
            visible_width as int,
            start_generation as int,
            iterations as int,
            old(cache).tile_size as int,
        ) <= u64::MAX,
    ensures
        final(cache).wf(),
        final(cache).capacity() == old(cache).capacity(),
        final(cache).tile_size == old(cache).tile_size,
        cache_consistent(final(cache), rule, init_chars(&initial_state)),
        final(cache).hits >= old(cache).hits,
        final(cache).misses >= old(cache).misses,
        final(cache).hits + final(cache).misses == old(cache).hits + old(cache).misses
            + spec_pass_tiles(
            horizontal_offset as int,
            visible_width as int,
            start_generation as int,
            iterations as int,
            old(cache).tile_size as int,
        ),
        covering_keys_present(
            old(cache),
            rule,
            spec_initial_state_digest(init_chars(&initial_state)),
            tile_cover_lo(horizontal_offset as int, old(cache).tile_size as int),
            tile_cover_hi(horizontal_offset + visible_width, old(cache).tile_size as int),
            tile_cover_lo(start_generation as int, old(cache).tile_size as int),
            tile_cover_hi((start_generation + iterations) as int, old(cache).tile_size as int),
        ) ==> final(cache).misses == old(cache).misses,
        out.visible_width == visible_width,
        out.padding_left == start_generation + iterations,
        out.simulated_width == visible_width + 2 * (out.padding_left as int),
        out.height == iterations + 1,
        out.cells@.len() == out.height * out.simulated_width,
        forall|ri: int, c: int|
            0 <= ri < iterations && 0 <= c < visible_width
                ==> #[trigger] grid_cell(out.cells@, out.simulated_width as nat, ri, out.padding_left + c)
                    == world_cell(
                    rule,
                    init_chars(&initial_state),
                    (start_generation + ri) as nat,
                    horizontal_offset + c,
                ),
        forall|ri: int, cc: int|
            0 <= ri <= iterations && 0 <= cc < out.simulated_width
                && !(ri < iterations && out.padding_left <= cc < out.padding_left + visible_width)
                ==> #[trigger] grid_cell(out.cells@, out.simulated_width as nat, ri, cc) == 0,
{
    let ghost init = init_chars(&initial_state);
    let ghost digest = spec_initial_state_digest(init);
    let t32: u32 = cache.tile_size;
    let t64: i64 = t32 as i64;
    let vx0: i64 = horizontal_offset as i64;
    let vx1: i64 = vx0 + visible_width as i64;
    let vy0: i64 = start_generation as i64;
    let vy1: i64 = vy0 + iterations as i64;
    let txs: i64 = floor_div(vx0, t64);
    let txe: i64 = floor_div(vx1 - 1, t64);
    let tys: i64 = floor_div(vy0, t64);
    let tye: i64 = floor_div(vy1 - 1, t64);
    proof {
        vstd::arithmetic::div_mod::lemma_div_is_ordered(vx0 as int, vx1 - 1, t32 as int);
        vstd::arithmetic::div_mod::lemma_div_is_ordered(vy0 as int, vy1 - 1, t32 as int);
        lemma_floor_div_bounds(vx0 as int, t32 as int);
        lemma_floor_div_bounds(vx1 - 1, t32 as int);
        lemma_floor_div_bounds(vy0 as int, t32 as int);
        lemma_floor_div_bounds(vy1 - 1, t32 as int);
        assert(txs <= txe && tys <= tye && 0 <= tys);
        assert(-0x8000_0000 <= txs && txe <= 0x7FFF_FFFF && tye <= 0x7FFF_FFFF);
    }
    let nx: u64 = (txe - txs + 1) as u64;
    let ny: u64 = (tye - tys + 1) as u64;
    let ghost pass_tiles = spec_pass_tiles(
        horizontal_offset as int,
        visible_width as int,
        start_generation as int,
        iterations as int,
        t32 as int,
    );
    proof {
        assert((nx as int) * (ny as int) == pass_tiles) by (nonlinear_arith)
            requires
                nx as int == tile_cover_hi(horizontal_offset + visible_width, t32 as int)
                    - tile_cover_lo(horizontal_offset as int, t32 as int) + 1,
                ny as int == tile_cover_hi((start_generation + iterations) as int, t32 as int)
                    - tile_cover_lo(start_generation as int, t32 as int) + 1,
                pass_tiles == (tile_cover_hi(horizontal_offset + visible_width, t32 as int)
                    - tile_cover_lo(horizontal_offset as int, t32 as int) + 1)
                    * (tile_cover_hi((start_generation + iterations) as int, t32 as int)
                        - tile_cover_lo(start_generation as int, t32 as int) + 1);
    }
    let total: u64 = nx * ny;
    let mut tiles_a: Vec<Option<Tile>> = Vec::new();
    let mut idx: u64 = 0;
    while idx < total
        invariant
            t32 == old(cache).tile_size,
            1 <= t32 <= 1024,
            t64 == t32,
            vx0 == horizontal_offset,
            vx1 == vx0 + visible_width,
            vy0 == start_generation,
            vy1 == vy0 + iterations,
            1 <= visible_width,
            1 <= iterations,
            (horizontal_offset as int) + visible_width <= 0x8000_0000,
            visible_width + 2 * ((start_generation + iterations) as int) <= u32::MAX,
            txs == tile_cover_lo(horizontal_offset as int, t32 as int),
            txe == tile_cover_hi(horizontal_offset + visible_width, t32 as int),
            tys == tile_cover_lo(start_generation as int, t32 as int),
            tye == tile_cover_hi((start_generation + iterations) as int, t32 as int),
            txs <= txe && tys <= tye && 0 <= tys,
            -0x8000_0000 <= txs && txe <= 0x7FFF_FFFF && tye <= 0x7FFF_FFFF,
            nx == txe - txs + 1,
            ny == tye - tys + 1,
            total == nx * ny,
            total == pass_tiles,
            pass_tiles == spec_pass_tiles(
                horizontal_offset as int,
                visible_width as int,
                start_generation as int,
                iterations as int,
                t32 as int,
            ),
            old(cache).hits + total <= u64::MAX,
            old(cache).misses + total <= u64::MAX,
            cache.wf(),
            cache.tile_size == old(cache).tile_size,
            cache.capacity() == old(cache).capacity(),
            entries_consistent(cache.entries_view(), t32, rule, init),
            forall|k2: TileKey| #[trigger] has_key(cache.entries_view(), k2)
                <==> has_key(old(cache).entries_view(), k2),
            cache.hits >= old(cache).hits,
            cache.misses >= old(cache).misses,
            cache.hits + cache.misses == old(cache).hits + old(cache).misses + idx,
            covering_keys_present(old(cache), rule, digest, txs as int, txe as int, tys as int, tye as int)
                ==> cache.misses == old(cache).misses,
            idx <= total,
            tiles_a@.len() == idx,
            forall|m: int| 0 <= m < idx
                ==> (#[trigger] tiles_a@[m] matches Option::Some(t)
                    ==> tile_matches_world(
                        rule,
                        init,
                        t32,
                        txs + (m % (nx as int)),
                        tys + (m / (nx as int)),
                        t,
                    )),
            init == init_chars(&initial_state),
            digest == spec_initial_state_digest(init),
        decreases total - idx,
    {
        proof {
            vstd::arithmetic::div_mod::lemma_fundamental_div_mod(idx as int, nx as int);
            vstd::arithmetic::div_mod::lemma_mod_bound(idx as int, nx as int);
            assert((idx as int) / (nx as int) < ny as int) by (nonlinear_arith)
                requires
                    idx as int == (nx as int) * ((idx as int) / (nx as int)) + ((idx as int) % (nx as int)),
                    0 <= (idx as int) % (nx as int) < nx as int,
                    (idx as int) < (nx as int) * (ny as int),
                    nx >= 1,
                    ny >= 1;
        }
        let a_: i64 = tys + (idx / nx) as i64;
        let b_: i64 = txs + (idx % nx) as i64;
        let key = TileKey::new(rule, &initial_state, b_ as i32, a_ as i32);
        let ghost es_pre = cache.entries_view();
        let got = cache.get(&key);
        proof {
            lemma_has_key(es_pre, key);
            lemma_find_key(es_pre, key);
            if crate::cache::find_key(es_pre, key) >= 0 {
                let f = crate::cache::find_key(es_pre, key);
                assert(es_pre[f].0 == key);
                assert(tile_matches_world(rule, init, t32, key.tile_x as int, key.tile_y as int, es_pre[f].1));
                assert(key.tile_x as int == b_ && key.tile_y as int == a_);
                lemma_tile_eq_matches(rule, init, t32, b_ as int, a_ as int, got->Some_0, es_pre[f].1);
                lemma_touch_consistent(es_pre, key, t32, rule, init);
                lemma_touch_preserves_keys(es_pre, key);
            } else {
                if covering_keys_present(old(cache), rule, digest, txs as int, txe as int, tys as int, tye as int) {
                    let kk = TileKey {
                        rule,
                        initial_state_hash: digest,
                        tile_x: b_ as i32,
                        tile_y: a_ as i32,
                    };
                    assert(tys <= a_ <= tye && txs <= b_ <= txe);
                    assert(has_key(old(cache).entries_view(), kk));
                    assert(kk == key);
                    assert(has_key(es_pre, key));
                    assert(false);
                }
            }
        }
        tiles_a.push(got);
        proof {
            assert forall|m: int| 0 <= m < idx + 1
                implies (#[trigger] tiles_a@[m] matches Option::Some(t)
                    ==> tile_matches_world(
                        rule,
                        init,
                        t32,
                        txs + (m % (nx as int)),
                        tys + (m / (nx as int)),
                        t,
                    )) by {
                if m == idx {
                    assert(txs + ((idx as int) % (nx as int)) == b_
                        && tys + ((idx as int) / (nx as int)) == a_);
                }
            }
        }
        idx = idx + 1;
    }
    let ghost hits_a = cache.hits;
    let ghost misses_a = cache.misses;
    let n_slots: usize = tiles_a.len();
    let mut tiles_b: Vec<Tile> = Vec::new();
    let mut j: u64 = 0;
    while j < total
        invariant
            t32 == old(cache).tile_size,
            1 <= t32 <= 1024,
            t64 == t32,
            vx0 == horizontal_offset,
            vx1 == vx0 + visible_width,
            vy0 == start_generation,
            vy1 == vy0 + iterations,
            1 <= visible_width,
            1 <= iterations,
            (horizontal_offset as int) + visible_width <= 0x8000_0000,
            visible_width + 2 * ((start_generation + iterations) as int) <= u32::MAX,
            txs == tile_cover_lo(horizontal_offset as int, t32 as int),
            txe == tile_cover_hi(horizontal_offset + visible_width, t32 as int),
            tys == tile_cover_lo(start_generation as int, t32 as int),
            tye == tile_cover_hi((start_generation + iterations) as int, t32 as int),
            txs <= txe && tys <= tye && 0 <= tys,
            -0x8000_0000 <= txs && txe <= 0x7FFF_FFFF && tye <= 0x7FFF_FFFF,
            nx == txe - txs + 1,
            ny == tye - tys + 1,
            total == nx * ny,
            tile_footprint(tye as int, t32 as int) <= MAX_BUFFER_WORDS,
            cache.wf(),
            cache.tile_size == old(cache).tile_size,
            cache.capacity() == old(cache).capacity(),
            entries_consistent(cache.entries_view(), t32, rule, init),
            cache.hits == hits_a,
            cache.misses == misses_a,
            n_slots == tiles_a@.len(),
            tiles_a@.len() == total,
            forall|m: int| 0 <= m < total
                ==> (#[trigger] tiles_a@[m] matches Option::Some(t)
                    ==> tile_matches_world(
                        rule,
                        init,
                        t32,
                        txs + (m % (nx as int)),
                        tys + (m / (nx as int)),
                        t,
                    )),
            j <= total,
            tiles_b@.len() == j,
            forall|m: int| 0 <= m < j
                ==> tile_matches_world(
                    rule,
                    init,
                    t32,
                    txs + (m % (nx as int)),
                    tys + (m / (nx as int)),
                    #[trigger] tiles_b@[m],
                ),
            init == init_chars(&initial_state),
            digest == spec_initial_state_digest(init),
        decreases total - j,
    {
        proof {
            vstd::arithmetic::div_mod::lemma_fundamental_div_mod(j as int, nx as int);
            vstd::arithmetic::div_mod::lemma_mod_bound(j as int, nx as int);
            assert((j as int) / (nx as int) < ny as int) by (nonlinear_arith)
                requires
                    j as int == (nx as int) * ((j as int) / (nx as int)) + ((j as int) % (nx as int)),
                    0 <= (j as int) % (nx as int) < nx as int,
                    (j as int) < (nx as int) * (ny as int),
                    nx >= 1,
                    ny >= 1;
        }
        let a_: i64 = tys + (j / nx) as i64;
        let b_: i64 = txs + (j % nx) as i64;
        proof {
            assert(txs + ((j as int) % (nx as int)) == b_
                && tys + ((j as int) / (nx as int)) == a_);
        }
        let produced: Tile;
        match &tiles_a[j as usize] {
            Option::Some(t) => {
                let copy = tile_copy(t);
                proof {
                    lemma_tile_eq_matches(rule, init, t32, b_ as int, a_ as int, copy, tiles_a@[j as int]->Some_0);
                }
                produced = copy;
            },
            Option::None => {
                proof {
                    assert(tile_footprint(a_ as int, t32 as int) <= tile_footprint(tye as int, t32 as int))
                        by (nonlinear_arith)
                        requires
                            0 <= a_ <= tye,
                            1 <= t32,
                            tile_footprint(a_ as int, t32 as int)
                                == ((t32 as int) + 2 * (((a_ as int) + 1) * (t32 as int))) * (t32 as int),
                            tile_footprint(tye as int, t32 as int)
                                == ((t32 as int) + 2 * (((tye as int) + 1) * (t32 as int))) * (t32 as int);
                }
                let t_new = compute_tile(rule, b_ as i32, a_ as i32, t32, &initial_state);
                let key = TileKey::new(rule, &initial_state, b_ as i32, a_ as i32);
                let t_for_cache = tile_copy(&t_new);
                let ghost es_pre = cache.entries_view();
                proof {
                    lemma_tile_eq_matches(rule, init, t32, b_ as int, a_ as int, t_for_cache, t_new);
                    assert(key.tile_x as int == b_ && key.tile_y as int == a_);
                }
                cache.insert(key, t_for_cache);
                proof {
                    lemma_insert_consistent(
                        es_pre,
                        old(cache).capacity(),
                        key,
                        t_for_cache,
                        t32,
                        rule,
                        init,
                    );
                }
                produced = t_new;
            },
        }
        tiles_b.push(produced);
        proof {
            assert forall|m: int| 0 <= m < j + 1
                implies tile_matches_world(
                    rule,
                    init,
                    t32,
                    txs + (m % (nx as int)),
                    tys + (m / (nx as int)),
                    #[trigger] tiles_b@[m],
                ) by {
                if m < j {
                    assert(tiles_b@[m] == tiles_b@.drop_last()[m]);
                }
            }
        }
        j = j + 1;
    }
    let cells = assemble_from_tiles(
        rule,
        &initial_state,
        &tiles_b,
        start_generation,
        iterations,
        visible_width,
        horizontal_offset,
        t32,
        txs,
        tys,
        nx,
    );
    let padding: u32 = start_generation + iterations;
    let simulated_width: u32 = visible_width + 2 * padding;
    let height: u32 = iterations + 1;
    let out = CaResult {
        cells,
        simulated_width,
        visible_width,
        height,
        padding_left: padding,
    };
    proof {
        assert(simulated_width as nat == (visible_width + 2 * (start_generation + iterations)) as nat);
        assert forall|ri: int, c: int| 0 <= ri < iterations && 0 <= c < visible_width
            implies #[trigger] grid_cell(out.cells@, out.simulated_width as nat, ri, out.padding_left + c)
                == world_cell(rule, init, (start_generation + ri) as nat, horizontal_offset + c) by {
            assert(grid_cell(
                out.cells@,
                (visible_width + 2 * (start_generation + iterations)) as nat,
                ri,
                padding + c,
            ) == viewport_out_cell(
                rule,
                init,
                start_generation as int,
                iterations as int,
                visible_width as int,
                horizontal_offset as int,
                ri,
                padding + c,
            ));
        }
        assert forall|ri: int, cc: int|
            0 <= ri <= iterations && 0 <= cc < out.simulated_width
                && !(ri < iterations && out.padding_left <= cc < out.padding_left + visible_width)
                implies #[trigger] grid_cell(out.cells@, out.simulated_width as nat, ri, cc) == 0 by {
            assert(grid_cell(
                out.cells@,
                (visible_width + 2 * (start_generation + iterations)) as nat,
                ri,
                cc,
            ) == viewport_out_cell(
                rule,
                init,
                start_generation as int,
                iterations as int,
                visible_width as int,
                horizontal_offset as int,
                ri,
                cc,
            ));
        }
    }
    out
}

/// Why a planned recomputation was still skipped: a machine limit that
/// the planner's own checks do not cover.
pub open spec fn spec_viewport_limits_ok(p: Plan, tile_size: u32, max_tiles: usize, hits: u64, misses: u64) -> bool {
    &&& p.visible_cells_x >= 1
    &&& p.visible_cells_y >= 1
    &&& -0x8000_0000 <= p.x_start
    &&& p.x_start + p.visible_cells_x <= 0x8000_0000
    &&& p.y_start + p.visible_cells_y <= 0xFFFF_FFFF
    &&& p.visible_cells_x + 2 * (p.y_start + p.visible_cells_y) <= 0xFFFF_FFFF
    &&& ca_footprint(p.y_start as int, p.visible_cells_y as int, p.visible_cells_x as int)
        <= MAX_BUFFER_WORDS
    &&& (max_tiles > 0 ==> {
        &&& tile_footprint(
            tile_cover_hi(p.y_start + p.visible_cells_y, tile_size as int),
            tile_size as int,
        ) <= MAX_BUFFER_WORDS
        &&& hits + spec_pass_tiles(
            p.x_start as int,
            p.visible_cells_x as int,
            p.y_start as int,
            p.visible_cells_y as int,
            tile_size as int,
        ) <= u64::MAX
        &&& misses + spec_pass_tiles(
            p.x_start as int,
            p.visible_cells_x as int,
            p.y_start as int,
            p.visible_cells_y as int,
            tile_size as int,
        ) <= u64::MAX
    })
}

/// One recomputation pass: plan the viewport, enforce the safety limits
/// and the memory budget, and compute the buffer, through the cache when
/// caching is enabled.
pub fn compute_viewport(
    rule: u8,
    initial_state: Option<String>,
    vp: &Viewport,
    window_width: u32,
    window_height: u32,
    cache: &mut TileCache,
) -> (out: Option<CaResult>)
    requires
        vp.wf(),
        old(cache).wf(),
        old(cache).tile_size <= 1024,
        cache_consistent(old(cache), rule, init_chars(&initial_state)),
    ensures
        final(cache).wf(),
        final(cache).tile_size == old(cache).tile_size,
        final(cache).capacity() == old(cache).capacity(),
        cache_consistent(final(cache), rule, init_chars(&initial_state)),
        out is Some <==> (spec_plan(*vp, window_width, window_height) matches Result::Ok(p)
            && spec_viewport_limits_ok(
            p,
            old(cache).tile_size,
            old(cache).max_tiles,
            old(cache).hits,
            old(cache).misses,
        )),
        out is None ==> *final(cache) == *old(cache),
        out matches Option::Some(r) ==> (spec_plan(*vp, window_width, window_height)
            matches Result::Ok(p) && {
            &&& r.visible_width == p.visible_cells_x
            &&& r.padding_left == p.y_start + p.visible_cells_y
            &&& r.simulated_width == r.visible_width + 2 * (r.padding_left as int)
            &&& r.height == p.visible_cells_y + 1
            &&& r.cells@.len() == r.height * r.simulated_width
            &&& forall|ri: int, c: int|
                0 <= ri < p.visible_cells_y && 0 <= c < p.visible_cells_x
                    ==> #[trigger] grid_cell(r.cells@, r.simulated_width as nat, ri, r.padding_left + c)
                        == world_cell(
                        rule,
                        init_chars(&initial_state),
                        (p.y_start + ri) as nat,
                        p.x_start + c,
                    )
        }),
{
    let plan = match plan_viewport(vp, window_width, window_height) {
        Result::Ok(p) => p,
        Result::Err(_) => {
            return Option::None;
        },
    };
    let vis: u32 = plan.visible_cells_x;
    let its: u32 = plan.visible_cells_y;
    if vis < 1 || its < 1 {
        return Option::None;
    }
    if plan.x_start < -0x8000_0000i64 || plan.x_start + (vis as i64) > 0x8000_0000i64 {
        return Option::None;
    }
    if plan.y_start + (its as i64) > 0xFFFF_FFFFi64 {
        return Option::None;
    }
    let start: u32 = plan.y_start as u32;
    if (vis as u64) + 2 * ((start as u64) + (its as u64)) > 0xFFFF_FFFF {
        return Option::None;
    }
    proof {
        assert(((its as int) + 1) * ((vis as int) + 2 * ((start as int) + (its as int)))
            <= 0xFFFF_FFFF_0000_0000)
            by (nonlinear_arith)
            requires
                its <= 0xFFFF_FFFFu32,
                0 <= (vis as int) + 2 * ((start as int) + (its as int)),
                (vis as int) + 2 * ((start as int) + (its as int)) <= 0xFFFF_FFFF;
    }
    let fp: u64 = ((its as u64) + 1) * ((vis as u64) + 2 * ((start as u64) + (its as u64)));
    if fp > MAX_BUFFER_WORDS {
        return Option::None;
    }
    let offset: i32 = plan.x_start as i32;
    if cache.max_tiles == 0 {
        let r = run_ca(rule, start, its, vis, offset, initial_state);
        Option::Some(r)
    } else {
        let t64: i64 = cache.tile_size as i64;
        let vy1: i64 = plan.y_start + (its as i64);
        let vx1: i64 = plan.x_start + (vis as i64);
        let txs: i64 = floor_div(plan.x_start, t64);
        let txe: i64 = floor_div(vx1 - 1, t64);
        let tys: i64 = floor_div(plan.y_start, t64);
        let tye: i64 = floor_div(vy1 - 1, t64);
        proof {
            vstd::arithmetic::div_mod::lemma_div_is_ordered(plan.x_start as int, vx1 - 1, cache.tile_size as int);
            vstd::arithmetic::div_mod::lemma_div_is_ordered(plan.y_start as int, vy1 - 1, cache.tile_size as int);
            lemma_floor_div_bounds(plan.x_start as int, cache.tile_size as int);
            lemma_floor_div_bounds(vx1 - 1, cache.tile_size as int);
            lemma_floor_div_bounds(plan.y_start as int, cache.tile_size as int);
            lemma_floor_div_bounds(vy1 - 1, cache.tile_size as int);
            assert(txs <= txe && tys <= tye && 0 <= tys);
        }
        proof {
            assert(((tye as int) + 1) * (cache.tile_size as int) <= 0x10_0000_0000_0000)
                by (nonlinear_arith)
                requires 0 <= tye <= 0xFFFF_FFFF, 1 <= cache.tile_size <= 1024;
        }
        let pad_t: u64 = ((tye as u64) + 1) * (cache.tile_size as u64);
        proof {
            assert(pad_t == tile_padding(tye as int, cache.tile_size as int));
        }
        let wide_t: u64 = (cache.tile_size as u64) + 2 * pad_t;
        proof {
            assert((wide_t as int) * (cache.tile_size as int) <= 0x1_0000_0000_0000_0000)
                by (nonlinear_arith)
                requires wide_t <= 0x40_0000_0000_0000, cache.tile_size <= 1024;
        }
        let fp_t: u128 = (wide_t as u128) * (cache.tile_size as u128);
        if fp_t > MAX_BUFFER_WORDS as u128 {
            proof {
                assert(fp_t == tile_footprint(tye as int, cache.tile_size as int));
            }
            return Option::None;
        }
        let nxs: u64 = (txe - txs + 1) as u64;
        let nys: u64 = (tye - tys + 1) as u64;
        proof {
            assert((nxs as int) * (nys as int) <= 0x4_0000_0000_0000_0000)
                by (nonlinear_arith)
                requires nxs <= 0x2_0000_0000u64, nys <= 0x2_0000_0000u64;
            assert((nxs as int) * (nys as int) == spec_pass_tiles(
                plan.x_start as int,
                vis as int,
                start as int,
                its as int,
                cache.tile_size as int,
            )) by (nonlinear_arith)
                requires
                    nxs as int == tile_cover_hi(plan.x_start + vis, cache.tile_size as int)
                        - tile_cover_lo(plan.x_start as int, cache.tile_size as int) + 1,
                    nys as int == tile_cover_hi((start + its) as int, cache.tile_size as int)
                        - tile_cover_lo(start as int, cache.tile_size as int) + 1,
                    spec_pass_tiles(
                        plan.x_start as int,
                        vis as int,
                        start as int,
                        its as int,
                        cache.tile_size as int,
                    ) == (tile_cover_hi(plan.x_start + vis, cache.tile_size as int)
                        - tile_cover_lo(plan.x_start as int, cache.tile_size as int) + 1)
                        * (tile_cover_hi((start + its) as int, cache.tile_size as int)
                            - tile_cover_lo(start as int, cache.tile_size as int) + 1);
        }
        let nt: u128 = (nxs as u128) * (nys as u128);
        if (cache.hits as u128) + nt > u64::MAX as u128 {
            return Option::None;
        }
        if (cache.misses as u128) + nt > u64::MAX as u128 {
            return Option::None;
        }
        let r = run_ca_with_cache(rule, start, its, vis, offset, initial_state, cache);
        Option::Some(r)
    }
}


/// A viewport buffer that holds the world's cells in its visible range.
pub open spec fn result_matches_world(
    r: CaResult,
    rule: u8,
    init: Option<Seq<char>>,
    start_generation: int,
    iterations: int,
    visible_width: int,
    horizontal_offset: int,
) -> bool {
    forall|ri: int, c: int|
        0 <= ri < iterations && 0 <= c < visible_width
            ==> #[trigger] grid_cell(r.cells@, r.simulated_width as nat, ri, r.padding_left + c)
                == world_cell(rule, init, (start_generation + ri) as nat, horizontal_offset + c)
}

/// Tile assembly matches the monolithic run: any two viewport buffers
/// computed for the same rule, initial state, and viewport rectangle hold
/// the same cells over the whole visible range, however each was
/// produced — one large simulation or stitched tiles.
pub proof fn lemma_assembly_matches_monolithic(
    rule: u8,
    init: Option<Seq<char>>,
    start_generation: int,
    iterations: int,
    visible_width: int,
    horizontal_offset: int,
    mono: CaResult,
    tiled: CaResult,
)
    requires
        result_matches_world(mono, rule, init, start_generation, iterations, visible_width, horizontal_offset),
        result_matches_world(tiled, rule, init, start_generation, iterations, visible_width, horizontal_offset),
    ensures
        forall|ri: int, c: int|
            0 <= ri < iterations && 0 <= c < visible_width
                ==> #[trigger] grid_cell(mono.cells@, mono.simulated_width as nat, ri, mono.padding_left + c)
                    == grid_cell(tiled.cells@, tiled.simulated_width as nat, ri, tiled.padding_left + c),
{
}

} // verus!
