use caelib::compute::run_ca;

/// A plain reference evaluator: the world row at generation `g` over the
/// columns `[x0, x0 + width)`, stepped cell by cell from generation 0.
fn reference_rows(rule: u8, init: &Option<String>, x0: i64, width: usize, generations: u32) -> Vec<Vec<u32>> {
    // Simulate with a margin of one cell per generation on each side.
    let margin = generations as i64;
    let lo = x0 - margin;
    let total = width + 2 * margin as usize;
    let mut row: Vec<u32> = (0..total)
        .map(|j| {
            let x = lo + j as i64;
            match init {
                None => {
                    if x == 0 {
                        1
                    } else {
                        0
                    }
                }
                Some(s) => {
                    if x >= 0 && (x as usize) < s.len() && s.as_bytes()[x as usize] == b'1' {
                        1
                    } else {
                        0
                    }
                }
            }
        })
        .collect();
    let mut out = Vec::new();
    for _g in 0..=generations {
        out.push(row[margin as usize..].iter().take(width).cloned().collect());
        let mut next_row = vec![0u32; total];
        for j in 0..total {
            let l = if j == 0 { 0 } else { row[j - 1] };
            let c = row[j];
            let r = if j + 1 < total { row[j + 1] } else { 0 };
            next_row[j] = ((rule as u32) >> (l * 4 + c * 2 + r)) & 1;
        }
        row = next_row;
    }
    out
}

fn visible_cell(r: &caelib::compute::CaResult, row: u32, col: u32) -> u32 {
    r.cells[(row * r.simulated_width + r.padding_left + col) as usize]
}

/// Rule 30 from a single cell: the window of 256 cells and 6 generations
/// at offset (-128, 0) shows the canonical rule 30 triangle.
#[test]
fn scenario_rule_30_window() {
    let result = run_ca(30, 0, 5, 256, -128, None);
    assert_eq!(result.visible_width, 256);
    assert_eq!(result.height, 6);

    // Row 0 has exactly one live cell, at world column 0.
    for c in 0..256u32 {
        let world_x = -128i64 + c as i64;
        let expect = if world_x == 0 { 1 } else { 0 };
        assert_eq!(visible_cell(&result, 0, c), expect);
    }

    // Hand-checked first rows of rule 30 around the origin.
    let canonical: [&[u32]; 4] = [
        &[1],
        &[1, 1, 1],
        &[1, 1, 0, 0, 1],
        &[1, 1, 0, 1, 1, 1, 1],
    ];
    for (g, pattern) in canonical.iter().enumerate() {
        let half = (pattern.len() / 2) as i64;
        for (i, &bit) in pattern.iter().enumerate() {
            let world_x = i as i64 - half;
            let col = (world_x + 128) as u32;
            assert_eq!(visible_cell(&result, g as u32, col), bit, "generation {} x {}", g, world_x);
        }
        // Symmetric-width rows: everything outside the triangle is 0.
        let gi = g as i64;
        for c in 0..256u32 {
            let world_x = -128i64 + c as i64;
            if world_x < -gi || world_x > gi {
                assert_eq!(visible_cell(&result, g as u32, c), 0);
            }
        }
    }

    // Full agreement with the reference evaluator.
    let reference = reference_rows(30, &None, -128, 256, 5);
    for g in 0..6u32 {
        for c in 0..256u32 {
            assert_eq!(visible_cell(&result, g, c), reference[g as usize][c as usize]);
        }
    }
}

/// Rule 90 builds the Sierpinski triangle: at generation g the row has a
/// 1 exactly where (x + g) is even and the binomial coefficient
/// C(g, (x + g) / 2) is odd.
#[test]
fn scenario_rule_90_sierpinski() {
    let result = run_ca(90, 0, 32, 129, -64, None);
    for g in 0..32u32 {
        for c in 0..129u32 {
            let x = -64i64 + c as i64;
            let expect = if (x + g as i64) % 2 == 0 && x.abs() <= g as i64 {
                let k = ((x + g as i64) / 2) as u64;
                let n = g as u64;
                // C(n, k) is odd exactly when k's bits are a subset of n's.
                if k & !n == 0 {
                    1
                } else {
                    0
                }
            } else {
                0
            };
            assert_eq!(visible_cell(&result, g, c), expect, "generation {} x {}", g, x);
        }
    }
}

/// Rule 0 maps every neighborhood to 0: every generation beyond 0 is all
/// zeros, whatever the initial state.
#[test]
fn scenario_rule_0_all_zeros() {
    for init in [None, Some("1".to_string()), Some("1011011".to_string())] {
        let result = run_ca(0, 0, 8, 64, -32, init);
        for g in 1..=8u32 {
            for c in 0..64u32 {
                assert_eq!(visible_cell(&result, g, c), 0);
            }
        }
    }
}

/// Explicit initial state "101": generation 0 holds it at columns 0..3,
/// and generation 1 under rule 30 follows from the rule with all other
/// cells 0.
#[test]
fn scenario_explicit_initial_state() {
    let result = run_ca(30, 0, 16, 8, -4, Some("101".to_string()));
    let cell = |g: u32, x: i64| visible_cell(&result, g, (x + 4) as u32);
    assert_eq!(cell(0, 0), 1);
    assert_eq!(cell(0, 1), 0);
    assert_eq!(cell(0, 2), 1);
    for x in [-4, -3, -2, -1, 3] {
        assert_eq!(cell(0, x), 0);
    }
    // Generation 1, rule 30, neighbors outside the string are 0:
    // x = -1: (0,0,1) -> 1; x = 0: (0,1,0) -> 1; x = 1: (1,0,1) -> 0;
    // x = 2: (0,1,0) -> 1; x = 3: (1,0,0) -> 1; elsewhere 0.
    assert_eq!(cell(1, -1), 1);
    assert_eq!(cell(1, 0), 1);
    assert_eq!(cell(1, 1), 0);
    assert_eq!(cell(1, 2), 1);
    assert_eq!(cell(1, 3), 1);
    assert_eq!(cell(1, -2), 0);
    assert_eq!(cell(1, 4), 0);
}

/// A window starting at a later generation agrees with the same window
/// computed from generation 0.
#[test]
fn scrolled_window_matches_reference() {
    let result = run_ca(110, 7, 6, 40, -20, None);
    let reference = reference_rows(110, &None, -20, 40, 13);
    for g in 0..=6u32 {
        for c in 0..40u32 {
            assert_eq!(
                visible_cell(&result, g, c),
                reference[(g + 7) as usize][c as usize],
                "row {} col {}",
                g,
                c
            );
        }
    }
}
