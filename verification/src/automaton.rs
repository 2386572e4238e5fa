//! The mathematical world of an automaton run, and its finite simulation.
//!
//! The world is the half-infinite grid of cells indexed by a world column
//! `x` (an integer) and a generation `g` (a natural). Generation 0 is given
//! by the initial state: by default a single live cell at column 0, or an
//! explicit binary string placed from column 0 to the right. Every later
//! generation is derived cell by cell with the rule evaluator.
//!
//! Finite buffers simulate a window of that world with out-of-range
//! neighbors read as 0. The light-cone lemma below says how far in from the
//! buffer edges the simulation agrees with the world: one column is lost on
//! each side per generation.
use vstd::prelude::*;

use crate::rule::{is_bit, next, spec_next};

verus! {

/// The character sequences of an optional explicit initial state.
pub open spec fn init_chars(init: &Option<String>) -> Option<Seq<char>> {
    match *init {
        Option::None => Option::<Seq<char>>::None,
        Option::Some(ref s) => Option::Some(s@),
    }
}

/// The world cell at generation 0 and column `x`.
pub open spec fn init_cell(init: Option<Seq<char>>, x: int) -> u32 {
    match init {
        Option::None => if x == 0 { 1u32 } else { 0u32 },
        Option::Some(s) => if 0 <= x < s.len() && s[x] == '1' { 1u32 } else { 0u32 },
    }
}

/// The world cell at generation `g` and column `x` under rule `r`.
pub open spec fn world_cell(r: u8, init: Option<Seq<char>>, g: nat, x: int) -> u32
    decreases g,
{
    if g == 0 {
        init_cell(init, x)
    } else {
        spec_next(
            r,
            world_cell(r, init, (g - 1) as nat, x - 1),
            world_cell(r, init, (g - 1) as nat, x),
            world_cell(r, init, (g - 1) as nat, x + 1),
        )
    }
}

/// A row read with out-of-range columns as 0.
pub open spec fn row_at(s: Seq<u32>, i: int) -> u32 {
    if 0 <= i < s.len() {
        s[i]
    } else {
        0u32
    }
}

/// One generation step of a finite row, out-of-range neighbors read as 0.
pub open spec fn spec_step_row(r: u8, s: Seq<u32>) -> Seq<u32> {
    Seq::new(s.len(), |i: int| spec_next(r, row_at(s, i - 1), row_at(s, i), row_at(s, i + 1)))
}

/// Advance a finite row buffer by one generation.
pub fn step_row(r: u8, row: &Vec<u32>) -> (out: Vec<u32>)
    ensures
        out@ == spec_step_row(r, row@),
        out@.len() == row@.len(),
        forall|i: int| 0 <= i < out@.len() ==> is_bit(#[trigger] out@[i]),
{
    let width = row.len();
    let mut out: Vec<u32> = Vec::new();
    for i in 0..width
        invariant
            width == row@.len(),
            out@.len() == i,
            forall|k: int| 0 <= k < i ==> out@[k] == spec_step_row(r, row@)[k],
            forall|k: int| 0 <= k < i ==> is_bit(#[trigger] out@[k]),
    {
        let l: u32 = if i == 0 { 0 } else { row[i - 1] };
        let c: u32 = row[i];
        let rt: u32 = if i + 1 < width { row[i + 1] } else { 0 };
        out.push(next(r, l, c, rt));
    }
    proof {
        assert(out@ =~= spec_step_row(r, row@));
    }
    out
}

/// Stepping a row that agrees with the world on a window keeps the
/// agreement on the window shrunk by one column at each side: the light
/// cone of any cell inside the shrunk window lies inside the old window.
pub proof fn lemma_step_window(r: u8, init: Option<Seq<char>>, g: nat, wbase: int, s: Seq<u32>, k: int)
    requires
        0 <= k,
        forall|j: int| k <= j < s.len() - k ==> #[trigger] s[j] == world_cell(r, init, g, wbase + j),
    ensures
        forall|j: int| k + 1 <= j < s.len() - (k + 1)
            ==> #[trigger] spec_step_row(r, s)[j] == world_cell(r, init, (g + 1) as nat, wbase + j),
{
    assert forall|j: int| k + 1 <= j < s.len() - (k + 1)
        implies #[trigger] spec_step_row(r, s)[j] == world_cell(r, init, (g + 1) as nat, wbase + j) by {
        assert(s[j - 1] == world_cell(r, init, g, wbase + j - 1));
        assert(s[j] == world_cell(r, init, g, wbase + j));
        assert(s[j + 1] == world_cell(r, init, g, wbase + j + 1));
        assert(row_at(s, j - 1) == s[j - 1] && row_at(s, j) == s[j] && row_at(s, j + 1) == s[j + 1]);
    }
}

/// A cell of a row-major grid buffer.
pub open spec fn grid_cell(s: Seq<u32>, width: nat, row: int, col: int) -> u32 {
    s[row * width + col]
}

/// Build the generation-0 row of a buffer whose column `j` holds world
/// column `wbase + j`.
pub fn initial_row(init: &Option<String>, wbase: i64, width: usize) -> (out: Vec<u32>)
    requires
        -0x2000_0000_0000_0000 <= wbase,
        wbase + width <= 0x2000_0000_0000_0000,
    ensures
        out@.len() == width,
        forall|j: int| 0 <= j < width
            ==> #[trigger] out@[j] == init_cell(init_chars(init), wbase + j),
        forall|j: int| 0 <= j < width ==> is_bit(#[trigger] out@[j]),
{
    let mut out: Vec<u32> = Vec::new();
    match init {
        Option::None => {
            for j in 0..width
                invariant
                    out@.len() == j,
                    -0x2000_0000_0000_0000 <= wbase,
                    wbase + width <= 0x2000_0000_0000_0000,
                    forall|k: int| 0 <= k < j
                        ==> #[trigger] out@[k] == init_cell(init_chars(init), wbase + k),
                    forall|k: int| 0 <= k < j ==> is_bit(#[trigger] out@[k]),
                    init_chars(init) is None,
            {
                let x: i64 = wbase + j as i64;
                out.push(if x == 0 { 1 } else { 0 });
            }
        },
        Option::Some(s) => {
            let len_chars: usize = s.as_str().unicode_len();
            for j in 0..width
                invariant
                    out@.len() == j,
                    -0x2000_0000_0000_0000 <= wbase,
                    wbase + width <= 0x2000_0000_0000_0000,
                    forall|k: int| 0 <= k < j
                        ==> #[trigger] out@[k] == init_cell(init_chars(init), wbase + k),
                    forall|k: int| 0 <= k < j ==> is_bit(#[trigger] out@[k]),
                    init_chars(init) == Option::Some(s@),
                    len_chars == s@.len(),
            {
                let x: i64 = wbase + j as i64;
                let cell: u32 = if x >= 0 && (x as u64) < (len_chars as u64) {
                    let c = s.as_str().get_char(x as usize);
                    if c == '1' {
                        1
                    } else {
                        0
                    }
                } else {
                    0
                };
                out.push(cell);
            }
        },
    }
    out
}

/// Append a whole row to a flat row-major buffer.
fn append_row(out: &mut Vec<u32>, row: &Vec<u32>)
    requires
        old(out)@.len() + row@.len() <= usize::MAX,
    ensures
        final(out)@ == old(out)@ + row@,
{
    let mut k: usize = 0;
    while k < row.len()
        invariant
            k <= row@.len(),
            old(out)@.len() + row@.len() <= usize::MAX,
            out@ == old(out)@ + row@.take(k as int),
        decreases row@.len() - k,
    {
        out.push(row[k]);
        proof {
            assert(out@ =~= old(out)@ + row@.take(k + 1));
        }
        k = k + 1;
    }
    proof {
        assert(row@.take(row@.len() as int) =~= row@);
    }
}

/// Simulate the world from generation 0 on a buffer of `width` columns
/// whose column `j` holds world column `wbase + j`, and collect the rows of
/// generations `first_row .. first_row + num_rows` into one row-major
/// buffer. Each collected row agrees with the world on the columns whose
/// light cone stays inside the buffer: those at least `g` columns from
/// either edge at generation `g`.
pub fn simulate_span(r: u8, init: &Option<String>, wbase: i64, width: usize, first_row: u32, num_rows: u32) -> (out: Vec<u32>)
    requires
        -0x2000_0000_0000_0000 <= wbase,
        wbase + width <= 0x2000_0000_0000_0000,
        1 <= num_rows,
        first_row + num_rows <= u32::MAX,
        num_rows * width <= usize::MAX,
    ensures
        out@.len() == num_rows * width,
        forall|ri: int, j: int|
            0 <= ri < num_rows && first_row + ri <= j && j < width - (first_row + ri)
                ==> #[trigger] grid_cell(out@, width as nat, ri, j)
                    == world_cell(r, init_chars(init), (first_row + ri) as nat, wbase + j),
        forall|k: int| 0 <= k < out@.len() ==> is_bit(#[trigger] out@[k]),
{
    let mut row = initial_row(init, wbase, width);
    let mut g: u32 = 0;
    while g < first_row
        invariant
            g <= first_row,
            first_row + num_rows <= u32::MAX,
            row@.len() == width,
            forall|j: int| g <= j < width - g
                ==> #[trigger] row@[j] == world_cell(r, init_chars(init), g as nat, wbase + j),
            forall|j: int| 0 <= j < width ==> is_bit(#[trigger] row@[j]),
        decreases first_row - g,
    {
        let stepped = step_row(r, &row);
        proof {
            lemma_step_window(r, init_chars(init), g as nat, wbase as int, row@, g as int);
        }
        row = stepped;
        g = g + 1;
    }
    let mut out: Vec<u32> = Vec::new();
    let mut ri: u32 = 0;
    while ri < num_rows
        invariant
            ri <= num_rows,
            1 <= num_rows,
            first_row + num_rows <= u32::MAX,
            num_rows * width <= usize::MAX,
            g == first_row + ri,
            row@.len() == width,
            out@.len() == ri * width,
            forall|j: int| g <= j < width - g
                ==> #[trigger] row@[j] == world_cell(r, init_chars(init), g as nat, wbase + j),
            forall|j: int| 0 <= j < width ==> is_bit(#[trigger] row@[j]),
            forall|rj: int, j: int|
                0 <= rj < ri && first_row + rj <= j && j < width - (first_row + rj)
                    ==> #[trigger] grid_cell(out@, width as nat, rj, j)
                        == world_cell(r, init_chars(init), (first_row + rj) as nat, wbase + j),
            forall|k: int| 0 <= k < out@.len() ==> is_bit(#[trigger] out@[k]),
        decreases num_rows - ri,
    {
        proof {
            assert((ri + 1) * width <= num_rows * width && ri * width + width == (ri + 1) * width)
                by (nonlinear_arith)
                requires ri < num_rows, 0 <= ri, 0 <= width;
        }
        let ghost out0 = out@;
        append_row(&mut out, &row);
        proof {
            assert forall|rj: int, j: int|
                0 <= rj < ri + 1 && first_row + rj <= j && j < width - (first_row + rj)
                    implies #[trigger] grid_cell(out@, width as nat, rj, j)
                        == world_cell(r, init_chars(init), (first_row + rj) as nat, wbase + j) by {
                assert(0 <= rj * width + j && rj * width + j < (ri + 1) * width
                    && (rj < ri ==> rj * width + j < ri * width))
                    by (nonlinear_arith)
                    requires 0 <= rj <= ri, 0 <= j < width;
                assert(out@.len() == (ri + 1) * width);
                if rj < ri {
                    assert(out@[rj * width + j] == out0[rj * width + j]);
                    assert(grid_cell(out0, width as nat, rj, j)
                        == world_cell(r, init_chars(init), (first_row + rj) as nat, wbase + j));
                } else {
                    assert(rj * width + j == ri * width + j);
                    assert(out@[ri * width + j] == row@[j]);
                }
            }
        }
        let stepped = step_row(r, &row);
        proof {
            lemma_step_window(r, init_chars(init), g as nat, wbase as int, row@, g as int);
        }
        row = stepped;
        g = g + 1;
        ri = ri + 1;
    }
    out
}

} // verus!
