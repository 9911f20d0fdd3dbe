//! The coordinate mapper: scales a fixed design-space table rectangle
//! (origin (18, 1), size 42 by 21, authored against an 80 by 24 terminal) to
//! the actual terminal size and maps physical points to board cells and
//! back.
//!
//! Every quantity the game reads from the scaled layout is the ceiling of an
//! exact rational (a scaled origin, extent or per-cell block size), so the
//! layout is held as those integer ceilings and computed exactly.

use vstd::prelude::*;
use vstd::arithmetic::div_mod::lemma_fundamental_div_mod_converse;

verus! {

/// The largest terminal width or height the library accepts; keeps every
/// layout product inside machine arithmetic.
pub const MAX_DIM: usize = 100000;

/// The ceiling of `a / b` for non-negative `a` and positive `b`.
pub open spec fn ceil_div(a: int, b: int) -> int {
    (a + b - 1) / b
}

/// The scaled table rectangle and per-cell block size for a board of
/// dimension `n` on a `w` by `h` terminal. Each field is the ceiling of the
/// exact scaled value:
///   - the table origin (18, 1) and extent (42, 21) scaled by (w/80, h/24),
///   - the block size (42*(w/80)/n, (21*(h/24) - 5/2)/n), the 5/2 reserving
///     vertical margin for borders and HUD.
#[derive(Clone, Copy)]
pub struct LayoutInfo {
    pub n: usize,
    pub table_x: usize,
    pub table_y: usize,
    pub table_w: usize,
    pub table_h: usize,
    pub block_w: usize,
    pub block_h: usize,
}

/// The layout value that `compute_layout` owes for a given board dimension
/// and terminal size, with every rational scaled quantity taken at its
/// ceiling: 18*w/80 = 9*w/40, h/24, 42*w/80 = 21*w/40, 21*h/24 = 7*h/8,
/// 42*w/80/n = 21*w/(40*n), and (21*h/24 - 5/2)/n = (21*h - 60)/(24*n).
pub open spec fn layout_spec(n: int, w: int, h: int) -> LayoutInfo {
    LayoutInfo {
        n: n as usize,
        table_x: ceil_div(9 * w, 40) as usize,
        table_y: ceil_div(h, 24) as usize,
        table_w: ceil_div(21 * w, 40) as usize,
        table_h: ceil_div(7 * h, 8) as usize,
        block_w: ceil_div(21 * w, 40 * n) as usize,
        block_h: ceil_div(21 * h - 60, 24 * n) as usize,
    }
}

impl LayoutInfo {
    /// A layout the mapping functions can work with: positive block sizes
    /// (so inverse mapping divides by a positive number) and fields small
    /// enough that the forward mapping stays inside machine arithmetic.
    pub open spec fn wf(self) -> bool {
        &&& 1 <= self.n <= crate::board::MAX_N
        &&& 1 <= self.block_w <= 21 * MAX_DIM
        &&& 1 <= self.block_h <= 21 * MAX_DIM
        &&& self.table_x <= 21 * MAX_DIM
        &&& self.table_y <= 21 * MAX_DIM
        &&& self.table_w <= 21 * MAX_DIM
        &&& self.table_h <= 21 * MAX_DIM
    }

    /// The row a physical x maps back to: truncated division of the offset
    /// from the table origin by the block width.
    pub open spec fn point_row(self, x: int) -> int {
        (x - self.table_x) / (self.block_w as int)
    }

    /// The column a physical y maps back to.
    pub open spec fn point_col(self, y: int) -> int {
        (y - self.table_y) / (self.block_h as int)
    }

    /// The physical x of the outline rectangle of the cell in row `row`.
    pub open spec fn cell_x(self, row: int) -> int {
        self.block_w * row + self.table_x
    }

    /// The physical y of the outline rectangle of the cell in column `col`.
    pub open spec fn cell_y(self, col: int) -> int {
        self.block_h * col + self.table_y
    }

    /// True iff the physical point `(x, y)` lies inside the table's bounding
    /// rectangle, origin excluded, far edges included.
    pub open spec fn in_table(self, x: int, y: int) -> bool {
        &&& self.table_x < x <= self.table_x + self.table_w
        &&& self.table_y < y <= self.table_y + self.table_h
    }
}

/// The exact ceiling of `a / b`.
fn ceil_div_exec(a: usize, b: usize) -> (r: usize)
    requires
        1 <= b,
        a + b <= usize::MAX,
    ensures
        r == ceil_div(a as int, b as int),
{
    (a + b - 1) / b
}

/// Compute the scaled layout for a board of dimension `n` on a `w` by `h`
/// terminal. The terminal must be at least 1 wide and 3 tall: on anything
/// shorter the scaled block height is not positive and no cell can be
/// addressed.
pub fn compute_layout(n: usize, w: usize, h: usize) -> (l: LayoutInfo)
    requires
        1 <= n <= crate::board::MAX_N,
        1 <= w <= MAX_DIM,
        3 <= h <= MAX_DIM,
    ensures
        l == layout_spec(n as int, w as int, h as int),
        l.wf(),
        l.n == n,
{
    let table_x = ceil_div_exec(9 * w, 40);
    let table_y = ceil_div_exec(h, 24);
    let table_w = ceil_div_exec(21 * w, 40);
    let table_h = ceil_div_exec(7 * h, 8);
    let block_w = ceil_div_exec(21 * w, 40 * n);
    let block_h = ceil_div_exec(21 * h - 60, 24 * n);
    let l = LayoutInfo { n, table_x, table_y, table_w, table_h, block_w, block_h };
    proof {
        lemma_ceil_div_bounds(9 * w as int, 40);
        lemma_ceil_div_bounds(h as int, 24);
        lemma_ceil_div_bounds(21 * w as int, 40);
        lemma_ceil_div_bounds(7 * h as int, 8);
        lemma_ceil_div_bounds(21 * w as int, 40 * n as int);
        lemma_ceil_div_bounds(21 * h as int - 60, 24 * n as int);
    }
    l
}

/// For non-negative `a` and positive `b`, the ceiling of `a / b` is
/// non-negative, at most `a`, and positive as soon as `a` is.
proof fn lemma_ceil_div_bounds(a: int, b: int)
    requires
        0 <= a,
        1 <= b,
    ensures
        0 <= ceil_div(a, b) <= a,
        1 <= a ==> 1 <= ceil_div(a, b),
{
    let q = ceil_div(a, b);
    let r = (a + b - 1) % b;
    vstd::arithmetic::div_mod::lemma_fundamental_div_mod(a + b - 1, b);
    vstd::arithmetic::div_mod::lemma_mod_bound(a + b - 1, b);
    assert(0 <= q && q <= a && (1 <= a ==> 1 <= q)) by (nonlinear_arith)
        requires
            0 <= a,
            1 <= b,
            a + b - 1 == b * q + r,
            0 <= r < b,
    ;
}

/// Map a physical point to the board cell it falls in, by truncated
/// division of its offset from the table origin. The caller checks, with
/// `in_table` and against the board dimension, whether the result is a real
/// cell; this function only requires the point to lie past the table origin
/// so that the offsets are non-negative.
pub fn point_to_cell(l: &LayoutInfo, x: usize, y: usize) -> (rc: (usize, usize))
    requires
        l.wf(),
        l.table_x < x,
        l.table_y < y,
    ensures
        rc.0 == l.point_row(x as int),
        rc.1 == l.point_col(y as int),
{
    let row = (x - l.table_x) / l.block_w;
    let col = (y - l.table_y) / l.block_h;
    (row, col)
}

/// Map a cell to the physical outline rectangle it is drawn in: origin at
/// the block-size multiple of the cell's indices past the table origin,
/// extent one unit short of a block so that neighbouring outlines stay
/// apart.
pub fn cell_to_rect(l: &LayoutInfo, row: usize, col: usize) -> (rect: (usize, usize, usize, usize))
    requires
        l.wf(),
        row < l.n,
        col < l.n,
    ensures
        rect.0 == l.cell_x(row as int),
        rect.1 == l.cell_y(col as int),
        rect.2 == l.block_w - 1,
        rect.3 == l.block_h - 1,
{
    proof {
        vstd::arithmetic::mul::lemma_mul_inequality(
            row as int,
            crate::board::MAX_N as int,
            l.block_w as int,
        );
        vstd::arithmetic::mul::lemma_mul_inequality(
            col as int,
            crate::board::MAX_N as int,
            l.block_h as int,
        );
        assert(l.block_w * row == row * l.block_w) by (nonlinear_arith);
        assert(l.block_h * col == col * l.block_h) by (nonlinear_arith);
    }
    let x = l.block_w * row + l.table_x;
    let y = l.block_h * col + l.table_y;
    (x, y, l.block_w - 1, l.block_h - 1)
}

/// Mapping a cell to its rectangle and the point one unit inside that
/// rectangle's top-left corner back through the inverse map yields the same
/// cell, whenever a block is at least 2 units in each direction (with
/// 1-unit blocks the rectangle is degenerate and the point one unit in
/// already belongs to the next cell).
pub proof fn lemma_point_cell_round_trip(l: LayoutInfo, row: int, col: int)
    requires
        l.wf(),
        0 <= row < l.n,
        0 <= col < l.n,
        2 <= l.block_w,
        2 <= l.block_h,
    ensures
        l.point_row(l.cell_x(row) + 1) == row,
        l.point_col(l.cell_y(col) + 1) == col,
{
    let bw = l.block_w as int;
    let bh = l.block_h as int;
    assert(bw * row == row * bw) by (nonlinear_arith);
    assert(bh * col == col * bh) by (nonlinear_arith);
    assert(l.cell_x(row) + 1 - l.table_x == bw * row + 1);
    lemma_fundamental_div_mod_converse(bw * row + 1, bw, row, 1);
    assert(l.cell_y(col) + 1 - l.table_y == bh * col + 1);
    lemma_fundamental_div_mod_converse(bh * col + 1, bh, col, 1);
}

} // verus!
