//! The character-grid layout engine: given the window size, it places
//! the selectable characters in a centered, row-wrapped grid. It is a
//! pure function of the window size and the number of characters, and
//! is recomputed from scratch on every resize.
//!
//! All coordinates are in integer dots. The window's scale factor is
//! the ratio of its smaller side to the logical window size, so the
//! scaled font size is derived directly from the smaller side.

use vstd::prelude::*;

use vstd::arithmetic::div_mod::{
    lemma_fundamental_div_mod, lemma_fundamental_div_mod_converse, lemma_div_is_ordered,
    lemma_div_is_ordered_by_denominator, lemma_div_pos_is_pos, lemma_mod_bound,
};

verus! {

/// Logical size of the window, in dots: the size at which the scale
/// factor is one.
pub const WINDOW_DOTS: u64 = 1000;

/// Base font size at logical scale.
pub const FONT_SIZE: u64 = 52;

/// One on-screen position, in dots from the window's top-left corner.
#[derive(Debug, Clone, Copy, PartialEq, Eq, Structural)]
pub struct GridPosition {
    pub x: u64,
    pub y: u64,
}

/// The smaller of two values.
pub open spec fn spec_min(a: int, b: int) -> int {
    if a <= b {
        a
    } else {
        b
    }
}

/// The font size scaled to the window: the base font size times the
/// window's scale factor, which is its smaller side over the logical
/// window size.
pub open spec fn scaled_font_size(w: int, h: int) -> int {
    (FONT_SIZE as int) * spec_min(w, h) / (WINDOW_DOTS as int)
}

/// Vertical distance between grid rows: twice the scaled font size.
pub open spec fn row_spacing(w: int, h: int) -> int {
    2 * scaled_font_size(w, h)
}

/// Horizontal distance between grid columns: 1.3 times the scaled font
/// size.
pub open spec fn col_spacing(w: int, h: int) -> int {
    scaled_font_size(w, h) * 13 / 10
}

/// The width the grid may use: eight tenths of the window, leaving side
/// margins.
pub open spec fn max_row_width(w: int) -> int {
    w * 8 / 10
}

/// How many characters fit in one grid row, at least one: the usable
/// width divided by the column spacing, clamped so that a too-narrow
/// window still lays the characters out one per row.
pub open spec fn chars_per_row(w: int, h: int) -> int {
    let cs = col_spacing(w, h);
    if cs == 0 {
        1
    } else {
        let q = max_row_width(w) / cs;
        if q == 0 {
            1
        } else {
            q
        }
    }
}

/// The grid row the character with this index falls in.
pub open spec fn row_of(w: int, h: int, i: int) -> int {
    i / chars_per_row(w, h)
}

/// The column, within its row, of the character with this index.
pub open spec fn col_of(w: int, h: int, i: int) -> int {
    i % chars_per_row(w, h)
}

/// How many characters this row actually holds: a full row, or the
/// remainder in the last row.
pub open spec fn cols_in_row(w: int, h: int, n: int, row: int) -> int {
    spec_min(chars_per_row(w, h), n - row * chars_per_row(w, h))
}

/// A character's horizontal position: its column offset, plus half the
/// width a short row leaves free so that the row is centered, plus the
/// left margin of one tenth of the window.
pub open spec fn pos_x(w: int, h: int, n: int, i: int) -> int {
    let cs = col_spacing(w, h);
    let cpr = chars_per_row(w, h);
    let cols = cols_in_row(w, h, n, row_of(w, h, i));
    col_of(w, h, i) * cs + (cpr - cols) * cs / 2 + w / 10
}

/// A character's vertical position: a fixed offset below the window's
/// center, plus its row's offset.
pub open spec fn pos_y(w: int, h: int, i: int) -> int {
    h * 5 / 8 + row_of(w, h, i) * row_spacing(w, h)
}

/// Bounds on the derived layout quantities for a window that fits in
/// 32-bit coordinates.
proof fn lemma_layout_param_bounds(w: int, h: int)
    requires
        0 <= w < 0x1_0000_0000,
        0 <= h < 0x1_0000_0000,
    ensures
        0 <= scaled_font_size(w, h) < 0x1000_0000,
        0 <= row_spacing(w, h) < 0x2000_0000,
        0 <= col_spacing(w, h) < 0x2000_0000,
        0 <= max_row_width(w) <= w,
        1 <= chars_per_row(w, h),
        chars_per_row(w, h) * col_spacing(w, h) <= max_row_width(w) || chars_per_row(w, h) == 1,
{
    let m = spec_min(w, h);
    let sf = scaled_font_size(w, h);
    let cs = col_spacing(w, h);
    let wmax = max_row_width(w);
    lemma_fundamental_div_mod(52 * m, 1000);
    lemma_mod_bound(52 * m, 1000);
    lemma_fundamental_div_mod(sf * 13, 10);
    lemma_mod_bound(sf * 13, 10);
    lemma_fundamental_div_mod(w * 8, 10);
    lemma_mod_bound(w * 8, 10);
    assert(sf >= 0) by {
        lemma_div_pos_is_pos(52 * m, 1000);
    }
    assert(cs >= 0) by {
        lemma_div_pos_is_pos(sf * 13, 10);
    }
    assert(wmax >= 0) by {
        lemma_div_pos_is_pos(w * 8, 10);
    }
    assert(wmax <= w) by {
        lemma_div_is_ordered(w * 8, w * 10, 10);
        vstd::arithmetic::div_mod::lemma_div_by_multiple(w, 10);
    }
    if cs != 0 {
        let q = wmax / cs;
        assert(q >= 0) by {
            lemma_div_pos_is_pos(wmax, cs);
        }
        if q != 0 {
            lemma_fundamental_div_mod(wmax, cs);
            lemma_mod_bound(wmax, cs);
            assert(cs * q <= wmax);
            assert(chars_per_row(w, h) == q);
            assert(chars_per_row(w, h) * cs <= wmax) by (nonlinear_arith)
                requires
                    cs * q <= wmax,
                    chars_per_row(w, h) == q,
            ;
        }
    }
}

/// Everything needed to place the character with index `i`: the cell it
/// falls in, and that the resulting coordinates stay small.
proof fn lemma_cell_bounds(w: int, h: int, n: int, i: int)
    requires
        0 <= w < 0x1_0000_0000,
        0 <= h < 0x1_0000_0000,
        0 <= i < n,
        n < 0x1_0000_0000,
    ensures
        0 <= row_of(w, h, i) <= i,
        0 <= col_of(w, h, i) < chars_per_row(w, h),
        row_of(w, h, i) * chars_per_row(w, h) <= i,
        1 <= cols_in_row(w, h, n, row_of(w, h, i)) <= chars_per_row(w, h),
        col_of(w, h, i) < cols_in_row(w, h, n, row_of(w, h, i)),
        0 <= col_of(w, h, i) * col_spacing(w, h) <= max_row_width(w),
        0 <= (chars_per_row(w, h) - cols_in_row(w, h, n, row_of(w, h, i))) * col_spacing(w, h)
            <= max_row_width(w),
        w / 10 <= pos_x(w, h, n, i) <= 2 * max_row_width(w) + w,
        0 <= row_of(w, h, i) * row_spacing(w, h) < 0x2000_0000_0000_0000,
        0 <= pos_y(w, h, i) < 0x4000_0000_0000_0000,
{
    lemma_layout_param_bounds(w, h);
    let cpr = chars_per_row(w, h);
    let cs = col_spacing(w, h);
    let row = row_of(w, h, i);
    let col = col_of(w, h, i);
    lemma_fundamental_div_mod(i, cpr);
    lemma_mod_bound(i, cpr);
    assert(row >= 0) by {
        lemma_div_pos_is_pos(i, cpr);
    }
    assert(row * cpr <= i);
    assert(row <= i) by (nonlinear_arith)
        requires
            row >= 0,
            cpr >= 1,
            row * cpr <= i,
    ;
    let rem = n - row * cpr;
    assert(col < rem);
    let cols = cols_in_row(w, h, n, row);
    assert(1 <= cols <= cpr);
    assert(col < cols);
    if cpr == 1 {
        assert(col == 0);
        assert(cols == 1);
        assert(col * cs == 0) by (nonlinear_arith)
            requires
                col == 0,
        ;
        assert((cpr - cols) * cs == 0) by (nonlinear_arith)
            requires
                cpr == 1 && cols == 1,
        ;
    } else {
        assert(cpr * cs <= max_row_width(w));
        assert(col * cs <= (cpr - 1) * cs) by (nonlinear_arith)
            requires
                col <= cpr - 1,
                cs >= 0,
        ;
        assert((cpr - 1) * cs == cpr * cs - cs) by (nonlinear_arith);
        assert((cpr - cols) * cs <= cpr * cs) by (nonlinear_arith)
            requires
                0 <= cpr - cols <= cpr,
                cs >= 0,
        ;
        assert(col * cs >= 0) by (nonlinear_arith)
            requires
                col >= 0,
                cs >= 0,
        ;
        assert((cpr - cols) * cs >= 0) by (nonlinear_arith)
            requires
                cpr - cols >= 0,
                cs >= 0,
        ;
    }
    let half = (cpr - cols) * cs / 2;
    assert(0 <= half <= (cpr - cols) * cs) by {
        lemma_div_pos_is_pos((cpr - cols) * cs, 2);
        lemma_fundamental_div_mod((cpr - cols) * cs, 2);
        lemma_mod_bound((cpr - cols) * cs, 2);
    }
    assert(w / 10 >= 0) by {
        lemma_div_pos_is_pos(w, 10);
    }
    assert(w / 10 <= w) by {
        lemma_div_is_ordered(w, w * 10, 10);
        vstd::arithmetic::div_mod::lemma_div_by_multiple(w, 10);
    }
    let rs = row_spacing(w, h);
    assert(row * rs >= 0) by (nonlinear_arith)
        requires
            row >= 0,
            rs >= 0,
    ;
    assert(row * rs < 0x1_0000_0000 * 0x2000_0000) by (nonlinear_arith)
        requires
            0 <= row < 0x1_0000_0000,
            0 <= rs < 0x2000_0000,
    ;
    assert(h * 5 / 8 >= 0) by {
        lemma_div_pos_is_pos(h * 5, 8);
    }
    assert(h * 5 / 8 <= h * 5) by {
        vstd::arithmetic::div_mod::lemma_div_nonincreasing(h * 5, 8);
    }
}

/// Common bounds of a window large enough to give every grid quantity
/// a positive size: at least 20 dots on each side, so that the scaled
/// font size is at least one.
proof fn lemma_spacing_positive(w: int, h: int)
    requires
        20 <= w < 0x1_0000_0000,
        20 <= h < 0x1_0000_0000,
    ensures
        1 <= scaled_font_size(w, h),
        1 <= col_spacing(w, h),
        2 <= row_spacing(w, h),
        7 <= chars_per_row(w, h),
{
    lemma_layout_param_bounds(w, h);
    let m = spec_min(w, h);
    let sf = scaled_font_size(w, h);
    let cs = col_spacing(w, h);
    let wmax = max_row_width(w);
    assert(sf >= 1) by {
        lemma_div_is_ordered(1040, 52 * m, 1000);
        assert(1040int / 1000 == 1);
    }
    assert(cs >= 1) by {
        lemma_div_is_ordered(13, sf * 13, 10);
        assert(13int / 10 == 1);
        assert(sf * 13 >= 13) by (nonlinear_arith)
            requires
                sf >= 1,
        ;
    }
    // seven columns always fit in the usable width
    assert(10 * cs <= 13 * sf) by {
        lemma_fundamental_div_mod(sf * 13, 10);
        lemma_mod_bound(sf * 13, 10);
    }
    assert(1000 * sf <= 52 * m) by {
        lemma_fundamental_div_mod(52 * m, 1000);
        lemma_mod_bound(52 * m, 1000);
    }
    assert(10 * wmax >= 8 * w - 9) by {
        lemma_fundamental_div_mod(w * 8, 10);
        lemma_mod_bound(w * 8, 10);
    }
    assert(7 * cs <= wmax);
    let q = wmax / cs;
    assert(q >= 7) by {
        lemma_div_is_ordered(7 * cs, wmax, cs);
        vstd::arithmetic::div_mod::lemma_div_by_multiple(7, cs);
    }
    assert(chars_per_row(w, h) == q);
}

/// Every computed position lies inside the window: horizontally between
/// the margin at a tenth of the width and nine tenths of it, vertically
/// between the grid's fixed offset and the bottom edge.
pub proof fn lemma_positions_in_bounds(w: int, h: int, n: int, i: int)
    requires
        20 <= w < 0x1_0000_0000,
        20 <= h < 0x1_0000_0000,
        0 <= n <= 26,
        0 <= i < n,
    ensures
        w / 10 <= pos_x(w, h, n, i) <= w * 9 / 10,
        h * 5 / 8 <= pos_y(w, h, i) <= h,
{
    lemma_layout_param_bounds(w, h);
    lemma_spacing_positive(w, h);
    lemma_cell_bounds(w, h, n, i);
    let m = spec_min(w, h);
    let sf = scaled_font_size(w, h);
    let cs = col_spacing(w, h);
    let rs = row_spacing(w, h);
    let cpr = chars_per_row(w, h);
    let row = row_of(w, h, i);
    let col = col_of(w, h, i);
    let cols = cols_in_row(w, h, n, row);
    // horizontal: the whole row, centered or not, stays inside the
    // usable width, and the margins add a tenth on each side
    assert(col * cs + (cpr - cols) * cs / 2 <= (cpr - 1) * cs) by {
        assert(col * cs <= (cols - 1) * cs) by (nonlinear_arith)
            requires
                col <= cols - 1,
                cs >= 0,
        ;
        assert((cpr - cols) * cs / 2 <= (cpr - cols) * cs) by {
            lemma_fundamental_div_mod((cpr - cols) * cs, 2);
            lemma_mod_bound((cpr - cols) * cs, 2);
        }
        assert((cols - 1) * cs + (cpr - cols) * cs == (cpr - 1) * cs) by (nonlinear_arith);
    }
    assert(cpr * cs <= max_row_width(w));
    assert((cpr - 1) * cs <= cpr * cs - cs) by (nonlinear_arith);
    assert(pos_x(w, h, n, i) <= max_row_width(w) + w / 10);
    assert(max_row_width(w) + w / 10 <= w * 9 / 10) by {
        let q8 = w * 8 / 10;
        let q1 = w / 10;
        lemma_fundamental_div_mod(w * 8, 10);
        lemma_mod_bound(w * 8, 10);
        lemma_fundamental_div_mod(w, 10);
        lemma_mod_bound(w, 10);
        assert(w * 9 >= 10 * (q8 + q1));
        lemma_div_is_ordered(10 * (q8 + q1), w * 9, 10);
        vstd::arithmetic::div_mod::lemma_div_by_multiple(q8 + q1, 10);
    }
    // vertical: at most four rows are ever used, and four rows of
    // spacing fit between the grid's offset and the bottom edge
    assert(row <= 3) by {
        lemma_div_is_ordered(i, 25, cpr);
        lemma_div_is_ordered_by_denominator(25, 7, cpr);
        assert(25int / 7 == 3);
    }
    assert(1000 * rs <= 104 * h) by {
        lemma_fundamental_div_mod(52 * m, 1000);
        lemma_mod_bound(52 * m, 1000);
    }
    assert(row * rs <= 3 * rs) by (nonlinear_arith)
        requires
            0 <= row <= 3,
            rs >= 0,
    ;
    assert(8 * (h * 5 / 8) <= 5 * h) by {
        lemma_fundamental_div_mod(h * 5, 8);
        lemma_mod_bound(h * 5, 8);
    }
    assert(pos_y(w, h, i) <= h);
}

/// No two characters in different grid cells are placed on the same
/// point: characters in one row differ in x, characters in different
/// rows differ in y.
pub proof fn lemma_positions_distinct(w: int, h: int, n: int, i: int, j: int)
    requires
        20 <= w < 0x1_0000_0000,
        20 <= h < 0x1_0000_0000,
        0 <= n <= 26,
        0 <= i < n,
        0 <= j < n,
        i != j,
    ensures
        pos_x(w, h, n, i) != pos_x(w, h, n, j) || pos_y(w, h, i) != pos_y(w, h, j),
{
    lemma_spacing_positive(w, h);
    lemma_cell_bounds(w, h, n, i);
    lemma_cell_bounds(w, h, n, j);
    let cs = col_spacing(w, h);
    let rs = row_spacing(w, h);
    let cpr = chars_per_row(w, h);
    lemma_fundamental_div_mod(i, cpr);
    lemma_fundamental_div_mod(j, cpr);
    if row_of(w, h, i) == row_of(w, h, j) {
        assert(col_of(w, h, i) != col_of(w, h, j));
        assert(col_of(w, h, i) * cs != col_of(w, h, j) * cs) by (nonlinear_arith)
            requires
                col_of(w, h, i) != col_of(w, h, j),
                cs >= 1,
        ;
    } else {
        assert(row_of(w, h, i) * rs != row_of(w, h, j) * rs) by (nonlinear_arith)
            requires
                row_of(w, h, i) != row_of(w, h, j),
                rs >= 1,
        ;
    }
}

/// A row that is not full is centered: the space it leaves free against
/// a full row is split between its left and its right side, equally up
/// to one dot of rounding.
pub proof fn lemma_short_row_centered(w: int, h: int, n: int, row: int)
    requires
        20 <= w < 0x1_0000_0000,
        20 <= h < 0x1_0000_0000,
        1 <= n <= 26,
        0 <= row,
        row * chars_per_row(w, h) < n,
    ensures
        ({
            let cpr = chars_per_row(w, h);
            let cs = col_spacing(w, h);
            let cols = cols_in_row(w, h, n, row);
            // gap before the row's first character, and gap after its
            // last, measured against a full row's span
            let left_gap = pos_x(w, h, n, row * cpr) - w / 10;
            let right_gap = ((cpr - 1) * cs + w / 10) - pos_x(w, h, n, row * cpr + cols - 1);
            left_gap == (cpr - cols) * cs / 2 && 0 <= right_gap - left_gap <= 1
        }),
{
    lemma_spacing_positive(w, h);
    let cpr = chars_per_row(w, h);
    let cs = col_spacing(w, h);
    let cols = cols_in_row(w, h, n, row);
    assert(1 <= cols <= cpr);
    let i1 = row * cpr;
    let i2 = row * cpr + cols - 1;
    lemma_fundamental_div_mod_converse(i1, cpr, row, 0);
    lemma_fundamental_div_mod_converse(i2, cpr, row, cols - 1);
    assert(row_of(w, h, i1) == row && col_of(w, h, i1) == 0);
    assert(row_of(w, h, i2) == row && col_of(w, h, i2) == cols - 1);
    let g = (cpr - cols) * cs;
    assert((cpr - cols) * cs >= 0) by (nonlinear_arith)
        requires
            cols <= cpr,
            cs >= 0,
    ;
    assert(pos_x(w, h, n, i1) == 0 * cs + g / 2 + w / 10);
    assert(0 * cs == 0) by (nonlinear_arith);
    assert(pos_x(w, h, n, i2) == (cols - 1) * cs + g / 2 + w / 10);
    assert((cpr - 1) * cs - (cols - 1) * cs == (cpr - cols) * cs) by (nonlinear_arith);
    lemma_fundamental_div_mod(g, 2);
    lemma_mod_bound(g, 2);
}

/// Positions for `n` selectable characters laid out in a centered,
/// row-wrapped grid inside a window of the given size.
pub fn char_grid_positions(width: u32, height: u32, n: usize) -> (r: Vec<GridPosition>)
    requires
        n < 0x1_0000_0000,
    ensures
        r@.len() == n,
        forall|i: int|
            0 <= i < n ==> #[trigger] r@[i] == (GridPosition {
                x: pos_x(width as int, height as int, n as int, i) as u64,
                y: pos_y(width as int, height as int, i) as u64,
            }),
{
    let w: u64 = width as u64;
    let h: u64 = height as u64;
    let ghost gw = width as int;
    let ghost gh = height as int;
    let m: u64 = if w <= h {
        w
    } else {
        h
    };
    let sf: u64 = FONT_SIZE * m / WINDOW_DOTS;
    let rs: u64 = 2 * sf;
    let cs: u64 = sf * 13 / 10;
    let wmax: u64 = w * 8 / 10;
    let cpr: u64 = if cs == 0 {
        1
    } else {
        let q = wmax / cs;
        if q == 0 {
            1
        } else {
            q
        }
    };
    proof {
        assert(m as int == spec_min(gw, gh));
        assert(sf as int == scaled_font_size(gw, gh));
        assert(rs as int == row_spacing(gw, gh));
        assert(cs as int == col_spacing(gw, gh));
        assert(cpr as int == chars_per_row(gw, gh));
    }
    let nn: u64 = n as u64;
    let mut r: Vec<GridPosition> = Vec::new();
    let mut i: u64 = 0;
    while i < nn
        invariant
            nn == n as u64,
            n < 0x1_0000_0000,
            i <= nn,
            gw == width as int,
            gh == height as int,
            w == width as u64,
            h == height as u64,
            sf as int == scaled_font_size(gw, gh),
            rs as int == row_spacing(gw, gh),
            cs as int == col_spacing(gw, gh),
            cpr as int == chars_per_row(gw, gh),
            wmax as int == max_row_width(gw),
            r@.len() == i,
            forall|k: int|
                0 <= k < i ==> #[trigger] r@[k] == (GridPosition {
                    x: pos_x(gw, gh, n as int, k) as u64,
                    y: pos_y(gw, gh, k) as u64,
                }),
        decreases nn - i,
    {
        proof {
            lemma_cell_bounds(gw, gh, n as int, i as int);
        }
        let row: u64 = i / cpr;
        let col: u64 = i % cpr;
        let rem: u64 = nn - row * cpr;
        let cols: u64 = if cpr <= rem {
            cpr
        } else {
            rem
        };
        proof {
            assert(row as int == row_of(gw, gh, i as int));
            assert(col as int == col_of(gw, gh, i as int));
            assert(cols as int == cols_in_row(gw, gh, n as int, row as int));
        }
        let x: u64 = col * cs + (cpr - cols) * cs / 2 + w / 10;
        let y: u64 = h * 5 / 8 + row * rs;
        r.push(GridPosition { x, y });
        i = i + 1;
    }
    r
}

} // verus!
