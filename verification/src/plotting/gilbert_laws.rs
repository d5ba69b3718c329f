//! What holds of the curve as a whole: it stays inside its grid, it never
//! visits a cell twice, it leaves no cell out, and every step of it leads to
//! a cell that touches the one before.

use super::gilbert::{
    curve_cell, even_half, gilbert_cell, lemma_curve_cell_long, lemma_curve_cell_thin,
    lemma_curve_cell_wide,
};
use vstd::prelude::*;

verus! {

/// The areas of the two parts of a long block add up to the area of the
/// block.
proof fn lemma_area_of_two(w: int, h: int, w1: int)
    ensures
        w1 * h + (w - w1) * h == w * h,
{
    assert(w1 * h + (w - w1) * h == w * h) by (nonlinear_arith);
}

/// The areas of the three parts of a block add up to the area of the block.
proof fn lemma_area_of_three(w: int, h: int, w1: int, h1: int)
    ensures
        h1 * w1 + w * (h - h1) + h1 * (w - w1) == w * h,
{
    assert(h1 * w1 + w * (h - h1) + h1 * (w - w1) == w * h) by (nonlinear_arith);
}

/// A block with sides of at least one cell has at least as many cells as
/// either side.
proof fn lemma_area_positive(w: int, h: int)
    requires
        w > 0,
        h > 0,
    ensures
        w * h >= w,
        w * h >= h,
        w * 1 == w,
        1 * h == h,
{
    assert(w * h >= w && w * h >= h) by (nonlinear_arith)
        requires
            w > 0,
            h > 0,
    ;
}

/// Every step of the curve through a block lands inside the block.
pub proof fn lemma_curve_cell_in_block(d: int, w: int, h: int)
    requires
        w > 0,
        h > 0,
        0 <= d < w * h,
    ensures
        0 <= curve_cell(d, w, h).0 < w,
        0 <= curve_cell(d, w, h).1 < h,
    decreases w + h,
{
    if w == 1 || h == 1 {
        lemma_curve_cell_thin(d, w, h);
        lemma_area_positive(w, h);
    } else if 2 * w > 3 * h {
        let w1 = even_half(w);
        lemma_curve_cell_long(d, w, h);
        lemma_area_of_two(w, h, w1);
        if d < w1 * h {
            lemma_curve_cell_in_block(d, w1, h);
        } else {
            lemma_curve_cell_in_block(d - w1 * h, w - w1, h);
        }
    } else {
        let w1 = w / 2;
        let h1 = even_half(h);
        lemma_curve_cell_wide(d, w, h);
        lemma_area_of_three(w, h, w1, h1);
        if d < h1 * w1 {
            lemma_curve_cell_in_block(d, h1, w1);
        } else if d < h1 * w1 + w * (h - h1) {
            lemma_curve_cell_in_block(d - h1 * w1, w, h - h1);
        } else {
            lemma_curve_cell_in_block(d - h1 * w1 - w * (h - h1), h1, w - w1);
        }
    }
}

/// Two different steps of the curve through a block land on different cells.
pub proof fn lemma_curve_cell_no_repeat(d1: int, d2: int, w: int, h: int)
    requires
        w > 0,
        h > 0,
        0 <= d1 < d2 < w * h,
    ensures
        curve_cell(d1, w, h) != curve_cell(d2, w, h),
    decreases w + h,
{
    if w == 1 || h == 1 {
        lemma_curve_cell_thin(d1, w, h);
        lemma_curve_cell_thin(d2, w, h);
    } else if 2 * w > 3 * h {
        let w1 = even_half(w);
        lemma_curve_cell_long(d1, w, h);
        lemma_curve_cell_long(d2, w, h);
        lemma_area_of_two(w, h, w1);
        if d2 < w1 * h {
            lemma_curve_cell_no_repeat(d1, d2, w1, h);
        } else if d1 < w1 * h {
            lemma_curve_cell_in_block(d1, w1, h);
            lemma_curve_cell_in_block(d2 - w1 * h, w - w1, h);
        } else {
            lemma_curve_cell_no_repeat(d1 - w1 * h, d2 - w1 * h, w - w1, h);
        }
    } else {
        let w1 = w / 2;
        let h1 = even_half(h);
        let first = h1 * w1;
        let second = first + w * (h - h1);
        lemma_curve_cell_wide(d1, w, h);
        lemma_curve_cell_wide(d2, w, h);
        lemma_area_of_three(w, h, w1, h1);
        if d2 < first {
            lemma_curve_cell_no_repeat(d1, d2, h1, w1);
        } else if d2 < second {
            if d1 < first {
                lemma_curve_cell_in_block(d1, h1, w1);
                lemma_curve_cell_in_block(d2 - first, w, h - h1);
            } else {
                lemma_curve_cell_no_repeat(d1 - first, d2 - first, w, h - h1);
            }
        } else {
            if d1 < first {
                lemma_curve_cell_in_block(d1, h1, w1);
                lemma_curve_cell_in_block(d2 - second, h1, w - w1);
            } else if d1 < second {
                lemma_curve_cell_in_block(d1 - first, w, h - h1);
                lemma_curve_cell_in_block(d2 - second, h1, w - w1);
            } else {
                lemma_curve_cell_no_repeat(d1 - second, d2 - second, h1, w - w1);
            }
        }
    }
}

/// Every cell of a block is reached: for the cell `(i, j)` the result is a
/// step of the curve that lands on it.
pub proof fn lemma_curve_cell_reached(i: int, j: int, w: int, h: int) -> (d: int)
    requires
        0 <= i < w,
        0 <= j < h,
    ensures
        0 <= d < w * h,
        curve_cell(d, w, h) == (i, j),
    decreases w + h,
{
    if w == 1 || h == 1 {
        let d = if h == 1 {
            i
        } else {
            j
        };
        lemma_curve_cell_thin(d, w, h);
        lemma_area_positive(w, h);
        d
    } else if 2 * w > 3 * h {
        let w1 = even_half(w);
        lemma_area_of_two(w, h, w1);
        let d = if i < w1 {
            lemma_curve_cell_reached(i, j, w1, h)
        } else {
            w1 * h + lemma_curve_cell_reached(i - w1, j, w - w1, h)
        };
        lemma_curve_cell_long(d, w, h);
        d
    } else {
        let w1 = w / 2;
        let h1 = even_half(h);
        lemma_area_of_three(w, h, w1, h1);
        let d = if j >= h1 {
            h1 * w1 + lemma_curve_cell_reached(i, j - h1, w, h - h1)
        } else if i < w1 {
            lemma_curve_cell_reached(j, i, h1, w1)
        } else {
            h1 * w1 + w * (h - h1) + lemma_curve_cell_reached(h1 - 1 - j, w - 1 - i, h1, w - w1)
        };
        lemma_curve_cell_wide(d, w, h);
        d
    }
}

/// Two cells touch: they are not the same, and they lie at most one column
/// and at most one row apart.
pub open spec fn cells_touch(a: (int, int), b: (int, int)) -> bool {
    &&& a != b
    &&& -1 <= a.0 - b.0 <= 1
    &&& -1 <= a.1 - b.1 <= 1
}

/// The cell where the curve through a block of `w` by `h` cells ends: the
/// far end of the first row of the major side, but for a block of one column,
/// where it is the end of that column, and for a block of two rows and an odd
/// number of columns, where it lies one cell short.
pub open spec fn last_cell(w: int, h: int) -> (int, int) {
    if w == 1 {
        (0, h - 1)
    } else if h == 2 && w % 2 == 1 {
        (w - 2, 0)
    } else {
        (w - 1, 0)
    }
}

/// The first part of a side of more than two cells is even, and no part of a
/// side of two cells or more is empty.
proof fn lemma_even_half(n: int)
    requires
        n >= 2,
    ensures
        0 < even_half(n) < n,
        n > 2 ==> even_half(n) % 2 == 0,
        n >= 4 ==> even_half(n) <= n - 2,
        n == 2 ==> even_half(n) == 1,
{
}

/// The curve through a block starts in the block's corner.
pub proof fn lemma_curve_starts_in_the_corner(w: int, h: int)
    requires
        w > 0,
        h > 0,
    ensures
        curve_cell(0, w, h) == (0int, 0int),
    decreases w + h,
{
    if w == 1 || h == 1 {
        lemma_curve_cell_thin(0, w, h);
    } else if 2 * w > 3 * h {
        let w1 = even_half(w);
        lemma_even_half(w);
        lemma_curve_cell_long(0, w, h);
        lemma_area_positive(w1, h);
        lemma_curve_starts_in_the_corner(w1, h);
    } else {
        let w1 = w / 2;
        let h1 = even_half(h);
        lemma_even_half(h);
        lemma_curve_cell_wide(0, w, h);
        lemma_area_positive(h1, w1);
        lemma_curve_starts_in_the_corner(h1, w1);
    }
}

/// The curve through a block ends in the block's `last_cell`.
pub proof fn lemma_curve_ends_in_the_last_cell(w: int, h: int)
    requires
        w > 0,
        h > 0,
    ensures
        curve_cell(w * h - 1, w, h) == last_cell(w, h),
    decreases w + h,
{
    let d = w * h - 1;
    lemma_area_positive(w, h);
    if w == 1 || h == 1 {
        lemma_curve_cell_thin(d, w, h);
    } else if 2 * w > 3 * h {
        let w1 = even_half(w);
        lemma_even_half(w);
        lemma_curve_cell_long(d, w, h);
        lemma_area_of_two(w, h, w1);
        lemma_area_positive(w - w1, h);
        lemma_curve_ends_in_the_last_cell(w - w1, h);
    } else {
        let w1 = w / 2;
        let h1 = even_half(h);
        lemma_even_half(h);
        lemma_curve_cell_wide(d, w, h);
        lemma_area_of_three(w, h, w1, h1);
        lemma_area_positive(h1, w - w1);
        lemma_curve_ends_in_the_last_cell(h1, w - w1);
    }
}

/// Every step of the curve through a block leads to a cell that touches the
/// one before.
pub proof fn lemma_curve_steps_touch(d: int, w: int, h: int)
    requires
        w > 0,
        h > 0,
        0 <= d,
        d + 1 < w * h,
    ensures
        cells_touch(curve_cell(d, w, h), curve_cell(d + 1, w, h)),
    decreases w + h,
{
    if w == 1 || h == 1 {
        lemma_curve_cell_thin(d, w, h);
        lemma_curve_cell_thin(d + 1, w, h);
    } else if 2 * w > 3 * h {
        let w1 = even_half(w);
        let first = w1 * h;
        lemma_even_half(w);
        lemma_curve_cell_long(d, w, h);
        lemma_curve_cell_long(d + 1, w, h);
        lemma_area_of_two(w, h, w1);
        if d + 1 < first {
            lemma_curve_steps_touch(d, w1, h);
        } else if d >= first {
            lemma_curve_steps_touch(d - first, w - w1, h);
        } else {
            lemma_curve_ends_in_the_last_cell(w1, h);
            lemma_curve_starts_in_the_corner(w - w1, h);
        }
    } else {
        let w1 = w / 2;
        let h1 = even_half(h);
        let first = h1 * w1;
        let second = first + w * (h - h1);
        lemma_even_half(h);
        lemma_curve_cell_wide(d, w, h);
        lemma_curve_cell_wide(d + 1, w, h);
        lemma_area_of_three(w, h, w1, h1);
        if d + 1 < first {
            lemma_curve_steps_touch(d, h1, w1);
        } else if d < first {
            lemma_area_positive(w, h - h1);
            lemma_curve_ends_in_the_last_cell(h1, w1);
            lemma_curve_starts_in_the_corner(w, h - h1);
        } else if d + 1 < second {
            lemma_curve_steps_touch(d - first, w, h - h1);
        } else if d < second {
            lemma_curve_ends_in_the_last_cell(w, h - h1);
            lemma_curve_starts_in_the_corner(h1, w - w1);
        } else {
            lemma_curve_steps_touch(d - second, h1, w - w1);
        }
    }
}

/// Every step of the curve over a grid leads to a cell that touches the one
/// before: the curve keeps what is near on it near in the grid.
pub proof fn lemma_gilbert_steps_touch(idx: int, width: int, height: int)
    requires
        width > 0,
        height > 0,
        0 <= idx,
        idx + 1 < width * height,
    ensures
        cells_touch(gilbert_cell(idx, width, height), gilbert_cell(idx + 1, width, height)),
{
    assert(width * height == height * width) by (nonlinear_arith);
    if width >= height {
        lemma_curve_steps_touch(idx, width, height);
    } else {
        lemma_curve_steps_touch(idx, height, width);
    }
}

/// The curve over a grid starts in the cell `(0, 0)`.
pub proof fn lemma_gilbert_starts_in_the_corner(width: int, height: int)
    requires
        width > 0,
        height > 0,
    ensures
        gilbert_cell(0, width, height) == (0int, 0int),
{
    if width >= height {
        lemma_curve_starts_in_the_corner(width, height);
    } else {
        lemma_curve_starts_in_the_corner(height, width);
    }
}

/// Every step of the curve over a grid lands inside the grid.
pub proof fn lemma_gilbert_in_grid(idx: int, width: int, height: int)
    requires
        width > 0,
        height > 0,
        0 <= idx < width * height,
    ensures
        0 <= gilbert_cell(idx, width, height).0 < width,
        0 <= gilbert_cell(idx, width, height).1 < height,
{
    assert(width * height == height * width) by (nonlinear_arith);
    if width >= height {
        lemma_curve_cell_in_block(idx, width, height);
    } else {
        lemma_curve_cell_in_block(idx, height, width);
    }
}

/// The curve over a grid visits no cell twice: two different steps land on
/// different cells.
pub proof fn lemma_gilbert_no_repeat(i: int, j: int, width: int, height: int)
    requires
        width > 0,
        height > 0,
        0 <= i < width * height,
        0 <= j < width * height,
        i != j,
    ensures
        gilbert_cell(i, width, height) != gilbert_cell(j, width, height),
{
    assert(width * height == height * width) by (nonlinear_arith);
    let (lo, hi) = if i < j {
        (i, j)
    } else {
        (j, i)
    };
    if width >= height {
        lemma_curve_cell_no_repeat(lo, hi, width, height);
    } else {
        lemma_curve_cell_no_repeat(lo, hi, height, width);
    }
}

/// The curve over a grid leaves no cell out: for the cell `(x, y)` of the
/// grid the result is a step of the curve that lands on it.
pub proof fn lemma_gilbert_reached(x: int, y: int, width: int, height: int) -> (idx: int)
    requires
        0 <= x < width,
        0 <= y < height,
    ensures
        0 <= idx < width * height,
        gilbert_cell(idx, width, height) == (x, y),
{
    assert(width * height == height * width) by (nonlinear_arith);
    if width >= height {
        lemma_curve_cell_reached(x, y, width, height)
    } else {
        lemma_curve_cell_reached(y, x, height, width)
    }
}

} // verus!
