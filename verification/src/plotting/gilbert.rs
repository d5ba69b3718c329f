//! Generalized Hilbert ("gilbert") space-filling curve for rectangular grids
//! of any size.
//!
//! The curve visits every cell of a `width` by `height` grid exactly once.
//! [`curve_cell`] is its mathematical definition on a block measured from the
//! block's own start corner; [`gilbert_d2xy`] evaluates it on a grid.
//!
//! The construction of the curve is that of
//! https://github.com/jakubcerveny/gilbert, used under the following license:
//!
//! BSD 2-Clause License
//!
//! Copyright (c) 2018, Jakub Cerveny
//! All rights reserved.
//!
//! Redistribution and use in source and binary forms, with or without
//! modification, are permitted provided that the following conditions are met:
//!
//! * Redistributions of source code must retain the above copyright notice, this
//!   list of conditions and the following disclaimer.
//!
//! * Redistributions in binary form must reproduce the above copyright notice,
//!   this list of conditions and the following disclaimer in the documentation
//!   and/or other materials provided with the distribution.
//!
//! THIS SOFTWARE IS PROVIDED BY THE COPYRIGHT HOLDERS AND CONTRIBUTORS "AS IS"
//! AND ANY EXPRESS OR IMPLIED WARRANTIES, INCLUDING, BUT NOT LIMITED TO, THE
//! IMPLIED WARRANTIES OF MERCHANTABILITY AND FITNESS FOR A PARTICULAR PURPOSE ARE
//! DISCLAIMED. IN NO EVENT SHALL THE COPYRIGHT HOLDER OR CONTRIBUTORS BE LIABLE
//! FOR ANY DIRECT, INDIRECT, INCIDENTAL, SPECIAL, EXEMPLARY, OR CONSEQUENTIAL
//! DAMAGES (INCLUDING, BUT NOT LIMITED TO, PROCUREMENT OF SUBSTITUTE GOODS OR
//! SERVICES; LOSS OF USE, DATA, OR PROFITS; OR BUSINESS INTERRUPTION) HOWEVER
//! CAUSED AND ON ANY THEORY OF LIABILITY, WHETHER IN CONTRACT, STRICT LIABILITY,
//! OR TORT (INCLUDING NEGLIGENCE OR OTHERWISE) ARISING IN ANY WAY OUT OF THE USE
//! OF THIS SOFTWARE, EVEN IF ADVISED OF THE POSSIBILITY OF SUCH DAMAGE.

use super::gilbert_laws::lemma_gilbert_in_grid;
use vstd::prelude::*;

verus! {

/// Largest coordinate, in absolute value, that a block may reach.
pub const COORD_LIMIT: i64 = 0x1_0000_0000;

/// The sign of an integer: -1, 0 or 1.
pub open spec fn sign(x: int) -> int {
    if x < 0 {
        -1
    } else if x == 0 {
        0
    } else {
        1
    }
}

/// The absolute value of an integer.
pub open spec fn magnitude(x: int) -> int {
    if x < 0 {
        -x
    } else {
        x
    }
}

/// `steps` cells walked in the direction of `dir`: forwards where `dir` is
/// positive, backwards where it is negative, not at all where it is zero.
pub open spec fn along(dir: int, steps: int) -> int {
    if dir < 0 {
        -steps
    } else if dir == 0 {
        0
    } else {
        steps
    }
}

/// Where a side of `n` cells is cut in two: half of `n`, rounded down, and
/// one more where that half is odd and `n` is more than 2.
pub open spec fn even_half(n: int) -> int {
    let half = n / 2;
    if half % 2 != 0 && n > 2 {
        half + 1
    } else {
        half
    }
}

/// The cell that the curve through a block of `w` by `h` cells reaches after
/// `d` steps, as `(i, j)`: `i` cells along the block's major side (of `w`
/// cells) and `j` cells along its other side (of `h` cells), both counted
/// from the corner where the curve starts.
///
/// A block one cell thin is walked straight. A long block (`2w > 3h`) is cut
/// across its major side in two blocks walked one after the other. Any other
/// block is cut in three: a corner block walked with the sides swapped, the
/// far strip over the whole major side, and the opposite corner block walked
/// backwards with the sides swapped.
#[verifier::opaque]
pub open spec fn curve_cell(d: int, w: int, h: int) -> (int, int)
    decreases w + h,
{
    if w <= 0 || h <= 0 {
        (0, 0)
    } else if h == 1 {
        (d, 0)
    } else if w == 1 {
        (0, d)
    } else if 2 * w > 3 * h {
        let w1 = even_half(w);
        if d < w1 * h {
            curve_cell(d, w1, h)
        } else {
            let c = curve_cell(d - w1 * h, w - w1, h);
            (w1 + c.0, c.1)
        }
    } else {
        let w1 = w / 2;
        let h1 = even_half(h);
        if d < h1 * w1 {
            let c = curve_cell(d, h1, w1);
            (c.1, c.0)
        } else if d < h1 * w1 + w * (h - h1) {
            let c = curve_cell(d - h1 * w1, w, h - h1);
            (c.0, h1 + c.1)
        } else {
            let c = curve_cell(d - h1 * w1 - w * (h - h1), h1, w - w1);
            (w - 1 - c.1, h1 - 1 - c.0)
        }
    }
}

/// The cell of a `width` by `height` grid that the curve reaches after `idx`
/// steps, as `(x, y)`. The longer side of the grid is the major side.
pub open spec fn gilbert_cell(idx: int, width: int, height: int) -> (int, int) {
    if width >= height {
        curve_cell(idx, width, height)
    } else {
        let c = curve_cell(idx, height, width);
        (c.1, c.0)
    }
}

/// The two side vectors of a block are valid: each lies along one axis of
/// the grid, they are perpendicular, and neither is zero. `(ax, ay)` is the
/// major side, `(bx, by)` the other.
pub open spec fn sides_ok(ax: int, ay: int, bx: int, by: int) -> bool {
    ||| (ay == 0 && bx == 0 && ax != 0 && by != 0)
    ||| (ax == 0 && by == 0 && ay != 0 && bx != 0)
}

/// The block that starts at `(x, y)` and spans the two side vectors stays
/// within the coordinate limit: its start corner does, and so does the
/// corner opposite to it.
pub open spec fn block_fits(x: int, y: int, ax: int, ay: int, bx: int, by: int) -> bool {
    let far_x = x + ax + bx - sign(ax) - sign(bx);
    let far_y = y + ay + by - sign(ay) - sign(by);
    &&& -COORD_LIMIT <= x <= COORD_LIMIT
    &&& -COORD_LIMIT <= y <= COORD_LIMIT
    &&& -COORD_LIMIT <= far_x <= COORD_LIMIT
    &&& -COORD_LIMIT <= far_y <= COORD_LIMIT
}

/// The grid cell that lies `c.0` cells along the major side and `c.1` cells
/// along the other side of the block that starts at `(x, y)`.
pub open spec fn place(x: int, y: int, ax: int, ay: int, bx: int, by: int, c: (int, int)) -> (
    int,
    int,
) {
    (x + along(ax, c.0) + along(bx, c.1), y + along(ay, c.0) + along(by, c.1))
}

/// A thin block is walked straight.
pub proof fn lemma_curve_cell_thin(d: int, w: int, h: int)
    requires
        w > 0,
        h > 0,
        w == 1 || h == 1,
    ensures
        curve_cell(d, w, h) == if h == 1 {
            (d, 0int)
        } else {
            (0int, d)
        },
{
    reveal(curve_cell);
}

/// A long block is walked as two blocks side by side.
pub proof fn lemma_curve_cell_long(d: int, w: int, h: int)
    requires
        w > 1,
        h > 1,
        2 * w > 3 * h,
    ensures
        curve_cell(d, w, h) == if d < even_half(w) * h {
            curve_cell(d, even_half(w), h)
        } else {
            let c = curve_cell(d - even_half(w) * h, w - even_half(w), h);
            (even_half(w) + c.0, c.1)
        },
{
    reveal(curve_cell);
}

/// Any other block is walked as three blocks.
pub proof fn lemma_curve_cell_wide(d: int, w: int, h: int)
    requires
        w > 1,
        h > 1,
        2 * w <= 3 * h,
    ensures
        curve_cell(d, w, h) == if d < even_half(h) * (w / 2) {
            let c = curve_cell(d, even_half(h), w / 2);
            (c.1, c.0)
        } else if d < even_half(h) * (w / 2) + w * (h - even_half(h)) {
            let c = curve_cell(d - even_half(h) * (w / 2), w, h - even_half(h));
            (c.0, even_half(h) + c.1)
        } else {
            let c = curve_cell(
                d - even_half(h) * (w / 2) - w * (h - even_half(h)),
                even_half(h),
                w - w / 2,
            );
            (w - 1 - c.1, even_half(h) - 1 - c.0)
        },
{
    reveal(curve_cell);
}

/// Generalized Hilbert curve over a grid of `width` by `height` cells: takes
/// a position along the curve and returns the cell `(x, y)` that the curve
/// visits there.
pub fn gilbert_d2xy(idx: u32, width: u32, height: u32) -> (r: (u32, u32))
    requires
        idx < width * height,
    ensures
        (r.0 as int, r.1 as int) == gilbert_cell(idx as int, width as int, height as int),
        r.0 < width,
        r.1 < height,
{
    proof {
        assert(width > 0 && height > 0) by (nonlinear_arith)
            requires
                0 <= idx < width * height,
        ;
        assert(height * width == width * height) by (nonlinear_arith);
        lemma_gilbert_in_grid(idx as int, width as int, height as int);
    }
    let (x, y) = if width >= height {
        gilbert_d2xy_r(idx as i64, 0, 0, 0, width as i64, 0, 0, height as i64)
    } else {
        gilbert_d2xy_r(idx as i64, 0, 0, 0, 0, height as i64, width as i64, 0)
    };
    (x as u32, y as u32)
}

/// Returns -1, 0 or 1 according to the sign of `x`.
pub fn sgn(x: i64) -> (s: i64)
    ensures
        s == sign(x as int),
{
    if x < 0 {
        -1
    } else if x == 0 {
        0
    } else {
        1
    }
}

/// The absolute value of `x`.
fn abs(x: i64) -> (m: i64)
    requires
        x > i64::MIN,
    ensures
        m == magnitude(x as int),
{
    if x < 0 {
        -x
    } else {
        x
    }
}

/// `steps` cells in the direction of `dir`.
fn walk(dir: i64, steps: i64) -> (r: i64)
    requires
        steps > i64::MIN,
    ensures
        r == along(dir as int, steps as int),
{
    if dir < 0 {
        -steps
    } else if dir == 0 {
        0
    } else {
        steps
    }
}

/// The sides of a block within the coordinate limit are bounded.
proof fn lemma_side_bounds(x: int, y: int, ax: int, ay: int, bx: int, by: int)
    requires
        sides_ok(ax, ay, bx, by),
        block_fits(x, y, ax, ay, bx, by),
    ensures
        -COORD_LIMIT <= x <= COORD_LIMIT,
        -COORD_LIMIT <= y <= COORD_LIMIT,
        (ax == 0) != (ay == 0),
        (bx == 0) != (by == 0),
        1 <= magnitude(ax + ay) <= 2 * COORD_LIMIT + 1,
        1 <= magnitude(bx + by) <= 2 * COORD_LIMIT + 1,
{
}

/// The side vector `(vx, vy)` cut short to its first part: half of its
/// length, rounded down, and one more where `even` is set, that half is odd
/// and the side is more than 2 cells long.
fn first_part(vx: i64, vy: i64, even: bool) -> (r: (i64, i64))
    requires
        (vx == 0) != (vy == 0),
        2 <= magnitude(vx + vy) <= 2 * COORD_LIMIT + 1,
    ensures
        ({
            let n = magnitude(vx + vy);
            let n1 = if even {
                even_half(n)
            } else {
                n / 2
            };
            &&& r.0 == along(vx as int, n1)
            &&& r.1 == along(vy as int, n1)
            &&& 0 < n1 < n
        }),
{
    let (mut vx2, mut vy2) = (vx / 2, vy / 2);
    if even && abs(vx2 + vy2) % 2 != 0 && abs(vx + vy) > 2 {
        // prefer even steps
        vx2 = vx2 + sgn(vx);
        vy2 = vy2 + sgn(vy);
    }
    (vx2, vy2)
}

/// The two blocks that a long block is cut in: both are valid blocks within
/// the limit, and a cell of either is the cell of the whole block that lies
/// `w1` cells further along the major side, or at the same place.
proof fn lemma_cut_in_two(
    x: int,
    y: int,
    ax: int,
    ay: int,
    bx: int,
    by: int,
    w1: int,
    c: (int, int),
)
    requires
        sides_ok(ax, ay, bx, by),
        block_fits(x, y, ax, ay, bx, by),
        0 < w1 < magnitude(ax + ay),
    ensures
        ({
            let ax2 = along(ax, w1);
            let ay2 = along(ay, w1);
            &&& sides_ok(ax2, ay2, bx, by)
            &&& block_fits(x, y, ax2, ay2, bx, by)
            &&& magnitude(ax2 + ay2) == w1
            &&& place(x, y, ax2, ay2, bx, by, c) == place(x, y, ax, ay, bx, by, c)
            &&& sides_ok(ax - ax2, ay - ay2, bx, by)
            &&& block_fits(x + ax2, y + ay2, ax - ax2, ay - ay2, bx, by)
            &&& magnitude((ax - ax2) + (ay - ay2)) == magnitude(ax + ay) - w1
            &&& place(x + ax2, y + ay2, ax - ax2, ay - ay2, bx, by, c) == place(
                x,
                y,
                ax,
                ay,
                bx,
                by,
                (w1 + c.0, c.1),
            )
        }),
{
}

/// The three blocks that any other block is cut in: each is a valid block
/// within the limit, and a cell of each is a cell of the whole block.
proof fn lemma_cut_in_three(
    x: int,
    y: int,
    ax: int,
    ay: int,
    bx: int,
    by: int,
    w1: int,
    h1: int,
    c: (int, int),
)
    requires
        sides_ok(ax, ay, bx, by),
        block_fits(x, y, ax, ay, bx, by),
        0 < w1 < magnitude(ax + ay),
        0 < h1 < magnitude(bx + by),
    ensures
        ({
            let w = magnitude(ax + ay);
            let h = magnitude(bx + by);
            let ax2 = along(ax, w1);
            let ay2 = along(ay, w1);
            let bx2 = along(bx, h1);
            let by2 = along(by, h1);
            let sx = x + (ax - sign(ax)) + (bx2 - sign(bx));
            let sy = y + (ay - sign(ay)) + (by2 - sign(by));
            &&& sides_ok(bx2, by2, ax2, ay2)
            &&& block_fits(x, y, bx2, by2, ax2, ay2)
            &&& magnitude(bx2 + by2) == h1
            &&& magnitude(ax2 + ay2) == w1
            &&& place(x, y, bx2, by2, ax2, ay2, c) == place(x, y, ax, ay, bx, by, (c.1, c.0))
            &&& sides_ok(ax, ay, bx - bx2, by - by2)
            &&& block_fits(x + bx2, y + by2, ax, ay, bx - bx2, by - by2)
            &&& magnitude((bx - bx2) + (by - by2)) == h - h1
            &&& place(x + bx2, y + by2, ax, ay, bx - bx2, by - by2, c) == place(
                x,
                y,
                ax,
                ay,
                bx,
                by,
                (c.0, h1 + c.1),
            )
            &&& sides_ok(-bx2, -by2, -(ax - ax2), -(ay - ay2))
            &&& block_fits(sx, sy, -bx2, -by2, -(ax - ax2), -(ay - ay2))
            &&& magnitude(-bx2 + -by2) == h1
            &&& magnitude(-(ax - ax2) + -(ay - ay2)) == w - w1
            &&& place(sx, sy, -bx2, -by2, -(ax - ax2), -(ay - ay2), c) == place(
                x,
                y,
                ax,
                ay,
                bx,
                by,
                (w - 1 - c.1, h1 - 1 - c.0),
            )
        }),
{
}

/// The number of cells in a block of `w` by `h` cells.
fn area(w: i64, h: i64) -> (a: i128)
    requires
        0 <= w <= 4 * COORD_LIMIT,
        0 <= h <= 4 * COORD_LIMIT,
    ensures
        a == w * h,
        0 <= a <= 0x4_0000_0000 * 0x4_0000_0000,
{
    assert(0 <= w * h <= 0x4_0000_0000 * 0x4_0000_0000) by (nonlinear_arith)
        requires
            0 <= w <= 0x4_0000_0000,
            0 <= h <= 0x4_0000_0000,
    ;
    (w as i128) * (h as i128)
}

/// The cell that the curve reaches after `dst_idx` steps, where the block
/// that starts at `(x, y)` with major side `(ax, ay)` and other side
/// `(bx, by)` is entered after `cur_idx` steps.
pub fn gilbert_d2xy_r(
    dst_idx: i64,
    cur_idx: i64,
    x: i64,
    y: i64,
    ax: i64,
    ay: i64,
    bx: i64,
    by: i64,
) -> (r: (i64, i64))
    requires
        sides_ok(ax as int, ay as int, bx as int, by as int),
        block_fits(x as int, y as int, ax as int, ay as int, bx as int, by as int),
        0 <= cur_idx <= dst_idx,
        dst_idx - cur_idx < magnitude(ax + ay) * magnitude(bx + by),
    ensures
        (r.0 as int, r.1 as int) == place(
            x as int,
            y as int,
            ax as int,
            ay as int,
            bx as int,
            by as int,
            curve_cell(dst_idx - cur_idx, magnitude(ax + ay), magnitude(bx + by)),
        ),
    decreases magnitude(ax + ay) + magnitude(bx + by),
{
    proof {
        lemma_side_bounds(x as int, y as int, ax as int, ay as int, bx as int, by as int);
    }
    let w = abs(ax + ay);
    let h = abs(bx + by);

    let (dax, day) = (sgn(ax), sgn(ay));  // unit major direction
    let (dbx, dby) = (sgn(bx), sgn(by));  // unit orthogonal direction
    let di = dst_idx - cur_idx;

    if h == 1 {
        proof {
            lemma_curve_cell_thin(di as int, w as int, h as int);
            assert(w * h == w) by (nonlinear_arith)
                requires
                    h == 1,
            ;
        }
        return (x + walk(ax, di), y + walk(ay, di));
    }
    if w == 1 {
        proof {
            lemma_curve_cell_thin(di as int, w as int, h as int);
            assert(w * h == h) by (nonlinear_arith)
                requires
                    w == 1,
            ;
        }
        return (x + walk(bx, di), y + walk(by, di));
    }
    if 2 * w > 3 * h {
        // long case: split in two parts only
        let (ax2, ay2) = first_part(ax, ay, true);

        let ghost w1 = even_half(w as int);
        let nxt_idx = cur_idx as i128 + area(abs(ax2 + ay2), h);
        proof {
            lemma_curve_cell_long(di as int, w as int, h as int);
            assert(w1 * h + (w - w1) * h == w * h) by (nonlinear_arith);
        }
        if (dst_idx as i128) < nxt_idx {
            proof {
                lemma_cut_in_two(
                    x as int,
                    y as int,
                    ax as int,
                    ay as int,
                    bx as int,
                    by as int,
                    w1,
                    curve_cell(di as int, w1, h as int),
                );
            }
            return gilbert_d2xy_r(dst_idx, cur_idx, x, y, ax2, ay2, bx, by);
        }
        proof {
            lemma_cut_in_two(
                x as int,
                y as int,
                ax as int,
                ay as int,
                bx as int,
                by as int,
                w1,
                curve_cell(di - w1 * h, w - w1, h as int),
            );
        }
        return gilbert_d2xy_r(
            dst_idx,
            nxt_idx as i64,
            x + ax2,
            y + ay2,
            ax - ax2,
            ay - ay2,
            bx,
            by,
        );
    }
    // standard case: one step up, one long horizontal, one step down
    let (ax2, ay2) = first_part(ax, ay, false);
    let (bx2, by2) = first_part(bx, by, true);

    let ghost w1 = w as int / 2;
    let ghost h1 = even_half(h as int);
    let nxt_idx = cur_idx as i128 + area(abs(bx2 + by2), abs(ax2 + ay2));
    proof {
        lemma_curve_cell_wide(di as int, w as int, h as int);
        assert(h1 * w1 + w * (h - h1) + h1 * (w - w1) == w * h) by (nonlinear_arith);
    }
    if (dst_idx as i128) < nxt_idx {
        proof {
            lemma_cut_in_three(
                x as int,
                y as int,
                ax as int,
                ay as int,
                bx as int,
                by as int,
                w1,
                h1,
                curve_cell(di as int, h1, w1),
            );
        }
        return gilbert_d2xy_r(dst_idx, cur_idx, x, y, bx2, by2, ax2, ay2);
    }
    let cur_idx = nxt_idx as i64;

    let nxt_idx = nxt_idx + area(w, h - abs(bx2 + by2));
    if (dst_idx as i128) < nxt_idx {
        proof {
            lemma_cut_in_three(
                x as int,
                y as int,
                ax as int,
                ay as int,
                bx as int,
                by as int,
                w1,
                h1,
                curve_cell(di - h1 * w1, w as int, h - h1),
            );
        }
        return gilbert_d2xy_r(dst_idx, cur_idx, x + bx2, y + by2, ax, ay, bx - bx2, by - by2);
    }
    let cur_idx = nxt_idx as i64;

    proof {
        lemma_cut_in_three(
            x as int,
            y as int,
            ax as int,
            ay as int,
            bx as int,
            by as int,
            w1,
            h1,
            curve_cell(di - h1 * w1 - w * (h - h1), h1, w - w1),
        );
    }
    gilbert_d2xy_r(
        dst_idx,
        cur_idx,
        x + (ax - dax) + (bx2 - dbx),
        y + (ay - day) + (by2 - dby),
        -bx2,
        -by2,
        -(ax - ax2),
        -(ay - ay2),
    )
}

} // verus!
