//! Grid line of sight along a Bresenham line.
use vstd::prelude::*;
use crate::geometry::{abs, IVec2};

verus! {

pub open spec fn sign(v: int) -> int {
    if v > 0 { 1 } else if v < 0 { -1 } else { 0 }
}

/// One Bresenham step from `(x, y)` with error `e` on a line with absolute
/// deltas `dx`, `dy` and signs `sx`, `sy`.
pub open spec fn line_step(x: int, y: int, e: int, dx: int, dy: int, sx: int, sy: int) -> (int, int, int) {
    let doubled = 2 * e;
    let (x1, e1) = if doubled > -dy { (x + sx, e - dy) } else { (x, e) };
    let (y1, e2) = if doubled < dx { (y + sy, e1 + dx) } else { (y, e1) };
    (x1, y1, e2)
}

/// The cells visited from `(x, y)` with error `e` until reaching `to` (at
/// most `fuel` steps), the last one being `to`.
pub open spec fn trace(to: IVec2, x: int, y: int, e: int, dx: int, dy: int, sx: int, sy: int, fuel: nat) -> Seq<IVec2>
    decreases fuel,
{
    if (x == to.x && y == to.y) || fuel == 0 {
        Seq::empty()
    } else {
        let (x1, y1, e1) = line_step(x, y, e, dx, dy, sx, sy);
        seq![IVec2 { x: x1 as i32, y: y1 as i32 }] + trace(to, x1, y1, e1, dx, dy, sx, sy, (fuel - 1) as nat)
    }
}

/// The cells of the Bresenham line from `from` to `to`, excluding `from`
/// and ending with `to` (empty when they coincide).
pub open spec fn line_cells(from: IVec2, to: IVec2) -> Seq<IVec2> {
    let dx = abs(to.x - from.x);
    let dy = abs(to.y - from.y);
    trace(to, from.x as int, from.y as int, dx - dy, dx, dy, sign(to.x - from.x), sign(to.y - from.y), (dx + dy) as nat)
}

/// The line can be traced in `i32` (its deltas fit).
pub open spec fn line_fits(from: IVec2, to: IVec2) -> bool {
    &&& i32::MIN < to.x - from.x <= i32::MAX
    &&& i32::MIN < to.y - from.y <= i32::MAX
}

/// Whether every cell strictly between `from` and `to` on the Bresenham line
/// is clear; the end points themselves are not tested, and only cells
/// strictly between them are handed to `blocked`. Cells are tested in order
/// and the walk stops at the first blocked one.
pub fn line_clear(from: IVec2, to: IVec2, blocked: impl Fn(IVec2) -> bool) -> (r: bool)
    requires
        line_fits(from, to),
        forall|k: int| 0 <= k < line_cells(from, to).len() - 1 ==> blocked.requires((#[trigger] line_cells(from, to)[k],)),
    ensures
        r ==> forall|k: int| 0 <= k < line_cells(from, to).len() - 1
            ==> blocked.ensures((line_cells(from, to)[k],), false),
        !r ==> exists|k: int| 0 <= k < line_cells(from, to).len() - 1
            && blocked.ensures((line_cells(from, to)[k],), true),
{
    let ddx: i32 = to.x - from.x;
    let ddy: i32 = to.y - from.y;
    let dx: i64 = if ddx < 0 { -(ddx as i64) } else { ddx as i64 };
    let dy: i64 = if ddy < 0 { -(ddy as i64) } else { ddy as i64 };
    let sx: i32 = if ddx > 0 { 1 } else if ddx < 0 { -1 } else { 0 };
    let sy: i32 = if ddy > 0 { 1 } else if ddy < 0 { -1 } else { 0 };
    let mut error: i64 = dx - dy;
    let mut at = from;
    let ghost cells = line_cells(from, to);
    let ghost mut i: int = 0;
    let ghost mut j: int = 0;
    let ghost mut k: int = 0;
    let ghost fuel: nat = (dx + dy) as nat;
    while at.x != to.x || at.y != to.y
        invariant
            line_fits(from, to),
            forall|m: int| 0 <= m < line_cells(from, to).len() - 1 ==> blocked.requires((#[trigger] line_cells(from, to)[m],)),
            cells == line_cells(from, to),
            dx == abs(to.x - from.x),
            dy == abs(to.y - from.y),
            sx == sign(to.x - from.x),
            sy == sign(to.y - from.y),
            0 <= i <= dx,
            0 <= j <= dy,
            at.x == from.x + i * sx,
            at.y == from.y + j * sy,
            error == dx - dy - i * dy + j * dx,
            -2 * dy <= error <= 2 * dx,
            0 <= k <= i + j,
            k <= fuel,
            fuel == dx + dy,
            trace(to, at.x as int, at.y as int, error as int, dx as int, dy as int, sx as int, sy as int, (fuel - k) as nat)
                == cells.skip(k),
            k <= cells.len(),
            forall|m: int| 0 <= m < k && m < cells.len() - 1 ==> blocked.ensures((cells[m],), false),
        decreases (dx - i) + (dy - j),
    {
        proof {
            // Not there yet: some axis has a step left.
            if i == dx && j == dy {
                assert(at.x == to.x) by (nonlinear_arith)
                    requires at.x == from.x + i * sx, i == dx, dx == abs(to.x - from.x), sx == sign(to.x - from.x);
                assert(at.y == to.y) by (nonlinear_arith)
                    requires at.y == from.y + j * sy, j == dy, dy == abs(to.y - from.y), sy == sign(to.y - from.y);
            }
        }
        let doubled: i64 = 2 * error;
        let ghost e0 = error;
        let ghost at0 = at;
        if doubled > -dy {
            proof {
                // The x axis never overshoots.
                if i == dx {
                    assert(2 * e0 <= -2 * dy) by (nonlinear_arith)
                        requires e0 == dx - dy - i * dy + j * dx, i == dx, j < dy || dy == 0, j <= dy, dx >= 0, dy >= 0,
                            i != dx || j != dy;
                }
            }
            error = error - dy;
            at.x = at.x + sx;
            proof { i = i + 1; }
        }
        if doubled < dx {
            proof {
                if j == dy {
                    assert(2 * e0 >= 2 * dx) by (nonlinear_arith)
                        requires e0 == dx - dy - (i - (if doubled > -dy { 1int } else { 0 })) * dy + j * dx,
                            j == dy, i - (if doubled > -dy { 1int } else { 0 }) < dx || dx == 0,
                            i - (if doubled > -dy { 1int } else { 0 }) <= dx, dx >= 0, dy >= 0,
                            i - (if doubled > -dy { 1int } else { 0 }) != dx || j != dy;
                }
            }
            error = error + dx;
            at.y = at.y + sy;
            proof { j = j + 1; }
        }
        proof {
            assert(at.x == from.x + i * sx) by (nonlinear_arith)
                requires at.x == at0.x + (if doubled > -dy { sx as int } else { 0 }),
                    at0.x == from.x + (i - (if doubled > -dy { 1int } else { 0 })) * sx;
            assert(at.y == from.y + j * sy) by (nonlinear_arith)
                requires at.y == at0.y + (if doubled < dx { sy as int } else { 0 }),
                    at0.y == from.y + (j - (if doubled < dx { 1int } else { 0 })) * sy;
            assert(error == dx - dy - i * dy + j * dx) by (nonlinear_arith)
                requires error == e0 - (if doubled > -dy { dy as int } else { 0 }) + (if doubled < dx { dx as int } else { 0 }),
                    e0 == dx - dy - (i - (if doubled > -dy { 1int } else { 0 })) * dy + (j - (if doubled < dx { 1int } else { 0 })) * dx;
            let step = line_step(at0.x as int, at0.y as int, e0 as int, dx as int, dy as int, sx as int, sy as int);
            assert(step == (at.x as int, at.y as int, error as int));
            assert(k < fuel);
            let rest = trace(to, at.x as int, at.y as int, error as int, dx as int, dy as int, sx as int, sy as int, (fuel - k - 1) as nat);
            assert(cells.skip(k) == seq![at] + rest);
            assert(cells[k] == cells.skip(k)[0]);
            assert(cells.skip(k + 1) =~= cells.skip(k).skip(1));
            assert(cells.skip(k + 1) == rest);
        }
        if at.x != to.x || at.y != to.y {
            proof {
                assert(k + 1 < cells.len()) by {
                    assert(k + 1 < fuel) by (nonlinear_arith)
                        requires k <= i + j - 1, i <= dx, j <= dy, fuel == dx + dy, i < dx || j < dy;
                    assert(cells.skip(k + 1).len() > 0);
                }
                assert(cells[k] == at);
            }
            if blocked(at) {
                proof {
                    assert(k < cells.len() - 1);
                }
                return false;
            }
        }
        proof { k = k + 1; }
    }
    true
}

} // verus!
