use crate::bitplane::in_grid;
use crate::color::PixelColor;
use crate::drawing::{painted, CanvasView, DrawingPixelCanvas};
use vstd::prelude::*;

verus! {

pub open spec fn abs(v: int) -> int {
    if v < 0 {
        -v
    } else {
        v
    }
}

/// The direction of a step from `a` towards `b` along one axis.
pub open spec fn step_dir(a: int, b: int) -> int {
    if a < b {
        1
    } else {
        -1
    }
}

/// The cells that the line walk visits from `(x, y)` with error term `err`
/// until it reaches `(x1, y1)`: at each step it moves along x when
/// `2 * err >= dy` and along y when `2 * err <= dx`, adjusting the error
/// term by `dy` and `dx` in turn.
pub open spec fn line_walk(
    x: int,
    y: int,
    err: int,
    x1: int,
    y1: int,
    dx: int,
    dy: int,
    sx: int,
    sy: int,
    fuel: nat,
) -> Seq<(int, int)>
    decreases fuel,
{
    if fuel == 0 {
        Seq::empty()
    } else if x == x1 && y == y1 {
        seq![(x, y)]
    } else {
        let e2 = 2 * err;
        let nx = if e2 >= dy {
            x + sx
        } else {
            x
        };
        let err2 = if e2 >= dy {
            err + dy
        } else {
            err
        };
        let ny = if e2 <= dx {
            y + sy
        } else {
            y
        };
        let err3 = if e2 <= dx {
            err2 + dx
        } else {
            err2
        };
        seq![(x, y)] + line_walk(nx, ny, err3, x1, y1, dx, dy, sx, sy, (fuel - 1) as nat)
    }
}

/// The cells of the integer (Bresenham) line from `(x0, y0)` to `(x1, y1)`,
/// in drawing order.
pub open spec fn line_points(x0: int, y0: int, x1: int, y1: int) -> Seq<(int, int)> {
    let dx = abs(x1 - x0);
    let dy = -abs(y1 - y0);
    line_walk(
        x0,
        y0,
        dx + dy,
        x1,
        y1,
        dx,
        dy,
        step_dir(x0, x1),
        step_dir(y0, y1),
        (dx - dy + 1) as nat,
    )
}

/// `v` with every point of `pts` that lies inside the grid painted `c`, in
/// order.
pub open spec fn painted_all(v: CanvasView, pts: Seq<(int, int)>, c: PixelColor) -> CanvasView
    decreases pts.len(),
{
    if pts.len() == 0 {
        v
    } else {
        painted(painted_all(v, pts.drop_last(), c), pts.last().0, pts.last().1, c)
    }
}

/// A line whose two ends coincide is that single cell.
pub proof fn lemma_point_line(x: int, y: int)
    ensures
        line_points(x, y, x, y) == seq![(x, y)],
{
    reveal_with_fuel(line_walk, 2);
}

/// Painting keeps the size of the canvas.
pub proof fn lemma_painted_all_size(v: CanvasView, pts: Seq<(int, int)>, c: PixelColor)
    requires
        crate::drawing::view_wf(v),
    ensures
        painted_all(v, pts, c).width == v.width,
        painted_all(v, pts, c).height == v.height,
        painted_all(v, pts, c).cells.len() == v.cells.len(),
    decreases pts.len(),
{
    if pts.len() > 0 {
        lemma_painted_all_size(v, pts.drop_last(), c);
        let p = pts.last();
        if in_grid(v.width, v.height, p.0, p.1) {
            crate::bitplane::lemma_index_in_grid(v.width, v.height, p.0, p.1);
        }
    }
}

proof fn lemma_painted_push(v: CanvasView, pts: Seq<(int, int)>, p: (int, int), c: PixelColor)
    ensures
        painted_all(v, pts.push(p), c) == painted(painted_all(v, pts, c), p.0, p.1, c),
{
    assert(pts.push(p).drop_last() =~= pts);
}

/// The error term cannot push a coordinate past its end point.
proof fn lemma_step_bounds(dx: int, ddy: int, nx: int, ny: int, err: int)
    requires
        0 <= nx <= dx,
        0 <= ny <= ddy,
        err == dx * (1 + ny) - ddy * (1 + nx),
        !(nx == dx && ny == ddy),
    ensures
        2 * err >= -ddy ==> nx < dx,
        2 * err <= dx ==> ny < ddy,
{
    if nx == dx {
        assert(dx * (1 + ny) <= dx * ddy) by (nonlinear_arith)
            requires
                0 <= dx,
                1 + ny <= ddy,
        ;
        assert(ddy * (1 + nx) == ddy + ddy * dx) by (nonlinear_arith)
            requires
                nx == dx,
        ;
        assert(dx * ddy == ddy * dx) by (nonlinear_arith);
    }
    if ny == ddy {
        assert(ddy * (1 + nx) <= ddy * dx) by (nonlinear_arith)
            requires
                0 <= ddy,
                1 + nx <= dx,
        ;
        assert(dx * (1 + ny) == dx + dx * ddy) by (nonlinear_arith)
            requires
                ny == ddy,
        ;
        assert(dx * ddy == ddy * dx) by (nonlinear_arith);
    }
}

proof fn lemma_err_shift(dx: int, ddy: int, nx: int, ny: int)
    ensures
        dx * (1 + ny) - ddy * (1 + (nx + 1)) == dx * (1 + ny) - ddy * (1 + nx) - ddy,
        dx * (1 + (ny + 1)) - ddy * (1 + nx) == dx * (1 + ny) - ddy * (1 + nx) + dx,
{
    assert(ddy * (1 + (nx + 1)) == ddy * (1 + nx) + ddy) by (nonlinear_arith);
    assert(dx * (1 + (ny + 1)) == dx * (1 + ny) + dx) by (nonlinear_arith);
}

/// The cells of the integer line from `(x0, y0)` to `(x1, y1)`, in drawing
/// order. The walk never leaves the box spanned by the two end points, so
/// every cell has unsigned coordinates.
pub fn line_cells(x0: usize, y0: usize, x1: usize, y1: usize) -> (r: Vec<(usize, usize)>)
    ensures
        r@.len() == line_points(x0 as int, y0 as int, x1 as int, y1 as int).len(),
        forall|k: int|
            0 <= k < r@.len() ==> ((#[trigger] r@[k]).0 as int, r@[k].1 as int) == line_points(
                x0 as int,
                y0 as int,
                x1 as int,
                y1 as int,
            )[k],
{
    let ghost full = line_points(x0 as int, y0 as int, x1 as int, y1 as int);
    let mut out: Vec<(usize, usize)> = Vec::new();
    if x0 == x1 && y0 == y1 {
        out.push((x0, y0));
        proof {
            lemma_point_line(x0 as int, y0 as int);
        }
        return out;
    }
    let xs = x0 as i128;
    let ys = y0 as i128;
    let xe = x1 as i128;
    let ye = y1 as i128;
    let dx: i128 = if xe >= xs {
        xe - xs
    } else {
        xs - xe
    };
    let ddy: i128 = if ye >= ys {
        ye - ys
    } else {
        ys - ye
    };
    let dy: i128 = -ddy;
    let sx: i128 = if xs < xe {
        1
    } else {
        -1
    };
    let sy: i128 = if ys < ye {
        1
    } else {
        -1
    };
    let mut err: i128 = dx + dy;
    let mut x: i128 = xs;
    let mut y: i128 = ys;
    let ghost mut done: Seq<(int, int)> = Seq::empty();
    let ghost mut fuel: nat = (dx - dy + 1) as nat;
    assert(done + full =~= full);
    assert(dx * (1 + 0) - ddy * (1 + 0) == dx - ddy) by (nonlinear_arith);
    loop
        invariant_except_break
            xs == x0 as int,
            ys == y0 as int,
            xe == x1 as int,
            ye == y1 as int,
            !(xs == xe && ys == ye),
            dx == abs(x1 - x0),
            ddy == abs(y1 - y0),
            dy == -ddy,
            sx == step_dir(x0 as int, x1 as int),
            sy == step_dir(y0 as int, y1 as int),
            (sx == 1 && xs <= x <= xe) || (sx == -1 && xe <= x <= xs),
            (sy == 1 && ys <= y <= ye) || (sy == -1 && ye <= y <= ys),
            err == dx * (1 + abs(y - ys)) - ddy * (1 + abs(x - xs)),
            -2 * ddy <= err <= 2 * dx,
            done.len() <= abs(x - xs) + abs(y - ys),
            fuel == dx + ddy + 1 - done.len(),
            done + line_walk(x as int, y as int, err as int, x1 as int, y1 as int, dx as int, dy as int, sx as int, sy as int, fuel) == full,
            out@.len() == done.len(),
            forall|k: int| 0 <= k < out@.len() ==> ((#[trigger] out@[k]).0 as int, out@[k].1 as int) == done[k],
        ensures
            out@.len() == full.len(),
            forall|k: int| 0 <= k < out@.len() ==> ((#[trigger] out@[k]).0 as int, out@[k].1 as int) == full[k],
        decreases abs(xe - x) + abs(ye - y),
    {
        let ghost wx = x as int;
        let ghost wy = y as int;
        let ghost werr = err as int;
        let ghost out0 = out@;
        out.push((x as usize, y as usize));
        assert(fuel >= 1);
        if x == xe && y == ye {
            proof {
                assert(line_walk(wx, wy, werr, x1 as int, y1 as int, dx as int, dy as int, sx as int, sy as int, fuel) == seq![(wx, wy)]);
                assert(done + seq![(wx, wy)] =~= done.push((wx, wy)));
                assert(done.push((wx, wy)) == full);
                assert forall|k: int| 0 <= k < out@.len() implies ((#[trigger] out@[k]).0 as int, out@[k].1 as int) == full[k] by {
                    if k < done.len() {
                        assert(out@[k] == out0[k]);
                    }
                }
            }
            break;
        }
        proof {
            lemma_step_bounds(dx as int, ddy as int, abs(wx - xs), abs(wy - ys), werr);
            lemma_err_shift(dx as int, ddy as int, abs(wx - xs), abs(wy - ys));
        }
        let e2 = 2 * err;
        if e2 >= dy {
            err = err + dy;
            x = x + sx;
        }
        if e2 <= dx {
            proof {
                lemma_err_shift(dx as int, ddy as int, abs(x - xs), abs(wy - ys));
            }
            err = err + dx;
            y = y + sy;
        }
        proof {
            let p = (wx, wy);
            let rest = line_walk(x as int, y as int, err as int, x1 as int, y1 as int, dx as int, dy as int, sx as int, sy as int, (fuel - 1) as nat);
            assert(line_walk(wx, wy, werr, x1 as int, y1 as int, dx as int, dy as int, sx as int, sy as int, fuel) == seq![p] + rest);
            assert(done.push(p) + rest =~= done + (seq![p] + rest));
            assert forall|k: int| 0 <= k < out@.len() implies ((#[trigger] out@[k]).0 as int, out@[k].1 as int) == done.push(p)[k] by {
                if k < done.len() {
                    assert(out@[k] == out0[k]);
                }
            }
            done = done.push(p);
            fuel = (fuel - 1) as nat;
        }
    }
    out
}

impl DrawingPixelCanvas {
    /// Draws the integer (Bresenham) line from `(x0, y0)` to `(x1, y1)`
    /// inclusive; cells of the walk outside the grid are skipped.
    pub fn draw_line(&mut self, x0: usize, y0: usize, x1: usize, y1: usize, color: PixelColor)
        requires
            old(self).wf(),
        ensures
            final(self).wf(),
            final(self)@ == painted_all(
                old(self)@,
                line_points(x0 as int, y0 as int, x1 as int, y1 as int),
                color,
            ),
    {
        let ghost pre = self@;
        let ghost full = line_points(x0 as int, y0 as int, x1 as int, y1 as int);
        if x0 == x1 && y0 == y1 {
            self.draw_pixel_ignore(x0, y0, color);
            proof {
                lemma_point_line(x0 as int, y0 as int);
                lemma_painted_push(pre, Seq::empty(), (x0 as int, y0 as int), color);
                assert(Seq::<(int, int)>::empty().push((x0 as int, y0 as int)) =~= full);
            }
            return;
        }
        let cells = line_cells(x0, y0, x1, y1);
        let mut k: usize = 0;
        assert(full.subrange(0, 0) =~= Seq::<(int, int)>::empty());
        while k < cells.len()
            invariant
                self.wf(),
                cells@.len() == full.len(),
                forall|j: int| 0 <= j < cells@.len() ==> ((#[trigger] cells@[j]).0 as int, cells@[j].1 as int) == full[j],
                k <= cells@.len(),
                self@ == painted_all(pre, full.subrange(0, k as int), color),
            decreases cells@.len() - k,
        {
            let (x, y) = cells[k];
            self.draw_pixel_ignore(x, y, color);
            proof {
                assert(full.subrange(0, k as int + 1) =~= full.subrange(0, k as int).push(full[k as int]));
                lemma_painted_push(pre, full.subrange(0, k as int), full[k as int], color);
            }
            k = k + 1;
        }
        assert(full.subrange(0, k as int) =~= full);
    }
}

} // verus!
