//! Integer line rasterisation (Bresenham's algorithm, all octants).

use vstd::prelude::*;

verus! {

/// The absolute value of an integer.
pub open spec fn abs_int(v: int) -> int {
    if v < 0 { -v } else { v }
}

/// The step direction (+1 or -1) from `from` towards `to`; -1 when they are equal.
pub open spec fn step_dir(from: int, to: int) -> int {
    if from < to { 1 } else { -1 }
}

/// One step of the rasteriser: from the point `(x, y)` with error term `err`,
/// where `dx >= 0` is the horizontal extent and `dy <= 0` the negated vertical extent.
pub open spec fn line_step(x: int, y: int, err: int, dx: int, dy: int, sx: int, sy: int) -> (int, int, int) {
    let e2 = 2 * err;
    let (err1, nx) = if e2 >= dy { (err + dy, x + sx) } else { (err, x) };
    let (err2, ny) = if e2 <= dx { (err1 + dx, y + sy) } else { (err1, y) };
    (nx, ny, err2)
}

/// The points visited from state `(x, y, err)` until `(x1, y1)` is reached,
/// taking at most `fuel` points.
pub open spec fn line_trace_from(
    x: int, y: int, err: int, x1: int, y1: int, dx: int, dy: int, sx: int, sy: int, fuel: nat,
) -> Seq<(int, int)>
    decreases fuel,
{
    if fuel == 0 {
        Seq::empty()
    } else if x == x1 && y == y1 {
        seq![(x, y)]
    } else {
        let (nx, ny, ne) = line_step(x, y, err, dx, dy, sx, sy);
        seq![(x, y)] + line_trace_from(nx, ny, ne, x1, y1, dx, dy, sx, sy, (fuel - 1) as nat)
    }
}

/// The points that Bresenham's algorithm visits from `(x0, y0)` to `(x1, y1)`, in order.
pub open spec fn line_trace(x0: int, y0: int, x1: int, y1: int) -> Seq<(int, int)> {
    let dx = abs_int(x1 - x0);
    let dy = -abs_int(y1 - y0);
    line_trace_from(
        x0, y0, dx + dy, x1, y1, dx, dy, step_dir(x0, x1), step_dir(y0, y1), (dx - dy + 1) as nat,
    )
}

/// The integer view of a sequence of points.
pub open spec fn points_view(pts: Seq<(i32, i32)>) -> Seq<(int, int)> {
    pts.map_values(|p: (i32, i32)| (p.0 as int, p.1 as int))
}

/// Two points are equal or 8-neighbours (each coordinate differs by at most one).
pub open spec fn adjacent(p: (int, int), q: (int, int)) -> bool {
    abs_int(p.0 - q.0) <= 1 && abs_int(p.1 - q.1) <= 1
}

/// The point `p` lies in the box spanned by `(x0, y0)` and `(x1, y1)`.
pub open spec fn in_span(p: (i32, i32), x0: i32, y0: i32, x1: i32, y1: i32) -> bool {
    between(x0 as int, p.0 as int, x1 as int) && between(y0 as int, p.1 as int, y1 as int)
}

/// Twice the signed distance, along the minor axis and in units of the major
/// extent, between the point `p` and the ideal segment from `(x0, y0)` to `(x1, y1)`.
pub open spec fn line_deviation(p: (i32, i32), x0: i32, y0: i32, x1: i32, y1: i32) -> int {
    let a = abs_int(x1 - x0);
    let b = abs_int(y1 - y0);
    let i = abs_int(p.0 - x0);
    let j = abs_int(p.1 - y0);
    2 * (j * a - i * b)
}

/// The larger of two integers.
pub open spec fn max_int(a: int, b: int) -> int {
    if a >= b { a } else { b }
}

/// The `k`-th and `k + 1`-th points of `pts` are adjacent.
pub open spec fn step_adjacent(pts: Seq<(i32, i32)>, k: int) -> bool {
    adjacent((pts[k].0 as int, pts[k].1 as int), (pts[k + 1].0 as int, pts[k + 1].1 as int))
}

/// A coordinate `c` lies between `a` and `b`, inclusive.
pub open spec fn between(a: int, c: int, b: int) -> bool {
    (a <= c <= b) || (b <= c <= a)
}

proof fn lemma_mul_step(j: int, a: int)
    ensures
        (j + 1) * a == j * a + a,
{
    assert((j + 1) * a == j * a + a) by (nonlinear_arith);
}

proof fn lemma_mul_le(j: int, k: int, a: int)
    requires
        0 <= a,
        j <= k,
    ensures
        j * a <= k * a,
{
    assert(j * a <= k * a) by (nonlinear_arith)
        requires
            0 <= a,
            j <= k,
    ;
}

/// The points of the line from `(x0, y0)` to `(x1, y1)`, as drawn pixel by pixel.
pub fn line_points(x0: i32, y0: i32, x1: i32, y1: i32) -> (pts: Vec<(i32, i32)>)
    requires
        i32::MIN < x1 - x0 <= i32::MAX,
        i32::MIN < y1 - y0 <= i32::MAX,
    ensures
        points_view(pts@) == line_trace(x0 as int, y0 as int, x1 as int, y1 as int),
        pts@.len() == 1 + if abs_int(x1 - x0) >= abs_int(y1 - y0) { abs_int(x1 - x0) } else { abs_int(y1 - y0) },
        pts@[0] == (x0, y0),
        pts@.last() == (x1, y1),
        forall|k: int| 0 <= k < pts@.len() - 1 ==> #[trigger] step_adjacent(pts@, k),
        forall|k: int| 0 <= k < pts@.len() ==> #[trigger] in_span(pts@[k], x0, y0, x1, y1),
        forall|k: int| 0 <= k < pts@.len() ==> abs_int(#[trigger] line_deviation(pts@[k], x0, y0, x1, y1))
            <= max_int(abs_int(x1 - x0), abs_int(y1 - y0)),
{
    let ddx: i32 = x1 - x0;
    let ddy: i32 = y1 - y0;
    let dxi: i32 = if ddx < 0 { -ddx } else { ddx };
    let dyi: i32 = if ddy < 0 { ddy } else { -ddy };
    let sx: i32 = if x0 < x1 { 1 } else { -1 };
    let sy: i32 = if y0 < y1 { 1 } else { -1 };
    let dx: i64 = dxi as i64;
    let dy: i64 = dyi as i64;
    let mut err: i64 = dx + dy;
    let mut cx: i32 = x0;
    let mut cy: i32 = y0;
    let mut pts: Vec<(i32, i32)> = Vec::new();

    let ghost a: int = dx as int;
    let ghost bb: int = -(dy as int);
    let ghost mut i: int = 0;
    let ghost mut j: int = 0;
    let ghost mut fuel: nat = (a + bb + 1) as nat;
    let ghost full = line_trace(x0 as int, y0 as int, x1 as int, y1 as int);

    loop
        invariant_except_break
            a == abs_int(x1 - x0),
            bb == abs_int(y1 - y0),
            dx == a,
            dy == -bb,
            sx == step_dir(x0 as int, x1 as int),
            sy == step_dir(y0 as int, y1 as int),
            0 <= i <= a,
            0 <= j <= bb,
            cx == x0 + sx * i,
            cy == y0 + sy * j,
            err == a - bb + j * a - i * bb,
            -3 * bb <= 2 * err <= 3 * a,
            a >= bb ==> a - 2 * bb <= 2 * err <= 3 * a - 2 * bb,
            bb >= a ==> 2 * a - 3 * bb <= 2 * err <= 2 * a - bb,
            forall|k: int| 0 <= k < pts@.len() ==> abs_int(#[trigger] line_deviation(pts@[k], x0, y0, x1, y1))
                <= max_int(a, bb),
            pts@.len() == 0 ==> i == 0 && j == 0,
            a >= bb ==> 2 * err >= -bb && pts@.len() == i,
            bb >= a ==> 2 * err <= a && pts@.len() == j,
            fuel == a + bb + 1 - pts@.len(),
            (a - i) + (bb - j) + 1 <= fuel,
            points_view(pts@) + line_trace_from(cx as int, cy as int, err as int, x1 as int, y1 as int, dx as int, dy as int, sx as int, sy as int, fuel) == full,
            forall|k: int| 0 <= k < pts@.len() ==> #[trigger] in_span(pts@[k], x0, y0, x1, y1),
            pts@.len() > 0 ==> pts@[0] == (x0, y0),
            pts@.len() > 0 ==> adjacent((pts@.last().0 as int, pts@.last().1 as int), (cx as int, cy as int)),
            forall|k: int| 0 <= k < pts@.len() - 1 ==> #[trigger] step_adjacent(pts@, k),
        ensures
            cx == x1 && cy == y1,
            i == a && j == bb,
            pts@.len() == 1 + if a >= bb { a } else { bb },
            points_view(pts@) == full,
            pts@.last() == (x1, y1),
            pts@[0] == (x0, y0),
            forall|k: int| 0 <= k < pts@.len() ==> #[trigger] in_span(pts@[k], x0, y0, x1, y1),
            forall|k: int| 0 <= k < pts@.len() - 1 ==> #[trigger] step_adjacent(pts@, k),
            forall|k: int| 0 <= k < pts@.len() ==> abs_int(#[trigger] line_deviation(pts@[k], x0, y0, x1, y1))
                <= max_int(a, bb),
        decreases (a - i) + (bb - j),
    {
        let ghost old_pts = pts@;
        proof {
            if sx == 1 { assert(cx == x0 + i); } else { assert(cx == x0 - i); }
            if sy == 1 { assert(cy == y0 + j); } else { assert(cy == y0 - j); }
            assert(between(x0 as int, cx as int, x1 as int));
            assert(between(y0 as int, cy as int, y1 as int));
            assert(abs_int(cx - x0) == i && abs_int(cy - y0) == j);
            assert(line_deviation((cx, cy), x0, y0, x1, y1) == 2 * (j * a - i * bb));
            assert(abs_int(line_deviation((cx, cy), x0, y0, x1, y1)) <= max_int(a, bb));
        }
        pts.push((cx, cy));
        proof {
            assert(points_view(pts@) == points_view(old_pts) + seq![(cx as int, cy as int)]);
            assert(pts@[pts@.len() - 1] == (cx, cy));
            if old_pts.len() > 0 {
                assert(pts@[0] == old_pts[0]);
            }
            assert forall|k: int| 0 <= k < pts@.len() - 1 implies #[trigger] step_adjacent(pts@, k) by {
                if k < old_pts.len() - 1 {
                    assert(step_adjacent(old_pts, k));
                    assert(pts@[k] == old_pts[k] && pts@[k + 1] == old_pts[k + 1]);
                } else {
                    assert(pts@[k] == old_pts.last());
                }
            }
            assert forall|k: int| 0 <= k < pts@.len() implies #[trigger] in_span(pts@[k], x0, y0, x1, y1)
                && abs_int(line_deviation(pts@[k], x0, y0, x1, y1)) <= max_int(a, bb) by {
                if k < old_pts.len() {
                    assert(pts@[k] == old_pts[k]);
                }
            }
        }
        if cx == x1 && cy == y1 {
            proof {
                assert(line_trace_from(cx as int, cy as int, err as int, x1 as int, y1 as int, dx as int, dy as int, sx as int, sy as int, fuel) == seq![(cx as int, cy as int)]);
                if a >= bb { assert(i == a); } else { assert(j == bb); }
            }
            break;
        }
        let e2: i64 = 2 * err;
        let ghost old_err = err;
        let ghost ocx = cx;
        let ghost ocy = cy;
        proof {
            // Not at the end: no step can pass the end point.
            if i == a && j < bb {
                lemma_mul_le(j, bb - 1, a);
                assert((bb - 1) * a == a * bb - a) by (nonlinear_arith);
                assert(i * bb == a * bb) by (nonlinear_arith)
                    requires
                        i == a,
                ;
                assert(2 * err < -bb);
            }
            if j == bb && i < a {
                lemma_mul_le(i, a - 1, bb);
                assert((a - 1) * bb == a * bb - bb) by (nonlinear_arith);
                assert(j * a == a * bb) by (nonlinear_arith)
                    requires
                        j == bb,
                ;
                assert(2 * err > a);
            }
        }
        if e2 >= dy {
            err = err + dy;
            cx = cx + sx;
            proof {
                lemma_mul_step(i, bb);
                i = i + 1;
            }
        }
        if e2 <= dx {
            err = err + dx;
            cy = cy + sy;
            proof {
                lemma_mul_step(j, a);
                j = j + 1;
            }
        }
        proof {
            assert(adjacent((ocx as int, ocy as int), (cx as int, cy as int)));
            fuel = (fuel - 1) as nat;
            assert(line_step(ocx as int, ocy as int, old_err as int, dx as int, dy as int, sx as int, sy as int) == (cx as int, cy as int, err as int));
        }
    }
    pts
}

} // verus!
