//! The unit cube, with corners at (+-1, +-1, +-1), drawn when no mesh is loaded.

use vstd::prelude::*;

verus! {

/// A cube: its eight corners, the twelve edges between them and the twelve
/// triangles (two per face) that cover its surface.
pub struct Cube {
    pub vertices: Vec<(i32, i32, i32)>,
    pub edges: Vec<(usize, usize)>,
    pub triangles: Vec<(usize, usize, usize)>,
}

/// The cube's corners: the bottom face (z = -1) counter-clockwise, then the top face.
pub open spec fn cube_corners() -> Seq<(i32, i32, i32)> {
    seq![
        (-1i32, -1i32, -1i32), (1i32, -1i32, -1i32), (1i32, 1i32, -1i32), (-1i32, 1i32, -1i32),
        (-1i32, -1i32, 1i32), (1i32, -1i32, 1i32), (1i32, 1i32, 1i32), (-1i32, 1i32, 1i32),
    ]
}

/// The cube's edges: the bottom square, the top square, then the four uprights.
pub open spec fn cube_edges() -> Seq<(usize, usize)> {
    seq![
        (0usize, 1usize), (1usize, 2usize), (2usize, 3usize), (3usize, 0usize),
        (4usize, 5usize), (5usize, 6usize), (6usize, 7usize), (7usize, 4usize),
        (0usize, 4usize), (1usize, 5usize), (2usize, 6usize), (3usize, 7usize),
    ]
}

/// The cube's triangles: each face, a square `a b c d` of cube edges, is split
/// along its diagonal `a c` into `(a, b, c)` and `(a, c, d)`. The faces come in
/// the order bottom, top, front, right, back, left.
pub open spec fn cube_triangles() -> Seq<(usize, usize, usize)> {
    seq![
        (0usize, 1usize, 2usize), (0usize, 2usize, 3usize),
        (4usize, 5usize, 6usize), (4usize, 6usize, 7usize),
        (0usize, 1usize, 5usize), (0usize, 5usize, 4usize),
        (1usize, 2usize, 6usize), (1usize, 6usize, 5usize),
        (2usize, 3usize, 7usize), (2usize, 7usize, 6usize),
        (3usize, 0usize, 4usize), (3usize, 4usize, 7usize),
    ]
}

/// The face plane that the corners `p`, `q`, `r` share, as (axis, value): the
/// axis (0, 1, 2 for x, y, z) on which all three agree, and their common
/// coordinate there; `(3, 0)` when they share none.
pub open spec fn shared_plane(p: (i32, i32, i32), q: (i32, i32, i32), r: (i32, i32, i32)) -> (int, int) {
    if p.0 == q.0 && q.0 == r.0 {
        (0, p.0 as int)
    } else if p.1 == q.1 && q.1 == r.1 {
        (1, p.1 as int)
    } else if p.2 == q.2 && q.2 == r.2 {
        (2, p.2 as int)
    } else {
        (3, 0)
    }
}

/// The face plane of triangle `t` of the cube.
pub open spec fn triangle_plane(t: (usize, usize, usize)) -> (int, int) {
    shared_plane(cube_corners()[t.0 as int], cube_corners()[t.1 as int], cube_corners()[t.2 as int])
}

/// The number of coordinates in which `p` and `q` differ.
pub open spec fn coords_differing(p: (i32, i32, i32), q: (i32, i32, i32)) -> int {
    (if p.0 != q.0 { 1int } else { 0 }) + (if p.1 != q.1 { 1int } else { 0 }) + (if p.2 != q.2 { 1int } else { 0 })
}

/// `edges` joins vertices `i` and `j`, in either direction.
pub open spec fn joins(edges: Seq<(usize, usize)>, i: int, j: int) -> bool {
    exists|e: int| 0 <= e < edges.len() && (edges[e] == (i as usize, j as usize) || edges[e] == (j as usize, i as usize))
}

/// The shape is a cube: eight distinct corners at (+-1, +-1, +-1), twelve
/// edges each joining corners that differ in exactly one coordinate, and every
/// such pair of corners joined by an edge.
pub proof fn lemma_cube_shape()
    ensures
        cube_corners().len() == 8,
        cube_edges().len() == 12,
        forall|i: int| 0 <= i < 8 ==> {
            let p = #[trigger] cube_corners()[i];
            &&& (p.0 == 1 || p.0 == -1)
            &&& (p.1 == 1 || p.1 == -1)
            &&& (p.2 == 1 || p.2 == -1)
        },
        forall|i: int, j: int| 0 <= i < j < 8 ==> #[trigger] cube_corners()[i] != #[trigger] cube_corners()[j],
        forall|e: int| 0 <= e < 12 ==> {
            let (a, b) = #[trigger] cube_edges()[e];
            &&& a < 8 && b < 8
            &&& coords_differing(cube_corners()[a as int], cube_corners()[b as int]) == 1
        },
        forall|i: int, j: int|
            0 <= i < 8 && 0 <= j < 8 && #[trigger] coords_differing(cube_corners()[i], cube_corners()[j]) == 1
                ==> joins(cube_edges(), i, j),
{
    let v = cube_corners();
    let es = cube_edges();
    assert(es[0] == (0usize, 1usize) && es[1] == (1usize, 2usize) && es[2] == (2usize, 3usize)
        && es[3] == (3usize, 0usize) && es[4] == (4usize, 5usize) && es[5] == (5usize, 6usize)
        && es[6] == (6usize, 7usize) && es[7] == (7usize, 4usize) && es[8] == (0usize, 4usize)
        && es[9] == (1usize, 5usize) && es[10] == (2usize, 6usize) && es[11] == (3usize, 7usize));
    assert forall|i: int, j: int|
        0 <= i < 8 && 0 <= j < 8 && #[trigger] coords_differing(v[i], v[j]) == 1 implies joins(es, i, j) by {
        if i == 0 {
            if j == 1 { assert(es[0] == (0usize, 1usize)); }
            else if j == 3 { assert(es[3] == (3usize, 0usize)); }
            else { assert(j == 4); assert(es[8] == (0usize, 4usize)); }
        } else if i == 1 {
            if j == 0 { assert(es[0] == (0usize, 1usize)); }
            else if j == 2 { assert(es[1] == (1usize, 2usize)); }
            else { assert(j == 5); assert(es[9] == (1usize, 5usize)); }
        } else if i == 2 {
            if j == 1 { assert(es[1] == (1usize, 2usize)); }
            else if j == 3 { assert(es[2] == (2usize, 3usize)); }
            else { assert(j == 6); assert(es[10] == (2usize, 6usize)); }
        } else if i == 3 {
            if j == 2 { assert(es[2] == (2usize, 3usize)); }
            else if j == 0 { assert(es[3] == (3usize, 0usize)); }
            else { assert(j == 7); assert(es[11] == (3usize, 7usize)); }
        } else if i == 4 {
            if j == 5 { assert(es[4] == (4usize, 5usize)); }
            else if j == 7 { assert(es[7] == (7usize, 4usize)); }
            else { assert(j == 0); assert(es[8] == (0usize, 4usize)); }
        } else if i == 5 {
            if j == 4 { assert(es[4] == (4usize, 5usize)); }
            else if j == 6 { assert(es[5] == (5usize, 6usize)); }
            else { assert(j == 1); assert(es[9] == (1usize, 5usize)); }
        } else if i == 6 {
            if j == 5 { assert(es[5] == (5usize, 6usize)); }
            else if j == 7 { assert(es[6] == (6usize, 7usize)); }
            else { assert(j == 2); assert(es[10] == (2usize, 6usize)); }
        } else {
            if j == 6 { assert(es[6] == (6usize, 7usize)); }
            else if j == 4 { assert(es[7] == (7usize, 4usize)); }
            else { assert(j == 3); assert(es[11] == (3usize, 7usize)); }
        }
    }
}

/// The triangles tile the cube's surface: triangles `2f` and `2f + 1` split a
/// square face `a b c d` (each side a cube edge) along its diagonal `a c`, both
/// lie in that face's plane, and the six faces are six different planes.
pub proof fn lemma_cube_triangles()
    ensures
        cube_triangles().len() == 12,
        forall|f: int| 0 <= f < 6 ==> {
            let t1 = #[trigger] cube_triangles()[2 * f];
            let t2 = cube_triangles()[2 * f + 1];
            let (a, b, c) = t1;
            let d = t2.2;
            &&& t2.0 == a && t2.1 == c
            &&& a < 8 && b < 8 && c < 8 && d < 8
            &&& coords_differing(cube_corners()[a as int], cube_corners()[b as int]) == 1
            &&& coords_differing(cube_corners()[b as int], cube_corners()[c as int]) == 1
            &&& coords_differing(cube_corners()[c as int], cube_corners()[d as int]) == 1
            &&& coords_differing(cube_corners()[d as int], cube_corners()[a as int]) == 1
            &&& coords_differing(cube_corners()[a as int], cube_corners()[c as int]) == 2
            &&& coords_differing(cube_corners()[b as int], cube_corners()[d as int]) == 2
            &&& triangle_plane(t1).0 < 3
            &&& triangle_plane(t1) == triangle_plane(t2)
        },
        forall|f1: int, f2: int| 0 <= f1 < f2 < 6 ==> triangle_plane(#[trigger] cube_triangles()[2 * f1])
            != triangle_plane(#[trigger] cube_triangles()[2 * f2]),
{
    let v = cube_corners();
    let ts = cube_triangles();
    assert(v[0] == (-1i32, -1i32, -1i32) && v[1] == (1i32, -1i32, -1i32) && v[2] == (1i32, 1i32, -1i32)
        && v[3] == (-1i32, 1i32, -1i32) && v[4] == (-1i32, -1i32, 1i32) && v[5] == (1i32, -1i32, 1i32)
        && v[6] == (1i32, 1i32, 1i32) && v[7] == (-1i32, 1i32, 1i32));
    assert(triangle_plane(ts[0]) == (2int, -1int));
    assert(triangle_plane(ts[1]) == (2int, -1int));
    assert(triangle_plane(ts[2]) == (2int, 1int));
    assert(triangle_plane(ts[3]) == (2int, 1int));
    assert(triangle_plane(ts[4]) == (1int, -1int));
    assert(triangle_plane(ts[5]) == (1int, -1int));
    assert(triangle_plane(ts[6]) == (0int, 1int));
    assert(triangle_plane(ts[7]) == (0int, 1int));
    assert(triangle_plane(ts[8]) == (1int, 1int));
    assert(triangle_plane(ts[9]) == (1int, 1int));
    assert(triangle_plane(ts[10]) == (0int, -1int));
    assert(triangle_plane(ts[11]) == (0int, -1int));
    assert forall|f: int| 0 <= f < 6 implies {
        let t1 = #[trigger] ts[2 * f];
        let t2 = ts[2 * f + 1];
        let (a, b, c) = t1;
        let d = t2.2;
        &&& t2.0 == a && t2.1 == c
        &&& a < 8 && b < 8 && c < 8 && d < 8
        &&& coords_differing(v[a as int], v[b as int]) == 1
        &&& coords_differing(v[b as int], v[c as int]) == 1
        &&& coords_differing(v[c as int], v[d as int]) == 1
        &&& coords_differing(v[d as int], v[a as int]) == 1
        &&& coords_differing(v[a as int], v[c as int]) == 2
        &&& coords_differing(v[b as int], v[d as int]) == 2
        &&& triangle_plane(t1).0 < 3
        &&& triangle_plane(t1) == triangle_plane(t2)
    } by {
        if f == 0 {
        } else if f == 1 {
        } else if f == 2 {
        } else if f == 3 {
        } else if f == 4 {
        } else {
        }
    }
    assert forall|f1: int, f2: int| 0 <= f1 < f2 < 6 implies triangle_plane(#[trigger] ts[2 * f1])
        != triangle_plane(#[trigger] ts[2 * f2]) by {
        if f1 == 0 {
        } else if f1 == 1 {
        } else if f1 == 2 {
        } else if f1 == 3 {
        } else {
        }
    }
}

impl Cube {
    /// The cube with corners at (+-1, +-1, +-1).
    pub fn unit() -> (c: Self)
        ensures
            c.vertices@ == cube_corners(),
            c.edges@ == cube_edges(),
            c.triangles@ == cube_triangles(),
    {
        let vertices: Vec<(i32, i32, i32)> = vec![
            (-1, -1, -1), (1, -1, -1), (1, 1, -1), (-1, 1, -1),
            (-1, -1, 1), (1, -1, 1), (1, 1, 1), (-1, 1, 1),
        ];
        let edges: Vec<(usize, usize)> = vec![
            (0, 1), (1, 2), (2, 3), (3, 0), (4, 5), (5, 6), (6, 7), (7, 4),
            (0, 4), (1, 5), (2, 6), (3, 7),
        ];
        let triangles: Vec<(usize, usize, usize)> = vec![
            (0, 1, 2), (0, 2, 3), (4, 5, 6), (4, 6, 7), (0, 1, 5), (0, 5, 4),
            (1, 2, 6), (1, 6, 5), (2, 3, 7), (2, 7, 6), (3, 0, 4), (3, 4, 7),
        ];
        assert(vertices@ =~= cube_corners());
        assert(edges@ =~= cube_edges());
        assert(triangles@ =~= cube_triangles());
        Cube { vertices, edges, triangles }
    }
}

} // verus!
