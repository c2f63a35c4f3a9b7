//! The topology of an STL mesh: facet corners that fall on the same grid point
//! are merged into one vertex, and each facet becomes a triangle with three edges.

use vstd::prelude::*;
use std::collections::BTreeMap;

verus! {

/// A vertex position quantised to an integer grid; corners with equal keys are one vertex.
pub type GridKey = (i32, i32, i32);

/// The vertices, edges and triangles of a mesh, as indices.
pub struct MeshTopology {
    /// For each vertex, the facet corner `(facet, corner)` where it first appears.
    pub vertex_sources: Vec<(usize, usize)>,
    /// Three edges per triangle: `(a, b)`, `(b, c)` and `(c, a)`.
    pub edges: Vec<(usize, usize)>,
    /// One triangle per facet: the vertex index of each of its corners.
    pub triangles: Vec<(usize, usize, usize)>,
}

/// `(facet, corner)` names a corner of one of `n` facets.
pub open spec fn is_corner(n: int, c: (usize, usize)) -> bool {
    c.0 < n && c.1 < 3
}

/// The grid key of corner `c`.
pub open spec fn key_at(facets: Seq<[GridKey; 3]>, c: (usize, usize)) -> GridKey {
    facets[c.0 as int][c.1 as int]
}

/// Corner `c` comes before corner `d` when the facets are read in order, corner by corner.
pub open spec fn corner_before(c: (usize, usize), d: (usize, usize)) -> bool {
    c.0 < d.0 || (c.0 == d.0 && c.1 < d.1)
}

/// The vertex index of corner `k` (0, 1 or 2) of triangle `t`.
pub open spec fn tri_vertex(t: (usize, usize, usize), k: int) -> usize {
    if k == 0 {
        t.0
    } else if k == 1 {
        t.1
    } else {
        t.2
    }
}

/// The three edges of triangle `t` stand at `3 * i ..= 3 * i + 2` in `edges`.
pub open spec fn edges_of(edges: Seq<(usize, usize)>, i: int, t: (usize, usize, usize)) -> bool {
    &&& edges[3 * i] == (t.0, t.1)
    &&& edges[3 * i + 1] == (t.1, t.2)
    &&& edges[3 * i + 2] == (t.2, t.0)
}

/// The vertex sources are in order of first appearance, and each is the first
/// corner that carries its key.
pub open spec fn sources_first_seen(facets: Seq<[GridKey; 3]>, src: Seq<(usize, usize)>) -> bool {
    &&& forall|j: int| 0 <= j < src.len() ==> is_corner(facets.len() as int, #[trigger] src[j])
    &&& forall|j1: int, j2: int| 0 <= j1 < j2 < src.len() ==> corner_before(#[trigger] src[j1], #[trigger] src[j2])
    &&& forall|j: int, c: (usize, usize)|
        0 <= j < src.len() && is_corner(facets.len() as int, c) && #[trigger] corner_before(c, src[j])
            ==> key_at(facets, c) != key_at(facets, src[j])
}

/// Triangle `i` lists, for each corner of facet `i`, the vertex with that corner's key.
pub open spec fn triangle_matches(
    facets: Seq<[GridKey; 3]>,
    src: Seq<(usize, usize)>,
    t: (usize, usize, usize),
    i: int,
) -> bool {
    forall|k: int| 0 <= k < 3 ==> {
        &&& #[trigger] tri_vertex(t, k) < src.len()
        &&& key_at(facets, src[tri_vertex(t, k) as int]) == facets[i][k]
    }
}

impl MeshTopology {
    /// This is the topology of `facets`: vertices are the distinct grid keys in
    /// order of first appearance, each triangle names the vertices of its facet's
    /// corners, and each triangle contributes its three edges.
    pub open spec fn is_topology_of(&self, facets: Seq<[GridKey; 3]>) -> bool {
        let src = self.vertex_sources@;
        &&& sources_first_seen(facets, src)
        &&& self.triangles@.len() == facets.len()
        &&& forall|i: int| 0 <= i < facets.len() ==> triangle_matches(facets, src, #[trigger] self.triangles@[i], i)
        &&& self.edges@.len() == 3 * facets.len()
        &&& forall|i: int| 0 <= i < facets.len() ==> edges_of(self.edges@, i, #[trigger] self.triangles@[i])
    }
}

/// The map from grid keys to vertex indices describes the vertex sources.
spec fn map_matches(facets: Seq<[GridKey; 3]>, src: Seq<(usize, usize)>, m: Map<GridKey, usize>) -> bool {
    &&& forall|j: int| 0 <= j < src.len() ==> #[trigger] m.contains_key(key_at(facets, src[j]))
        && m[key_at(facets, src[j])] == j
    &&& forall|key: GridKey| #[trigger] m.contains_key(key) ==> m[key] < src.len()
        && key_at(facets, src[m[key] as int]) == key
}

/// Every corner before `c` has its key in the map.
spec fn seen_before(facets: Seq<[GridKey; 3]>, m: Map<GridKey, usize>, c: (usize, usize)) -> bool {
    forall|d: (usize, usize)| is_corner(facets.len() as int, d) && #[trigger] corner_before(d, c)
        ==> m.contains_key(key_at(facets, d))
}

/// Finds the vertex of corner `(i, k)`, adding a new vertex when its key is new.
fn vertex_of(
    facets: &Vec<[GridKey; 3]>,
    i: usize,
    k: usize,
    map: &mut BTreeMap<GridKey, usize>,
    sources: &mut Vec<(usize, usize)>,
) -> (v: usize)
    requires
        i < facets@.len(),
        i < usize::MAX,
        k < 3,
        sources_first_seen(facets@, old(sources)@),
        map_matches(facets@, old(sources)@, old(map)@),
        seen_before(facets@, old(map)@, (i, k)),
        forall|j: int| 0 <= j < old(sources)@.len() ==> #[trigger] corner_before(old(sources)@[j], (i, k)),
    ensures
        sources_first_seen(facets@, final(sources)@),
        map_matches(facets@, final(sources)@, final(map)@),
        seen_before(facets@, final(map)@, (i, (k + 1) as usize)),
        k + 1 == 3 ==> seen_before(facets@, final(map)@, ((i + 1) as usize, 0)),
        forall|j: int| 0 <= j < final(sources)@.len() ==> #[trigger] corner_before(final(sources)@[j], (i, (k + 1) as usize)),
        k + 1 == 3 ==> forall|j: int| 0 <= j < final(sources)@.len() ==> #[trigger] corner_before(final(sources)@[j], ((i + 1) as usize, 0)),
        old(sources)@.is_prefix_of(final(sources)@),
        forall|key: GridKey| #[trigger] old(map)@.contains_key(key) ==> final(map)@.contains_key(key) && final(map)@[key] == old(map)@[key],
        v < final(sources)@.len(),
        key_at(facets@, final(sources)@[v as int]) == facets@[i as int][k as int],
{
    let key = facets[i][k];
    assert(key == key_at(facets@, (i, k)));
    let v = match map.get(&key) {
        Some(idx) => {
            let v = *idx;
            v
        },
        None => {
            let v = sources.len();
            proof {
                // No earlier corner carries this key.
                assert forall|d: (usize, usize)| is_corner(facets@.len() as int, d) && #[trigger] corner_before(d, (i, k))
                    implies key_at(facets@, d) != key by {
                    assert(map@.contains_key(key_at(facets@, d)));
                }
            }
            map.insert(key, v);
            sources.push((i, k));
            proof {
                let src = sources@;
                assert(src[v as int] == (i, k));
                assert forall|j: int| 0 <= j < src.len() - 1 implies src[j] == old(sources)@[j] by {}
                assert forall|j1: int, j2: int| 0 <= j1 < j2 < src.len() implies corner_before(#[trigger] src[j1], #[trigger] src[j2]) by {
                    if j2 == src.len() - 1 {
                        assert(corner_before(old(sources)@[j1], (i, k)));
                    }
                }
                assert forall|j: int, c: (usize, usize)|
                    0 <= j < src.len() && is_corner(facets@.len() as int, c) && #[trigger] corner_before(c, src[j]) implies key_at(facets@, c) != key_at(facets@, src[j]) by {
                    if j < src.len() - 1 {
                        assert(src[j] == old(sources)@[j]);
                    }
                }
                assert forall|j: int| 0 <= j < src.len() implies #[trigger] map@.contains_key(key_at(facets@, src[j]))
                    && map@[key_at(facets@, src[j])] == j by {
                    if j < src.len() - 1 {
                        assert(src[j] == old(sources)@[j]);
                        assert(old(map)@.contains_key(key_at(facets@, old(sources)@[j])));
                    }
                }
                assert forall|kk: GridKey| #[trigger] map@.contains_key(kk) implies map@[kk] < src.len()
                    && key_at(facets@, src[map@[kk] as int]) == kk by {
                    if kk != key {
                        assert(old(map)@.contains_key(kk));
                        assert(src[old(map)@[kk] as int] == old(sources)@[old(map)@[kk] as int]);
                    }
                }
                assert(old(sources)@ =~= src.take(old(sources)@.len() as int));
            }
            v
        },
    };
    proof {
        assert(map@.contains_key(key));
        assert forall|j: int| 0 <= j < sources@.len() implies #[trigger] corner_before(sources@[j], (i, (k + 1) as usize)) by {
            if j < old(sources)@.len() {
                assert(sources@[j] == old(sources)@[j]);
                assert(corner_before(old(sources)@[j], (i, k)));
            } else {
                assert(sources@[j] == (i, k));
            }
        }
        if k + 1 == 3 {
            assert forall|j: int| 0 <= j < sources@.len() implies #[trigger] corner_before(sources@[j], ((i + 1) as usize, 0)) by {
                if j < old(sources)@.len() {
                    assert(sources@[j] == old(sources)@[j]);
                    assert(corner_before(old(sources)@[j], (i, k)));
                } else {
                    assert(sources@[j] == (i, k));
                }
            }
        }
        assert forall|d: (usize, usize)| is_corner(facets@.len() as int, d) && #[trigger] corner_before(d, (i, (k + 1) as usize))
            implies map@.contains_key(key_at(facets@, d)) by {
            if d != (i, k) {
                assert(corner_before(d, (i, k)));
                assert(old(map)@.contains_key(key_at(facets@, d)));
            }
        }
        if k + 1 == 3 {
            assert forall|d: (usize, usize)| is_corner(facets@.len() as int, d) && #[trigger] corner_before(d, ((i + 1) as usize, 0))
                implies map@.contains_key(key_at(facets@, d)) by {
                if d != (i, k) {
                    assert(corner_before(d, (i, k)));
                    assert(old(map)@.contains_key(key_at(facets@, d)));
                }
            }
        }
    }
    v
}

impl MeshTopology {
    /// Builds the topology of a mesh whose facets have the grid keys `facets`.
    pub fn from_facets(facets: &Vec<[GridKey; 3]>) -> (r: MeshTopology)
        requires
            facets@.len() * 3 <= usize::MAX,
        ensures
            r.is_topology_of(facets@),
    {
        let mut map: BTreeMap<GridKey, usize> = BTreeMap::new();
        let mut vertex_sources: Vec<(usize, usize)> = Vec::new();
        let mut edges: Vec<(usize, usize)> = Vec::new();
        let mut triangles: Vec<(usize, usize, usize)> = Vec::new();
        let n = facets.len();
        let mut i: usize = 0;
        while i < n
            invariant
                n == facets@.len(),
                n * 3 <= usize::MAX,
                i <= n,
                sources_first_seen(facets@, vertex_sources@),
                map_matches(facets@, vertex_sources@, map@),
                seen_before(facets@, map@, (i, 0)),
                forall|j: int| 0 <= j < vertex_sources@.len() ==> #[trigger] corner_before(vertex_sources@[j], (i, 0)),
                triangles@.len() == i,
                edges@.len() == 3 * i,
                forall|t: int| 0 <= t < i ==> triangle_matches(facets@, vertex_sources@, #[trigger] triangles@[t], t),
                forall|t: int| 0 <= t < i ==> edges_of(edges@, t, #[trigger] triangles@[t]),
            decreases n - i,
        {
            let ghost src0 = vertex_sources@;
            let a = vertex_of(facets, i, 0, &mut map, &mut vertex_sources);
            let b = vertex_of(facets, i, 1, &mut map, &mut vertex_sources);
            let c = vertex_of(facets, i, 2, &mut map, &mut vertex_sources);
            let ghost src = vertex_sources@;
            proof {
                assert(src0.is_prefix_of(src));
                assert forall|t: int| 0 <= t < i implies triangle_matches(facets@, src, #[trigger] triangles@[t], t) by {
                    assert(triangle_matches(facets@, src0, triangles@[t], t));
                    assert forall|k: int| 0 <= k < 3 implies {
                        &&& #[trigger] tri_vertex(triangles@[t], k) < src.len()
                        &&& key_at(facets@, src[tri_vertex(triangles@[t], k) as int]) == facets@[t][k]
                    } by {
                        assert(tri_vertex(triangles@[t], k) < src0.len());
                        assert(src[tri_vertex(triangles@[t], k) as int] == src0[tri_vertex(triangles@[t], k) as int]);
                    }
                }
            }
            let ghost old_tris = triangles@;
            let ghost old_edges = edges@;
            triangles.push((a, b, c));
            edges.push((a, b));
            edges.push((b, c));
            edges.push((c, a));
            proof {
                assert(triangle_matches(facets@, src, (a, b, c), i as int)) by {
                    assert forall|k: int| 0 <= k < 3 implies {
                        &&& #[trigger] tri_vertex((a, b, c), k) < src.len()
                        &&& key_at(facets@, src[tri_vertex((a, b, c), k) as int]) == facets@[i as int][k]
                    } by {
                        if k == 0 {
                        } else if k == 1 {
                        } else {
                        }
                    }
                }
                assert forall|t: int| 0 <= t <= i implies triangle_matches(facets@, src, #[trigger] triangles@[t], t) by {
                    if t < i {
                        assert(triangles@[t] == old_tris[t]);
                    }
                }
                assert forall|t: int| 0 <= t <= i implies edges_of(edges@, t, #[trigger] triangles@[t]) by {
                    if t < i {
                        assert(triangles@[t] == old_tris[t]);
                        assert(edges_of(old_edges, t, old_tris[t]));
                        assert(edges@[3 * t] == old_edges[3 * t]);
                        assert(edges@[3 * t + 1] == old_edges[3 * t + 1]);
                        assert(edges@[3 * t + 2] == old_edges[3 * t + 2]);
                    }
                }
            }
            i = i + 1;
        }
        MeshTopology { vertex_sources, edges, triangles }
    }
}

/// Triangle `t` names only vertices below `vertex_count`, so it can be drawn.
pub fn triangle_in_bounds(t: (usize, usize, usize), vertex_count: usize) -> (b: bool)
    ensures
        b == (t.0 < vertex_count && t.1 < vertex_count && t.2 < vertex_count),
{
    t.0 < vertex_count && t.1 < vertex_count && t.2 < vertex_count
}

/// The shape of a mesh's topology: one triangle per facet, the three edges of
/// triangle `i` at `3 * i ..= 3 * i + 2` as `(a, b)`, `(b, c)`, `(c, a)`, and every
/// index names one of its vertices: no triangle is skipped when the mesh is
/// drawn, and every edge joins two vertices.
pub proof fn lemma_topology_shape(topo: MeshTopology, facets: Seq<[GridKey; 3]>)
    requires
        topo.is_topology_of(facets),
    ensures
        topo.triangles@.len() == facets.len(),
        topo.edges@.len() == 3 * facets.len(),
        forall|i: int| 0 <= i < facets.len() ==> {
            let t = #[trigger] topo.triangles@[i];
            &&& topo.edges@[3 * i] == (t.0, t.1)
            &&& topo.edges@[3 * i + 1] == (t.1, t.2)
            &&& topo.edges@[3 * i + 2] == (t.2, t.0)
        },
        forall|i: int| 0 <= i < topo.triangles@.len() ==> {
            let t = #[trigger] topo.triangles@[i];
            t.0 < topo.vertex_sources@.len() && t.1 < topo.vertex_sources@.len() && t.2 < topo.vertex_sources@.len()
        },
        forall|e: int| 0 <= e < topo.edges@.len() ==> {
            let ed = #[trigger] topo.edges@[e];
            ed.0 < topo.vertex_sources@.len() && ed.1 < topo.vertex_sources@.len()
        },
{
    let src = topo.vertex_sources@;
    assert forall|i: int| 0 <= i < facets.len() implies {
        let t = #[trigger] topo.triangles@[i];
        &&& topo.edges@[3 * i] == (t.0, t.1)
        &&& topo.edges@[3 * i + 1] == (t.1, t.2)
        &&& topo.edges@[3 * i + 2] == (t.2, t.0)
    } by {
        assert(edges_of(topo.edges@, i, topo.triangles@[i]));
    }
    assert forall|i: int| 0 <= i < topo.triangles@.len() implies {
        let t = #[trigger] topo.triangles@[i];
        t.0 < src.len() && t.1 < src.len() && t.2 < src.len()
    } by {
        let t = topo.triangles@[i];
        assert(triangle_matches(facets, src, t, i));
        assert(tri_vertex(t, 0) < src.len());
        assert(tri_vertex(t, 1) < src.len());
        assert(tri_vertex(t, 2) < src.len());
    }
    assert forall|e: int| 0 <= e < topo.edges@.len() implies {
        let ed = #[trigger] topo.edges@[e];
        ed.0 < src.len() && ed.1 < src.len()
    } by {
        let i = e / 3;
        let t = topo.triangles@[i];
        assert(0 <= i < facets.len());
        assert(edges_of(topo.edges@, i, t));
        assert(triangle_matches(facets, src, t, i));
        assert(tri_vertex(t, 0) < src.len());
        assert(tri_vertex(t, 1) < src.len());
        assert(tri_vertex(t, 2) < src.len());
        assert(e == 3 * i || e == 3 * i + 1 || e == 3 * i + 2);
    }
}

/// Corners are merged exactly when their grid keys are equal: distinct vertices
/// have distinct keys, two corners share a vertex iff their keys are equal, and
/// every vertex is used by the corner it was first seen at.
pub proof fn lemma_topology_merges_equal_keys(topo: MeshTopology, facets: Seq<[GridKey; 3]>)
    requires
        topo.is_topology_of(facets),
    ensures
        forall|j1: int, j2: int|
            0 <= j1 < j2 < topo.vertex_sources@.len() ==> key_at(facets, #[trigger] topo.vertex_sources@[j1])
                != key_at(facets, #[trigger] topo.vertex_sources@[j2]),
        forall|i1: int, k1: int, i2: int, k2: int|
            0 <= i1 < facets.len() && 0 <= k1 < 3 && 0 <= i2 < facets.len() && 0 <= k2 < 3 ==> (
                #[trigger] tri_vertex(topo.triangles@[i1], k1) == #[trigger] tri_vertex(topo.triangles@[i2], k2)
                    <==> facets[i1][k1] == facets[i2][k2]),
        forall|j: int| 0 <= j < topo.vertex_sources@.len() ==> {
            let c = #[trigger] topo.vertex_sources@[j];
            tri_vertex(topo.triangles@[c.0 as int], c.1 as int) == j
        },
{
    let src = topo.vertex_sources@;
    let n = facets.len() as int;
    assert forall|j1: int, j2: int|
        0 <= j1 < j2 < src.len() implies key_at(facets, #[trigger] src[j1]) != key_at(facets, #[trigger] src[j2]) by {
        assert(corner_before(src[j1], src[j2]));
        assert(is_corner(n, src[j1]));
    }
    assert forall|i1: int, k1: int, i2: int, k2: int|
        0 <= i1 < n && 0 <= k1 < 3 && 0 <= i2 < n && 0 <= k2 < 3 implies (
            #[trigger] tri_vertex(topo.triangles@[i1], k1) == #[trigger] tri_vertex(topo.triangles@[i2], k2)
                <==> facets[i1][k1] == facets[i2][k2]) by {
        let t1 = topo.triangles@[i1];
        let t2 = topo.triangles@[i2];
        assert(triangle_matches(facets, src, t1, i1));
        assert(triangle_matches(facets, src, t2, i2));
        let v1 = tri_vertex(t1, k1) as int;
        let v2 = tri_vertex(t2, k2) as int;
        assert(v1 < src.len() && key_at(facets, src[v1]) == facets[i1][k1]);
        assert(v2 < src.len() && key_at(facets, src[v2]) == facets[i2][k2]);
        if v1 < v2 {
            assert(corner_before(src[v1], src[v2]));
            assert(is_corner(n, src[v1]));
        } else if v2 < v1 {
            assert(corner_before(src[v2], src[v1]));
            assert(is_corner(n, src[v2]));
        }
    }
    assert forall|j: int| 0 <= j < src.len() implies {
        let c = #[trigger] src[j];
        tri_vertex(topo.triangles@[c.0 as int], c.1 as int) == j
    } by {
        let c = src[j];
        assert(is_corner(n, c));
        let t = topo.triangles@[c.0 as int];
        assert(triangle_matches(facets, src, t, c.0 as int));
        let v = tri_vertex(t, c.1 as int) as int;
        assert(v < src.len() && key_at(facets, src[v]) == facets[c.0 as int][c.1 as int]);
        if v < j {
            assert(corner_before(src[v], src[j]));
            assert(is_corner(n, src[v]));
        } else if j < v {
            assert(corner_before(src[j], src[v]));
            assert(is_corner(n, src[j]));
        }
    }
}

/// Corner `c` is the first corner that carries its grid key.
pub open spec fn first_with_key(facets: Seq<[GridKey; 3]>, c: (usize, usize)) -> bool {
    &&& is_corner(facets.len() as int, c)
    &&& forall|d: (usize, usize)| is_corner(facets.len() as int, d) && #[trigger] corner_before(d, c)
        ==> key_at(facets, d) != key_at(facets, c)
}

/// The vertex sources of a topology are exactly the corners that first carry their keys.
proof fn lemma_sources_are_first_corners(topo: MeshTopology, facets: Seq<[GridKey; 3]>)
    requires
        topo.is_topology_of(facets),
    ensures
        forall|j: int| 0 <= j < topo.vertex_sources@.len() ==> first_with_key(facets, #[trigger] topo.vertex_sources@[j]),
        forall|c: (usize, usize)| #[trigger] first_with_key(facets, c) ==> topo.vertex_sources@.contains(c),
{
    let src = topo.vertex_sources@;
    let n = facets.len() as int;
    assert forall|c: (usize, usize)| #[trigger] first_with_key(facets, c) implies src.contains(c) by {
        let t = topo.triangles@[c.0 as int];
        assert(triangle_matches(facets, src, t, c.0 as int));
        let v = tri_vertex(t, c.1 as int) as int;
        assert(v < src.len() && key_at(facets, src[v]) == key_at(facets, c));
        assert(is_corner(n, src[v]));
        if corner_before(src[v], c) {
            assert(false);
        } else if corner_before(c, src[v]) {
            assert(false);
        }
        assert(src[v] == c);
    }
}

/// Two strictly increasing enumerations of the same corners agree on their first `k` entries.
proof fn lemma_enumerations_agree(
    s1: Seq<(usize, usize)>,
    s2: Seq<(usize, usize)>,
    k: int,
)
    requires
        0 <= k <= s1.len(),
        k <= s2.len(),
        forall|j1: int, j2: int| 0 <= j1 < j2 < s1.len() ==> corner_before(#[trigger] s1[j1], #[trigger] s1[j2]),
        forall|j1: int, j2: int| 0 <= j1 < j2 < s2.len() ==> corner_before(#[trigger] s2[j1], #[trigger] s2[j2]),
        forall|j: int| 0 <= j < s1.len() ==> s2.contains(#[trigger] s1[j]),
        forall|j: int| 0 <= j < s2.len() ==> s1.contains(#[trigger] s2[j]),
    ensures
        forall|j: int| 0 <= j < k ==> #[trigger] s1[j] == s2[j],
    decreases k,
{
    if k > 0 {
        lemma_enumerations_agree(s1, s2, k - 1);
        let j = k - 1;
        let a = s1[j];
        let b = s2[j];
        if a != b {
            assert(s2.contains(a));
            let m = choose|m: int| 0 <= m < s2.len() && s2[m] == a;
            assert(s1.contains(b));
            let m2 = choose|m: int| 0 <= m < s1.len() && s1[m] == b;
            if m < j {
                assert(s1[m] == s2[m]);
                assert(corner_before(s1[m], s1[j]));
            } else if m2 < j {
                assert(s1[m2] == s2[m2]);
                assert(corner_before(s2[m2], s2[j]));
            } else {
                assert(m > j && m2 > j);
                assert(corner_before(s2[j], s2[m]));
                assert(corner_before(s1[j], s1[m2]));
            }
        }
    }
}

/// The topology of a mesh is determined by its facets' grid keys: any two
/// topologies of the same facets are equal. So `MeshTopology::from_facets`
/// gives the same result on equal facets, whatever order a map would hold
/// its keys in.
pub proof fn lemma_topology_unique(t1: MeshTopology, t2: MeshTopology, facets: Seq<[GridKey; 3]>)
    requires
        t1.is_topology_of(facets),
        t2.is_topology_of(facets),
    ensures
        t1.vertex_sources@ == t2.vertex_sources@,
        t1.triangles@ == t2.triangles@,
        t1.edges@ == t2.edges@,
{
    let s1 = t1.vertex_sources@;
    let s2 = t2.vertex_sources@;
    lemma_sources_are_first_corners(t1, facets);
    lemma_sources_are_first_corners(t2, facets);
    assert forall|j: int| 0 <= j < s1.len() implies s2.contains(#[trigger] s1[j]) by {
        assert(first_with_key(facets, s1[j]));
    }
    assert forall|j: int| 0 <= j < s2.len() implies s1.contains(#[trigger] s2[j]) by {
        assert(first_with_key(facets, s2[j]));
    }
    if s1.len() <= s2.len() {
        lemma_enumerations_agree(s1, s2, s1.len() as int);
        if s1.len() < s2.len() {
            let b = s2[s1.len() as int];
            assert(s1.contains(b));
            let m = choose|m: int| 0 <= m < s1.len() && s1[m] == b;
            assert(s1[m] == s2[m]);
            assert(corner_before(s2[m], s2[s1.len() as int]));
        }
    } else {
        lemma_enumerations_agree(s2, s1, s2.len() as int);
        let a = s1[s2.len() as int];
        assert(s2.contains(a));
        let m = choose|m: int| 0 <= m < s2.len() && s2[m] == a;
        assert(s2[m] == s1[m]);
        assert(corner_before(s1[m], s1[s2.len() as int]));
    }
    assert(s1 =~= s2);
    lemma_topology_merges_equal_keys(t1, facets);
    let n = facets.len() as int;
    assert forall|i: int| 0 <= i < n implies #[trigger] t1.triangles@[i] == t2.triangles@[i] by {
        let a = t1.triangles@[i];
        let b = t2.triangles@[i];
        assert(triangle_matches(facets, s1, a, i));
        assert(triangle_matches(facets, s2, b, i));
        assert forall|k: int| 0 <= k < 3 implies tri_vertex(a, k) == tri_vertex(b, k) by {
            let va = tri_vertex(a, k) as int;
            let vb = tri_vertex(b, k) as int;
            assert(va < s1.len() && key_at(facets, s1[va]) == facets[i][k]);
            assert(vb < s1.len() && key_at(facets, s1[vb]) == facets[i][k]);
            if va < vb {
                assert(key_at(facets, s1[va]) != key_at(facets, s1[vb]));
            } else if vb < va {
                assert(key_at(facets, s1[vb]) != key_at(facets, s1[va]));
            }
        }
        assert(tri_vertex(a, 0) == tri_vertex(b, 0));
        assert(tri_vertex(a, 1) == tri_vertex(b, 1));
        assert(tri_vertex(a, 2) == tri_vertex(b, 2));
    }
    assert(t1.triangles@ =~= t2.triangles@);
    assert forall|e: int| 0 <= e < 3 * n implies #[trigger] t1.edges@[e] == t2.edges@[e] by {
        let i = e / 3;
        assert(0 <= i < n);
        assert(edges_of(t1.edges@, i, t1.triangles@[i]));
        assert(edges_of(t2.edges@, i, t2.triangles@[i]));
        assert(t1.triangles@[i] == t2.triangles@[i]);
        assert(e == 3 * i || e == 3 * i + 1 || e == 3 * i + 2);
    }
    assert(t1.edges@ =~= t2.edges@);
}

} // verus!
