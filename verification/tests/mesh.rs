use zglyph::models::stl::{triangle_in_bounds, MeshTopology};

#[test]
fn mesh_shared_edge_merges_corners() {
    let a = (0, 0, 0);
    let b = (10000, 0, 0);
    let c = (0, 10000, 0);
    let d = (10000, 10000, 0);
    let topo = MeshTopology::from_facets(&vec![[a, b, c], [c, b, d]]);
    assert_eq!(topo.vertex_sources, vec![(0, 0), (0, 1), (0, 2), (1, 2)]);
    assert_eq!(topo.triangles, vec![(0, 1, 2), (2, 1, 3)]);
    assert_eq!(topo.edges, vec![(0, 1), (1, 2), (2, 0), (2, 1), (1, 3), (3, 2)]);
}

#[test]
fn mesh_repeated_corner_in_one_facet() {
    let a = (1, 2, 3);
    let b = (-4, 5, -6);
    let topo = MeshTopology::from_facets(&vec![[a, a, b]]);
    assert_eq!(topo.vertex_sources, vec![(0, 0), (0, 2)]);
    assert_eq!(topo.triangles, vec![(0, 0, 1)]);
    assert_eq!(topo.edges, vec![(0, 0), (0, 1), (1, 0)]);
}

#[test]
fn mesh_empty() {
    let topo = MeshTopology::from_facets(&vec![]);
    assert!(topo.vertex_sources.is_empty());
    assert!(topo.triangles.is_empty());
    assert!(topo.edges.is_empty());
}

#[test]
fn mesh_tetrahedron_has_four_vertices() {
    let p = [(0, 0, 0), (10000, 0, 0), (0, 10000, 0), (0, 0, 10000)];
    let facets = vec![[p[0], p[2], p[1]], [p[0], p[1], p[3]], [p[0], p[3], p[2]], [p[1], p[2], p[3]]];
    let topo = MeshTopology::from_facets(&facets);
    assert_eq!(topo.vertex_sources, vec![(0, 0), (0, 1), (0, 2), (1, 2)]);
    assert_eq!(topo.triangles, vec![(0, 1, 2), (0, 2, 3), (0, 3, 1), (2, 1, 3)]);
    assert_eq!(topo.edges.len(), 12);
    for &t in &topo.triangles {
        assert!(triangle_in_bounds(t, topo.vertex_sources.len()));
    }
}

#[test]
fn mesh_triangle_bounds_check() {
    assert!(triangle_in_bounds((0, 1, 2), 3));
    assert!(!triangle_in_bounds((0, 3, 2), 3));
    assert!(!triangle_in_bounds((0, 0, 0), 0));
}
