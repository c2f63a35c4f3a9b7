use zglyph::models::cube::Cube;

#[test]
fn cube_corners_and_edges() {
    let c = Cube::unit();
    assert_eq!(
        c.vertices,
        vec![(-1, -1, -1), (1, -1, -1), (1, 1, -1), (-1, 1, -1), (-1, -1, 1), (1, -1, 1), (1, 1, 1), (-1, 1, 1)]
    );
    assert_eq!(
        c.edges,
        vec![(0, 1), (1, 2), (2, 3), (3, 0), (4, 5), (5, 6), (6, 7), (7, 4), (0, 4), (1, 5), (2, 6), (3, 7)]
    );
}

#[test]
fn cube_edges_are_unit_steps() {
    let c = Cube::unit();
    for &(a, b) in &c.edges {
        let (p, q) = (c.vertices[a], c.vertices[b]);
        let differing = (p.0 != q.0) as u8 + (p.1 != q.1) as u8 + (p.2 != q.2) as u8;
        assert_eq!(differing, 1);
    }
    for v in 0..8 {
        let degree = c.edges.iter().filter(|&&(a, b)| a == v || b == v).count();
        assert_eq!(degree, 3);
    }
}

#[test]
fn cube_triangles_cover_faces() {
    let c = Cube::unit();
    assert_eq!(c.triangles.len(), 12);
    for pair in c.triangles.chunks(2) {
        let (a, b, cc) = pair[0];
        let (a2, c2, d) = pair[1];
        assert_eq!((a, cc), (a2, c2));
        let corners = [c.vertices[a], c.vertices[b], c.vertices[cc], c.vertices[d]];
        let same_axis = (0..3).any(|axis| {
            let coord = |p: (i32, i32, i32)| [p.0, p.1, p.2][axis];
            corners.iter().all(|&p| coord(p) == coord(corners[0]))
        });
        assert!(same_axis);
        let mut ids = vec![a, b, cc, d];
        ids.sort();
        ids.dedup();
        assert_eq!(ids.len(), 4);
    }
}
