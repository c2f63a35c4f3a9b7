use zglyph::line::line_points;

#[test]
fn line_shallow_slope() {
    assert_eq!(line_points(0, 0, 3, 1), vec![(0, 0), (1, 0), (2, 1), (3, 1)]);
}

#[test]
fn line_steep_slope() {
    assert_eq!(line_points(0, 0, 1, 3), vec![(0, 0), (0, 1), (1, 2), (1, 3)]);
}

#[test]
fn line_single_point() {
    assert_eq!(line_points(5, -7, 5, -7), vec![(5, -7)]);
}

#[test]
fn line_diagonal_backwards() {
    assert_eq!(line_points(2, 2, -1, 5), vec![(2, 2), (1, 3), (0, 4), (-1, 5)]);
}

#[test]
fn line_vertical_up() {
    assert_eq!(line_points(0, 0, 0, -3), vec![(0, 0), (0, -1), (0, -2), (0, -3)]);
}

#[test]
fn line_horizontal_left() {
    assert_eq!(line_points(1, 4, -2, 4), vec![(1, 4), (0, 4), (-1, 4), (-2, 4)]);
}

#[test]
fn line_long_is_connected_and_ends_right() {
    let pts = line_points(-40, 17, 123, -55);
    assert_eq!(pts.len(), 164);
    assert_eq!(pts[0], (-40, 17));
    assert_eq!(*pts.last().unwrap(), (123, -55));
    for w in pts.windows(2) {
        assert!((w[0].0 - w[1].0).abs() <= 1 && (w[0].1 - w[1].1).abs() <= 1);
    }
}

#[test]
fn line_extreme_extent() {
    let pts = line_points(i32::MIN + 1, 0, i32::MIN + 5, 2);
    assert_eq!(pts.len(), 5);
    assert_eq!(*pts.last().unwrap(), (i32::MIN + 5, 2));
}
