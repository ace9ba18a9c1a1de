use prism_voxel::line::Line2d;

fn walk(a: (i32, i32), b: (i32, i32)) -> Vec<(i32, i32)> {
    let mut l = Line2d::new(a, b);
    let mut out = vec![];
    while let Some(p) = l.next() {
        out.push(p);
        assert!(out.len() < 100);
    }
    assert!(l.next().is_none());
    out
}

#[test]
fn shallow_line_rounds_minor_axis() {
    assert_eq!(walk((0, 0), (5, 2)), vec![(0, 0), (1, 0), (2, 1), (3, 1), (4, 2)]);
}

#[test]
fn steep_line_walks_y() {
    assert_eq!(walk((0, 0), (2, 5)), vec![(0, 0), (0, 1), (1, 2), (1, 3), (2, 4)]);
}

#[test]
fn reversed_lines() {
    assert_eq!(walk((5, 2), (0, 0)), vec![(5, 2), (4, 2), (3, 1), (2, 1), (1, 0)]);
    assert_eq!(walk((0, 0), (-4, 4)), vec![(0, 0), (-1, 1), (-2, 2), (-3, 3)]);
}

#[test]
fn axis_lines_and_point() {
    assert_eq!(walk((1, 1), (4, 1)), vec![(1, 1), (2, 1), (3, 1)]);
    assert_eq!(walk((1, 1), (1, -2)), vec![(1, 1), (1, 0), (1, -1)]);
    assert!(walk((3, 3), (3, 3)).is_empty());
}

#[test]
fn extreme_endpoints_do_not_overflow() {
    let mut l = Line2d::new((i32::MIN, i32::MIN), (i32::MAX, i32::MIN + 1));
    assert_eq!(l.next(), Some((i32::MIN, i32::MIN)));
    assert_eq!(l.next(), Some((i32::MIN + 1, i32::MIN)));
}
