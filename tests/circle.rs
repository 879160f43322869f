use orbits::get_circle;

fn mirrors_present(pts: &[(i32, i32)], cx: i32, cy: i32) -> bool {
    pts.iter().all(|&(x, y)| {
        let (dx, dy) = (x - cx, y - cy);
        [(dx, -dy), (-dx, dy), (dy, dx), (-dy, -dx)]
            .iter()
            .all(|&(a, b)| pts.contains(&(cx + a, cy + b)))
    })
}

#[test]
fn unit_radius_is_not_empty() {
    let pts = get_circle(0, 0, 1);
    assert_eq!(pts, vec![(0, 0); 8]);
}

#[test]
fn unit_radius_sits_on_the_center() {
    let pts = get_circle(-7, 12, 1);
    assert_eq!(pts, vec![(-7, 12); 8]);
}

#[test]
fn radius_two_outline() {
    let pts = get_circle(0, 0, 2);
    let expected = vec![
        (1, 0), (1, 0), (-1, 0), (-1, 0), (0, -1), (0, 1), (0, -1), (0, 1),
        (1, -1), (1, 1), (-1, -1), (-1, 1), (1, -1), (1, 1), (-1, -1), (-1, 1),
    ];
    assert_eq!(pts, expected);
}

#[test]
fn radius_three_outline() {
    let pts = get_circle(0, 0, 3);
    let expected = vec![
        (2, 0), (2, 0), (-2, 0), (-2, 0), (0, -2), (0, 2), (0, -2), (0, 2),
        (2, -1), (2, 1), (-2, -1), (-2, 1), (1, -2), (1, 2), (-1, -2), (-1, 2),
        (2, -2), (2, 2), (-2, -2), (-2, 2), (2, -2), (2, 2), (-2, -2), (-2, 2),
    ];
    assert_eq!(pts, expected);
}

#[test]
fn offset_center_shifts_every_point() {
    let base = get_circle(0, 0, 10);
    let moved = get_circle(100, -50, 10);
    assert_eq!(base.len(), 64);
    let shifted: Vec<(i32, i32)> = base.iter().map(|&(x, y)| (x + 100, y - 50)).collect();
    assert_eq!(moved, shifted);
}

#[test]
fn outlines_are_symmetric() {
    for r in 1..40 {
        let pts = get_circle(5, -3, r);
        assert!(!pts.is_empty());
        assert_eq!(pts.len() % 8, 0);
        assert!(mirrors_present(&pts, 5, -3), "radius {}", r);
    }
}

#[test]
fn outline_stays_near_the_true_circle() {
    for r in 1..60 {
        for (x, y) in get_circle(0, 0, r) {
            let d2 = x * x + y * y;
            assert!(d2 <= r * r && d2 >= (r - 1) * (r - 1), "r {}: ({}, {})", r, x, y);
        }
    }
}

#[test]
fn zero_and_negative_radius_give_nothing() {
    assert!(get_circle(0, 0, 0).is_empty());
    assert!(get_circle(3, 3, -4).is_empty());
}

#[test]
fn large_radius_near_the_edge_of_i32() {
    let pts = get_circle(i32::MAX - 99, i32::MIN + 99, 100);
    assert!(mirrors_present(&pts, i32::MAX - 99, i32::MIN + 99));
}
