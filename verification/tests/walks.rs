use prime_walk::cube;
use prime_walk::space::Point3;

fn gradient_stub(steps: usize) -> Vec<(u8, u8, u8)> {
    (0..steps).map(|n| (n as u8, 0, 0)).collect()
}

#[test]
fn test_prime_walk_turns_at_primes() {
    // Direction changes at 2, 3, 5 and 7; primes run out after 7.
    let colors = gradient_stub(10);
    let path = prime_walk::prime_walk::walk(10, &colors);
    let coordinates: Vec<(i64, i64, i64)> = path
        .iter()
        .map(|p| (p.coordinate.x, p.coordinate.y, p.coordinate.z))
        .collect();
    assert_eq!(
        coordinates,
        vec![
            (0, 0, 0),
            (1, 0, 0),
            (2, 0, 0),
            (2, 1, 0),
            (2, 1, 1),
            (2, 1, 2),
            (1, 1, 2),
            (0, 1, 2),
            (0, 0, 2),
            (0, -1, 2),
        ]
    );
}

#[test]
fn test_prime_walk_keeps_colors_in_order() {
    let colors = gradient_stub(20);
    let path = prime_walk::prime_walk::walk(20, &colors);
    assert_eq!(path.len(), 20);
    for (n, point) in path.iter().enumerate() {
        assert_eq!(point.color, colors[n]);
    }
}

#[test]
fn test_cube_walk_shape() {
    let path = cube::walk(25_000);
    assert_eq!(path.len(), 99);
    // The red square starts at the top-left corner of the near face.
    assert_eq!(path[0].coordinate, Point3 { x: -5, y: 5, z: 0 });
    assert_eq!(path[0].color, (255, 0, 0));
    assert_eq!(path[10].coordinate, Point3 { x: 5, y: 5, z: 0 });
    assert_eq!(path[43].coordinate, Point3 { x: -5, y: 5, z: 0 });
    // The green edge recedes from the near face to the far one.
    assert_eq!(path[44].coordinate, Point3 { x: -5, y: 5, z: 0 });
    assert_eq!(path[44].color, (0, 255, 0));
    assert_eq!(path[54].coordinate, Point3 { x: -5, y: 5, z: -10 });
    // The blue square traces the far face.
    assert_eq!(path[55].coordinate, Point3 { x: -5, y: 5, z: -10 });
    assert_eq!(path[55].color, (0, 0, 255));
    assert_eq!(path[98].coordinate, Point3 { x: -5, y: 5, z: -10 });
}

#[test]
fn test_cube_walk_stays_on_faces() {
    for point in cube::walk(0) {
        assert!(point.coordinate.z == 0 || point.coordinate.z < 0);
        assert!(point.coordinate.x.abs() <= 5);
        assert!(point.coordinate.y.abs() <= 5);
        assert!(point.coordinate.z >= -10);
    }
}
