use centroid::ring::{centroid_of_ring, ends_meet, has_three_distinct, sum_moments};
use centroid::{Point, RationalPoint, Sums};

fn chain(xy: &[(i32, i32)]) -> Vec<Point> {
    xy.iter().map(|&(x, y)| Point::new(x, y)).collect()
}

fn same_position(a: RationalPoint, b: RationalPoint) -> bool {
    a.x_num * b.den == b.x_num * a.den && a.y_num * b.den == b.y_num * a.den
}

// An irregular pentagon, walked anticlockwise.
fn pentagon() -> Vec<Point> {
    chain(&[(1, 0), (6, 1), (7, 5), (3, 8), (-2, 4), (1, 0)])
}

#[test]
fn sums_of_a_unit_square() {
    let ring = chain(&[(0, 0), (1, 0), (1, 1), (0, 1), (0, 0)]);
    assert_eq!(sum_moments(&ring), Sums { area: 6, x: 3, y: 3 });
}

#[test]
fn sums_of_short_chains_are_zero() {
    assert_eq!(sum_moments(&chain(&[])), Sums { area: 0, x: 0, y: 0 });
    assert_eq!(sum_moments(&chain(&[(5, 7)])), Sums { area: 0, x: 0, y: 0 });
}

#[test]
fn sums_of_one_segment() {
    // f = 4 * 1 - 2 * 3 = -2
    assert_eq!(sum_moments(&chain(&[(1, 2), (3, 4)])), Sums { area: -6, x: -8, y: -12 });
}

#[test]
fn closure_is_told() {
    assert!(!ends_meet(&chain(&[])));
    assert!(ends_meet(&chain(&[(1, 2)])));
    assert!(ends_meet(&chain(&[(1, 2), (3, 4), (1, 2)])));
    assert!(!ends_meet(&chain(&[(1, 2), (3, 4), (1, 3)])));
    assert!(!ends_meet(&chain(&[(1, 2), (3, 4), (2, 2)])));
}

#[test]
fn distinct_vertices_are_counted() {
    assert!(!has_three_distinct(&chain(&[])));
    assert!(!has_three_distinct(&chain(&[(0, 0), (0, 0)])));
    assert!(!has_three_distinct(&chain(&[(0, 0), (0, 1), (0, 0), (0, 1)])));
    assert!(has_three_distinct(&chain(&[(0, 0), (0, 1), (0, 0), (1, 0)])));
    assert!(has_three_distinct(&chain(&[(0, 0), (0, 0), (0, 1), (0, 1), (1, 1)])));
}

#[test]
fn winding_does_not_matter() {
    let forwards = pentagon();
    let mut backwards = forwards.clone();
    backwards.reverse();
    assert_eq!(centroid_of_ring(&forwards), centroid_of_ring(&backwards));
    assert!(centroid_of_ring(&forwards).is_ok());
}

#[test]
fn start_vertex_does_not_matter() {
    let ring = pentagon();
    let from_third = chain(&[(7, 5), (3, 8), (-2, 4), (1, 0), (6, 1), (7, 5)]);
    assert_eq!(centroid_of_ring(&ring), centroid_of_ring(&from_third));
}

#[test]
fn translation_moves_the_centroid_along() {
    let (dx, dy) = (-13, 40);
    let ring = pentagon();
    let moved: Vec<Point> = ring.iter().map(|p| Point::new(p.x + dx, p.y + dy)).collect();
    let c = centroid_of_ring(&ring).unwrap();
    let expected = RationalPoint {
        x_num: c.x_num + (dx as i128) * c.den,
        y_num: c.y_num + (dy as i128) * c.den,
        den: c.den,
    };
    assert_eq!(centroid_of_ring(&moved), Ok(expected));
}

#[test]
fn scaling_scales_the_centroid() {
    for s in [-3, 2, 7] {
        let ring = pentagon();
        let scaled: Vec<Point> = ring.iter().map(|p| Point::new(p.x * s, p.y * s)).collect();
        let c = centroid_of_ring(&ring).unwrap();
        let image = centroid_of_ring(&scaled).unwrap();
        let expected = RationalPoint {
            x_num: (s as i128) * c.x_num,
            y_num: (s as i128) * c.y_num,
            den: c.den,
        };
        assert!(image.den > 0);
        assert!(same_position(image, expected));
    }
}

#[test]
fn linear_map_maps_the_centroid() {
    // A shear with a quarter turn: (x, y) goes to (2x - 3y, x + y).
    let ring = pentagon();
    let image: Vec<Point> = ring
        .iter()
        .map(|p| Point::new(2 * p.x - 3 * p.y, p.x + p.y))
        .collect();
    let c = centroid_of_ring(&ring).unwrap();
    let got = centroid_of_ring(&image).unwrap();
    let expected = RationalPoint {
        x_num: 2 * c.x_num - 3 * c.y_num,
        y_num: c.x_num + c.y_num,
        den: c.den,
    };
    assert!(got.den > 0);
    assert!(same_position(got, expected));
}

#[test]
fn affine_map_maps_the_centroid() {
    // A quarter turn about the origin, then a move by (10, -4).
    let ring = pentagon();
    let image: Vec<Point> = ring.iter().map(|p| Point::new(-p.y + 10, p.x - 4)).collect();
    let c = centroid_of_ring(&ring).unwrap();
    let expected = RationalPoint {
        x_num: -c.y_num + 10 * c.den,
        y_num: c.x_num - 4 * c.den,
        den: c.den,
    };
    assert_eq!(centroid_of_ring(&image), Ok(expected));
}

#[test]
fn mirror_image_turns_the_winding_and_keeps_the_area() {
    let ring = pentagon();
    let image: Vec<Point> = ring.iter().map(|p| Point::new(-p.x, p.y)).collect();
    let sums = sum_moments(&ring);
    assert_eq!(
        sum_moments(&image),
        Sums { area: -sums.area, x: sums.x, y: -sums.y }
    );
}

#[test]
fn centroid_lies_on_a_diagonal_axis_of_symmetry() {
    // A dart, symmetric about the line x - y = 1.
    let ring = chain(&[(1, 0), (6, 2), (9, 8), (3, 5), (1, 0)]);
    let c = centroid_of_ring(&ring).unwrap();
    assert_eq!(c.x_num - c.y_num, c.den);
}

#[test]
fn centroid_lies_on_a_slanted_axis_of_symmetry() {
    // A kite, symmetric about the line x - 2y = 0: the vertices (1, 3) and
    // (3, -1) are mirror images, (0, 0) and (6, 3) lie on the line.
    let ring = chain(&[(0, 0), (3, -1), (6, 3), (1, 3), (0, 0)]);
    let c = centroid_of_ring(&ring).unwrap();
    assert_eq!(c.x_num - 2 * c.y_num, 0);
}

#[test]
fn centroid_lies_on_a_vertical_axis_of_symmetry() {
    // A kite, symmetric about x = 5/2.
    let ring = chain(&[(0, 3), (2, 0), (3, 0), (5, 3), (3, 9), (2, 9), (0, 3)]);
    let c = centroid_of_ring(&ring).unwrap();
    assert_eq!(2 * c.x_num, 5 * c.den);
}

#[test]
fn centroid_lies_on_a_horizontal_axis_of_symmetry() {
    // An arrow head pointing right, symmetric about y = -1.
    let ring = chain(&[(0, -1), (-2, 3), (6, -1), (-2, -5), (0, -1)]);
    let c = centroid_of_ring(&ring).unwrap();
    assert_eq!(c.y_num, -c.den);
}
