use centroid::ring::centroid_of_ring;
use centroid::{Centroid, CentroidError, Point, Polygon, RationalPoint};

// Grid steps per unit of the coordinates below.
const STEPS: f64 = 100.0;

fn on_grid(ring: &[Vec<f64>]) -> Vec<Point> {
    ring.iter()
        .map(|c| Point::new((c[0] * STEPS).round() as i32, (c[1] * STEPS).round() as i32))
        .collect()
}

fn in_units(c: RationalPoint) -> Vec<f64> {
    vec![
        c.x_num as f64 / (c.den as f64 * STEPS),
        c.y_num as f64 / (c.den as f64 * STEPS),
    ]
}

// Checks a polygon's centroid against an expected value.
fn run_poly_test(ring: Vec<Vec<f64>>, expected: Vec<f64>) {
    let poly = Polygon::new(vec![on_grid(&ring)]);
    let centroid = poly.centroid().expect("the ring has a centroid");
    assert_eq!(in_units(centroid), expected);
}

#[test]
fn test_small_square() {
    let ring = vec![vec![0.0, 0.0], vec![0.01, 0.0], vec![0.01, 0.01], vec![0.0, 0.01], vec![0.0, 0.0]];
    let expected = vec![0.005, 0.005];
    run_poly_test(ring, expected);
}

#[test]
fn test_square() {
    let ring = vec![vec![0.0, 0.0], vec![0.0, 2.0], vec![2.0, 2.0], vec![2.0, 0.0], vec![0.0, 0.0]];
    let expected = vec![1.0, 1.0];
    run_poly_test(ring, expected);
}

#[test]
fn test_triangle_90() {
    let ring = vec![vec![0.0, 0.0], vec![0.0, 2.0], vec![2.0, 0.0], vec![0.0, 0.0]];
    let expected = vec![2.0 / 3.0, 2.0 / 3.0];
    run_poly_test(ring, expected);
}

#[test]
fn test_triangle_135() {
    let ring = vec![vec![1.0, 0.0], vec![0.0, 2.0], vec![2.0, 0.0], vec![1.0, 0.0]];
    let expected = vec![1.0, 2.0 / 3.0];
    run_poly_test(ring, expected);
}

fn points(xy: &[(i32, i32)]) -> Vec<Point> {
    xy.iter().map(|&(x, y)| Point::new(x, y)).collect()
}

#[test]
fn square_gives_exact_fraction() {
    // Walked clockwise, the sums are negative: the fraction comes out with
    // both signs turned.
    let ring = points(&[(0, 0), (0, 2), (2, 2), (2, 0), (0, 0)]);
    assert_eq!(
        centroid_of_ring(&ring),
        Ok(RationalPoint { x_num: 24, y_num: 24, den: 24 })
    );
}

#[test]
fn triangle_gives_exact_fraction() {
    let ring = points(&[(0, 0), (2, 0), (0, 2), (0, 0)]);
    assert_eq!(
        centroid_of_ring(&ring),
        Ok(RationalPoint { x_num: 8, y_num: 8, den: 12 })
    );
}

#[test]
fn only_the_outer_ring_counts() {
    let outer = points(&[(0, 0), (4, 0), (4, 4), (0, 4), (0, 0)]);
    let hole = points(&[(1, 1), (1, 2), (2, 2), (2, 1), (1, 1)]);
    let with_hole = Polygon::new(vec![outer.clone(), hole]);
    let without = Polygon::new(vec![outer]);
    assert_eq!(with_hole.centroid(), without.centroid());
    assert_eq!(
        without.centroid(),
        Ok(RationalPoint { x_num: 192, y_num: 192, den: 96 })
    );
}

#[test]
fn polygon_without_rings_is_invalid() {
    let poly = Polygon::new(vec![]);
    assert_eq!(poly.centroid(), Err(CentroidError::InvalidGeometry));
}

#[test]
fn empty_ring_is_invalid() {
    assert_eq!(centroid_of_ring(&vec![]), Err(CentroidError::InvalidGeometry));
}

#[test]
fn open_ring_is_invalid() {
    let ring = points(&[(0, 0), (2, 0), (2, 2), (0, 2)]);
    assert_eq!(centroid_of_ring(&ring), Err(CentroidError::InvalidGeometry));
}

#[test]
fn ring_of_two_distinct_vertices_is_invalid() {
    let ring = points(&[(0, 0), (1, 1), (0, 0), (1, 1), (0, 0)]);
    assert_eq!(centroid_of_ring(&ring), Err(CentroidError::InvalidGeometry));
}

#[test]
fn ring_of_one_vertex_is_invalid() {
    let ring = points(&[(3, 3), (3, 3), (3, 3), (3, 3)]);
    assert_eq!(centroid_of_ring(&ring), Err(CentroidError::InvalidGeometry));
}

#[test]
fn collinear_ring_is_degenerate() {
    let ring = points(&[(0, 0), (1, 1), (2, 2), (0, 0)]);
    assert_eq!(centroid_of_ring(&ring), Err(CentroidError::DegenerateResult));
}

#[test]
fn figure_of_eight_with_cancelling_loops_is_degenerate() {
    let ring = points(&[(0, 0), (1, 1), (1, -1), (0, 0), (-1, 1), (-1, -1), (0, 0)]);
    assert_eq!(centroid_of_ring(&ring), Err(CentroidError::DegenerateResult));
}

#[test]
fn extreme_coordinates_do_not_overflow() {
    let lo = i32::MIN;
    let hi = i32::MAX;
    let ring = points(&[(lo, lo), (hi, lo), (hi, hi), (lo, hi), (lo, lo)]);
    let c = centroid_of_ring(&ring).expect("a square");
    // The centre of the square is (-1/2, -1/2).
    assert!(c.den > 0);
    assert_eq!(2 * c.x_num, -c.den);
    assert_eq!(2 * c.y_num, -c.den);
}
