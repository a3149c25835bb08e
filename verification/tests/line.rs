use centroid::path::{half_way, measure};
use centroid::{Centroid, CentroidError, MeasuredPath, PathPosition};

// Mean radius of the sphere on which the lengths below are measured, in metres.
const RADIUS: f64 = 6_373_000.0;

fn unit_vector(c: &[f64]) -> [f64; 3] {
    let (lon, lat) = (c[0].to_radians(), c[1].to_radians());
    [lat.cos() * lon.cos(), lat.cos() * lon.sin(), lat.sin()]
}

fn angle_between(a: &[f64], b: &[f64]) -> f64 {
    let (lon1, lat1) = (a[0].to_radians(), a[1].to_radians());
    let (lon2, lat2) = (b[0].to_radians(), b[1].to_radians());
    let h = ((lat2 - lat1) / 2.0).sin().powi(2)
        + lat1.cos() * lat2.cos() * ((lon2 - lon1) / 2.0).sin().powi(2);
    2.0 * h.sqrt().asin()
}

// The length of each segment along the great circle, in millimetres.
fn measured(coords: &[Vec<f64>]) -> Vec<u64> {
    coords
        .windows(2)
        .map(|w| (angle_between(&w[0], &w[1]) * RADIUS * 1000.0).round() as u64)
        .collect()
}

// The point at `fraction` of the way along the great circle from `a` to `b`.
fn along_great_circle(a: &[f64], b: &[f64], fraction: f64) -> Vec<f64> {
    let d = angle_between(a, b);
    if d == 0.0 {
        return a.to_vec();
    }
    let (wa, wb) = (((1.0 - fraction) * d).sin() / d.sin(), (fraction * d).sin() / d.sin());
    let (u, v) = (unit_vector(a), unit_vector(b));
    let p = [wa * u[0] + wb * v[0], wa * u[1] + wb * v[1], wa * u[2] + wb * v[2]];
    vec![
        p[1].atan2(p[0]).to_degrees(),
        p[2].atan2(p[0].hypot(p[1])).to_degrees(),
    ]
}

fn run_line_test(coords: Vec<Vec<f64>>, expected: Vec<f64>) {
    let lengths = measured(&coords);
    let line = MeasuredPath::new(lengths.clone());
    let pos = line.centroid().expect("the path has a segment");
    let fraction = if lengths[pos.segment] == 0 {
        0.0
    } else {
        pos.twice_offset as f64 / (2.0 * lengths[pos.segment] as f64)
    };
    let got = along_great_circle(&coords[pos.segment], &coords[pos.segment + 1], fraction);
    assert!((got[0] - expected[0]).abs() < 1e-7, "{} is not {}", got[0], expected[0]);
    assert!((got[1] - expected[1]).abs() < 1e-7, "{} is not {}", got[1], expected[1]);
}

#[test]
fn test_simple() {
    let coords = vec![vec![0.0, 0.0], vec![0.0, 1.0], vec![1.0, 1.0], vec![1.0, 2.0]];

    // `expected` is not exactly [0.5, 1.0] as might be intuited
    // but within the expected range
    let expected = vec![0.49999999, 1.0000380];
    run_line_test(coords, expected);
}

#[test]
fn half_way_falls_inside_a_segment() {
    // 12 long, halved at 6: 3 into the second segment.
    assert_eq!(
        half_way(&vec![3, 4, 5]),
        Ok(PathPosition { segment: 1, twice_offset: 6 })
    );
}

#[test]
fn half_of_an_odd_length_is_exact() {
    // 3 long, halved at 3/2: 1/2 into the second segment.
    assert_eq!(
        half_way(&vec![1, 2]),
        Ok(PathPosition { segment: 1, twice_offset: 1 })
    );
}

#[test]
fn half_way_at_a_vertex_belongs_to_the_segment_that_ends_there() {
    assert_eq!(
        half_way(&vec![2, 2]),
        Ok(PathPosition { segment: 0, twice_offset: 4 })
    );
    assert_eq!(
        half_way(&vec![1, 0, 0, 1]),
        Ok(PathPosition { segment: 0, twice_offset: 2 })
    );
}

#[test]
fn path_of_no_length_is_halved_at_its_start() {
    assert_eq!(
        half_way(&vec![0, 0, 0]),
        Ok(PathPosition { segment: 0, twice_offset: 0 })
    );
}

#[test]
fn single_segment_is_halved_in_its_middle() {
    assert_eq!(
        half_way(&vec![10]),
        Ok(PathPosition { segment: 0, twice_offset: 10 })
    );
}

#[test]
fn path_without_segments_is_invalid() {
    assert_eq!(half_way(&vec![]), Err(CentroidError::InvalidGeometry));
    assert_eq!(
        MeasuredPath::new(vec![]).centroid(),
        Err(CentroidError::InvalidGeometry)
    );
}

#[test]
fn half_the_length_lies_before_the_position() {
    let lengths: Vec<u64> = vec![7, 0, 13, 2, 2, 41, 5, 9];
    let total = measure(&lengths);
    assert_eq!(total, 79);
    let pos = half_way(&lengths).unwrap();
    let before: u128 = lengths[..pos.segment].iter().map(|&l| l as u128).sum();
    assert_eq!(2 * before + pos.twice_offset, total);
    assert!(pos.twice_offset <= 2 * lengths[pos.segment] as u128);
    assert_eq!(pos, PathPosition { segment: 5, twice_offset: 31 });
}

#[test]
fn longest_lengths_do_not_overflow() {
    let lengths = vec![u64::MAX, u64::MAX, u64::MAX];
    assert_eq!(measure(&lengths), 3 * (u64::MAX as u128));
    assert_eq!(
        half_way(&lengths),
        Ok(PathPosition { segment: 1, twice_offset: u64::MAX as u128 })
    );
}

#[test]
fn the_unit_of_length_does_not_matter() {
    let metres: Vec<u64> = vec![7, 0, 13, 2, 2, 41, 5, 9];
    let millimetres: Vec<u64> = metres.iter().map(|l| l * 1000).collect();
    let coarse = half_way(&metres).unwrap();
    let fine = half_way(&millimetres).unwrap();
    assert_eq!(fine.segment, coarse.segment);
    assert_eq!(fine.twice_offset, 1000 * coarse.twice_offset);
}

#[test]
fn trait_and_function_agree() {
    let lengths: Vec<u64> = vec![5, 1, 1, 8];
    assert_eq!(MeasuredPath::new(lengths.clone()).centroid(), half_way(&lengths));
}
