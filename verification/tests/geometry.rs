use amp_core::geometry::{
    ceil_sqrt, distance_point_to_segment, distance_squared, line_intersection, point_distance,
    sweref_to_latlon, GeoPoint, Point, COORD_LIMIT, PARTS_PER_DEGREE,
};

fn at(x: i64, y: i64) -> Point {
    Point { x, y }
}

#[test]
fn ceil_sqrt_of_squares_is_exact() {
    assert_eq!(ceil_sqrt(0), 0);
    assert_eq!(ceil_sqrt(1), 1);
    assert_eq!(ceil_sqrt(4), 2);
    assert_eq!(ceil_sqrt(1_000_000_000_000), 1_000_000);
}

#[test]
fn ceil_sqrt_rounds_up_between_squares() {
    assert_eq!(ceil_sqrt(2), 2);
    assert_eq!(ceil_sqrt(5), 3);
    assert_eq!(ceil_sqrt(9_999), 100);
    assert_eq!(ceil_sqrt(10_001), 101);
}

#[test]
fn ceil_sqrt_of_the_largest_number() {
    assert_eq!(ceil_sqrt(u128::MAX), 1u128 << 64);
}

#[test]
fn squared_distance_of_a_three_four_five_triangle() {
    assert_eq!(distance_squared(&at(0, 0), &at(3, 4)), 25);
    assert_eq!(point_distance(at(0, 0), at(3, 4)), 5);
}

#[test]
fn point_distance_rounds_up() {
    assert_eq!(point_distance(at(0, 0), at(1, 1)), 2);
    assert_eq!(point_distance(at(0, 0), at(0, 0)), 0);
}

#[test]
fn point_distance_is_symmetric() {
    let points = [at(0, 0), at(-17, 250), at(4_999, -1), at(COORD_LIMIT, -COORD_LIMIT)];
    for a in points {
        for b in points {
            assert_eq!(point_distance(a, b), point_distance(b, a));
        }
    }
}

#[test]
fn point_distance_at_the_limits_of_the_range() {
    let low = at(-COORD_LIMIT, -COORD_LIMIT);
    let high = at(COORD_LIMIT, COORD_LIMIT);
    // 2 * (2^31 - 2)^2 under the root
    assert_eq!(point_distance(low, high), 3_037_000_498);
}

#[test]
fn test_point_distance() {
    let start = at(0, 0);
    let end = at(10, 0);
    let distance = distance_point_to_segment(&at(5, 3), &start, &end);
    let dist_sq = distance * distance;
    assert_eq!(dist_sq, 9);
}

#[test]
fn distance_to_a_segment_beyond_its_ends_is_that_to_the_nearer_end() {
    let start = at(0, 0);
    let end = at(10, 0);
    assert_eq!(distance_point_to_segment(&at(-3, 4), &start, &end), 5);
    assert_eq!(distance_point_to_segment(&at(13, -4), &start, &end), 5);
}

#[test]
fn distance_to_a_slanted_segment_rounds_up() {
    // the true distance is the root of two
    assert_eq!(distance_point_to_segment(&at(2, 0), &at(0, 0), &at(2, 2)), 2);
    // the point lies on the segment
    assert_eq!(distance_point_to_segment(&at(1, 1), &at(0, 0), &at(2, 2)), 0);
}

#[test]
fn zero_length_segment_is_a_point() {
    let spot = at(700, -200);
    assert_eq!(distance_point_to_segment(&at(1_000, 200), &spot, &spot), 500);
    assert_eq!(
        distance_point_to_segment(&at(1_000, 200), &spot, &spot),
        point_distance(at(1_000, 200), spot)
    );
    assert_eq!(distance_point_to_segment(&spot, &spot, &spot), 0);
}

#[test]
fn distance_to_a_long_segment_far_away() {
    let start = at(-COORD_LIMIT, -COORD_LIMIT);
    let end = at(COORD_LIMIT, -COORD_LIMIT);
    assert_eq!(
        distance_point_to_segment(&at(0, COORD_LIMIT), &start, &end),
        2 * COORD_LIMIT as u64
    );
}

#[test]
fn crossing_segments_meet() {
    let hit = line_intersection(&at(0, 0), &at(10, 10), &at(0, 10), &at(10, 0));
    assert_eq!(hit, Some(at(5, 5)));
}

#[test]
fn meeting_point_is_rounded_down() {
    // the segments meet at (1/2, 1/2) and at (-1/2, -1/2)
    assert_eq!(line_intersection(&at(0, 0), &at(1, 1), &at(0, 1), &at(1, 0)), Some(at(0, 0)));
    assert_eq!(
        line_intersection(&at(0, 0), &at(-1, -1), &at(0, -1), &at(-1, 0)),
        Some(at(-1, -1))
    );
}

#[test]
fn parallel_segments_do_not_meet() {
    assert_eq!(line_intersection(&at(0, 0), &at(10, 0), &at(0, 5), &at(10, 5)), None);
    // not even when one lies on the other
    assert_eq!(line_intersection(&at(0, 0), &at(10, 0), &at(5, 0), &at(15, 0)), None);
}

#[test]
fn segments_that_stop_short_do_not_meet() {
    assert_eq!(line_intersection(&at(0, 0), &at(4, 4), &at(0, 10), &at(10, 0)), None);
    assert_eq!(line_intersection(&at(0, 0), &at(10, 10), &at(0, 10), &at(4, 6)), None);
}

#[test]
fn segments_that_touch_at_an_end_meet() {
    assert_eq!(line_intersection(&at(0, 0), &at(5, 5), &at(0, 10), &at(10, 0)), Some(at(5, 5)));
    assert_eq!(line_intersection(&at(0, 0), &at(10, 0), &at(10, 0), &at(10, 10)), Some(at(10, 0)));
}

#[test]
fn a_segment_of_length_zero_meets_nothing() {
    assert_eq!(line_intersection(&at(5, 5), &at(5, 5), &at(0, 10), &at(10, 0)), None);
}

#[test]
fn range_check_of_points() {
    assert!(at(COORD_LIMIT, -COORD_LIMIT).is_in_range());
    assert!(!at(COORD_LIMIT + 1, 0).is_in_range());
    assert!(!at(0, -COORD_LIMIT - 1).is_in_range());
}

#[test]
fn the_projection_of_the_plane_onto_the_globe() {
    // 500 000 m east on the line y = 0: 55.5 degrees north, 15 degrees east
    let g = sweref_to_latlon(&at(50_000_000, 0));
    assert_eq!(g, GeoPoint { latitude: 617_826_000, longitude: 166_980_000 });
    assert_eq!(g.latitude as f64 / PARTS_PER_DEGREE as f64, 55.5);
    assert_eq!(g.longitude as f64 / PARTS_PER_DEGREE as f64, 15.0);
    // 111 320 m farther north and east: one degree more of each
    let g = sweref_to_latlon(&at(50_000_000 + 11_132_000, 11_132_000));
    assert_eq!(g, GeoPoint { latitude: 628_958_000, longitude: 178_112_000 });
    let g = sweref_to_latlon(&at(0, -1));
    assert_eq!(g, GeoPoint { latitude: 617_825_999, longitude: 116_980_000 });
}
