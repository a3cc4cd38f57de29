use amp_core::correlation_algorithms::distance_based::DistanceBasedAlgo;
use amp_core::correlation_algorithms::kdtree_spatial::KDTreeSpatialAlgo;
use amp_core::correlation_algorithms::overlapping_chunks::{get_chunks, OverlappingChunksAlgo};
use amp_core::correlation_algorithms::raycasting::{zone_is_hit, RaycastingAlgo};
use amp_core::correlation_algorithms::rtree_spatial::{bounding_box, RTreeSpatialAlgo};
use amp_core::correlation_algorithms::{correlate, Algorithm, SpatialCorrelator};
use amp_core::geometry::{
    distance_point_to_segment, distance_squared, point_distance, Point, COORD_LIMIT,
};
use amp_core::metric::{keep_nearest, measure_zone, MAX_DISTANCE};
use amp_core::structs::{AdressClean, MiljoeDataClean};

fn address_at(x: i64, y: i64) -> AdressClean {
    AdressClean {
        coordinates: Point { x, y },
        postnummer: 21138,
        adress: "Nygatan 5".to_string(),
        gata: "Nygatan".to_string(),
        gatunummer: "5".to_string(),
    }
}

fn zone_between(start: (i64, i64), end: (i64, i64)) -> MiljoeDataClean {
    MiljoeDataClean {
        coordinates: [Point { x: start.0, y: start.1 }, Point { x: end.0, y: end.1 }],
        info: "zone".to_string(),
        tid: "0800-1200".to_string(),
        dag: 3,
    }
}

/// Great-circle distance in centimetres, rounded up, between two points of
/// the plane that are first carried to latitude and longitude.
fn great_circle(a: Point, b: Point) -> u64 {
    let project = |p: Point| -> (f64, f64) {
        let x = p.x as f64 / 100.0;
        let y = p.y as f64 / 100.0;
        (y / 111320.0 + 55.5, (x - 500000.0) / 111320.0 + 15.0)
    };
    let (lat1, lon1) = project(a);
    let (lat2, lon2) = project(b);
    let delta_lat = (lat2 - lat1).to_radians();
    let delta_lon = (lon2 - lon1).to_radians();
    let h = (delta_lat / 2.0).sin().powi(2)
        + lat1.to_radians().cos() * lat2.to_radians().cos() * (delta_lon / 2.0).sin().powi(2);
    let metres = 6371000.0 * 2.0 * h.sqrt().atan2((1.0 - h).sqrt());
    (metres * 100.0).ceil() as u64
}

/// A metric that puts every point at the same distance from every other.
fn everywhere(distance: u64) -> impl Fn(Point, Point) -> u64 {
    move |_a: Point, _b: Point| distance
}

/// Points scattered over a square of 400 m, the same on every run.
fn scattered(count: usize, seed: u64) -> Vec<(i64, i64)> {
    let mut state = seed;
    let mut points = Vec::new();
    for _ in 0..count {
        state = state.wrapping_mul(6364136223846793005).wrapping_add(1442695040888963407);
        let x = ((state >> 33) % 40_000) as i64;
        state = state.wrapping_mul(6364136223846793005).wrapping_add(1442695040888963407);
        let y = ((state >> 33) % 40_000) as i64;
        points.push((x + 10_000_000, y + 600_000_000));
    }
    points
}

/// The answer of a scan that measures with `distance_of` and prefers the
/// nearer zone and, of two as near, the earlier.
fn scan_by(zones: &[MiljoeDataClean], distance_of: impl Fn(&MiljoeDataClean) -> u64) -> Option<(usize, u64)> {
    let mut best: Option<(usize, u64)> = None;
    for (index, zone) in zones.iter().enumerate() {
        let distance = distance_of(zone);
        if distance <= MAX_DISTANCE && best.map_or(true, |(_, least)| distance < least) {
            best = Some((index, distance));
        }
    }
    best
}

#[test]
fn brute_force_accepts_a_zone_at_exactly_fifty_metres() {
    let address = address_at(0, 0);
    let zones = vec![zone_between((5_000, 0), (9_000, 0))];
    let found = DistanceBasedAlgo.correlate(&address, &zones, &point_distance);
    assert_eq!(found, Some((0, 5_000)));
}

#[test]
fn brute_force_rejects_a_zone_just_beyond_fifty_metres() {
    let address = address_at(0, 0);
    let zones = vec![zone_between((5_001, 0), (9_000, 0))];
    let found = DistanceBasedAlgo.correlate(&address, &zones, &point_distance);
    assert_eq!(found, None);
}

#[test]
fn every_search_draws_the_line_at_fifty_metres() {
    let address = address_at(1_000, 1_000);
    let zones = vec![zone_between((1_000, 1_100), (1_000, 1_100))];
    let at_the_line = everywhere(5_000);
    let beyond = everywhere(5_001);
    for choice in [
        Algorithm::DistanceBased,
        Algorithm::KdTree,
        Algorithm::OverlappingChunks,
    ] {
        let search = SpatialCorrelator::new(choice, &zones);
        assert_eq!(search.correlate(&address, &zones, &at_the_line), Some((0, 5_000)));
        assert_eq!(search.correlate(&address, &zones, &beyond), None);
    }
}

#[test]
fn the_great_circle_metric_rounds_a_distance_beyond_the_line_up() {
    // 50.0001 m north of the address as the great circle goes
    let address = address_at(50_000_000, 1_000_000);
    let step = 111_320.0 / 111_194.92664455873;
    let at_fifty = (5_000.0 * step) as i64;
    let zones = vec![zone_between((50_000_000, 1_000_000 + at_fifty), (50_000_000, 9_000_000))];
    let found = DistanceBasedAlgo.correlate(&address, &zones, &great_circle);
    assert_eq!(found, Some((0, 5_000)));
    let zones = vec![zone_between((50_000_000, 1_000_000 + at_fifty + 1), (50_000_000, 9_000_000))];
    assert_eq!(DistanceBasedAlgo.correlate(&address, &zones, &great_circle), None);
}

#[test]
fn brute_force_takes_the_nearer_of_the_two_boundary_points() {
    let address = address_at(0, 0);
    let zones = vec![zone_between((90_000, 0), (0, 300)), zone_between((400, 0), (90_000, 0))];
    let found = DistanceBasedAlgo.correlate(&address, &zones, &point_distance);
    assert_eq!(found, Some((0, 300)));
}

#[test]
fn brute_force_takes_the_first_of_two_zones_as_near() {
    let address = address_at(0, 0);
    let zones = vec![
        zone_between((700, 0), (700, 0)),
        zone_between((0, 500), (0, 500)),
        zone_between((-500, 0), (0, 9_000)),
    ];
    let found = DistanceBasedAlgo.correlate(&address, &zones, &point_distance);
    assert_eq!(found, Some((1, 500)));
}

#[test]
fn a_zone_out_of_range_is_passed_over() {
    let address = address_at(0, 0);
    let zones = vec![
        zone_between((100, 0), (COORD_LIMIT + 1, 0)),
        zone_between((200, 0), (200, 0)),
    ];
    for choice in [
        Algorithm::DistanceBased,
        Algorithm::KdTree,
        Algorithm::OverlappingChunks,
        Algorithm::Raycasting,
    ] {
        let search = SpatialCorrelator::new(choice, &zones);
        let found = search.correlate(&address, &zones, &point_distance);
        if choice == Algorithm::Raycasting {
            assert_eq!(found, None);
        } else {
            assert_eq!(found, Some((1, 200)));
        }
    }
    let tree = RTreeSpatialAlgo::new(&zones);
    assert_eq!(tree.correlate(&address, &zones), Some((1, 200)));
}

#[test]
fn an_address_out_of_range_has_no_zone() {
    let address = address_at(COORD_LIMIT + 1, 0);
    let zones = vec![zone_between((COORD_LIMIT, 0), (COORD_LIMIT, 0))];
    for choice in [
        Algorithm::DistanceBased,
        Algorithm::KdTree,
        Algorithm::RTree,
        Algorithm::OverlappingChunks,
        Algorithm::Raycasting,
    ] {
        let search = SpatialCorrelator::new(choice, &zones);
        assert_eq!(search.correlate(&address, &zones, &point_distance), None);
    }
}

#[test]
fn no_zones_no_answer() {
    let address = address_at(0, 0);
    let zones: Vec<MiljoeDataClean> = Vec::new();
    for choice in [
        Algorithm::DistanceBased,
        Algorithm::KdTree,
        Algorithm::RTree,
        Algorithm::OverlappingChunks,
        Algorithm::Raycasting,
    ] {
        let search = SpatialCorrelator::new(choice, &zones);
        assert_eq!(search.correlate(&address, &zones, &point_distance), None);
    }
}

#[test]
fn a_zone_whose_boundary_points_coincide_is_a_point() {
    let address = address_at(0, 0);
    let zones = vec![zone_between((300, 400), (300, 400))];
    assert_eq!(DistanceBasedAlgo.correlate(&address, &zones, &point_distance), Some((0, 500)));
    assert_eq!(KDTreeSpatialAlgo::new(&zones).correlate(&address, &zones, &point_distance), Some((0, 500)));
    assert_eq!(
        OverlappingChunksAlgo::new(&zones).correlate(&address, &zones, &point_distance),
        Some((0, 500))
    );
    assert_eq!(RTreeSpatialAlgo::new(&zones).correlate(&address, &zones), Some((0, 500)));
    assert_eq!(RaycastingAlgo.correlate(&address, &zones, &point_distance), None);
}

#[test]
fn measure_zone_takes_the_smaller_distance() {
    let zone = zone_between((30, 40), (6, 8));
    assert_eq!(measure_zone(&point_distance, Point { x: 0, y: 0 }, &zone), 10);
    let zone = zone_between((6, 8), (30, 40));
    assert_eq!(measure_zone(&point_distance, Point { x: 0, y: 0 }, &zone), 10);
}

#[test]
fn keep_nearest_prefers_nearer_then_earlier() {
    assert_eq!(keep_nearest(None, 4, 5_000), Some((4, 5_000)));
    assert_eq!(keep_nearest(None, 4, 5_001), None);
    assert_eq!(keep_nearest(Some((4, 300)), 2, 299), Some((2, 299)));
    assert_eq!(keep_nearest(Some((4, 300)), 2, 300), Some((2, 300)));
    assert_eq!(keep_nearest(Some((4, 300)), 7, 300), Some((4, 300)));
    assert_eq!(keep_nearest(Some((4, 300)), 2, 301), Some((4, 300)));
    assert_eq!(keep_nearest(Some((4, 300)), 2, 5_001), Some((4, 300)));
}

#[test]
fn the_cells_of_a_point() {
    let cells = get_chunks(&Point { x: 12_345, y: 4_999 });
    assert_eq!(cells, vec![(2, 0), (3, 0), (2, 1), (3, 1)]);
}

#[test]
fn cell_numbers_are_rounded_towards_zero() {
    let cells = get_chunks(&Point { x: -1, y: -5_000 });
    assert_eq!(cells, vec![(0, -1), (1, -1), (0, 0), (1, 0)]);
    let cells = get_chunks(&Point { x: -COORD_LIMIT, y: COORD_LIMIT });
    assert_eq!(cells[0], (-214_748, 214_748));
}

#[test]
fn the_grid_finds_what_the_scan_finds_in_the_plane() {
    let zones: Vec<MiljoeDataClean> = scattered(300, 7)
        .chunks(2)
        .map(|pair| zone_between(pair[0], pair[1]))
        .collect();
    let grid = OverlappingChunksAlgo::new(&zones);
    let mut found_some = 0;
    for (x, y) in scattered(200, 99) {
        let address = address_at(x, y);
        let scan = DistanceBasedAlgo.correlate(&address, &zones, &point_distance);
        assert_eq!(grid.correlate(&address, &zones, &point_distance), scan);
        if scan.is_some() {
            found_some += 1;
        }
    }
    assert!(found_some > 20);
}

#[test]
fn the_grid_misses_a_zone_that_lies_two_cells_away() {
    // the metric calls near what the grid keeps apart
    let address = address_at(100, 100);
    let zones = vec![zone_between((12_100, 100), (12_100, 100))];
    let near = everywhere(4_000);
    assert_eq!(DistanceBasedAlgo.correlate(&address, &zones, &near), Some((0, 4_000)));
    assert_eq!(OverlappingChunksAlgo::new(&zones).correlate(&address, &zones, &near), None);
}

#[test]
fn the_grid_looks_at_a_zone_once() {
    // both boundary points lie in the cells of the address
    let address = address_at(5_100, 5_100);
    let zones = vec![zone_between((5_200, 5_200), (5_300, 5_300)), zone_between((5_100, 5_200), (5_100, 5_200))];
    let found = OverlappingChunksAlgo::new(&zones).correlate(&address, &zones, &point_distance);
    assert_eq!(found, Some((1, 100)));
}

#[test]
fn the_tree_finds_the_zone_with_the_nearest_first_point() {
    let starts = scattered(150, 3);
    let ends = scattered(150, 4);
    let zones: Vec<MiljoeDataClean> =
        starts.iter().zip(ends.iter()).map(|(s, e)| zone_between(*s, *e)).collect();
    let tree = KDTreeSpatialAlgo::new(&zones);
    let mut found_some = 0;
    for (x, y) in scattered(200, 5) {
        let address = address_at(x, y);
        let origin = address.coordinates;
        let mut nearest = 0;
        for (index, zone) in zones.iter().enumerate() {
            if distance_squared(&zone.coordinates[0], &origin)
                < distance_squared(&zones[nearest].coordinates[0], &origin)
            {
                nearest = index;
            }
        }
        let distance = measure_zone(&point_distance, origin, &zones[nearest]);
        let expected = if distance <= MAX_DISTANCE { Some((nearest, distance)) } else { None };
        assert_eq!(tree.correlate(&address, &zones, &point_distance), expected);
        if expected.is_some() {
            found_some += 1;
        }
    }
    assert!(found_some > 20);
}

#[test]
fn the_tree_finds_what_the_scan_finds_among_points() {
    // zones that are points, so that the nearest first point is the nearest zone
    let zones: Vec<MiljoeDataClean> = (0..40)
        .flat_map(|row| (0..40).map(move |column| (column * 1_000, row * 1_000)))
        .map(|spot| zone_between(spot, spot))
        .collect();
    let tree = KDTreeSpatialAlgo::new(&zones);
    for (x, y) in scattered(200, 11) {
        let address = address_at(x - 10_000_000 + 1, y - 600_000_000 + 3);
        let scan = DistanceBasedAlgo.correlate(&address, &zones, &point_distance);
        assert!(scan.is_some());
        assert_eq!(tree.correlate(&address, &zones, &point_distance), scan);
    }
}

#[test]
fn the_tree_takes_the_first_of_two_zones_as_near() {
    let address = address_at(0, 0);
    let zones = vec![
        zone_between((0, 900), (0, 900)),
        zone_between((500, 0), (500, 0)),
        zone_between((0, -500), (0, -500)),
        zone_between((-500, 0), (-500, 0)),
        zone_between((0, 500), (0, 500)),
    ];
    let tree = KDTreeSpatialAlgo::new(&zones);
    assert_eq!(tree.correlate(&address, &zones, &point_distance), Some((1, 500)));
}

#[test]
fn the_tree_goes_by_the_first_boundary_point_where_the_scan_does_not() {
    let address = address_at(0, 0);
    let zones = vec![zone_between((3_000, 0), (3_000, 0)), zone_between((10_000, 0), (100, 0))];
    assert_eq!(DistanceBasedAlgo.correlate(&address, &zones, &point_distance), Some((1, 100)));
    assert_eq!(KDTreeSpatialAlgo::new(&zones).correlate(&address, &zones, &point_distance), Some((0, 3_000)));
}

#[test]
fn the_tree_gives_no_zone_when_the_nearest_first_point_is_too_far() {
    let address = address_at(0, 0);
    let zones = vec![zone_between((6_000, 0), (6_000, 0)), zone_between((10_000, 0), (100, 0))];
    assert_eq!(KDTreeSpatialAlgo::new(&zones).correlate(&address, &zones, &point_distance), None);
}

#[test]
fn test_rtree_envelope() {
    let seg = zone_between((0, 0), (10, 10));

    let env = bounding_box(&seg, 0);
    assert_eq!([env.min_x, env.min_y], [0, 0]);
    assert_eq!([env.max_x, env.max_y], [10, 10]);
}

#[test]
fn a_bounding_box_orders_its_corners() {
    let env = bounding_box(&zone_between((10, -3), (-2, 7)), 4);
    assert_eq!((env.index, env.min_x, env.min_y, env.max_x, env.max_y), (4, -2, -3, 10, 7));
}

#[test]
fn the_box_tree_measures_to_the_segment() {
    // the middle of the zone is near, its boundary points are far
    let address = address_at(0, 1_000);
    let zones = vec![zone_between((-20_000, 0), (20_000, 0))];
    assert_eq!(RTreeSpatialAlgo::new(&zones).correlate(&address, &zones), Some((0, 1_000)));
    assert_eq!(DistanceBasedAlgo.correlate(&address, &zones, &point_distance), None);
}

#[test]
fn the_box_tree_draws_the_line_at_fifty_metres() {
    let zones = vec![zone_between((-20_000, 0), (20_000, 0))];
    let tree = RTreeSpatialAlgo::new(&zones);
    assert_eq!(tree.correlate(&address_at(0, 5_000), &zones), Some((0, 5_000)));
    assert_eq!(tree.correlate(&address_at(0, 5_001), &zones), None);
    // a slanted zone at a distance of a little over fifty metres
    let zones = vec![zone_between((0, 0), (30_000, 30_000))];
    let tree = RTreeSpatialAlgo::new(&zones);
    assert_eq!(tree.correlate(&address_at(17_071, 10_000), &zones), Some((0, 5_000)));
    assert_eq!(tree.correlate(&address_at(17_072, 10_000), &zones), None);
}

#[test]
fn the_box_tree_finds_what_a_scan_by_segment_distance_finds() {
    let starts = scattered(200, 21);
    let ends = scattered(200, 22);
    let zones: Vec<MiljoeDataClean> = starts
        .iter()
        .zip(ends.iter())
        .map(|(s, e)| zone_between(*s, (s.0 + (e.0 - s.0) / 8, s.1 + (e.1 - s.1) / 8)))
        .collect();
    let tree = RTreeSpatialAlgo::new(&zones);
    let mut found_some = 0;
    for (x, y) in scattered(300, 23) {
        let address = address_at(x, y);
        let origin = address.coordinates;
        let expected = scan_by(&zones, |zone| {
            distance_point_to_segment(&origin, &zone.coordinates[0], &zone.coordinates[1])
        });
        assert_eq!(tree.correlate(&address, &zones), expected);
        if expected.is_some() {
            found_some += 1;
        }
    }
    assert!(found_some > 30);
}

#[test]
fn a_ray_meets_a_zone_across_its_way() {
    let origin = Point { x: 0, y: 0 };
    // straight north of the address, across the ray at ninety degrees
    assert!(zone_is_hit(&origin, &zone_between((-100, 2_000), (100, 2_000))));
    // beyond the reach of the rays
    assert!(!zone_is_hit(&origin, &zone_between((-100, 111_321), (100, 111_321))));
    assert!(zone_is_hit(&origin, &zone_between((-100, 111_320), (100, 111_320))));
    // between the rays at zero and at ten degrees
    assert!(!zone_is_hit(&origin, &zone_between((100_000, 5_000), (100_000, 9_000))));
}

#[test]
fn the_rays_find_the_nearest_zone_that_they_meet() {
    let address = address_at(0, 0);
    let zones = vec![
        // nearest, but between two rays
        zone_between((1_000, 50), (1_000, 100)),
        // across the ray to the north
        zone_between((-100, 3_000), (100, 3_000)),
        // across the ray to the east, nearer
        zone_between((2_000, -100), (2_000, 100)),
    ];
    assert_eq!(DistanceBasedAlgo.correlate(&address, &zones, &point_distance), Some((0, 1_002)));
    assert_eq!(RaycastingAlgo.correlate(&address, &zones, &point_distance), Some((2, 2_003)));
}

#[test]
fn the_rays_of_an_address_near_the_limit_stay_in_range() {
    let address = address_at(COORD_LIMIT - 10, 0);
    let zones = vec![zone_between((COORD_LIMIT - 5, -100), (COORD_LIMIT - 5, 100)), zone_between((COORD_LIMIT - 2_000, -100), (COORD_LIMIT - 2_000, 100))];
    // the ray to the east would leave the range, the one to the west does not
    assert_eq!(RaycastingAlgo.correlate(&address, &zones, &point_distance), Some((1, 1_993)));
}

#[test]
fn every_address_gets_its_answer() {
    let addresses = vec![address_at(0, 0), address_at(COORD_LIMIT + 1, 0), address_at(100_000, 0)];
    let zones = vec![zone_between((300, 0), (300, 0)), zone_between((100_000, 400), (100_000, 400))];
    for choice in [
        Algorithm::DistanceBased,
        Algorithm::KdTree,
        Algorithm::RTree,
        Algorithm::OverlappingChunks,
    ] {
        let results = correlate(&addresses, &zones, choice, &point_distance);
        assert_eq!(results, vec![(0, Some((0, 300))), (1, None), (2, Some((1, 400)))]);
    }
}

#[test]
fn the_searches_have_names() {
    let zones: Vec<MiljoeDataClean> = Vec::new();
    assert_eq!(DistanceBasedAlgo.name(), "Distance-Based");
    assert_eq!(KDTreeSpatialAlgo::new(&zones).name(), "KD-Tree Spatial Index");
    assert_eq!(RTreeSpatialAlgo::new(&zones).name(), "R-Tree Spatial Index");
    assert_eq!(OverlappingChunksAlgo::new(&zones).name(), "Overlapping Chunks");
    assert_eq!(RaycastingAlgo.name(), "Raycasting");
    assert_eq!(SpatialCorrelator::new(Algorithm::RTree, &zones).name(), "R-Tree Spatial Index");
}

#[test]
fn the_great_circle_metric_is_symmetric() {
    let points = scattered(40, 77);
    for a in &points {
        for b in &points {
            let p = Point { x: a.0, y: a.1 };
            let q = Point { x: b.0, y: b.1 };
            assert_eq!(great_circle(p, q), great_circle(q, p));
        }
    }
}

#[test]
fn the_searches_agree_under_the_great_circle_metric_on_close_zones() {
    // zones that are points on a lattice of 20 m; every zone within the
    // threshold then shares a cell with the address
    let zones: Vec<MiljoeDataClean> = (0..20)
        .flat_map(|row| (0..20).map(move |column| (50_000_000 + column * 2_000, 1_000_000 + row * 2_000)))
        .map(|spot| zone_between(spot, spot))
        .collect();
    let grid = OverlappingChunksAlgo::new(&zones);
    for (x, y) in scattered(100, 31) {
        let address = address_at(50_000_000 + (x - 10_000_000) % 38_000, 1_000_000 + (y - 600_000_000) % 38_000);
        let scan = DistanceBasedAlgo.correlate(&address, &zones, &great_circle);
        assert!(scan.is_some());
        assert_eq!(grid.correlate(&address, &zones, &great_circle), scan);
    }
}

#[test]
fn an_address_record_is_made_from_the_fields_of_a_source_record() {
    let number = |text: &str| amp_core::decimal::DecimalNumber::parse(text).unwrap();
    let made = AdressClean::from_fields(
        &number("118543.127"),
        &number("6164892.5"),
        "21138",
        "Nygatan 5",
        "Nygatan",
        "5",
    )
    .unwrap();
    assert_eq!(made.coordinates, Point { x: 11_854_313, y: 616_489_250 });
    assert_eq!(made.postnummer, 21138);
    assert_eq!(made.adress, "Nygatan 5");
    assert_eq!(made.gata, "Nygatan");
    assert_eq!(made.gatunummer, "5");
}

#[test]
fn an_address_record_with_a_field_that_cannot_be_used_is_left_out() {
    let number = |text: &str| amp_core::decimal::DecimalNumber::parse(text).unwrap();
    let x = number("118543.127");
    let y = number("6164892.5");
    assert!(AdressClean::from_fields(&x, &y, "211 38", "Nygatan 5", "Nygatan", "5").is_none());
    assert!(AdressClean::from_fields(&x, &y, "", "Nygatan 5", "Nygatan", "5").is_none());
    assert!(AdressClean::from_fields(&x, &y, "70000", "Nygatan 5", "Nygatan", "5").is_none());
    let far = number("99999999");
    assert!(AdressClean::from_fields(&far, &y, "21138", "Nygatan 5", "Nygatan", "5").is_none());
    assert!(AdressClean::from_fields(&x, &far, "21138", "Nygatan 5", "Nygatan", "5").is_none());
}

#[test]
fn a_zone_record_is_made_from_the_fields_of_a_source_record() {
    let number = |text: &str| amp_core::decimal::DecimalNumber::parse(text).unwrap();
    let made = MiljoeDataClean::from_fields(
        (&number("118500"), &number("6164800.004")),
        (&number("118600.25"), &number("6164900")),
        "Nygatan, norra sidan",
        "0800-1200",
        "3",
    )
    .unwrap();
    assert_eq!(made.coordinates[0], Point { x: 11_850_000, y: 616_480_000 });
    assert_eq!(made.coordinates[1], Point { x: 11_860_025, y: 616_490_000 });
    assert_eq!(made.info, "Nygatan, norra sidan");
    assert_eq!(made.tid, "0800-1200");
    assert_eq!(made.dag, 3);
    assert!(made.is_usable());
}

#[test]
fn a_zone_record_with_a_field_that_cannot_be_used_is_left_out() {
    let number = |text: &str| amp_core::decimal::DecimalNumber::parse(text).unwrap();
    let near = number("118500");
    let far = number("-10737418.24");
    assert!(MiljoeDataClean::from_fields((&near, &near), (&near, &near), "a", "b", "256").is_none());
    assert!(MiljoeDataClean::from_fields((&near, &near), (&near, &near), "a", "b", "x").is_none());
    assert!(MiljoeDataClean::from_fields((&far, &near), (&near, &near), "a", "b", "3").is_none());
    assert!(MiljoeDataClean::from_fields((&near, &near), (&near, &far), "a", "b", "3").is_none());
    assert!(MiljoeDataClean::from_fields((&near, &near), (&near, &near), "a", "b", "255").is_some());
}

fn attribute(name: &str, text: Option<&str>) -> amp_core::structs::Attribute {
    amp_core::structs::Attribute { name: name.to_string(), text: text.map(str::to_string) }
}

#[test]
fn the_first_of_three_names_that_a_record_has_counts() {
    let attributes = vec![
        attribute("postalcode", Some("21134")),
        attribute("Street", Some("Nygatan")),
        attribute("PostalCode", Some("21138")),
        attribute("NUMBER", Some("5")),
    ];
    let under = |a: &str, b: &str, c: &str| amp_core::structs::text_under(&attributes, a, b, c).map(str::to_string);
    assert_eq!(under("PostalCode", "postalcode", "POSTALCODE"), Some("21138".to_string()));
    assert_eq!(under("POSTALCODE", "postalcode", "PostalCode"), Some("21134".to_string()));
    assert_eq!(under("StreetName", "Street", "STREETNAME"), Some("Nygatan".to_string()));
    assert_eq!(under("StreetNumber", "Number", "STREETNUMBER"), None);
    assert_eq!(under("a", "b", "NUMBER"), Some("5".to_string()));
}

#[test]
fn a_value_that_is_no_text_hides_the_names_behind_it() {
    let attributes = vec![attribute("Day", None), attribute("Dag", Some("3"))];
    assert_eq!(amp_core::structs::text_under(&attributes, "Day", "Dag", "DAY"), None);
    assert_eq!(amp_core::structs::text_under(&attributes, "DAY", "Dag", "Day"), Some("3"));
    let none: Vec<amp_core::structs::Attribute> = Vec::new();
    assert_eq!(amp_core::structs::text_under(&none, "Day", "Dag", "DAY"), None);
}
