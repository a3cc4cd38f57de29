//! When the indexed searches find what the scan over all zones finds.

use crate::correlation_algorithms::kdtree_spatial::{
    is_nearest_first_point, is_proxy_answer, lemma_nearest_first_point_unique, no_farther,
    proxy_distance,
};
use crate::correlation_algorithms::overlapping_chunks::{
    chunk_candidates, shares_chunk, CELL_WIDTH,
};
use crate::geometry::{point_distance, rounds_up_root, squared_distance, Point};
use crate::metric::{
    gives, is_nearest_within, lemma_nearest_within_unique, usable_zones, zone_distance,
    zone_measured, MAX_DISTANCE,
};
use crate::structs::MiljoeDataClean;
use vstd::prelude::*;

verus! {

/// The search by grid cells gives the answer of the scan over all zones,
/// zone and distance, whenever the zone that the scan finds has a boundary
/// point in a common cell with the address.
///
/// `scan` and `chunks` are the answers of the two searches for the same
/// address, zones and metric.
pub proof fn lemma_chunks_agree_with_scan<F: Fn(Point, Point) -> u64>(
    scan: Option<(usize, u64)>,
    chunks: Option<(usize, u64)>,
    metric: F,
    address: Point,
    zones: Seq<MiljoeDataClean>,
)
    requires
        is_nearest_within(scan, metric, address, zones, usable_zones(zones)),
        is_nearest_within(chunks, metric, address, zones, chunk_candidates(address, zones)),
        scan matches Some((index, _)) ==> chunk_candidates(address, zones).contains(index as int),
    ensures
        scan == chunks,
{
    let all = usable_zones(zones);
    let near = chunk_candidates(address, zones);
    assert forall|j: int| near.contains(j) implies all.contains(j) by {}
    assert(is_nearest_within(scan, metric, address, zones, near));
    lemma_nearest_within_unique(scan, chunks, metric, address, zones, near);
}

/// The metric puts no point within the threshold of `address` that lies
/// more than the width of a cell away from it along an axis.
pub open spec fn spans_no_cell<F: Fn(Point, Point) -> u64>(metric: F, address: Point) -> bool {
    forall|p: Point, d: u64|
        p.in_range() && #[trigger] gives(metric, address, p, d) && d <= MAX_DISTANCE ==> {
            &&& -CELL_WIDTH <= p.x - address.x <= CELL_WIDTH
            &&& -CELL_WIDTH <= p.y - address.y <= CELL_WIDTH
        }
}

/// Points that lie no more than the width of a cell apart along both axes
/// share a cell.
pub proof fn lemma_near_points_share_a_chunk(a: Point, b: Point)
    requires
        -CELL_WIDTH <= b.x - a.x <= CELL_WIDTH,
        -CELL_WIDTH <= b.y - a.y <= CELL_WIDTH,
    ensures
        shares_chunk(a, b),
{
}

/// The search by grid cells gives the answer of the scan over all zones
/// under every metric that puts no point within the threshold of the address
/// that lies more than the width of a cell away from it along an axis.
pub proof fn lemma_chunks_agree_under_a_wide_metric<F: Fn(Point, Point) -> u64>(
    scan: Option<(usize, u64)>,
    chunks: Option<(usize, u64)>,
    metric: F,
    address: Point,
    zones: Seq<MiljoeDataClean>,
)
    requires
        is_nearest_within(scan, metric, address, zones, usable_zones(zones)),
        is_nearest_within(chunks, metric, address, zones, chunk_candidates(address, zones)),
        spans_no_cell(metric, address),
    ensures
        scan == chunks,
{
    if let Some((index, distance)) = scan {
        let zone = zones[index as int];
        assert(usable_zones(zones).contains(index as int));
        assert(zone_measured(metric, address, zone, distance));
        let (to_start, to_end) = choose|to_start: u64, to_end: u64|
            {
                &&& #[trigger] gives(metric, address, zone.start(), to_start)
                &&& #[trigger] gives(metric, address, zone.end(), to_end)
                &&& distance == if to_start <= to_end {
                    to_start
                } else {
                    to_end
                }
            };
        if to_start <= to_end {
            lemma_near_points_share_a_chunk(address, zone.start());
        } else {
            lemma_near_points_share_a_chunk(address, zone.end());
        }
    }
    lemma_chunks_agree_with_scan(scan, chunks, metric, address, zones);
}

/// The distance in the plane puts no point within the threshold of an
/// address that lies more than the width of a cell away from it along an
/// axis.
pub proof fn lemma_point_distance_spans_no_cell(address: Point)
    ensures
        spans_no_cell(point_distance, address),
{
    assert forall|p: Point, d: u64|
        p.in_range() && #[trigger] gives(point_distance, address, p, d) && d
            <= MAX_DISTANCE implies (-CELL_WIDTH <= p.x - address.x <= CELL_WIDTH && -CELL_WIDTH
        <= p.y - address.y <= CELL_WIDTH) by {
        let square = squared_distance(address, p);
        let dx = address.x - p.x;
        let dy = address.y - p.y;
        assert(rounds_up_root(d as int, square, 1));
        assert(dx * dx >= 0 && dy * dy >= 0) by (nonlinear_arith);
        assert(d * d <= 5_000 * 5_000) by (nonlinear_arith)
            requires
                0 <= d <= 5_000,
        ;
        assert(-5_000 <= dx <= 5_000) by (nonlinear_arith)
            requires
                dx * dx <= 5_000 * 5_000,
        ;
        assert(-5_000 <= dy <= 5_000) by (nonlinear_arith)
            requires
                dy * dy <= 5_000 * 5_000,
        ;
    }
}

/// With the distance in the plane as the metric, the search by grid cells
/// gives the answer of the scan over all zones for every address and all
/// zones.
pub proof fn lemma_chunks_agree_in_the_plane(
    scan: Option<(usize, u64)>,
    chunks: Option<(usize, u64)>,
    address: Point,
    zones: Seq<MiljoeDataClean>,
)
    requires
        is_nearest_within(scan, point_distance, address, zones, usable_zones(zones)),
        is_nearest_within(chunks, point_distance, address, zones, chunk_candidates(address, zones)),
    ensures
        scan == chunks,
{
    lemma_point_distance_spans_no_cell(address);
    lemma_chunks_agree_under_a_wide_metric(scan, chunks, point_distance, address, zones);
}

/// The search through the k-d tree gives the answer of the scan over all
/// zones, zone and distance, whenever the zone that the scan finds is the one
/// whose first boundary point is nearest to the address in the plane.
///
/// `scan` and `tree` are the answers of the two searches for the same
/// address, zones and metric.
pub proof fn lemma_tree_agrees_with_scan<F: Fn(Point, Point) -> u64>(
    scan: Option<(usize, u64)>,
    tree: Option<(usize, u64)>,
    metric: F,
    address: Point,
    zones: Seq<MiljoeDataClean>,
)
    requires
        is_nearest_within(scan, metric, address, zones, usable_zones(zones)),
        is_proxy_answer(tree, metric, address, zones),
        scan matches Some((index, _)) ==> is_nearest_first_point(zones, address, index as int),
    ensures
        scan == tree,
{
    let all = usable_zones(zones);
    match (scan, tree) {
        (Some((i, d)), Some((j, e))) => {
            lemma_nearest_first_point_unique(zones, address, i as int, j as int);
        },
        (Some((i, d)), None) => {},
        (None, Some((j, e))) => {
            assert(all.contains(j as int));
        },
        (None, None) => {},
    }
}

/// The metric orders the usable zones by their distance to the address as
/// the plane orders them by the distance of their first boundary points: a
/// zone whose first boundary point is nearer is nearer, and zones whose
/// first boundary points are as near are as near.
pub open spec fn orders_as_first_points<F: Fn(Point, Point) -> u64>(
    metric: F,
    address: Point,
    zones: Seq<MiljoeDataClean>,
) -> bool {
    forall|i: int, j: int|
        0 <= i < zones.len() && 0 <= j < zones.len() && (#[trigger] zones[i]).usable() && (
        #[trigger] zones[j]).usable() ==> {
            &&& proxy_distance(zones, address, i) < proxy_distance(zones, address, j)
                ==> zone_distance(metric, address, zones[i]) < zone_distance(
                metric,
                address,
                zones[j],
            )
            &&& proxy_distance(zones, address, i) == proxy_distance(zones, address, j)
                ==> zone_distance(metric, address, zones[i]) == zone_distance(
                metric,
                address,
                zones[j],
            )
        }
}

/// The search through the k-d tree gives the answer of the scan over all
/// zones under every metric that orders the zones as the plane orders their
/// first boundary points.
pub proof fn lemma_tree_agrees_under_an_ordering_metric<F: Fn(Point, Point) -> u64>(
    scan: Option<(usize, u64)>,
    tree: Option<(usize, u64)>,
    metric: F,
    address: Point,
    zones: Seq<MiljoeDataClean>,
)
    requires
        is_nearest_within(scan, metric, address, zones, usable_zones(zones)),
        is_proxy_answer(tree, metric, address, zones),
        orders_as_first_points(metric, address, zones),
    ensures
        scan == tree,
{
    if let Some((index, distance)) = scan {
        let all = usable_zones(zones);
        assert(all.contains(index as int));
        assert forall|z: int| 0 <= z < zones.len() && (#[trigger] zones[z]).usable() implies no_farther(
            proxy_distance(zones, address, index as int),
            index as int,
            proxy_distance(zones, address, z),
            z,
        ) by {
            assert(all.contains(z));
            assert(zones[index as int].usable());
        }
    }
    lemma_tree_agrees_with_scan(scan, tree, metric, address, zones);
}

} // verus!
