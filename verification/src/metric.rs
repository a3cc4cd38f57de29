//! The distance that decides which zone governs an address.

use crate::geometry::{lemma_rounds_up_root_unique, point_distance, squared_distance, Point};
use crate::structs::MiljoeDataClean;
use vstd::prelude::*;

verus! {

/// Largest distance, in centimetres, at which a zone still governs an
/// address: 50 metres.
pub const MAX_DISTANCE: u64 = 5_000;

/// `metric` can be called on every pair of points in range and returns the
/// same distance whenever it is called on the same pair.
pub open spec fn is_metric<F: Fn(Point, Point) -> u64>(metric: F) -> bool {
    &&& forall|a: Point, b: Point|
        a.in_range() && b.in_range() ==> #[trigger] call_requires(metric, (a, b))
    &&& forall|a: Point, b: Point, d1: u64, d2: u64|
        #[trigger] call_ensures(metric, (a, b), d1) && #[trigger] call_ensures(metric, (a, b), d2)
            ==> d1 == d2
}

/// The distance that `metric` gives between `a` and `b`.
pub open spec fn metric_value<F: Fn(Point, Point) -> u64>(metric: F, a: Point, b: Point) -> u64 {
    choose|d: u64| call_ensures(metric, (a, b), d)
}

/// `metric` gives the distance `d` between `a` and `b` when it is called on
/// them.
pub open spec fn gives<F: Fn(Point, Point) -> u64>(metric: F, a: Point, b: Point, d: u64) -> bool {
    call_ensures(metric, (a, b), d)
}

/// Calls `metric` on a pair of points.
pub fn measure<F: Fn(Point, Point) -> u64>(metric: &F, a: Point, b: Point) -> (d: u64)
    requires
        is_metric(*metric),
        a.in_range(),
        b.in_range(),
    ensures
        d == metric_value(*metric, a, b),
        gives(*metric, a, b, d),
{
    let d: u64 = metric(a, b);
    d
}

/// The distance in the plane, rounded up to a whole centimetre, is a metric
/// that the searches take.
pub proof fn lemma_point_distance_is_metric()
    ensures
        is_metric(point_distance),
{
    assert forall|a: Point, b: Point, d1: u64, d2: u64|
        #[trigger] call_ensures(point_distance, (a, b), d1) && #[trigger] call_ensures(
            point_distance,
            (a, b),
            d2,
        ) implies d1 == d2 by {
        lemma_rounds_up_root_unique(d1 as int, d2 as int, squared_distance(a, b), 1);
    }
}

/// Distance from an address to a zone: the smaller of the distances to the
/// zone's two boundary points.
pub open spec fn zone_distance<F: Fn(Point, Point) -> u64>(
    metric: F,
    address: Point,
    zone: MiljoeDataClean,
) -> u64 {
    let to_start = metric_value(metric, address, zone.start());
    let to_end = metric_value(metric, address, zone.end());
    if to_start <= to_end {
        to_start
    } else {
        to_end
    }
}

/// The distance to a zone whose two boundary points are one and the same is
/// the distance to that point.
pub proof fn lemma_point_zone_distance<F: Fn(Point, Point) -> u64>(
    metric: F,
    address: Point,
    zone: MiljoeDataClean,
)
    requires
        zone.start() == zone.end(),
    ensures
        zone_distance(metric, address, zone) == metric_value(metric, address, zone.start()),
{
}

/// `distance` is the distance from an address to a zone as `metric` has
/// given it: the smaller of two distances that it gives to the two boundary
/// points.
pub open spec fn zone_measured<F: Fn(Point, Point) -> u64>(
    metric: F,
    address: Point,
    zone: MiljoeDataClean,
    distance: u64,
) -> bool {
    exists|to_start: u64, to_end: u64|
        {
            &&& #[trigger] gives(metric, address, zone.start(), to_start)
            &&& #[trigger] gives(metric, address, zone.end(), to_end)
            &&& distance == if to_start <= to_end {
                to_start
            } else {
                to_end
            }
        }
}

/// The positions of the zones that a search over all of `zones` considers:
/// those whose boundary points are in range.
pub open spec fn usable_zones(zones: Seq<MiljoeDataClean>) -> Set<int> {
    Set::new(|j: int| 0 <= j < zones.len() && zones[j].usable())
}

/// `result` is the answer of a search among the zones at the positions in
/// `candidates`.
///
/// It names the candidate nearest to the address together with its distance,
/// as the metric has given it, if that distance is at most [`MAX_DISTANCE`],
/// and is `None` if every candidate is farther away. Of several candidates at
/// the same least distance the one that comes first in `zones` is named.
pub open spec fn is_nearest_within<F: Fn(Point, Point) -> u64>(
    result: Option<(usize, u64)>,
    metric: F,
    address: Point,
    zones: Seq<MiljoeDataClean>,
    candidates: Set<int>,
) -> bool {
    match result {
        Some((index, distance)) => {
            &&& candidates.contains(index as int)
            &&& distance == zone_distance(metric, address, zones[index as int])
            &&& zone_measured(metric, address, zones[index as int], distance)
            &&& distance <= MAX_DISTANCE
            &&& forall|j: int| #[trigger]
                candidates.contains(j) ==> {
                    let other = zone_distance(metric, address, zones[j]);
                    other > distance || (other == distance && j >= index)
                }
        },
        None => forall|j: int| #[trigger]
            candidates.contains(j) ==> zone_distance(metric, address, zones[j]) > MAX_DISTANCE,
    }
}

/// A search has one answer only.
pub proof fn lemma_nearest_within_unique<F: Fn(Point, Point) -> u64>(
    first: Option<(usize, u64)>,
    second: Option<(usize, u64)>,
    metric: F,
    address: Point,
    zones: Seq<MiljoeDataClean>,
    candidates: Set<int>,
)
    requires
        is_nearest_within(first, metric, address, zones, candidates),
        is_nearest_within(second, metric, address, zones, candidates),
    ensures
        first == second,
{
    match (first, second) {
        (Some((i, d)), Some((j, e))) => {
            assert(candidates.contains(i as int));
            assert(candidates.contains(j as int));
        },
        (Some((i, d)), None) => {
            assert(candidates.contains(i as int));
        },
        (None, Some((j, e))) => {
            assert(candidates.contains(j as int));
        },
        (None, None) => {},
    }
}

/// Distance from an address to a zone whose boundary points are in range.
pub fn measure_zone<F: Fn(Point, Point) -> u64>(
    metric: &F,
    address: Point,
    zone: &MiljoeDataClean,
) -> (d: u64)
    requires
        is_metric(*metric),
        address.in_range(),
        zone.usable(),
    ensures
        d == zone_distance(*metric, address, *zone),
        zone_measured(*metric, address, *zone, d),
{
    let to_start: u64 = measure(metric, address, zone.coordinates[0]);
    let to_end: u64 = measure(metric, address, zone.coordinates[1]);
    if to_start <= to_end {
        to_start
    } else {
        to_end
    }
}

/// The better of the answer so far and the zone at `index`, which lies at
/// `distance`: the zone replaces the answer if it is within the threshold and
/// nearer, or as near and earlier.
pub open spec fn nearer_of(best: Option<(usize, u64)>, index: usize, distance: u64) -> Option<
    (usize, u64),
> {
    if distance > MAX_DISTANCE {
        best
    } else {
        match best {
            Some((held, least)) => if distance < least || (distance == least && index < held) {
                Some((index, distance))
            } else {
                best
            },
            None => Some((index, distance)),
        }
    }
}

/// Takes one more zone into the answer of a search.
pub fn keep_nearest(best: Option<(usize, u64)>, index: usize, distance: u64) -> (kept: Option<
    (usize, u64),
>)
    ensures
        kept == nearer_of(best, index, distance),
{
    if distance > MAX_DISTANCE {
        return best;
    }
    match best {
        Some((held, least)) => {
            if distance < least || (distance == least && index < held) {
                Some((index, distance))
            } else {
                best
            }
        },
        None => Some((index, distance)),
    }
}

/// Taking the zone at `index` into the answer for `candidates` gives the
/// answer for `candidates` with `index` added.
pub proof fn lemma_nearer_of_extends<F: Fn(Point, Point) -> u64>(
    best: Option<(usize, u64)>,
    metric: F,
    address: Point,
    zones: Seq<MiljoeDataClean>,
    candidates: Set<int>,
    index: usize,
)
    requires
        is_nearest_within(best, metric, address, zones, candidates),
        zone_measured(
            metric,
            address,
            zones[index as int],
            zone_distance(metric, address, zones[index as int]),
        ),
    ensures
        is_nearest_within(
            nearer_of(best, index, zone_distance(metric, address, zones[index as int])),
            metric,
            address,
            zones,
            candidates.insert(index as int),
        ),
{
    let distance = zone_distance(metric, address, zones[index as int]);
    let kept = nearer_of(best, index, distance);
    let wider = candidates.insert(index as int);
    assert forall|j: int| #[trigger] wider.contains(j) implies (j == index
        || candidates.contains(j)) by {}
    match kept {
        Some((k, d)) => {
            if let Some((held, least)) = best {
                assert(candidates.contains(held as int));
            }
            assert(wider.contains(k as int));
        },
        None => {},
    }
}


} // verus!
