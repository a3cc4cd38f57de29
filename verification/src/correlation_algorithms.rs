//! The interchangeable ways of finding the zone that governs an address,
//! and the engine that runs one of them over a collection of addresses.

pub mod distance_based;
pub mod equivalence;
pub mod kdtree_spatial;
pub mod overlapping_chunks;
pub mod raycasting;
pub mod rtree_spatial;

use crate::correlation_algorithms::distance_based::DistanceBasedAlgo;
use crate::correlation_algorithms::kdtree_spatial::{is_proxy_answer, KDTreeSpatialAlgo};
use crate::correlation_algorithms::overlapping_chunks::{chunk_candidates, OverlappingChunksAlgo};
use crate::correlation_algorithms::raycasting::{ray_candidates, RaycastingAlgo};
use crate::correlation_algorithms::rtree_spatial::{is_nearest_segment, RTreeSpatialAlgo};
use crate::geometry::Point;
use crate::metric::{is_metric, is_nearest_within, usable_zones};
use crate::structs::{AdressClean, MiljoeDataClean};
use vstd::prelude::*;

verus! {

/// The choice among the searches.
#[derive(Debug, Clone, Copy, PartialEq, Eq, Structural)]
pub enum Algorithm {
    /// The scan over every zone.
    DistanceBased,
    /// The k-d tree over the first boundary points.
    KdTree,
    /// The R-tree over the bounding boxes.
    RTree,
    /// The grid of overlapping cells.
    OverlappingChunks,
    /// The rays cast from the address.
    Raycasting,
}

/// `found` is the answer that the chosen search owes for an address in
/// range.
pub open spec fn is_answer_of<F: Fn(Point, Point) -> u64>(
    choice: Algorithm,
    found: Option<(usize, u64)>,
    metric: F,
    address: Point,
    zones: Seq<MiljoeDataClean>,
) -> bool {
    match choice {
        Algorithm::DistanceBased => is_nearest_within(
            found,
            metric,
            address,
            zones,
            usable_zones(zones),
        ),
        Algorithm::KdTree => is_proxy_answer(found, metric, address, zones),
        Algorithm::RTree => is_nearest_segment(found, address, zones),
        Algorithm::OverlappingChunks => is_nearest_within(
            found,
            metric,
            address,
            zones,
            chunk_candidates(address, zones),
        ),
        Algorithm::Raycasting => is_nearest_within(
            found,
            metric,
            address,
            zones,
            ray_candidates(address, zones),
        ),
    }
}

/// One of the searches, with the index that it has built over the zones.
pub enum SpatialCorrelator {
    DistanceBased(DistanceBasedAlgo),
    KdTree(KDTreeSpatialAlgo),
    RTree(RTreeSpatialAlgo),
    OverlappingChunks(OverlappingChunksAlgo),
    Raycasting(RaycastingAlgo),
}

impl SpatialCorrelator {
    /// Which of the searches this is.
    pub open spec fn choice(&self) -> Algorithm {
        match self {
            SpatialCorrelator::DistanceBased(_) => Algorithm::DistanceBased,
            SpatialCorrelator::KdTree(_) => Algorithm::KdTree,
            SpatialCorrelator::RTree(_) => Algorithm::RTree,
            SpatialCorrelator::OverlappingChunks(_) => Algorithm::OverlappingChunks,
            SpatialCorrelator::Raycasting(_) => Algorithm::Raycasting,
        }
    }

    /// The index of the search, if it has one, was built over `zones`.
    pub open spec fn built_for(&self, zones: Seq<MiljoeDataClean>) -> bool {
        match self {
            SpatialCorrelator::KdTree(tree) => tree.built_for(zones),
            SpatialCorrelator::RTree(tree) => tree.built_for(zones),
            SpatialCorrelator::OverlappingChunks(grid) => grid.built_for(zones),
            _ => true,
        }
    }

    /// The chosen search, with its index built over `zones`.
    pub fn new(choice: Algorithm, zones: &[MiljoeDataClean]) -> (search: Self)
        ensures
            search.choice() == choice,
            search.built_for(zones@),
    {
        match choice {
            Algorithm::DistanceBased => SpatialCorrelator::DistanceBased(DistanceBasedAlgo),
            Algorithm::KdTree => SpatialCorrelator::KdTree(KDTreeSpatialAlgo::new(zones)),
            Algorithm::RTree => SpatialCorrelator::RTree(RTreeSpatialAlgo::new(zones)),
            Algorithm::OverlappingChunks => SpatialCorrelator::OverlappingChunks(
                OverlappingChunksAlgo::new(zones),
            ),
            Algorithm::Raycasting => SpatialCorrelator::Raycasting(RaycastingAlgo),
        }
    }

    /// The zone that governs `address` according to this search, with its
    /// distance; `None` if no zone does or the position of the address is
    /// out of range.
    pub fn correlate<F: Fn(Point, Point) -> u64>(
        &self,
        address: &AdressClean,
        zones: &[MiljoeDataClean],
        metric: &F,
    ) -> (found: Option<(usize, u64)>)
        requires
            is_metric(*metric),
            self.built_for(zones@),
        ensures
            !address.coordinates.in_range() ==> found is None,
            address.coordinates.in_range() ==> is_answer_of(
                self.choice(),
                found,
                *metric,
                address.coordinates,
                zones@,
            ),
    {
        match self {
            SpatialCorrelator::DistanceBased(scan) => scan.correlate(address, zones, metric),
            SpatialCorrelator::KdTree(tree) => tree.correlate(address, zones, metric),
            SpatialCorrelator::RTree(tree) => tree.correlate(address, zones),
            SpatialCorrelator::OverlappingChunks(grid) => grid.correlate(address, zones, metric),
            SpatialCorrelator::Raycasting(rays) => rays.correlate(address, zones, metric),
        }
    }

    /// Display name of this search.
    pub fn name(&self) -> (text: &'static str)
        ensures
            text@ == match self.choice() {
                Algorithm::DistanceBased => "Distance-Based"@,
                Algorithm::KdTree => "KD-Tree Spatial Index"@,
                Algorithm::RTree => "R-Tree Spatial Index"@,
                Algorithm::OverlappingChunks => "Overlapping Chunks"@,
                Algorithm::Raycasting => "Raycasting"@,
            },
    {
        match self {
            SpatialCorrelator::DistanceBased(scan) => scan.name(),
            SpatialCorrelator::KdTree(tree) => tree.name(),
            SpatialCorrelator::RTree(tree) => tree.name(),
            SpatialCorrelator::OverlappingChunks(grid) => grid.name(),
            SpatialCorrelator::Raycasting(rays) => rays.name(),
        }
    }
}

/// For every address, in order, its position in `addresses` and the zone
/// that governs it according to the chosen search, with its distance. An
/// address whose position is out of range has no governing zone; the
/// others are not affected by it.
pub fn correlate<F: Fn(Point, Point) -> u64>(
    addresses: &[AdressClean],
    zones: &[MiljoeDataClean],
    choice: Algorithm,
    metric: &F,
) -> (results: Vec<(usize, Option<(usize, u64)>)>)
    requires
        is_metric(*metric),
    ensures
        results@.len() == addresses@.len(),
        forall|i: int|
            0 <= i < results@.len() ==> {
                let address = addresses@[i].coordinates;
                let found = (#[trigger] results@[i]).1;
                &&& results@[i].0 == i
                &&& !address.in_range() ==> found is None
                &&& address.in_range() ==> is_answer_of(choice, found, *metric, address, zones@)
            },
{
    let search: SpatialCorrelator = SpatialCorrelator::new(choice, zones);
    let mut results: Vec<(usize, Option<(usize, u64)>)> = Vec::new();
    let mut i: usize = 0;
    while i < addresses.len()
        invariant
            i <= addresses@.len(),
            results@.len() == i,
            is_metric(*metric),
            search.choice() == choice,
            search.built_for(zones@),
            forall|k: int|
                0 <= k < i ==> {
                    let address = addresses@[k].coordinates;
                    let found = (#[trigger] results@[k]).1;
                    &&& results@[k].0 == k
                    &&& !address.in_range() ==> found is None
                    &&& address.in_range() ==> is_answer_of(
                        choice,
                        found,
                        *metric,
                        address,
                        zones@,
                    )
                },
        decreases addresses.len() - i,
    {
        let found: Option<(usize, u64)> = search.correlate(&addresses[i], zones, metric);
        results.push((i, found));
        i = i + 1;
    }
    results
}

} // verus!
