//! The scan over every zone, against which the other searches are held.

use crate::geometry::Point;
use crate::metric::{
    is_metric, is_nearest_within, keep_nearest, lemma_nearer_of_extends, measure_zone,
    usable_zones,
};
use crate::structs::{AdressClean, MiljoeDataClean};
use vstd::prelude::*;

verus! {

/// Finds the governing zone by measuring the distance to every zone.
#[derive(Debug, Clone, Copy)]
pub struct DistanceBasedAlgo;

impl DistanceBasedAlgo {
    /// The zone nearest to `address` among all usable zones, with its
    /// distance, if it lies within the threshold.
    ///
    /// An address whose position is out of range has no governing zone.
    pub fn correlate<F: Fn(Point, Point) -> u64>(
        &self,
        address: &AdressClean,
        zones: &[MiljoeDataClean],
        metric: &F,
    ) -> (found: Option<(usize, u64)>)
        requires
            is_metric(*metric),
        ensures
            !address.coordinates.in_range() ==> found is None,
            address.coordinates.in_range() ==> is_nearest_within(
                found,
                *metric,
                address.coordinates,
                zones@,
                usable_zones(zones@),
            ),
    {
        if !address.coordinates.is_in_range() {
            return None;
        }
        let origin: Point = address.coordinates;
        let mut closest: Option<(usize, u64)> = None;
        let ghost mut seen: Set<int> = Set::empty();
        let mut idx: usize = 0;
        while idx < zones.len()
            invariant
                idx <= zones.len(),
                is_metric(*metric),
                origin.in_range(),
                seen =~= Set::new(|j: int| 0 <= j < idx && zones@[j].usable()),
                is_nearest_within(closest, *metric, origin, zones@, seen),
            decreases zones.len() - idx,
        {
            let zone: &MiljoeDataClean = &zones[idx];
            if zone.is_usable() {
                let distance: u64 = measure_zone(metric, origin, zone);
                proof {
                    lemma_nearer_of_extends(closest, *metric, origin, zones@, seen, idx);
                    seen = seen.insert(idx as int);
                }
                closest = keep_nearest(closest, idx, distance);
            }
            idx = idx + 1;
        }
        assert(seen =~= usable_zones(zones@));
        closest
    }

    /// Display name of this search.
    pub fn name(&self) -> (text: &'static str)
        ensures
            text@ == "Distance-Based"@,
    {
        "Distance-Based"
    }
}

} // verus!
