//! The search through an R-tree over the bounding boxes of the zones.
//!
//! The tree is `rstar`'s. It holds the bounding box of every usable zone and
//! hands out the boxes that lie within the threshold of an address; the zone
//! that governs is then the one whose segment is nearest to the address. A
//! segment lies within its box, so no zone within the threshold is missed.
//! Unlike the other searches this one measures the distance to the segment
//! in the plane, not the distance to the boundary points.

use crate::geometry::{
    cross, distance_point_to_segment, dot, lemma_rounded_distance_exists,
    lemma_segment_distance_sq_positive, lemma_square_monotonic, segment_distance,
    segment_distance_sq, squared_distance, Point, COORD_LIMIT,
};
use crate::metric::{keep_nearest, MAX_DISTANCE};
use crate::structs::{AdressClean, MiljoeDataClean};
use rstar::primitives::{GeomWithData, Rectangle};
use rstar::RTree;
use vstd::multiset::Multiset;
use vstd::prelude::*;

verus! {

/// The bounding box of a zone together with the position of the zone.
#[derive(Debug, Clone, Copy, PartialEq, Eq, Structural)]
pub struct ZoneBox {
    /// Position of the zone in the zone collection.
    pub index: usize,
    /// Least `x` of the two boundary points.
    pub min_x: i64,
    /// Least `y` of the two boundary points.
    pub min_y: i64,
    /// Greatest `x` of the two boundary points.
    pub max_x: i64,
    /// Greatest `y` of the two boundary points.
    pub max_y: i64,
}

impl ZoneBox {
    /// The corners are in order and within the supported coordinate range.
    pub open spec fn well_formed(self) -> bool {
        &&& -COORD_LIMIT <= self.min_x <= self.max_x <= COORD_LIMIT
        &&& -COORD_LIMIT <= self.min_y <= self.max_y <= COORD_LIMIT
    }

    /// Square of the distance from `p` to the box: zero inside, else the
    /// squared distance to the nearest point of its border.
    pub open spec fn distance_sq(self, p: Point) -> int {
        let dx = axis_gap(self.min_x as int, self.max_x as int, p.x as int);
        let dy = axis_gap(self.min_y as int, self.max_y as int, p.y as int);
        dx * dx + dy * dy
    }
}

/// How far `c` lies outside the range from `low` to `high`; zero inside.
pub open spec fn axis_gap(low: int, high: int, c: int) -> int {
    if c < low {
        low - c
    } else if c > high {
        c - high
    } else {
        0
    }
}

/// An R-tree of `rstar` over zone boxes.
#[verifier::external_body]
pub struct BoxTree {
    tree: RTree<GeomWithData<Rectangle<[i64; 2]>, ZoneBox>>,
}

/// The boxes that the tree holds.
pub uninterp spec fn tree_boxes(tree: BoxTree) -> Multiset<ZoneBox>;

/// Loads the boxes into a tree with `RTree::bulk_load`.
///
/// Believed of `rstar`: the tree holds the boxes that were loaded, each as
/// often as it was given.
#[verifier::external_body]
fn load_boxes(boxes: Vec<ZoneBox>) -> (tree: BoxTree)
    requires
        forall|i: int| 0 <= i < boxes@.len() ==> (#[trigger] boxes@[i]).well_formed(),
    ensures
        tree_boxes(tree) == boxes@.to_multiset(),
{
    let mut items: Vec<GeomWithData<Rectangle<[i64; 2]>, ZoneBox>> = Vec::new();
    for zone_box in boxes {
        let low: [i64; 2] = [zone_box.min_x, zone_box.min_y];
        let high: [i64; 2] = [zone_box.max_x, zone_box.max_y];
        items.push(GeomWithData::new(Rectangle::from_corners(low, high), zone_box));
    }
    BoxTree { tree: RTree::bulk_load(items) }
}

/// The boxes of the tree that lie within a distance of a point, found with
/// `RTree::locate_within_distance`.
///
/// Believed of `rstar`: it hands out the elements of the tree whose squared
/// distance to the point is at most the given one, each once, in no
/// particular order; and the squared distance of a rectangle is that to its
/// nearest point, zero inside. The bounds on the coordinates keep its
/// arithmetic on `i64` from overflowing.
#[verifier::external_body]
fn boxes_within(tree: &BoxTree, p: &Point, reach_sq: i64) -> (found: Vec<ZoneBox>)
    requires
        p.in_range(),
        0 <= reach_sq,
        forall|b: ZoneBox| tree_boxes(*tree).count(b) > 0 ==> b.well_formed(),
    ensures
        forall|b: ZoneBox| #[trigger]
            found@.to_multiset().count(b) == if b.distance_sq(*p) <= reach_sq {
                tree_boxes(*tree).count(b)
            } else {
                0
            },
{
    let mut found: Vec<ZoneBox> = Vec::new();
    for item in tree.tree.locate_within_distance([p.x, p.y], reach_sq) {
        found.push(item.data);
    }
    found
}

/// The bounding box of a zone that stands at position `index`: the least
/// and the greatest coordinates of its two boundary points.
pub open spec fn box_around(zone: MiljoeDataClean, index: usize) -> ZoneBox {
    let s = zone.start();
    let e = zone.end();
    ZoneBox {
        index,
        min_x: if s.x <= e.x {
            s.x
        } else {
            e.x
        },
        min_y: if s.y <= e.y {
            s.y
        } else {
            e.y
        },
        max_x: if s.x <= e.x {
            e.x
        } else {
            s.x
        },
        max_y: if s.y <= e.y {
            e.y
        } else {
            s.y
        },
    }
}

/// The bounding box of the zone at position `index`.
pub open spec fn zone_box(zones: Seq<MiljoeDataClean>, index: int) -> ZoneBox {
    box_around(zones[index], index as usize)
}

/// `boxes` are the bounding boxes of the usable zones among the first
/// `count` zones, each once.
pub open spec fn holds_boxes_of(
    boxes: Multiset<ZoneBox>,
    zones: Seq<MiljoeDataClean>,
    count: int,
) -> bool {
    forall|b: ZoneBox| #[trigger]
        boxes.count(b) == if b.index < count && zones[b.index as int].usable() && b == zone_box(
            zones,
            b.index as int,
        ) {
            1nat
        } else {
            0nat
        }
}

/// Distance in the plane from `address` to the segment of the zone at
/// position `zone`, rounded up to a whole centimetre.
pub open spec fn zone_segment_distance(
    address: Point,
    zones: Seq<MiljoeDataClean>,
    zone: int,
) -> int {
    segment_distance(address, zones[zone].start(), zones[zone].end())
}

/// `result` names the usable zone whose segment is nearest to the address in
/// the plane together with that distance, if it is at most
/// [`MAX_DISTANCE`], and is `None` if every usable zone is farther away. Of
/// several zones at the same least distance the one that comes first in
/// `zones` is named.
pub open spec fn is_nearest_segment(
    result: Option<(usize, u64)>,
    address: Point,
    zones: Seq<MiljoeDataClean>,
) -> bool {
    match result {
        Some((index, distance)) => {
            &&& index < zones.len()
            &&& zones[index as int].usable()
            &&& distance == zone_segment_distance(address, zones, index as int)
            &&& distance <= MAX_DISTANCE
            &&& forall|j: int|
                0 <= j < zones.len() && (#[trigger] zones[j]).usable() ==> {
                    let other = zone_segment_distance(address, zones, j);
                    other > distance || (other == distance && j >= index)
                }
        },
        None => forall|j: int|
            0 <= j < zones.len() && (#[trigger] zones[j]).usable() ==> zone_segment_distance(
                address,
                zones,
                j,
            ) > MAX_DISTANCE,
    }
}

/// A coordinate that lies outside a range lies no nearer to any number
/// within the range than to the range.
proof fn lemma_gap_to_member(low: int, high: int, c: int, member: int)
    requires
        low <= member <= high,
    ensures
        axis_gap(low, high, c) * axis_gap(low, high, c) <= (c - member) * (c - member),
{
    let gap = axis_gap(low, high, c);
    if c < low {
        lemma_square_monotonic(gap, member - c);
        assert((member - c) * (member - c) == (c - member) * (c - member)) by (nonlinear_arith);
    } else if c > high {
        lemma_square_monotonic(gap, c - member);
    } else {
        assert((c - member) * (c - member) >= 0) by (nonlinear_arith);
    }
}

/// The foot of the perpendicular on a segment lies between the ends of the
/// segment, so it lies no nearer along an axis than the range of the ends.
///
/// `low` and `high` bound the coordinates `s` and `e` of the ends, `c` is
/// the coordinate of the point, `len` the squared length of the segment and
/// `along`, between 0 and `len`, the position of the foot.
proof fn lemma_gap_to_foot(low: int, high: int, s: int, e: int, c: int, len: int, along: int)
    requires
        low <= s <= high,
        low <= e <= high,
        0 < along < len,
    ensures
        (len * axis_gap(low, high, c)) * (len * axis_gap(low, high, c)) <= (len * (c - s) - along
            * (e - s)) * (len * (c - s) - along * (e - s)),
{
    let gap = axis_gap(low, high, c);
    let offset = len * (c - s) - along * (e - s);
    assert(offset == len * c - (along * e + (len - along) * s)) by (nonlinear_arith)
        requires
            offset == len * (c - s) - along * (e - s),
    ;
    assert(along * low <= along * e <= along * high) by (nonlinear_arith)
        requires
            low <= e <= high,
            along > 0,
    ;
    assert((len - along) * low <= (len - along) * s <= (len - along) * high) by (nonlinear_arith)
        requires
            low <= s <= high,
            len - along > 0,
    ;
    assert(along * low + (len - along) * low == len * low) by (nonlinear_arith);
    assert(along * high + (len - along) * high == len * high) by (nonlinear_arith);
    if c < low {
        assert(len * gap == len * low - len * c) by (nonlinear_arith)
            requires
                gap == low - c,
        ;
        assert(len * gap >= 0) by (nonlinear_arith)
            requires
                gap >= 0,
                len > 0,
        ;
        lemma_square_monotonic(len * gap, -offset);
        assert((-offset) * (-offset) == offset * offset) by (nonlinear_arith);
    } else if c > high {
        assert(len * gap == len * c - len * high) by (nonlinear_arith)
            requires
                gap == c - high,
        ;
        assert(len * gap >= 0) by (nonlinear_arith)
            requires
                gap >= 0,
                len > 0,
        ;
        lemma_square_monotonic(len * gap, offset);
    } else {
        assert(len * gap == 0) by (nonlinear_arith)
            requires
                gap == 0,
        ;
        assert(offset * offset >= 0) by (nonlinear_arith);
    }
}

/// A zone is no nearer to a point than its bounding box is: the squared
/// distance of the box is at most the squared distance of the segment.
pub proof fn lemma_box_no_farther(zones: Seq<MiljoeDataClean>, index: int, p: Point)
    requires
        0 <= index < zones.len(),
    ensures
        zone_box(zones, index).distance_sq(p) * segment_distance_sq(
            p,
            zones[index].start(),
            zones[index].end(),
        ).1 <= segment_distance_sq(p, zones[index].start(), zones[index].end()).0,
{
    let s = zones[index].start();
    let e = zones[index].end();
    let b = zone_box(zones, index);
    let gx = axis_gap(b.min_x as int, b.max_x as int, p.x as int);
    let gy = axis_gap(b.min_y as int, b.max_y as int, p.y as int);
    let len = squared_distance(s, e);
    let along = dot(p, s, e);
    if len == 0 || along <= 0 {
        lemma_gap_to_member(b.min_x as int, b.max_x as int, p.x as int, s.x as int);
        lemma_gap_to_member(b.min_y as int, b.max_y as int, p.y as int, s.y as int);
        assert(segment_distance_sq(p, s, e) == (squared_distance(p, s), 1int));
        assert(b.distance_sq(p) == gx * gx + gy * gy);
        assert(b.distance_sq(p) * 1 <= squared_distance(p, s));
    } else if along >= len {
        lemma_gap_to_member(b.min_x as int, b.max_x as int, p.x as int, e.x as int);
        lemma_gap_to_member(b.min_y as int, b.max_y as int, p.y as int, e.y as int);
        assert(segment_distance_sq(p, s, e) == (squared_distance(p, e), 1int));
        assert(b.distance_sq(p) == gx * gx + gy * gy);
        assert(b.distance_sq(p) * 1 <= squared_distance(p, e));
    } else {
        let c = cross(p, s, e);
        let px = p.x - s.x;
        let py = p.y - s.y;
        let lx = e.x - s.x;
        let ly = e.y - s.y;
        let ux = len * px - along * lx;
        let uy = len * py - along * ly;
        assert(len == lx * lx + ly * ly) by (nonlinear_arith)
            requires
                len == (s.x - e.x) * (s.x - e.x) + (s.y - e.y) * (s.y - e.y),
                lx == e.x - s.x,
                ly == e.y - s.y,
        ;
        assert(ux == -(ly * c)) by (nonlinear_arith)
            requires
                ux == len * px - along * lx,
                len == lx * lx + ly * ly,
                along == px * lx + py * ly,
                c == lx * py - ly * px,
        ;
        assert(uy == lx * c) by (nonlinear_arith)
            requires
                uy == len * py - along * ly,
                len == lx * lx + ly * ly,
                along == px * lx + py * ly,
                c == lx * py - ly * px,
        ;
        assert(ux * ux + uy * uy == len * (c * c)) by (nonlinear_arith)
            requires
                ux == -(ly * c),
                uy == lx * c,
                len == lx * lx + ly * ly,
        ;
        lemma_gap_to_foot(
            b.min_x as int,
            b.max_x as int,
            s.x as int,
            e.x as int,
            p.x as int,
            len,
            along,
        );
        lemma_gap_to_foot(
            b.min_y as int,
            b.max_y as int,
            s.y as int,
            e.y as int,
            p.y as int,
            len,
            along,
        );
        let gaps = gx * gx + gy * gy;
        assert((len * gx) * (len * gx) == len * (len * (gx * gx))) by (nonlinear_arith);
        assert((len * gy) * (len * gy) == len * (len * (gy * gy))) by (nonlinear_arith);
        assert(len * (len * (gx * gx)) + len * (len * (gy * gy)) == len * (len * gaps))
            by (nonlinear_arith)
            requires
                gaps == gx * gx + gy * gy,
        ;
        assert(len * (len * gaps) <= len * (c * c));
        assert(len * gaps <= c * c) by (nonlinear_arith)
            requires
                len * (len * gaps) <= len * (c * c),
                len > 0,
        ;
        assert(gaps * len == len * gaps) by (nonlinear_arith);
        assert(segment_distance_sq(p, s, e) == (c * c, len));
        assert(b.distance_sq(p) == gaps);
    }
}

/// The bounding box of a zone that stands at position `index`.
pub fn bounding_box(zone: &MiljoeDataClean, index: usize) -> (b: ZoneBox)
    ensures
        b == box_around(*zone, index),
        zone.usable() ==> b.well_formed(),
{
    let s: Point = zone.coordinates[0];
    let e: Point = zone.coordinates[1];
    ZoneBox {
        index,
        min_x: if s.x <= e.x {
            s.x
        } else {
            e.x
        },
        min_y: if s.y <= e.y {
            s.y
        } else {
            e.y
        },
        max_x: if s.x <= e.x {
            e.x
        } else {
            s.x
        },
        max_y: if s.y <= e.y {
            e.y
        } else {
            s.y
        },
    }
}

/// The R-tree over the bounding boxes of the usable zones.
pub struct RTreeSpatialAlgo {
    rtree: BoxTree,
}

impl RTreeSpatialAlgo {
    /// The tree holds the bounding box of every usable zone among `zones`,
    /// once, and nothing else.
    pub closed spec fn built_for(&self, zones: Seq<MiljoeDataClean>) -> bool {
        holds_boxes_of(tree_boxes(self.rtree), zones, zones.len() as int)
    }

    /// Loads the bounding boxes of the usable zones into a tree.
    pub fn new(parking_lines: &[MiljoeDataClean]) -> (index: Self)
        ensures
            index.built_for(parking_lines@),
    {
        let mut boxes: Vec<ZoneBox> = Vec::new();
        let mut i: usize = 0;
        proof {
            boxes@.to_multiset_ensures();
            assert forall|b: ZoneBox| #[trigger] boxes@.to_multiset().count(b) == 0 by {
                assert(!boxes@.contains(b));
            }
        }
        while i < parking_lines.len()
            invariant
                i <= parking_lines@.len(),
                forall|k: int| 0 <= k < boxes@.len() ==> (#[trigger] boxes@[k]).well_formed(),
                holds_boxes_of(boxes@.to_multiset(), parking_lines@, i as int),
            decreases parking_lines.len() - i,
        {
            let ghost before = boxes@;
            if parking_lines[i].is_usable() {
                let b: ZoneBox = bounding_box(&parking_lines[i], i);
                boxes.push(b);
                proof {
                    broadcast use vstd::multiset::group_multiset_axioms;

                    before.to_multiset_ensures();
                    assert(boxes@ == before.push(b));
                    assert(boxes@.to_multiset() =~= before.to_multiset().insert(b));
                }
            }
            proof {
                assert(holds_boxes_of(boxes@.to_multiset(), parking_lines@, i + 1));
            }
            i = i + 1;
        }
        let ghost loaded = boxes@;
        proof {
            assert forall|k: int| 0 <= k < loaded.len() implies (#[trigger] loaded[k]).well_formed() by {}
        }
        RTreeSpatialAlgo { rtree: load_boxes(boxes) }
    }

    /// The usable zone whose segment is nearest to `address` in the plane,
    /// with that distance, if it lies within the threshold.
    ///
    /// An address whose position is out of range has no governing zone.
    pub fn correlate(&self, address: &AdressClean, parking_lines: &[MiljoeDataClean]) -> (found:
        Option<(usize, u64)>)
        requires
            self.built_for(parking_lines@),
        ensures
            !address.coordinates.in_range() ==> found is None,
            address.coordinates.in_range() ==> is_nearest_segment(
                found,
                address.coordinates,
                parking_lines@,
            ),
    {
        if !address.coordinates.is_in_range() {
            return None;
        }
        let origin: Point = address.coordinates;
        let ghost zones = parking_lines@;
        let total: usize = parking_lines.len();
        proof {
            assert forall|b: ZoneBox| tree_boxes(self.rtree).count(b) > 0 implies b.well_formed() by {
                assert(b == zone_box(zones, b.index as int));
            }
        }
        let reach: i64 = (MAX_DISTANCE * MAX_DISTANCE) as i64;
        let near: Vec<ZoneBox> = boxes_within(&self.rtree, &origin, reach);
        let mut closest: Option<(usize, u64)> = None;
        let mut n: usize = 0;
        while n < near.len()
            invariant
                n <= near@.len(),
                zones == parking_lines@,
                total == zones.len(),
                origin.in_range(),
                self.built_for(zones),
                forall|b: ZoneBox| #[trigger]
                    near@.to_multiset().count(b) == if b.distance_sq(origin) <= reach {
                        tree_boxes(self.rtree).count(b)
                    } else {
                        0
                    },
                match closest {
                    Some((index, distance)) => {
                        &&& index < zones.len()
                        &&& zones[index as int].usable()
                        &&& distance == zone_segment_distance(origin, zones, index as int)
                        &&& distance <= MAX_DISTANCE
                    },
                    None => true,
                },
                forall|m: int|
                    0 <= m < n ==> {
                        let j = (#[trigger] near@[m]).index as int;
                        let other = zone_segment_distance(origin, zones, j);
                        match closest {
                            Some((index, distance)) => other > distance || (other == distance && j
                                >= index),
                            None => other > MAX_DISTANCE,
                        }
                    },
            decreases near.len() - n,
        {
            let candidate: ZoneBox = near[n];
            proof {
                near@.to_multiset_ensures();
                assert(near@.contains(candidate));
                assert(near@.to_multiset().count(candidate) > 0);
                assert(tree_boxes(self.rtree).count(candidate) > 0);
            }
            let index: usize = candidate.index;
            let zone: &MiljoeDataClean = &parking_lines[index];
            let distance: u64 = distance_point_to_segment(
                &origin,
                &zone.coordinates[0],
                &zone.coordinates[1],
            );
            closest = keep_nearest(closest, index, distance);
            n = n + 1;
        }
        proof {
            near@.to_multiset_ensures();
            assert forall|j: int| 0 <= j < zones.len() && (#[trigger] zones[j]).usable() implies {
                let other = zone_segment_distance(origin, zones, j);
                match closest {
                    Some((index, distance)) => other > distance || (other == distance && j
                        >= index),
                    None => other > MAX_DISTANCE,
                }
            } by {
                let other = zone_segment_distance(origin, zones, j);
                let b = zone_box(zones, j);
                if other <= MAX_DISTANCE {
                    let fraction = segment_distance_sq(origin, zones[j].start(), zones[j].end());
                    lemma_segment_distance_sq_positive(origin, zones[j].start(), zones[j].end());
                    lemma_box_no_farther(zones, j, origin);
                    lemma_rounded_distance_exists(origin, zones[j].start(), zones[j].end());
                    lemma_square_monotonic(other, MAX_DISTANCE as int);
                    assert(b.distance_sq(origin) <= reach) by (nonlinear_arith)
                        requires
                            b.distance_sq(origin) * fraction.1 <= fraction.0,
                            other * other * fraction.1 >= fraction.0,
                            other * other <= MAX_DISTANCE * MAX_DISTANCE,
                            reach == MAX_DISTANCE * MAX_DISTANCE,
                            fraction.1 > 0,
                    ;
                    assert(b.index == j);
                    assert(tree_boxes(self.rtree).count(b) == 1);
                    assert(near@.to_multiset().count(b) > 0);
                    assert(near@.contains(b));
                    let m = choose|m: int| 0 <= m < near@.len() && near@[m] == b;
                    assert(near@[m].index == j);
                }
            }
        }
        closest
    }

    /// Display name of this search.
    pub fn name(&self) -> (text: &'static str)
        ensures
            text@ == "R-Tree Spatial Index"@,
    {
        "R-Tree Spatial Index"
    }
}


} // verus!
