//! The search through a k-d tree over the first boundary points of the
//! zones.
//!
//! The tree picks the zone whose first boundary point is nearest to the
//! address in the plane; the distance that decides whether that zone governs
//! the address is then measured to both of its boundary points.

use crate::geometry::{distance_squared, lemma_square_monotonic, squared_distance, Point};
use crate::metric::{is_metric, measure_zone, zone_distance, MAX_DISTANCE};
use crate::sorting::{lemma_same_elements, pair_le, pairs_sorted, sort_pairs};
use crate::structs::{AdressClean, MiljoeDataClean};
use vstd::prelude::*;

verus! {

/// One node of the tree. The nodes of a tree stand in one vector; a node
/// names its children by their positions there, which are smaller than its
/// own.
#[derive(Debug, Clone, Copy)]
pub struct KDNode {
    /// Position of the zone in the zone collection.
    pub index: usize,
    /// First boundary point of the zone.
    pub point: Point,
    /// The coordinate by which the node splits: 0 for `x`, 1 for `y`.
    pub axis: usize,
    /// The subtree of the points that lie at or below the split.
    pub left: Option<usize>,
    /// The subtree of the points that lie at or above the split.
    pub right: Option<usize>,
}

/// The coordinate of a point on an axis: `x` for axis 0, `y` for any other.
pub open spec fn coordinate(p: Point, axis: int) -> int {
    if axis == 0 {
        p.x as int
    } else {
        p.y as int
    }
}

/// The zone at position `zone` stands in the subtree below the node at
/// position `at`.
pub open spec fn in_subtree(nodes: Seq<KDNode>, at: int, zone: int) -> bool
    decreases at,
{
    if 0 <= at < nodes.len() {
        ||| nodes[at].index == zone
        ||| (nodes[at].left matches Some(l) && l < at && in_subtree(nodes, l as int, zone))
        ||| (nodes[at].right matches Some(r) && r < at && in_subtree(nodes, r as int, zone))
    } else {
        false
    }
}

/// The subtree below the node at position `at` is a k-d tree over first
/// boundary points of usable zones whose root splits by `axis`: the axes
/// alternate from level to level, the points of a left subtree lie at or
/// below the split of their parent and those of a right subtree at or above
/// it.
pub open spec fn subtree_ok(
    nodes: Seq<KDNode>,
    at: int,
    axis: int,
    zones: Seq<MiljoeDataClean>,
) -> bool
    decreases at,
{
    if 0 <= at < nodes.len() {
        let node = nodes[at];
        &&& node.axis == axis
        &&& 0 <= axis <= 1
        &&& node.index < zones.len()
        &&& zones[node.index as int].usable()
        &&& node.point == zones[node.index as int].start()
        &&& node.left matches Some(l) ==> {
            &&& l < at
            &&& subtree_ok(nodes, l as int, 1 - axis, zones)
            &&& forall|z: int|
                in_subtree(nodes, l as int, z) ==> 0 <= z < zones.len() && coordinate(
                    zones[z].start(),
                    axis,
                ) <= coordinate(node.point, axis)
        }
        &&& node.right matches Some(r) ==> {
            &&& r < at
            &&& subtree_ok(nodes, r as int, 1 - axis, zones)
            &&& forall|z: int|
                in_subtree(nodes, r as int, z) ==> 0 <= z < zones.len() && coordinate(
                    zones[z].start(),
                    axis,
                ) >= coordinate(node.point, axis)
        }
    } else {
        false
    }
}

/// The number of nodes of the subtree below the node at position `at`.
pub open spec fn subtree_size(nodes: Seq<KDNode>, at: int) -> nat
    decreases at,
{
    if 0 <= at < nodes.len() {
        let left = match nodes[at].left {
            Some(l) => if l < at {
                subtree_size(nodes, l as int)
            } else {
                0
            },
            None => 0,
        };
        let right = match nodes[at].right {
            Some(r) => if r < at {
                subtree_size(nodes, r as int)
            } else {
                0
            },
            None => 0,
        };
        1 + left + right
    } else {
        0
    }
}

/// The size of the subtree that a node names, and 0 if it names none.
pub open spec fn child_size(nodes: Seq<KDNode>, child: Option<usize>) -> nat {
    match child {
        Some(c) => subtree_size(nodes, c as int),
        None => 0,
    }
}

/// Every node of the subtree below the node at position `at` stands in the
/// middle of its subtree: its left subtree holds half of the nodes of the
/// subtree, rounded down, and its right subtree the rest.
pub open spec fn splits_at_median(nodes: Seq<KDNode>, at: int) -> bool
    decreases at,
{
    if 0 <= at < nodes.len() {
        let node = nodes[at];
        &&& child_size(nodes, node.left) == subtree_size(nodes, at) / 2
        &&& node.left matches Some(l) ==> l < at && splits_at_median(nodes, l as int)
        &&& node.right matches Some(r) ==> r < at && splits_at_median(nodes, r as int)
    } else {
        false
    }
}

/// A subtree is not changed by what happens to the nodes behind its root.
pub proof fn lemma_subtree_frame(
    before: Seq<KDNode>,
    after: Seq<KDNode>,
    at: int,
    zones: Seq<MiljoeDataClean>,
)
    requires
        0 <= at < before.len() <= after.len(),
        forall|i: int| 0 <= i <= at ==> before[i] == after[i],
    ensures
        forall|z: int| in_subtree(before, at, z) == in_subtree(after, at, z),
        forall|axis: int| subtree_ok(before, at, axis, zones) == subtree_ok(after, at, axis, zones),
        subtree_size(before, at) == subtree_size(after, at),
        splits_at_median(before, at) == splits_at_median(after, at),
    decreases at,
{
    let node = before[at];
    assert(after[at] == node);
    if let Some(l) = node.left {
        if l < at {
            lemma_subtree_frame(before, after, l as int, zones);
        }
    }
    if let Some(r) = node.right {
        if r < at {
            lemma_subtree_frame(before, after, r as int, zones);
        }
    }
    assert forall|z: int| in_subtree(before, at, z) == in_subtree(after, at, z) by {
        if let Some(l) = node.left {
            if l < at {
                assert(in_subtree(before, l as int, z) == in_subtree(after, l as int, z));
            }
        }
        if let Some(r) = node.right {
            if r < at {
                assert(in_subtree(before, r as int, z) == in_subtree(after, r as int, z));
            }
        }
    }
    assert forall|axis: int|
        subtree_ok(before, at, axis, zones) == subtree_ok(after, at, axis, zones) by {
        if let Some(l) = node.left {
            if l < at {
                assert(subtree_ok(before, l as int, 1 - axis, zones) == subtree_ok(
                    after,
                    l as int,
                    1 - axis,
                    zones,
                ));
            }
        }
        if let Some(r) = node.right {
            if r < at {
                assert(subtree_ok(before, r as int, 1 - axis, zones) == subtree_ok(
                    after,
                    r as int,
                    1 - axis,
                    zones,
                ));
            }
        }
    }
}

/// The zone at `first`, whose first boundary point lies at the squared
/// distance `near`, comes no later in a search than the zone at `second`
/// at the squared distance `far`: it is nearer, or as near and earlier in the
/// collection.
pub open spec fn no_farther(near: int, first: int, far: int, second: int) -> bool {
    near < far || (near == far && first <= second)
}

/// Square of the distance in the plane from `target` to the first boundary
/// point of the zone at position `zone`.
pub open spec fn proxy_distance(zones: Seq<MiljoeDataClean>, target: Point, zone: int) -> int {
    squared_distance(zones[zone].start(), target)
}

/// The zone at position `chosen` is the usable zone whose first boundary
/// point is nearest to `target` in the plane, the first one of several such
/// zones.
pub open spec fn is_nearest_first_point(
    zones: Seq<MiljoeDataClean>,
    target: Point,
    chosen: int,
) -> bool {
    &&& 0 <= chosen < zones.len()
    &&& zones[chosen].usable()
    &&& forall|z: int|
        0 <= z < zones.len() && (#[trigger] zones[z]).usable() ==> no_farther(
            proxy_distance(zones, target, chosen),
            chosen,
            proxy_distance(zones, target, z),
            z,
        )
}

/// One of the pairs has the position `zone`.
pub open spec fn holds_position(pairs: Seq<(i64, usize)>, zone: usize) -> bool {
    exists|m: int| 0 <= m < pairs.len() && (#[trigger] pairs[m]).1 == zone
}

/// The coordinate of a point on an axis.
fn coordinate_of(p: &Point, axis: usize) -> (c: i64)
    ensures
        c == coordinate(*p, axis as int),
{
    if axis == 0 {
        p.x
    } else {
        p.y
    }
}

/// A node put behind its two subtrees, which hold the zones before and
/// behind it among the zones sorted by the coordinate of its axis, is the
/// root of a well-built subtree over all of these zones.
proof fn lemma_node_completes_subtree(
    between: Seq<KDNode>,
    grown: Seq<KDNode>,
    built: Seq<KDNode>,
    node: KDNode,
    lower: Seq<usize>,
    upper: Seq<usize>,
    pairs: Seq<(i64, usize)>,
    median: int,
    indices: Seq<usize>,
    zones: Seq<MiljoeDataClean>,
    position: int,
)
    requires
        between.len() <= grown.len(),
        built == grown.push(node),
        position == built.len() - 1,
        forall|i: int| 0 <= i < between.len() ==> grown[i] == between[i],
        node.axis <= 1,
        node.left is None <==> lower.len() == 0,
        node.left matches Some(l) ==> {
            &&& l == between.len() - 1
            &&& subtree_ok(between, l as int, 1 - node.axis, zones)
            &&& subtree_size(between, l as int) == lower.len()
            &&& splits_at_median(between, l as int)
            &&& forall|z: int|
                in_subtree(between, l as int, z) <==> (0 <= z <= usize::MAX && lower.contains(
                    z as usize,
                ))
        },
        node.right is None <==> upper.len() == 0,
        node.right matches Some(r) ==> {
            &&& r == grown.len() - 1
            &&& subtree_ok(grown, r as int, 1 - node.axis, zones)
            &&& subtree_size(grown, r as int) == upper.len()
            &&& splits_at_median(grown, r as int)
            &&& forall|z: int|
                in_subtree(grown, r as int, z) <==> (0 <= z <= usize::MAX && upper.contains(
                    z as usize,
                ))
        },
        pairs_sorted(pairs),
        pairs.len() == indices.len(),
        median == pairs.len() / 2,
        0 <= median < pairs.len(),
        lower.len() == median,
        upper.len() == pairs.len() - median - 1,
        forall|j: int| 0 <= j < lower.len() ==> (#[trigger] lower[j]) == pairs[j].1,
        forall|j: int| 0 <= j < upper.len() ==> (#[trigger] upper[j]) == pairs[median + 1 + j].1,
        forall|j: int|
            0 <= j < pairs.len() ==> indices.contains((#[trigger] pairs[j]).1) && pairs[j].1
                < zones.len() && zones[pairs[j].1 as int].usable() && pairs[j].0 == coordinate(
                zones[pairs[j].1 as int].start(),
                node.axis as int,
            ),
        forall|j: int| 0 <= j < indices.len() ==> holds_position(pairs, #[trigger] indices[j]),
        node.index == pairs[median].1,
        node.point == zones[node.index as int].start(),
    ensures
        subtree_ok(built, position, node.axis as int, zones),
        subtree_size(built, position) == indices.len(),
        splits_at_median(built, position),
        forall|z: int|
            in_subtree(built, position, z) <==> (0 <= z <= usize::MAX && indices.contains(
                z as usize,
            )),
{
    let axis = node.axis as int;
    let left = node.left;
    let right = node.right;
    assert(built[position] == node);
    if let Some(l) = left {
        lemma_subtree_frame(between, built, l as int, zones);
    }
    if let Some(r) = right {
        lemma_subtree_frame(grown, built, r as int, zones);
    }
    lemma_node_orders_subtrees(built, node, lower, upper, pairs, median, zones);
    assert(subtree_ok(built, position, axis, zones));
    assert(child_size(built, left) == lower.len());
    assert(child_size(built, right) == upper.len());
    assert(subtree_size(built, position) == 1 + child_size(built, left) + child_size(built, right));
    assert(splits_at_median(built, position));
    assert forall|z: int| in_subtree(built, position, z) <==> (0 <= z <= usize::MAX
        && indices.contains(z as usize)) by {
        if in_subtree(built, position, z) {
            if node.index == z {
                assert(indices.contains(pairs[median].1));
            } else if left matches Some(l) && in_subtree(built, l as int, z) {
                let j = choose|j: int| 0 <= j < lower.len() && lower[j] == z as usize;
                assert(indices.contains(pairs[j].1));
            } else {
                let r = right->0;
                assert(in_subtree(built, r as int, z));
                let j = choose|j: int| 0 <= j < upper.len() && upper[j] == z as usize;
                assert(indices.contains(pairs[median + 1 + j].1));
            }
        }
        if 0 <= z <= usize::MAX && indices.contains(z as usize) {
            let j = choose|j: int| 0 <= j < indices.len() && indices[j] == z as usize;
            assert(holds_position(pairs, indices[j]));
            let m = choose|m: int| 0 <= m < pairs.len() && (#[trigger] pairs[m]).1 == indices[j];
            if m < median {
                assert(lower[m] == z as usize);
                assert(lower.contains(z as usize));
                let l = left->0;
                assert(in_subtree(between, l as int, z));
                assert(in_subtree(built, l as int, z));
                assert(l < position);
            } else if m > median {
                assert(upper[m - median - 1] == z as usize);
                assert(upper.contains(z as usize));
                let r = right->0;
                assert(in_subtree(grown, r as int, z));
                assert(in_subtree(built, r as int, z));
                assert(r < position);
            } else {
                assert(node.index == z);
            }
            assert(in_subtree(built, position, z));
        }
    }
}

/// The zones of the two subtrees of a new node lie on their sides of the
/// split of the node.
proof fn lemma_node_orders_subtrees(
    built: Seq<KDNode>,
    node: KDNode,
    lower: Seq<usize>,
    upper: Seq<usize>,
    pairs: Seq<(i64, usize)>,
    median: int,
    zones: Seq<MiljoeDataClean>,
)
    requires
        node.left matches Some(l) ==> forall|z: int|
            in_subtree(built, l as int, z) <==> (0 <= z <= usize::MAX && lower.contains(z as usize)),
        node.right matches Some(r) ==> forall|z: int|
            in_subtree(built, r as int, z) <==> (0 <= z <= usize::MAX && upper.contains(z as usize)),
        pairs_sorted(pairs),
        0 <= median < pairs.len(),
        lower.len() == median,
        upper.len() == pairs.len() - median - 1,
        forall|j: int| 0 <= j < lower.len() ==> (#[trigger] lower[j]) == pairs[j].1,
        forall|j: int| 0 <= j < upper.len() ==> (#[trigger] upper[j]) == pairs[median + 1 + j].1,
        forall|j: int|
            0 <= j < pairs.len() ==> (#[trigger] pairs[j]).1 < zones.len() && pairs[j].0
                == coordinate(zones[pairs[j].1 as int].start(), node.axis as int),
        node.index == pairs[median].1,
        node.point == zones[node.index as int].start(),
    ensures
        node.left matches Some(l) ==> forall|z: int|
            in_subtree(built, l as int, z) ==> 0 <= z < zones.len() && coordinate(
                zones[z].start(),
                node.axis as int,
            ) <= coordinate(node.point, node.axis as int),
        node.right matches Some(r) ==> forall|z: int|
            in_subtree(built, r as int, z) ==> 0 <= z < zones.len() && coordinate(
                zones[z].start(),
                node.axis as int,
            ) >= coordinate(node.point, node.axis as int),
{
    let axis = node.axis as int;
    assert(pairs[median].0 == coordinate(node.point, axis));
    if let Some(l) = node.left {
        assert forall|z: int| in_subtree(built, l as int, z) implies 0 <= z < zones.len()
            && coordinate(zones[z].start(), axis) <= coordinate(node.point, axis) by {
            let j = choose|j: int| 0 <= j < lower.len() && lower[j] == z as usize;
            assert(pairs[j].1 == z);
            assert(pair_le(pairs[j], pairs[median]));
        }
    }
    if let Some(r) = node.right {
        assert forall|z: int| in_subtree(built, r as int, z) implies 0 <= z < zones.len()
            && coordinate(zones[z].start(), axis) >= coordinate(node.point, axis) by {
            let j = choose|j: int| 0 <= j < upper.len() && upper[j] == z as usize;
            assert(pairs[median + 1 + j].1 == z);
            assert(pair_le(pairs[median], pairs[median + 1 + j]));
        }
    }
}

/// Builds the subtree over the zones at the positions `indices`, whose root
/// splits by `axis`, behind the nodes that are there, and returns the
/// position of its root: the zone in the middle of the zones sorted by the
/// coordinate on `axis`, with the zones before it below it to the left and
/// those behind it to the right.
pub fn build_kdtree(
    zones: &[MiljoeDataClean],
    indices: Vec<usize>,
    axis: usize,
    nodes: &mut Vec<KDNode>,
) -> (root: Option<usize>)
    requires
        axis <= 1,
        forall|k: int|
            0 <= k < indices@.len() ==> (#[trigger] indices@[k]) < zones@.len()
                && zones@[indices@[k] as int].usable(),
    ensures
        final(nodes)@.len() >= old(nodes)@.len(),
        forall|i: int| 0 <= i < old(nodes)@.len() ==> final(nodes)@[i] == old(nodes)@[i],
        root is None <==> indices@.len() == 0,
        root is None ==> final(nodes)@ == old(nodes)@,
        root matches Some(r) ==> {
            &&& r == final(nodes)@.len() - 1
            &&& r >= old(nodes)@.len()
            &&& subtree_ok(final(nodes)@, r as int, axis as int, zones@)
            &&& subtree_size(final(nodes)@, r as int) == indices@.len()
            &&& splits_at_median(final(nodes)@, r as int)
            &&& forall|z: int|
                in_subtree(final(nodes)@, r as int, z) <==> (0 <= z <= usize::MAX
                    && indices@.contains(z as usize))
        },
    decreases indices@.len(),
{
    if indices.len() == 0 {
        return None;
    }
    let mut pairs: Vec<(i64, usize)> = Vec::new();
    let mut k: usize = 0;
    while k < indices.len()
        invariant
            k <= indices@.len(),
            pairs@.len() == k,
            forall|j: int|
                0 <= j < indices@.len() ==> (#[trigger] indices@[j]) < zones@.len()
                    && zones@[indices@[j] as int].usable(),
            forall|j: int|
                0 <= j < k ==> (#[trigger] pairs@[j]).1 == indices@[j] && pairs@[j].0 == coordinate(
                    zones@[indices@[j] as int].start(),
                    axis as int,
                ),
        decreases indices.len() - k,
    {
        let at: usize = indices[k];
        pairs.push((coordinate_of(&zones[at].coordinates[0], axis), at));
        k = k + 1;
    }
    let ghost unsorted = pairs@;
    sort_pairs(&mut pairs);
    proof {
        lemma_same_elements(unsorted, pairs@);
        assert forall|j: int| 0 <= j < pairs@.len() implies indices@.contains(
            (#[trigger] pairs@[j]).1,
        ) && pairs@[j].1 < zones@.len() && zones@[pairs@[j].1 as int].usable() && pairs@[j].0
            == coordinate(zones@[pairs@[j].1 as int].start(), axis as int) by {
            assert(pairs@.contains(pairs@[j]));
            let u = choose|u: int| 0 <= u < unsorted.len() && unsorted[u] == pairs@[j];
            assert(unsorted[u].1 == indices@[u]);
        }
        assert forall|j: int| 0 <= j < indices@.len() implies holds_position(
            pairs@,
            #[trigger] indices@[j],
        ) by {
            assert(unsorted[j].1 == indices@[j]);
            assert(unsorted.contains(unsorted[j]));
            assert(pairs@.contains(unsorted[j]));
            let m = choose|m: int| 0 <= m < pairs@.len() && pairs@[m] == unsorted[j];
            assert(pairs@[m].1 == indices@[j]);
        }
    }
    let median: usize = pairs.len() / 2;
    let middle: (i64, usize) = pairs[median];
    let mut lower: Vec<usize> = Vec::new();
    let mut upper: Vec<usize> = Vec::new();
    let mut m: usize = 0;
    while m < pairs.len()
        invariant
            m <= pairs@.len(),
            median < pairs@.len(),
            lower@.len() == if m <= median {
                m as int
            } else {
                median as int
            },
            upper@.len() == if m <= median {
                0
            } else {
                m - median - 1
            },
            forall|j: int| 0 <= j < lower@.len() ==> (#[trigger] lower@[j]) == pairs@[j].1,
            forall|j: int|
                0 <= j < upper@.len() ==> (#[trigger] upper@[j]) == pairs@[median + 1 + j].1,
        decreases pairs.len() - m,
    {
        if m < median {
            lower.push(pairs[m].1);
        } else if m > median {
            upper.push(pairs[m].1);
        }
        m = m + 1;
    }
    proof {
        assert forall|j: int| 0 <= j < lower@.len() implies (#[trigger] lower@[j]) < zones@.len()
            && zones@[lower@[j] as int].usable() by {
            assert(lower@[j] == pairs@[j].1);
        }
        assert forall|j: int| 0 <= j < upper@.len() implies (#[trigger] upper@[j]) < zones@.len()
            && zones@[upper@[j] as int].usable() by {
            assert(upper@[j] == pairs@[median + 1 + j].1);
        }
    }
    let next: usize = 1 - axis;
    let ghost start = nodes@;
    let left: Option<usize> = build_kdtree(zones, lower, next, nodes);
    let ghost between = nodes@;
    let right: Option<usize> = build_kdtree(zones, upper, next, nodes);
    let ghost grown = nodes@;
    let at: usize = middle.1;
    let node: KDNode = KDNode { index: at, point: zones[at].coordinates[0], axis, left, right };
    let position: usize = nodes.len();
    nodes.push(node);
    proof {
        lemma_node_completes_subtree(
            between,
            grown,
            nodes@,
            node,
            lower@,
            upper@,
            pairs@,
            median as int,
            indices@,
            zones@,
            position as int,
        );
    }
    Some(position)
}

/// `found` is the answer of the search by first boundary points: the usable
/// zone whose first boundary point is nearest to the address in the plane,
/// with its distance to the address, if that distance is at most
/// [`MAX_DISTANCE`]; `None` if that zone is farther away or there is no
/// usable zone.
pub open spec fn is_proxy_answer<F: Fn(Point, Point) -> u64>(
    found: Option<(usize, u64)>,
    metric: F,
    address: Point,
    zones: Seq<MiljoeDataClean>,
) -> bool {
    match found {
        Some((index, distance)) => {
            &&& is_nearest_first_point(zones, address, index as int)
            &&& distance == zone_distance(metric, address, zones[index as int])
            &&& distance <= MAX_DISTANCE
        },
        None => forall|chosen: int|
            is_nearest_first_point(zones, address, chosen) ==> zone_distance(
                metric,
                address,
                #[trigger] zones[chosen],
            ) > MAX_DISTANCE,
    }
}

/// The position that a search result names, or 0 if it names none.
pub open spec fn position_in(best: Option<(usize, u64)>) -> int {
    match best {
        Some((held, _)) => held as int,
        None => 0,
    }
}

/// The distance that a search result names, or 0 if it names none.
pub open spec fn distance_in(best: Option<(usize, u64)>) -> int {
    match best {
        Some((_, least)) => least as int,
        None => 0,
    }
}

/// Only one zone is the one with the nearest first boundary point.
pub proof fn lemma_nearest_first_point_unique(
    zones: Seq<MiljoeDataClean>,
    target: Point,
    first: int,
    second: int,
)
    requires
        is_nearest_first_point(zones, target, first),
        is_nearest_first_point(zones, target, second),
    ensures
        first == second,
{
    assert(zones[first].usable());
    assert(zones[second].usable());
}

/// A point that lies at least `gap` away from `target` along one axis lies
/// at least at the squared distance `gap * gap`.
pub proof fn lemma_axis_gap(p: Point, target: Point, axis: int, gap: int)
    requires
        gap >= 0,
        coordinate(p, axis) - coordinate(target, axis) >= gap || coordinate(target, axis)
            - coordinate(p, axis) >= gap,
    ensures
        squared_distance(p, target) >= gap * gap,
{
    let dx = p.x - target.x;
    let dy = p.y - target.y;
    assert(dx * dx >= 0) by (nonlinear_arith);
    assert(dy * dy >= 0) by (nonlinear_arith);
    let along = coordinate(p, axis) - coordinate(target, axis);
    if along >= gap {
        lemma_square_monotonic(gap, along);
    } else {
        lemma_square_monotonic(gap, -along);
        assert((-along) * (-along) == along * along) by (nonlinear_arith);
    }
}

/// Searches the subtree below the node at position `at` for a zone that
/// comes before the best one found so far, and leaves the better of the two
/// in `best`, as position and squared distance of the first boundary point.
///
/// The search goes first into the half in which `target` lies. It passes
/// over the other half when the split lies farther from `target` than the
/// best zone, since nothing beyond the split can then be as near.
pub fn query_nearest(
    nodes: &Vec<KDNode>,
    at: usize,
    target: &Point,
    zones: &[MiljoeDataClean],
    best: &mut Option<(usize, u64)>,
)
    requires
        at < nodes@.len(),
        subtree_ok(nodes@, at as int, nodes@[at as int].axis as int, zones@),
        target.in_range(),
        *old(best) matches Some((held, least)) ==> held < zones@.len() && zones@[held as int].usable()
            && least == proxy_distance(zones@, *target, held as int),
    ensures
        *final(best) matches Some((held, least)) && held < zones@.len()
            && zones@[held as int].usable() && least == proxy_distance(
            zones@,
            *target,
            held as int,
        ) && (*final(best) == *old(best) || in_subtree(nodes@, at as int, held as int)) && (forall|
            z: int,
        |
            in_subtree(nodes@, at as int, z) ==> no_farther(
                least as int,
                held as int,
                proxy_distance(zones@, *target, z),
                z,
            )),
        *old(best) matches Some((held, least)) ==> no_farther(
            distance_in(*final(best)),
            position_in(*final(best)),
            least as int,
            held as int,
        ),
    decreases at,
{
    let node: KDNode = nodes[at];
    let ghost before = *best;
    let distance: u64 = distance_squared(&node.point, target);
    assert(distance == proxy_distance(zones@, *target, node.index as int));
    let replace: bool = match *best {
        Some((held, least)) => distance < least || (distance == least && node.index < held),
        None => true,
    };
    if replace {
        *best = Some((node.index, distance));
    }
    let ghost first = *best;
    let split: i64 = coordinate_of(&node.point, node.axis);
    let aim: i64 = coordinate_of(target, node.axis);
    let gap: i64 = if aim < split {
        split - aim
    } else {
        aim - split
    };
    let (near, far) = if aim < split {
        (node.left, node.right)
    } else {
        (node.right, node.left)
    };
    if let Some(child) = near {
        proof {
            assert(subtree_ok(nodes@, child as int, 1 - node.axis, zones@));
        }
        query_nearest(nodes, child, target, zones, best);
    }
    let ghost second = *best;
    proof {
        lemma_square_monotonic(0, gap as int);
        lemma_square_monotonic(gap as int, 0x8000_0000);
    }
    let gap_squared: u64 = (gap as u64) * (gap as u64);
    let least: u64 = match *best {
        Some((_, least)) => least,
        None => 0,
    };
    let mut searched: bool = false;
    if let Some(child) = far {
        if gap_squared <= least {
            proof {
                assert(subtree_ok(nodes@, child as int, 1 - node.axis, zones@));
            }
            query_nearest(nodes, child, target, zones, best);
            searched = true;
        } else {
            proof {
                assert forall|z: int| in_subtree(nodes@, child as int, z) implies no_farther(
                    least as int,
                    position_in(second),
                    proxy_distance(zones@, *target, z),
                    z,
                ) by {
                    lemma_axis_gap(zones@[z].start(), *target, node.axis as int, gap as int);
                }
            }
        }
    }
    proof {
        let last = *best;
        assert(no_farther(
            distance_in(first),
            position_in(first),
            distance as int,
            node.index as int,
        ));
        assert(no_farther(
            distance_in(second),
            position_in(second),
            distance_in(first),
            position_in(first),
        ));
        assert(no_farther(
            distance_in(last),
            position_in(last),
            distance_in(second),
            position_in(second),
        ));
        assert forall|z: int| in_subtree(nodes@, at as int, z) implies no_farther(
            distance_in(last),
            position_in(last),
            proxy_distance(zones@, *target, z),
            z,
        ) by {
            if node.index == z {
            } else if near matches Some(child) && child < at && in_subtree(
                nodes@,
                child as int,
                z,
            ) {
                assert(no_farther(
                    distance_in(second),
                    position_in(second),
                    proxy_distance(zones@, *target, z),
                    z,
                ));
            } else {
                let child = far->0;
                assert(in_subtree(nodes@, child as int, z));
                if !searched {
                    assert(no_farther(
                        distance_in(second),
                        position_in(second),
                        proxy_distance(zones@, *target, z),
                        z,
                    ));
                }
            }
        }
    }
}

/// The k-d tree over the first boundary points of the usable zones.
pub struct KDTreeSpatialAlgo {
    nodes: Vec<KDNode>,
    root: Option<usize>,
}

impl KDTreeSpatialAlgo {
    /// The tree holds exactly the usable zones among `zones` and is a
    /// k-d tree over their first boundary points whose root splits by `x`
    /// and whose nodes stand in the middle of their subtrees.
    pub closed spec fn built_for(&self, zones: Seq<MiljoeDataClean>) -> bool {
        match self.root {
            Some(r) => {
                &&& r < self.nodes@.len()
                &&& subtree_ok(self.nodes@, r as int, 0, zones)
                &&& splits_at_median(self.nodes@, r as int)
                &&& forall|z: int|
                    in_subtree(self.nodes@, r as int, z) <==> (0 <= z < zones.len()
                        && zones[z].usable())
            },
            None => forall|z: int| 0 <= z < zones.len() ==> !(#[trigger] zones[z]).usable(),
        }
    }

    /// Builds the tree over the first boundary points of the usable zones.
    pub fn new(zones: &[MiljoeDataClean]) -> (tree: Self)
        ensures
            tree.built_for(zones@),
    {
        let mut indices: Vec<usize> = Vec::new();
        let mut i: usize = 0;
        while i < zones.len()
            invariant
                i <= zones@.len(),
                forall|k: int|
                    0 <= k < indices@.len() ==> (#[trigger] indices@[k]) < zones@.len()
                        && zones@[indices@[k] as int].usable(),
                forall|z: int|
                    0 <= z < i && (#[trigger] zones@[z]).usable() ==> indices@.contains(z as usize),
            decreases zones.len() - i,
        {
            if zones[i].is_usable() {
                let ghost before = indices@;
                indices.push(i);
                proof {
                    assert forall|z: int|
                        0 <= z < i + 1 && (#[trigger] zones@[z]).usable() implies indices@.contains(
                        z as usize,
                    ) by {
                        if z < i {
                            let k = choose|k: int| 0 <= k < before.len() && before[k] == z as usize;
                            assert(indices@[k] == z as usize);
                        } else {
                            assert(indices@[before.len() as int] == z as usize);
                        }
                    }
                }
            }
            i = i + 1;
        }
        let ghost listed = indices@;
        let mut nodes: Vec<KDNode> = Vec::new();
        let root: Option<usize> = build_kdtree(zones, indices, 0, &mut nodes);
        proof {
            match root {
                Some(r) => {
                    assert forall|z: int| in_subtree(nodes@, r as int, z) <==> (0 <= z
                        < zones@.len() && zones@[z].usable()) by {
                        if in_subtree(nodes@, r as int, z) {
                            let k = choose|k: int|
                                0 <= k < listed.len() && listed[k] == z as usize;
                            assert(listed[k] < zones@.len());
                        }
                    }
                },
                None => {
                    assert forall|z: int| 0 <= z < zones@.len() implies !(
                    #[trigger] zones@[z]).usable() by {
                        if zones@[z].usable() {
                            assert(listed.contains(z as usize));
                        }
                    }
                },
            }
        }
        KDTreeSpatialAlgo { nodes, root }
    }

    /// The usable zone whose first boundary point is nearest to `address`
    /// in the plane, with its distance to the address, if that distance lies
    /// within the threshold.
    ///
    /// An address whose position is out of range has no governing zone.
    pub fn correlate<F: Fn(Point, Point) -> u64>(
        &self,
        address: &AdressClean,
        zones: &[MiljoeDataClean],
        metric: &F,
    ) -> (found: Option<(usize, u64)>)
        requires
            is_metric(*metric),
            self.built_for(zones@),
        ensures
            !address.coordinates.in_range() ==> found is None,
            address.coordinates.in_range() ==> is_proxy_answer(
                found,
                *metric,
                address.coordinates,
                zones@,
            ),
    {
        if !address.coordinates.is_in_range() {
            return None;
        }
        let origin: Point = address.coordinates;
        let root: usize = match self.root {
            Some(root) => root,
            None => {
                return None;
            },
        };
        let mut best: Option<(usize, u64)> = None;
        query_nearest(&self.nodes, root, &origin, zones, &mut best);
        let index: usize = match best {
            Some((index, _)) => index,
            None => {
                return None;
            },
        };
        proof {
            assert(is_nearest_first_point(zones@, origin, index as int)) by {
                assert forall|z: int|
                    0 <= z < zones@.len() && (#[trigger] zones@[z]).usable() implies no_farther(
                    proxy_distance(zones@, origin, index as int),
                    index as int,
                    proxy_distance(zones@, origin, z),
                    z,
                ) by {
                    assert(in_subtree(self.nodes@, root as int, z));
                }
            }
            assert forall|chosen: int|
                is_nearest_first_point(zones@, origin, chosen) implies chosen == index by {
                lemma_nearest_first_point_unique(zones@, origin, chosen, index as int);
            }
        }
        let distance: u64 = measure_zone(metric, origin, &zones[index]);
        if distance <= MAX_DISTANCE {
            Some((index, distance))
        } else {
            None
        }
    }

    /// Display name of this search.
    pub fn name(&self) -> (text: &'static str)
        ensures
            text@ == "KD-Tree Spatial Index"@,
    {
        "KD-Tree Spatial Index"
    }
}


} // verus!
