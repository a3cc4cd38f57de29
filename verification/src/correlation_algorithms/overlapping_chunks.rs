//! The search that looks only at the zones filed under the grid cells around
//! the address.
//!
//! The plane is cut into square cells. A point belongs to its own cell and to
//! the three neighbours to the east, to the north and to the north-east, so
//! that neighbouring points share a cell even across a cell border. Every
//! zone is filed under the cells of both of its boundary points.

use crate::geometry::{Point, COORD_LIMIT};
use crate::metric::{
    is_metric, is_nearest_within, keep_nearest, lemma_nearer_of_extends, measure_zone,
};
use crate::structs::{AdressClean, MiljoeDataClean};
use std::collections::{HashMap, HashSet};
use vstd::prelude::*;

verus! {

broadcast use vstd::std_specs::hash::group_hash_axioms;

/// Width of the square that the four cells of a point cover, in centimetres.
pub const CHUNK_SIZE: i64 = 10_000;

/// Width of the strip that the squares of neighbouring cells have in common,
/// in centimetres.
pub const OVERLAP: i64 = 5_000;

/// Width of a grid cell, in centimetres.
pub const CELL_WIDTH: i64 = CHUNK_SIZE - OVERLAP;

/// The cell number of a coordinate: the coordinate divided by the cell width,
/// rounded towards zero.
pub open spec fn cell_of(c: int) -> int {
    if c >= 0 {
        c / (CELL_WIDTH as int)
    } else {
        -((-c) / (CELL_WIDTH as int))
    }
}

/// The four cells that a point belongs to: `(column, row)` of its own cell
/// and of the neighbours to the east, north and north-east.
pub open spec fn chunks_of(p: Point) -> Seq<(int, int)> {
    let column = cell_of(p.x as int);
    let row = cell_of(p.y as int);
    seq![(column, row), (column + 1, row), (column, row + 1), (column + 1, row + 1)]
}

/// The points `a` and `b` belong to a common cell: their columns and their
/// rows differ by one at most.
pub open spec fn shares_chunk(a: Point, b: Point) -> bool {
    &&& -1 <= cell_of(a.x as int) - cell_of(b.x as int) <= 1
    &&& -1 <= cell_of(a.y as int) - cell_of(b.y as int) <= 1
}

/// The positions of the usable zones that have a boundary point in a common
/// cell with the address.
pub open spec fn chunk_candidates(address: Point, zones: Seq<MiljoeDataClean>) -> Set<int> {
    Set::new(
        |j: int|
            0 <= j < zones.len() && zones[j].usable() && (shares_chunk(address, zones[j].start())
                || shares_chunk(address, zones[j].end())),
    )
}

/// The number under which the cell `(column, row)` is filed.
pub open spec fn chunk_key(column: int, row: int) -> int {
    (column + 262_144) * 1_048_576 + (row + 262_144)
}

/// `key` is the number of one of the four cells of `p`.
pub open spec fn point_in_chunk(p: Point, key: int) -> bool {
    let column = cell_of(p.x as int);
    let row = cell_of(p.y as int);
    ||| key == chunk_key(column, row)
    ||| key == chunk_key(column + 1, row)
    ||| key == chunk_key(column, row + 1)
    ||| key == chunk_key(column + 1, row + 1)
}

/// `key` is the number of a cell of one of the boundary points of `zone`.
pub open spec fn zone_in_chunk(zone: MiljoeDataClean, key: int) -> bool {
    point_in_chunk(zone.start(), key) || point_in_chunk(zone.end(), key)
}

/// The zone at position `index` is filed under `key`.
pub open spec fn filed_under(chunks: Map<u64, Vec<usize>>, key: u64, index: usize) -> bool {
    chunks.contains_key(key) && chunks[key]@.contains(index)
}

/// The cell number of a coordinate in range.
pub proof fn lemma_cell_bounds(c: int)
    requires
        -COORD_LIMIT <= c <= COORD_LIMIT,
    ensures
        -214_748 <= cell_of(c) <= 214_748,
{
}

/// Different cells are filed under different numbers.
pub proof fn lemma_key_injective(column: int, row: int, other_column: int, other_row: int)
    requires
        -214_748 <= column <= 214_749,
        -214_748 <= row <= 214_749,
        -214_748 <= other_column <= 214_749,
        -214_748 <= other_row <= 214_749,
        chunk_key(column, row) == chunk_key(other_column, other_row),
    ensures
        column == other_column,
        row == other_row,
{
}

/// The cell of `p`, among its four, that is filed under `key`.
pub open spec fn chunk_under(p: Point, key: int) -> (int, int) {
    let column = cell_of(p.x as int);
    let row = cell_of(p.y as int);
    if key == chunk_key(column, row) {
        (column, row)
    } else if key == chunk_key(column + 1, row) {
        (column + 1, row)
    } else if key == chunk_key(column, row + 1) {
        (column, row + 1)
    } else {
        (column + 1, row + 1)
    }
}

/// Two points in range share a cell exactly if one of the cell numbers of the
/// first is one of the cell numbers of the second.
pub proof fn lemma_shares_chunk_by_key(a: Point, b: Point)
    requires
        a.in_range(),
        b.in_range(),
    ensures
        shares_chunk(a, b) <==> exists|key: int| point_in_chunk(a, key) && point_in_chunk(b, key),
{
    let ac = cell_of(a.x as int);
    let ar = cell_of(a.y as int);
    let bc = cell_of(b.x as int);
    let br = cell_of(b.y as int);
    lemma_cell_bounds(a.x as int);
    lemma_cell_bounds(a.y as int);
    lemma_cell_bounds(b.x as int);
    lemma_cell_bounds(b.y as int);
    if shares_chunk(a, b) {
        let column = if ac >= bc {
            ac
        } else {
            bc
        };
        let row = if ar >= br {
            ar
        } else {
            br
        };
        let key = chunk_key(column, row);
        assert(point_in_chunk(a, key) && point_in_chunk(b, key));
    }
    if exists|key: int| point_in_chunk(a, key) && point_in_chunk(b, key) {
        let key = choose|key: int| point_in_chunk(a, key) && point_in_chunk(b, key);
        let first = chunk_under(a, key);
        let second = chunk_under(b, key);
        assert(key == chunk_key(first.0, first.1));
        assert(key == chunk_key(second.0, second.1));
        assert(ac <= first.0 <= ac + 1 && ar <= first.1 <= ar + 1);
        assert(bc <= second.0 <= bc + 1 && br <= second.1 <= br + 1);
        lemma_key_injective(first.0, first.1, second.0, second.1);
    }
}

/// Cell number of a coordinate.
fn cell_index(c: i64) -> (cell: i64)
    requires
        -COORD_LIMIT <= c <= COORD_LIMIT,
    ensures
        cell == cell_of(c as int),
        -214_748 <= cell <= 214_748,
{
    if c >= 0 {
        c / CELL_WIDTH
    } else {
        -((-c) / CELL_WIDTH)
    }
}

/// The four cells that a point belongs to.
pub fn get_chunks(p: &Point) -> (cells: Vec<(i64, i64)>)
    requires
        p.in_range(),
    ensures
        cells@.len() == 4,
        forall|i: int| 0 <= i < 4 ==> (#[trigger] cells@[i]).0 == chunks_of(*p)[i].0 && cells@[i].1
            == chunks_of(*p)[i].1,
{
    let column: i64 = cell_index(p.x);
    let row: i64 = cell_index(p.y);
    let mut cells: Vec<(i64, i64)> = Vec::new();
    cells.push((column, row));
    cells.push((column + 1, row));
    cells.push((column, row + 1));
    cells.push((column + 1, row + 1));
    cells
}

/// The number under which a cell is filed.
fn key_of(cell: (i64, i64)) -> (key: u64)
    requires
        -214_748 <= cell.0 <= 214_749,
        -214_748 <= cell.1 <= 214_749,
    ensures
        key == chunk_key(cell.0 as int, cell.1 as int),
{
    ((cell.0 + 262_144) * 1_048_576 + (cell.1 + 262_144)) as u64
}

/// The numbers of the four cells of a point.
fn keys_of(p: &Point) -> (keys: Vec<u64>)
    requires
        p.in_range(),
    ensures
        keys@.len() == 4,
        forall|key: int| point_in_chunk(*p, key) <==> exists|i: int|
            0 <= i < 4 && #[trigger] keys@[i] == key,
{
    let cells: Vec<(i64, i64)> = get_chunks(p);
    let mut keys: Vec<u64> = Vec::new();
    keys.push(key_of(cells[0]));
    keys.push(key_of(cells[1]));
    keys.push(key_of(cells[2]));
    keys.push(key_of(cells[3]));
    proof {
        assert forall|key: int| point_in_chunk(*p, key) implies exists|i: int|
            0 <= i < 4 && #[trigger] keys@[i] == key by {
            if key == keys@[0] {
            } else if key == keys@[1] {
            } else if key == keys@[2] {
            } else {
                assert(key == keys@[3]);
            }
        }
    }
    keys
}

/// Files the zone at position `index` under `key`.
fn file_under(chunks: &mut HashMap<u64, Vec<usize>>, key: u64, index: usize)
    ensures
        forall|k: u64, j: usize|
            filed_under(final(chunks)@, k, j) <==> (filed_under(old(chunks)@, k, j) || (k == key
                && j == index)),
{
    let mut list: Vec<usize> = match chunks.remove(&key) {
        Some(held) => held,
        None => Vec::new(),
    };
    let ghost before = list@;
    list.push(index);
    chunks.insert(key, list);
    proof {
        assert forall|k: u64, j: usize|
            filed_under(final(chunks)@, k, j) <==> (filed_under(old(chunks)@, k, j) || (k == key
                && j == index)) by {
            if k == key {
                assert(final(chunks)@[key]@ == before.push(index));
                if before.contains(j) {
                    let i = choose|i: int| 0 <= i < before.len() && before[i] == j;
                    assert(before.push(index)[i] == j);
                }
                if j == index {
                    assert(before.push(index)[before.len() as int] == j);
                }
            }
        }
    }
}

/// Files the zone at position `index` under the four cells of `p`.
fn file_point(chunks: &mut HashMap<u64, Vec<usize>>, p: &Point, index: usize)
    requires
        p.in_range(),
    ensures
        forall|k: u64, j: usize|
            filed_under(final(chunks)@, k, j) <==> (filed_under(old(chunks)@, k, j) || (j == index
                && point_in_chunk(*p, k as int))),
{
    let keys: Vec<u64> = keys_of(p);
    file_under(chunks, keys[0], index);
    file_under(chunks, keys[1], index);
    file_under(chunks, keys[2], index);
    file_under(chunks, keys[3], index);
    proof {
        assert forall|k: u64, j: usize|
            filed_under(final(chunks)@, k, j) <==> (filed_under(old(chunks)@, k, j) || (j == index
                && point_in_chunk(*p, k as int))) by {
            if point_in_chunk(*p, k as int) {
                let i = choose|i: int| 0 <= i < 4 && #[trigger] keys@[i] == k as int;
            }
            assert(keys@[0] == keys@[0] && keys@[1] == keys@[1] && keys@[2] == keys@[2] && keys@[3]
                == keys@[3]);
        }
    }
}

/// The zones filed under the cells of the plane.
pub struct OverlappingChunksAlgo {
    chunks: HashMap<u64, Vec<usize>>,
}

impl OverlappingChunksAlgo {
    /// The index holds exactly the usable zones among `zones`, each under the
    /// cells of its two boundary points and under no other.
    pub closed spec fn built_for(&self, zones: Seq<MiljoeDataClean>) -> bool {
        forall|k: u64, j: usize|
            filed_under(self.chunks@, k, j) <==> (j < zones.len() && zones[j as int].usable()
                && zone_in_chunk(zones[j as int], k as int))
    }

    /// Files every usable zone under the cells of its two boundary points.
    pub fn new(zones: &[MiljoeDataClean]) -> (index: Self)
        ensures
            index.built_for(zones@),
    {
        let mut chunks: HashMap<u64, Vec<usize>> = HashMap::new();
        let mut idx: usize = 0;
        assert forall|k: u64, j: usize| !filed_under(chunks@, k, j) by {}
        while idx < zones.len()
            invariant
                idx <= zones.len(),
                forall|k: u64, j: usize|
                    filed_under(chunks@, k, j) <==> (j < idx && zones@[j as int].usable()
                        && zone_in_chunk(zones@[j as int], k as int)),
            decreases zones.len() - idx,
        {
            let zone: &MiljoeDataClean = &zones[idx];
            if zone.is_usable() {
                file_point(&mut chunks, &zone.coordinates[0], idx);
                file_point(&mut chunks, &zone.coordinates[1], idx);
            }
            idx = idx + 1;
        }
        OverlappingChunksAlgo { chunks }
    }

    /// The zone nearest to `address` among the usable zones that have a
    /// boundary point in a common cell with the address, with its distance,
    /// if it lies within the threshold.
    ///
    /// An address whose position is out of range has no governing zone.
    pub fn correlate<F: Fn(Point, Point) -> u64>(
        &self,
        address: &AdressClean,
        zones: &[MiljoeDataClean],
        metric: &F,
    ) -> (found: Option<(usize, u64)>)
        requires
            is_metric(*metric),
            self.built_for(zones@),
        ensures
            !address.coordinates.in_range() ==> found is None,
            address.coordinates.in_range() ==> is_nearest_within(
                found,
                *metric,
                address.coordinates,
                zones@,
                chunk_candidates(address.coordinates, zones@),
            ),
    {
        if !address.coordinates.is_in_range() {
            return None;
        }
        let origin: Point = address.coordinates;
        let keys: Vec<u64> = keys_of(&origin);
        let total: usize = zones.len();
        let mut closest: Option<(usize, u64)> = None;
        let mut checked: HashSet<usize> = HashSet::new();
        let ghost mut seen: Set<int> = Set::empty();
        let mut c: usize = 0;
        while c < 4
            invariant
                c <= 4,
                keys@.len() == 4,
                total == zones@.len(),
                forall|key: int| point_in_chunk(origin, key) <==> exists|i: int|
                    0 <= i < 4 && #[trigger] keys@[i] == key,
                is_metric(*metric),
                self.built_for(zones@),
                origin.in_range(),
                forall|j: int| seen.contains(j) ==> 0 <= j < total,
                forall|j: usize| seen.contains(j as int) <==> checked@.contains(j),
                forall|j: usize|
                    seen.contains(j as int) <==> exists|i: int|
                        0 <= i < c && filed_under(self.chunks@, #[trigger] keys@[i], j),
                is_nearest_within(closest, *metric, origin, zones@, seen),
            decreases 4 - c,
        {
            let key: u64 = keys[c];
            match self.chunks.get(&key) {
                Some(list) => {
                    let mut n: usize = 0;
                    while n < list.len()
                        invariant
                            n <= list.len(),
                            c < 4,
                            keys@.len() == 4,
                            total == zones@.len(),
                            key == keys@[c as int],
                            self.chunks@.contains_key(key),
                            self.chunks@[key] == *list,
                            is_metric(*metric),
                            self.built_for(zones@),
                            origin.in_range(),
                            forall|j: int| seen.contains(j) ==> 0 <= j < total,
                            forall|j: usize| seen.contains(j as int) <==> checked@.contains(j),
                            forall|j: usize|
                                seen.contains(j as int) <==> ((exists|i: int|
                                    0 <= i < c && filed_under(
                                        self.chunks@,
                                        #[trigger] keys@[i],
                                        j,
                                    )) || (exists|m: int| 0 <= m < n && #[trigger] list@[m] == j)),
                            is_nearest_within(closest, *metric, origin, zones@, seen),
                        decreases list.len() - n,
                    {
                        let idx: usize = list[n];
                        assert(filed_under(self.chunks@, key, idx));
                        if checked.insert(idx) {
                            let distance: u64 = measure_zone(metric, origin, &zones[idx]);
                            proof {
                                lemma_nearer_of_extends(
                                    closest,
                                    *metric,
                                    origin,
                                    zones@,
                                    seen,
                                    idx,
                                );
                                seen = seen.insert(idx as int);
                            }
                            closest = keep_nearest(closest, idx, distance);
                        }
                        n = n + 1;
                    }
                    proof {
                        assert forall|j: usize|
                            seen.contains(j as int) <==> exists|i: int|
                                0 <= i < c + 1 && filed_under(
                                    self.chunks@,
                                    #[trigger] keys@[i],
                                    j,
                                ) by {
                            if filed_under(self.chunks@, key, j) {
                                let m = choose|m: int| 0 <= m < list@.len() && list@[m] == j;
                                assert(list@[m] == j);
                            }
                        }
                    }
                },
                None => {},
            }
            c = c + 1;
        }
        proof {
            let wanted = chunk_candidates(origin, zones@);
            assert forall|j: int| seen.contains(j) <==> wanted.contains(j) by {
                if seen.contains(j) {
                    let at = j as usize;
                    let i = choose|i: int|
                        0 <= i < 4 && filed_under(self.chunks@, #[trigger] keys@[i], at);
                    let key = keys@[i] as int;
                    assert(zones@[j].usable() && zone_in_chunk(zones@[j], key));
                    assert(point_in_chunk(origin, key));
                    lemma_shares_chunk_by_key(origin, zones@[j].start());
                    lemma_shares_chunk_by_key(origin, zones@[j].end());
                    if point_in_chunk(zones@[j].start(), key) {
                        assert(point_in_chunk(origin, key) && point_in_chunk(
                            zones@[j].start(),
                            key,
                        ));
                    } else {
                        assert(point_in_chunk(origin, key) && point_in_chunk(
                            zones@[j].end(),
                            key,
                        ));
                    }
                }
                if wanted.contains(j) {
                    lemma_shares_chunk_by_key(origin, zones@[j].start());
                    lemma_shares_chunk_by_key(origin, zones@[j].end());
                    let key = choose|key: int|
                        point_in_chunk(origin, key) && zone_in_chunk(zones@[j], key);
                    let i = choose|i: int| 0 <= i < 4 && #[trigger] keys@[i] == key;
                    let at = j as usize;
                    assert(zone_in_chunk(zones@[at as int], keys@[i] as int));
                    assert(filed_under(self.chunks@, keys@[i], at));
                }
            }
            assert(seen =~= wanted);
        }
        closest
    }

    /// Display name of this search.
    pub fn name(&self) -> (text: &'static str)
        ensures
            text@ == "Overlapping Chunks"@,
    {
        "Overlapping Chunks"
    }
}

} // verus!
