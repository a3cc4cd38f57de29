//! The search that looks along rays cast from the address.
//!
//! Thirty-six rays leave the address at steps of ten degrees. A zone counts
//! only if one of the rays meets its segment; among those zones the nearest
//! within the threshold governs.

use crate::geometry::{line_intersection, segments_cross, Point, COORD_LIMIT};
use crate::metric::{
    is_metric, is_nearest_within, keep_nearest, lemma_nearer_of_extends, measure_zone,
};
use crate::structs::{AdressClean, MiljoeDataClean};
use vstd::prelude::*;

verus! {

/// Number of rays cast from an address.
pub const RAY_COUNT: usize = 36;

/// Length of a ray: a hundredth of a degree on the globe, which the
/// projection makes 111 320 centimetres in the plane.
pub const RAY_REACH: i64 = 111_320;

/// [`RAY_REACH`] times the cosine of `step` times ten degrees, to the nearest
/// centimetre, for the steps 0 to 9 of the first quarter turn.
pub open spec fn ray_component(step: int) -> int {
    if step == 0 {
        111_320
    } else if step == 1 {
        109_629
    } else if step == 2 {
        104_607
    } else if step == 3 {
        96_406
    } else if step == 4 {
        85_276
    } else if step == 5 {
        71_555
    } else if step == 6 {
        55_660
    } else if step == 7 {
        38_074
    } else if step == 8 {
        19_331
    } else {
        0
    }
}

/// The vector from an address to the end of its ray number `k`, which points
/// `k` times ten degrees counterclockwise from east.
pub open spec fn ray_offset(k: int) -> (int, int) {
    let quarter = k / 9;
    let step = k % 9;
    let along = ray_component(step);
    let across = ray_component(9 - step);
    if quarter == 0 {
        (along, across)
    } else if quarter == 1 {
        (-across, along)
    } else if quarter == 2 {
        (-along, -across)
    } else {
        (across, -along)
    }
}

/// Ray number `k` from `origin` stays within the supported coordinate range
/// and meets the segment of `zone`.
pub open spec fn ray_hits(origin: Point, zone: MiljoeDataClean, k: int) -> bool {
    let x = origin.x + ray_offset(k).0;
    let y = origin.y + ray_offset(k).1;
    &&& -COORD_LIMIT <= x <= COORD_LIMIT
    &&& -COORD_LIMIT <= y <= COORD_LIMIT
    &&& segments_cross(origin, Point { x: x as i64, y: y as i64 }, zone.start(), zone.end())
}

/// One of the rays from `origin` meets the segment of `zone`.
pub open spec fn any_ray_hits(origin: Point, zone: MiljoeDataClean) -> bool {
    exists|k: int| 0 <= k < RAY_COUNT && ray_hits(origin, zone, k)
}

/// The positions of the usable zones that a ray from `origin` meets.
pub open spec fn ray_candidates(origin: Point, zones: Seq<MiljoeDataClean>) -> Set<int> {
    Set::new(|j: int| 0 <= j < zones.len() && zones[j].usable() && any_ray_hits(origin, zones[j]))
}

/// Every ray has the reach of the rays to within a centimetre, and every
/// ray is turned counterclockwise against the one before it by the angle
/// between the first two rays: its projection on the one before differs from
/// that of the second ray on the first by less than a centimetre.
pub proof fn lemma_rays_are_evenly_spread(k: int)
    requires
        0 <= k < RAY_COUNT,
    ensures
        ({
            let ray = ray_offset(k);
            let length_sq = ray.0 * ray.0 + ray.1 * ray.1;
            (RAY_REACH - 1) * (RAY_REACH - 1) <= length_sq <= (RAY_REACH + 1) * (RAY_REACH + 1)
        }),
        ({
            let ray = ray_offset(k);
            let next = ray_offset((k + 1) % (RAY_COUNT as int));
            let along = ray.0 * next.0 + ray.1 * next.1;
            let across = ray.0 * next.1 - ray.1 * next.0;
            &&& across > 0
            &&& RAY_REACH * (ray_component(1) - 1) <= along <= RAY_REACH * (ray_component(1) + 1)
        }),
{
    let ray = ray_offset(k);
    let next = ray_offset((k + 1) % (RAY_COUNT as int));
    let length_sq = ray.0 * ray.0 + ray.1 * ray.1;
    let along = ray.0 * next.0 + ray.1 * next.1;
    let across = ray.0 * next.1 - ray.1 * next.0;
    assert((RAY_REACH - 1) * (RAY_REACH - 1) == 12_391_919_761int && (RAY_REACH + 1) * (RAY_REACH
        + 1) == 12_392_365_041int && RAY_REACH * (ray_component(1) - 1) == 12_203_788_960int
        && RAY_REACH * (ray_component(1) + 1) == 12_204_011_600int) by (nonlinear_arith)
        requires
            RAY_REACH == 111_320,
            ray_component(1) == 109_629,
    ;
    if k == 0 {
        assert(ray == (111_320int, 0int));
        assert(next == (109_629int, 19_331int));
        assert(length_sq == 12_392_142_400int && along == 12_203_900_280int && across == 2_151_926_920int)
            by (nonlinear_arith)
            requires
                ray == (111_320int, 0int),
                next == (109_629int, 19_331int),
                length_sq == ray.0 * ray.0 + ray.1 * ray.1,
                along == ray.0 * next.0 + ray.1 * next.1,
                across == ray.0 * next.1 - ray.1 * next.0,
        ;
    } else if k == 1 {
        assert(ray == (109_629int, 19_331int));
        assert(next == (104_607int, 38_074int));
        assert(length_sq == 12_392_205_202int && along == 12_203_969_297int && across == 2_151_856_629int)
            by (nonlinear_arith)
            requires
                ray == (109_629int, 19_331int),
                next == (104_607int, 38_074int),
                length_sq == ray.0 * ray.0 + ray.1 * ray.1,
                along == ray.0 * next.0 + ray.1 * next.1,
                across == ray.0 * next.1 - ray.1 * next.0,
        ;
    } else if k == 2 {
        assert(ray == (104_607int, 38_074int));
        assert(next == (96_406int, 55_660int));
        assert(length_sq == 12_392_253_925int && along == 12_203_941_282int && across == 2_151_863_576int)
            by (nonlinear_arith)
            requires
                ray == (104_607int, 38_074int),
                next == (96_406int, 55_660int),
                length_sq == ray.0 * ray.0 + ray.1 * ray.1,
                along == ray.0 * next.0 + ray.1 * next.1,
                across == ray.0 * next.1 - ray.1 * next.0,
        ;
    } else if k == 3 {
        assert(ray == (96_406int, 55_660int));
        assert(next == (85_276int, 71_555int));
        assert(length_sq == 12_392_152_436int && along == 12_203_869_356int && across == 2_151_869_170int)
            by (nonlinear_arith)
            requires
                ray == (96_406int, 55_660int),
                next == (85_276int, 71_555int),
                length_sq == ray.0 * ray.0 + ray.1 * ray.1,
                along == ray.0 * next.0 + ray.1 * next.1,
                across == ray.0 * next.1 - ray.1 * next.0,
        ;
    } else if k == 4 {
        assert(ray == (85_276int, 71_555int));
        assert(next == (71_555int, 85_276int));
        assert(length_sq == 12_392_114_201int && along == 12_203_848_360int && across == 2_151_878_151int)
            by (nonlinear_arith)
            requires
                ray == (85_276int, 71_555int),
                next == (71_555int, 85_276int),
                length_sq == ray.0 * ray.0 + ray.1 * ray.1,
                along == ray.0 * next.0 + ray.1 * next.1,
                across == ray.0 * next.1 - ray.1 * next.0,
        ;
    } else if k == 5 {
        assert(ray == (71_555int, 85_276int));
        assert(next == (55_660int, 96_406int));
        assert(length_sq == 12_392_114_201int && along == 12_203_869_356int && across == 2_151_869_170int)
            by (nonlinear_arith)
            requires
                ray == (71_555int, 85_276int),
                next == (55_660int, 96_406int),
                length_sq == ray.0 * ray.0 + ray.1 * ray.1,
                along == ray.0 * next.0 + ray.1 * next.1,
                across == ray.0 * next.1 - ray.1 * next.0,
        ;
    } else if k == 6 {
        assert(ray == (55_660int, 96_406int));
        assert(next == (38_074int, 104_607int));
        assert(length_sq == 12_392_152_436int && along == 12_203_941_282int && across == 2_151_863_576int)
            by (nonlinear_arith)
            requires
                ray == (55_660int, 96_406int),
                next == (38_074int, 104_607int),
                length_sq == ray.0 * ray.0 + ray.1 * ray.1,
                along == ray.0 * next.0 + ray.1 * next.1,
                across == ray.0 * next.1 - ray.1 * next.0,
        ;
    } else if k == 7 {
        assert(ray == (38_074int, 104_607int));
        assert(next == (19_331int, 109_629int));
        assert(length_sq == 12_392_253_925int && along == 12_203_969_297int && across == 2_151_856_629int)
            by (nonlinear_arith)
            requires
                ray == (38_074int, 104_607int),
                next == (19_331int, 109_629int),
                length_sq == ray.0 * ray.0 + ray.1 * ray.1,
                along == ray.0 * next.0 + ray.1 * next.1,
                across == ray.0 * next.1 - ray.1 * next.0,
        ;
    } else if k == 8 {
        assert(ray == (19_331int, 109_629int));
        assert(next == (0int, 111_320int));
        assert(length_sq == 12_392_205_202int && along == 12_203_900_280int && across == 2_151_926_920int)
            by (nonlinear_arith)
            requires
                ray == (19_331int, 109_629int),
                next == (0int, 111_320int),
                length_sq == ray.0 * ray.0 + ray.1 * ray.1,
                along == ray.0 * next.0 + ray.1 * next.1,
                across == ray.0 * next.1 - ray.1 * next.0,
        ;
    } else if k == 9 {
        assert(ray == (0int, 111_320int));
        assert(next == (-19_331int, 109_629int));
        assert(length_sq == 12_392_142_400int && along == 12_203_900_280int && across == 2_151_926_920int)
            by (nonlinear_arith)
            requires
                ray == (0int, 111_320int),
                next == (-19_331int, 109_629int),
                length_sq == ray.0 * ray.0 + ray.1 * ray.1,
                along == ray.0 * next.0 + ray.1 * next.1,
                across == ray.0 * next.1 - ray.1 * next.0,
        ;
    } else if k == 10 {
        assert(ray == (-19_331int, 109_629int));
        assert(next == (-38_074int, 104_607int));
        assert(length_sq == 12_392_205_202int && along == 12_203_969_297int && across == 2_151_856_629int)
            by (nonlinear_arith)
            requires
                ray == (-19_331int, 109_629int),
                next == (-38_074int, 104_607int),
                length_sq == ray.0 * ray.0 + ray.1 * ray.1,
                along == ray.0 * next.0 + ray.1 * next.1,
                across == ray.0 * next.1 - ray.1 * next.0,
        ;
    } else if k == 11 {
        assert(ray == (-38_074int, 104_607int));
        assert(next == (-55_660int, 96_406int));
        assert(length_sq == 12_392_253_925int && along == 12_203_941_282int && across == 2_151_863_576int)
            by (nonlinear_arith)
            requires
                ray == (-38_074int, 104_607int),
                next == (-55_660int, 96_406int),
                length_sq == ray.0 * ray.0 + ray.1 * ray.1,
                along == ray.0 * next.0 + ray.1 * next.1,
                across == ray.0 * next.1 - ray.1 * next.0,
        ;
    } else if k == 12 {
        assert(ray == (-55_660int, 96_406int));
        assert(next == (-71_555int, 85_276int));
        assert(length_sq == 12_392_152_436int && along == 12_203_869_356int && across == 2_151_869_170int)
            by (nonlinear_arith)
            requires
                ray == (-55_660int, 96_406int),
                next == (-71_555int, 85_276int),
                length_sq == ray.0 * ray.0 + ray.1 * ray.1,
                along == ray.0 * next.0 + ray.1 * next.1,
                across == ray.0 * next.1 - ray.1 * next.0,
        ;
    } else if k == 13 {
        assert(ray == (-71_555int, 85_276int));
        assert(next == (-85_276int, 71_555int));
        assert(length_sq == 12_392_114_201int && along == 12_203_848_360int && across == 2_151_878_151int)
            by (nonlinear_arith)
            requires
                ray == (-71_555int, 85_276int),
                next == (-85_276int, 71_555int),
                length_sq == ray.0 * ray.0 + ray.1 * ray.1,
                along == ray.0 * next.0 + ray.1 * next.1,
                across == ray.0 * next.1 - ray.1 * next.0,
        ;
    } else if k == 14 {
        assert(ray == (-85_276int, 71_555int));
        assert(next == (-96_406int, 55_660int));
        assert(length_sq == 12_392_114_201int && along == 12_203_869_356int && across == 2_151_869_170int)
            by (nonlinear_arith)
            requires
                ray == (-85_276int, 71_555int),
                next == (-96_406int, 55_660int),
                length_sq == ray.0 * ray.0 + ray.1 * ray.1,
                along == ray.0 * next.0 + ray.1 * next.1,
                across == ray.0 * next.1 - ray.1 * next.0,
        ;
    } else if k == 15 {
        assert(ray == (-96_406int, 55_660int));
        assert(next == (-104_607int, 38_074int));
        assert(length_sq == 12_392_152_436int && along == 12_203_941_282int && across == 2_151_863_576int)
            by (nonlinear_arith)
            requires
                ray == (-96_406int, 55_660int),
                next == (-104_607int, 38_074int),
                length_sq == ray.0 * ray.0 + ray.1 * ray.1,
                along == ray.0 * next.0 + ray.1 * next.1,
                across == ray.0 * next.1 - ray.1 * next.0,
        ;
    } else if k == 16 {
        assert(ray == (-104_607int, 38_074int));
        assert(next == (-109_629int, 19_331int));
        assert(length_sq == 12_392_253_925int && along == 12_203_969_297int && across == 2_151_856_629int)
            by (nonlinear_arith)
            requires
                ray == (-104_607int, 38_074int),
                next == (-109_629int, 19_331int),
                length_sq == ray.0 * ray.0 + ray.1 * ray.1,
                along == ray.0 * next.0 + ray.1 * next.1,
                across == ray.0 * next.1 - ray.1 * next.0,
        ;
    } else if k == 17 {
        assert(ray == (-109_629int, 19_331int));
        assert(next == (-111_320int, 0int));
        assert(length_sq == 12_392_205_202int && along == 12_203_900_280int && across == 2_151_926_920int)
            by (nonlinear_arith)
            requires
                ray == (-109_629int, 19_331int),
                next == (-111_320int, 0int),
                length_sq == ray.0 * ray.0 + ray.1 * ray.1,
                along == ray.0 * next.0 + ray.1 * next.1,
                across == ray.0 * next.1 - ray.1 * next.0,
        ;
    } else if k == 18 {
        assert(ray == (-111_320int, 0int));
        assert(next == (-109_629int, -19_331int));
        assert(length_sq == 12_392_142_400int && along == 12_203_900_280int && across == 2_151_926_920int)
            by (nonlinear_arith)
            requires
                ray == (-111_320int, 0int),
                next == (-109_629int, -19_331int),
                length_sq == ray.0 * ray.0 + ray.1 * ray.1,
                along == ray.0 * next.0 + ray.1 * next.1,
                across == ray.0 * next.1 - ray.1 * next.0,
        ;
    } else if k == 19 {
        assert(ray == (-109_629int, -19_331int));
        assert(next == (-104_607int, -38_074int));
        assert(length_sq == 12_392_205_202int && along == 12_203_969_297int && across == 2_151_856_629int)
            by (nonlinear_arith)
            requires
                ray == (-109_629int, -19_331int),
                next == (-104_607int, -38_074int),
                length_sq == ray.0 * ray.0 + ray.1 * ray.1,
                along == ray.0 * next.0 + ray.1 * next.1,
                across == ray.0 * next.1 - ray.1 * next.0,
        ;
    } else if k == 20 {
        assert(ray == (-104_607int, -38_074int));
        assert(next == (-96_406int, -55_660int));
        assert(length_sq == 12_392_253_925int && along == 12_203_941_282int && across == 2_151_863_576int)
            by (nonlinear_arith)
            requires
                ray == (-104_607int, -38_074int),
                next == (-96_406int, -55_660int),
                length_sq == ray.0 * ray.0 + ray.1 * ray.1,
                along == ray.0 * next.0 + ray.1 * next.1,
                across == ray.0 * next.1 - ray.1 * next.0,
        ;
    } else if k == 21 {
        assert(ray == (-96_406int, -55_660int));
        assert(next == (-85_276int, -71_555int));
        assert(length_sq == 12_392_152_436int && along == 12_203_869_356int && across == 2_151_869_170int)
            by (nonlinear_arith)
            requires
                ray == (-96_406int, -55_660int),
                next == (-85_276int, -71_555int),
                length_sq == ray.0 * ray.0 + ray.1 * ray.1,
                along == ray.0 * next.0 + ray.1 * next.1,
                across == ray.0 * next.1 - ray.1 * next.0,
        ;
    } else if k == 22 {
        assert(ray == (-85_276int, -71_555int));
        assert(next == (-71_555int, -85_276int));
        assert(length_sq == 12_392_114_201int && along == 12_203_848_360int && across == 2_151_878_151int)
            by (nonlinear_arith)
            requires
                ray == (-85_276int, -71_555int),
                next == (-71_555int, -85_276int),
                length_sq == ray.0 * ray.0 + ray.1 * ray.1,
                along == ray.0 * next.0 + ray.1 * next.1,
                across == ray.0 * next.1 - ray.1 * next.0,
        ;
    } else if k == 23 {
        assert(ray == (-71_555int, -85_276int));
        assert(next == (-55_660int, -96_406int));
        assert(length_sq == 12_392_114_201int && along == 12_203_869_356int && across == 2_151_869_170int)
            by (nonlinear_arith)
            requires
                ray == (-71_555int, -85_276int),
                next == (-55_660int, -96_406int),
                length_sq == ray.0 * ray.0 + ray.1 * ray.1,
                along == ray.0 * next.0 + ray.1 * next.1,
                across == ray.0 * next.1 - ray.1 * next.0,
        ;
    } else if k == 24 {
        assert(ray == (-55_660int, -96_406int));
        assert(next == (-38_074int, -104_607int));
        assert(length_sq == 12_392_152_436int && along == 12_203_941_282int && across == 2_151_863_576int)
            by (nonlinear_arith)
            requires
                ray == (-55_660int, -96_406int),
                next == (-38_074int, -104_607int),
                length_sq == ray.0 * ray.0 + ray.1 * ray.1,
                along == ray.0 * next.0 + ray.1 * next.1,
                across == ray.0 * next.1 - ray.1 * next.0,
        ;
    } else if k == 25 {
        assert(ray == (-38_074int, -104_607int));
        assert(next == (-19_331int, -109_629int));
        assert(length_sq == 12_392_253_925int && along == 12_203_969_297int && across == 2_151_856_629int)
            by (nonlinear_arith)
            requires
                ray == (-38_074int, -104_607int),
                next == (-19_331int, -109_629int),
                length_sq == ray.0 * ray.0 + ray.1 * ray.1,
                along == ray.0 * next.0 + ray.1 * next.1,
                across == ray.0 * next.1 - ray.1 * next.0,
        ;
    } else if k == 26 {
        assert(ray == (-19_331int, -109_629int));
        assert(next == (0int, -111_320int));
        assert(length_sq == 12_392_205_202int && along == 12_203_900_280int && across == 2_151_926_920int)
            by (nonlinear_arith)
            requires
                ray == (-19_331int, -109_629int),
                next == (0int, -111_320int),
                length_sq == ray.0 * ray.0 + ray.1 * ray.1,
                along == ray.0 * next.0 + ray.1 * next.1,
                across == ray.0 * next.1 - ray.1 * next.0,
        ;
    } else if k == 27 {
        assert(ray == (0int, -111_320int));
        assert(next == (19_331int, -109_629int));
        assert(length_sq == 12_392_142_400int && along == 12_203_900_280int && across == 2_151_926_920int)
            by (nonlinear_arith)
            requires
                ray == (0int, -111_320int),
                next == (19_331int, -109_629int),
                length_sq == ray.0 * ray.0 + ray.1 * ray.1,
                along == ray.0 * next.0 + ray.1 * next.1,
                across == ray.0 * next.1 - ray.1 * next.0,
        ;
    } else if k == 28 {
        assert(ray == (19_331int, -109_629int));
        assert(next == (38_074int, -104_607int));
        assert(length_sq == 12_392_205_202int && along == 12_203_969_297int && across == 2_151_856_629int)
            by (nonlinear_arith)
            requires
                ray == (19_331int, -109_629int),
                next == (38_074int, -104_607int),
                length_sq == ray.0 * ray.0 + ray.1 * ray.1,
                along == ray.0 * next.0 + ray.1 * next.1,
                across == ray.0 * next.1 - ray.1 * next.0,
        ;
    } else if k == 29 {
        assert(ray == (38_074int, -104_607int));
        assert(next == (55_660int, -96_406int));
        assert(length_sq == 12_392_253_925int && along == 12_203_941_282int && across == 2_151_863_576int)
            by (nonlinear_arith)
            requires
                ray == (38_074int, -104_607int),
                next == (55_660int, -96_406int),
                length_sq == ray.0 * ray.0 + ray.1 * ray.1,
                along == ray.0 * next.0 + ray.1 * next.1,
                across == ray.0 * next.1 - ray.1 * next.0,
        ;
    } else if k == 30 {
        assert(ray == (55_660int, -96_406int));
        assert(next == (71_555int, -85_276int));
        assert(length_sq == 12_392_152_436int && along == 12_203_869_356int && across == 2_151_869_170int)
            by (nonlinear_arith)
            requires
                ray == (55_660int, -96_406int),
                next == (71_555int, -85_276int),
                length_sq == ray.0 * ray.0 + ray.1 * ray.1,
                along == ray.0 * next.0 + ray.1 * next.1,
                across == ray.0 * next.1 - ray.1 * next.0,
        ;
    } else if k == 31 {
        assert(ray == (71_555int, -85_276int));
        assert(next == (85_276int, -71_555int));
        assert(length_sq == 12_392_114_201int && along == 12_203_848_360int && across == 2_151_878_151int)
            by (nonlinear_arith)
            requires
                ray == (71_555int, -85_276int),
                next == (85_276int, -71_555int),
                length_sq == ray.0 * ray.0 + ray.1 * ray.1,
                along == ray.0 * next.0 + ray.1 * next.1,
                across == ray.0 * next.1 - ray.1 * next.0,
        ;
    } else if k == 32 {
        assert(ray == (85_276int, -71_555int));
        assert(next == (96_406int, -55_660int));
        assert(length_sq == 12_392_114_201int && along == 12_203_869_356int && across == 2_151_869_170int)
            by (nonlinear_arith)
            requires
                ray == (85_276int, -71_555int),
                next == (96_406int, -55_660int),
                length_sq == ray.0 * ray.0 + ray.1 * ray.1,
                along == ray.0 * next.0 + ray.1 * next.1,
                across == ray.0 * next.1 - ray.1 * next.0,
        ;
    } else if k == 33 {
        assert(ray == (96_406int, -55_660int));
        assert(next == (104_607int, -38_074int));
        assert(length_sq == 12_392_152_436int && along == 12_203_941_282int && across == 2_151_863_576int)
            by (nonlinear_arith)
            requires
                ray == (96_406int, -55_660int),
                next == (104_607int, -38_074int),
                length_sq == ray.0 * ray.0 + ray.1 * ray.1,
                along == ray.0 * next.0 + ray.1 * next.1,
                across == ray.0 * next.1 - ray.1 * next.0,
        ;
    } else if k == 34 {
        assert(ray == (104_607int, -38_074int));
        assert(next == (109_629int, -19_331int));
        assert(length_sq == 12_392_253_925int && along == 12_203_969_297int && across == 2_151_856_629int)
            by (nonlinear_arith)
            requires
                ray == (104_607int, -38_074int),
                next == (109_629int, -19_331int),
                length_sq == ray.0 * ray.0 + ray.1 * ray.1,
                along == ray.0 * next.0 + ray.1 * next.1,
                across == ray.0 * next.1 - ray.1 * next.0,
        ;
    } else if k == 35 {
        assert(ray == (109_629int, -19_331int));
        assert(next == (111_320int, 0int));
        assert(length_sq == 12_392_205_202int && along == 12_203_900_280int && across == 2_151_926_920int)
            by (nonlinear_arith)
            requires
                ray == (109_629int, -19_331int),
                next == (111_320int, 0int),
                length_sq == ray.0 * ray.0 + ray.1 * ray.1,
                along == ray.0 * next.0 + ray.1 * next.1,
                across == ray.0 * next.1 - ray.1 * next.0,
        ;
    }
}

/// The reach of the rays times the cosine of `step` times ten degrees.
fn ray_component_of(step: usize) -> (length: i64)
    requires
        step <= 9,
    ensures
        length == ray_component(step as int),
        0 <= length <= RAY_REACH,
{
    if step == 0 {
        111_320
    } else if step == 1 {
        109_629
    } else if step == 2 {
        104_607
    } else if step == 3 {
        96_406
    } else if step == 4 {
        85_276
    } else if step == 5 {
        71_555
    } else if step == 6 {
        55_660
    } else if step == 7 {
        38_074
    } else if step == 8 {
        19_331
    } else {
        0
    }
}

/// The vector from an address to the end of its ray number `k`.
fn ray_offset_of(k: usize) -> (offset: (i64, i64))
    requires
        k < RAY_COUNT,
    ensures
        offset.0 == ray_offset(k as int).0,
        offset.1 == ray_offset(k as int).1,
        -RAY_REACH <= offset.0 <= RAY_REACH,
        -RAY_REACH <= offset.1 <= RAY_REACH,
{
    let quarter: usize = k / 9;
    let step: usize = k % 9;
    let along: i64 = ray_component_of(step);
    let across: i64 = ray_component_of(9 - step);
    if quarter == 0 {
        (along, across)
    } else if quarter == 1 {
        (-across, along)
    } else if quarter == 2 {
        (-along, -across)
    } else {
        (across, -along)
    }
}

/// Tells whether ray number `k` from `origin` meets the segment of `zone`.
fn ray_meets_zone(origin: &Point, zone: &MiljoeDataClean, k: usize) -> (hit: bool)
    requires
        origin.in_range(),
        zone.usable(),
        k < RAY_COUNT,
    ensures
        hit == ray_hits(*origin, *zone, k as int),
{
    let offset: (i64, i64) = ray_offset_of(k);
    let tip: Point = Point { x: origin.x + offset.0, y: origin.y + offset.1 };
    if !tip.is_in_range() {
        return false;
    }
    line_intersection(origin, &tip, &zone.coordinates[0], &zone.coordinates[1]).is_some()
}

/// Tells whether one of the rays from `origin` meets the segment of `zone`.
pub fn zone_is_hit(origin: &Point, zone: &MiljoeDataClean) -> (hit: bool)
    requires
        origin.in_range(),
        zone.usable(),
    ensures
        hit == any_ray_hits(*origin, *zone),
{
    let mut k: usize = 0;
    while k < RAY_COUNT
        invariant
            k <= RAY_COUNT,
            origin.in_range(),
            zone.usable(),
            forall|i: int| 0 <= i < k ==> !ray_hits(*origin, *zone, i),
        decreases RAY_COUNT - k,
    {
        if ray_meets_zone(origin, zone, k) {
            return true;
        }
        k = k + 1;
    }
    false
}

/// Finds the governing zone among the zones that a ray from the address
/// meets.
#[derive(Debug, Clone, Copy)]
pub struct RaycastingAlgo;

impl RaycastingAlgo {
    /// The zone nearest to `address` among the usable zones that one of the
    /// rays from the address meets, with its distance, if it lies within the
    /// threshold.
    ///
    /// An address whose position is out of range has no governing zone.
    pub fn correlate<F: Fn(Point, Point) -> u64>(
        &self,
        address: &AdressClean,
        zones: &[MiljoeDataClean],
        metric: &F,
    ) -> (found: Option<(usize, u64)>)
        requires
            is_metric(*metric),
        ensures
            !address.coordinates.in_range() ==> found is None,
            address.coordinates.in_range() ==> is_nearest_within(
                found,
                *metric,
                address.coordinates,
                zones@,
                ray_candidates(address.coordinates, zones@),
            ),
    {
        if !address.coordinates.is_in_range() {
            return None;
        }
        let origin: Point = address.coordinates;
        let mut closest: Option<(usize, u64)> = None;
        let ghost mut seen: Set<int> = Set::empty();
        let mut idx: usize = 0;
        while idx < zones.len()
            invariant
                idx <= zones.len(),
                is_metric(*metric),
                origin.in_range(),
                seen =~= Set::new(
                    |j: int| 0 <= j < idx && zones@[j].usable() && any_ray_hits(origin, zones@[j]),
                ),
                is_nearest_within(closest, *metric, origin, zones@, seen),
            decreases zones.len() - idx,
        {
            let zone: &MiljoeDataClean = &zones[idx];
            if zone.is_usable() && zone_is_hit(&origin, zone) {
                let distance: u64 = measure_zone(metric, origin, zone);
                proof {
                    lemma_nearer_of_extends(closest, *metric, origin, zones@, seen, idx);
                    seen = seen.insert(idx as int);
                }
                closest = keep_nearest(closest, idx, distance);
            }
            idx = idx + 1;
        }
        assert(seen =~= ray_candidates(origin, zones@));
        closest
    }

    /// Display name of this search.
    pub fn name(&self) -> (text: &'static str)
        ensures
            text@ == "Raycasting"@,
    {
        "Raycasting"
    }
}

} // verus!
