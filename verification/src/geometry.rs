//! Planar geometry on whole-centimetre coordinates.
//!
//! Every length in this crate is a whole number of centimetres. Coordinates
//! are bounded by [`COORD_LIMIT`] so that the squares and products that the
//! distance formulas need fit the machine integers used for them. A distance
//! that is not a whole number is rounded up, so a reported distance never
//! understates the true one and comparing it with a whole threshold decides
//! exactly as comparing the true distance would.

use vstd::arithmetic::div_mod::{lemma_fundamental_div_mod, lemma_mod_bound};
use vstd::prelude::*;

verus! {

/// Centimetres in a metre.
pub const UNITS_PER_METER: i64 = 100;

/// Largest magnitude of a coordinate (2^30 - 1 cm, a little over 10 700 km).
pub const COORD_LIMIT: i64 = 1_073_741_823;

/// A position in the plane, in centimetres east (`x`) and north (`y`).
#[derive(Debug, Clone, Copy, PartialEq, Eq, Structural)]
pub struct Point {
    pub x: i64,
    pub y: i64,
}

impl Point {
    /// Both coordinates lie within the supported range.
    pub open spec fn in_range(self) -> bool {
        &&& -COORD_LIMIT <= self.x <= COORD_LIMIT
        &&& -COORD_LIMIT <= self.y <= COORD_LIMIT
    }

    /// Tells whether both coordinates lie within the supported range.
    pub fn is_in_range(&self) -> (ok: bool)
        ensures
            ok == self.in_range(),
    {
        -COORD_LIMIT <= self.x && self.x <= COORD_LIMIT && -COORD_LIMIT <= self.y && self.y
            <= COORD_LIMIT
    }
}

/// The parts into which a degree of latitude or longitude is cut: as many as
/// there are centimetres in the 111 320 metres that the projection takes
/// for a degree.
pub const PARTS_PER_DEGREE: i64 = 11_132_000;

/// Latitude of the line `y = 0` of the plane: 55.5 degrees, in parts.
pub const ORIGIN_LATITUDE: i64 = 617_826_000;

/// Longitude of the line `x = 0` of the plane, in parts: 15 degrees less the
/// 500 000 metres that lie between it and the meridian of 15 degrees.
pub const ORIGIN_LONGITUDE: i64 = 116_980_000;

/// A position on the globe, in parts of a degree north and east.
#[derive(Debug, Clone, Copy, PartialEq, Eq, Structural)]
pub struct GeoPoint {
    pub latitude: i64,
    pub longitude: i64,
}

/// The position on the globe that the projection gives to a point of the
/// plane: with `x` and `y` in metres, latitude `55.5 + y / 111 320` and
/// longitude `15 + (x - 500 000) / 111 320` degrees. In parts of a degree
/// both are whole numbers.
pub open spec fn projected(p: Point) -> GeoPoint {
    GeoPoint {
        latitude: (ORIGIN_LATITUDE + p.y) as i64,
        longitude: (ORIGIN_LONGITUDE + p.x) as i64,
    }
}

/// The projection is the one with the constants 55.5, 15, 500 000 and
/// 111 320: the latitude in degrees is `55.5 + y / 111 320` and the
/// longitude `15 + (x - 500 000) / 111 320` for `x` and `y` in metres, all
/// of it multiplied out to whole numbers.
pub proof fn lemma_projection_constants(p: Point)
    requires
        p.in_range(),
    ensures
        10 * projected(p).latitude == 555 * PARTS_PER_DEGREE + 10 * p.y,
        projected(p).longitude == 15 * PARTS_PER_DEGREE + (p.x - 500_000 * UNITS_PER_METER),
        PARTS_PER_DEGREE == 111_320 * UNITS_PER_METER,
{
}

/// The position on the globe that the projection gives to a point of the
/// plane.
pub fn sweref_to_latlon(p: &Point) -> (g: GeoPoint)
    requires
        p.in_range(),
    ensures
        g == projected(*p),
{
    GeoPoint { latitude: ORIGIN_LATITUDE + p.y, longitude: ORIGIN_LONGITUDE + p.x }
}

/// Square of the Euclidean distance between two points.
pub open spec fn squared_distance(a: Point, b: Point) -> int {
    (a.x - b.x) * (a.x - b.x) + (a.y - b.y) * (a.y - b.y)
}

/// The distance from `a` to `b` is that from `b` to `a`.
pub proof fn lemma_squared_distance_symmetric(a: Point, b: Point)
    ensures
        squared_distance(a, b) == squared_distance(b, a),
{
    assert((a.x - b.x) * (a.x - b.x) == (b.x - a.x) * (b.x - a.x)) by (nonlinear_arith);
    assert((a.y - b.y) * (a.y - b.y) == (b.y - a.y) * (b.y - a.y)) by (nonlinear_arith);
}

/// Dot product of `p - s` with `e - s`.
pub open spec fn dot(p: Point, s: Point, e: Point) -> int {
    (p.x - s.x) * (e.x - s.x) + (p.y - s.y) * (e.y - s.y)
}

/// Cross product of `e - s` with `p - s`: twice the signed area of the
/// triangle `s`, `e`, `p`.
pub open spec fn cross(p: Point, s: Point, e: Point) -> int {
    (e.x - s.x) * (p.y - s.y) - (e.y - s.y) * (p.x - s.x)
}

/// `r` is the least natural number whose square is at least `num / den`.
pub open spec fn rounds_up_root(r: int, num: int, den: int) -> bool {
    &&& r >= 0
    &&& r * r * den >= num
    &&& r > 0 ==> (r - 1) * (r - 1) * den < num
}

/// Square of the distance from `p` to the segment from `s` to `e`, as a
/// fraction `(numerator, denominator)` with a positive denominator.
///
/// When the foot of the perpendicular from `p` falls outside the segment the
/// nearer end point counts; a segment of length zero is a point.
pub open spec fn segment_distance_sq(p: Point, s: Point, e: Point) -> (int, int) {
    let len_sq = squared_distance(s, e);
    let along = dot(p, s, e);
    if len_sq == 0 || along <= 0 {
        (squared_distance(p, s), 1)
    } else if along >= len_sq {
        (squared_distance(p, e), 1)
    } else {
        (cross(p, s, e) * cross(p, s, e), len_sq)
    }
}

/// Distance from `p` to the segment from `s` to `e`, rounded up to a whole
/// centimetre.
pub open spec fn segment_distance(p: Point, s: Point, e: Point) -> int {
    choose|r: int|
        rounds_up_root(r, segment_distance_sq(p, s, e).0, segment_distance_sq(p, s, e).1)
}

/// The product of two numbers of magnitude at most `m` has magnitude at most
/// `m * m`.
pub proof fn lemma_product_bound(a: int, b: int, m: int)
    requires
        -m <= a <= m,
        -m <= b <= m,
    ensures
        -(m * m) <= a * b <= m * m,
{
    assert(-(m * m) <= a * b <= m * m) by (nonlinear_arith)
        requires
            -m <= a <= m,
            -m <= b <= m,
    ;
}

/// Of two numbers that are not negative the greater has the greater square.
pub proof fn lemma_square_monotonic(a: int, b: int)
    requires
        0 <= a <= b,
    ensures
        a * a <= b * b,
{
    assert(a * a <= b * b) by (nonlinear_arith)
        requires
            0 <= a <= b,
    ;
}

/// At most one number is the rounded-up root of a given fraction.
pub proof fn lemma_rounds_up_root_unique(r1: int, r2: int, num: int, den: int)
    requires
        den > 0,
        rounds_up_root(r1, num, den),
        rounds_up_root(r2, num, den),
    ensures
        r1 == r2,
{
    if r1 < r2 {
        lemma_square_monotonic(r1, r2 - 1);
        assert(r1 * r1 * den <= (r2 - 1) * (r2 - 1) * den) by (nonlinear_arith)
            requires
                r1 * r1 <= (r2 - 1) * (r2 - 1),
                den > 0,
        ;
    } else if r2 < r1 {
        lemma_square_monotonic(r2, r1 - 1);
        assert(r2 * r2 * den <= (r1 - 1) * (r1 - 1) * den) by (nonlinear_arith)
            requires
                r2 * r2 <= (r1 - 1) * (r1 - 1),
                den > 0,
        ;
    }
}

/// A rounded-up root is at most any number whose square reaches the fraction.
pub proof fn lemma_rounds_up_root_bound(r: int, num: int, den: int, bound: int)
    requires
        den > 0,
        rounds_up_root(r, num, den),
        bound >= 0,
        bound * bound * den >= num,
    ensures
        r <= bound,
{
    if r > bound {
        lemma_square_monotonic(bound, r - 1);
        assert(bound * bound * den <= (r - 1) * (r - 1) * den) by (nonlinear_arith)
            requires
                bound * bound <= (r - 1) * (r - 1),
                den > 0,
        ;
    }
}

/// The least `r` with `r * r >= n`.
pub fn ceil_sqrt(n: u128) -> (r: u128)
    ensures
        rounds_up_root(r as int, n as int, 1),
        r <= 0x1_0000_0000_0000_0000,
{
    let mut lo: u128 = 0;
    let mut hi: u128 = 0x1_0000_0000_0000_0000;
    assert(0x1_0000_0000_0000_0000int * 0x1_0000_0000_0000_0000int > u128::MAX);
    while lo < hi
        invariant
            lo <= hi <= 0x1_0000_0000_0000_0000,
            hi * hi >= n,
            lo > 0 ==> (lo - 1) * (lo - 1) < n,
        decreases hi - lo,
    {
        let mid: u128 = lo + (hi - lo) / 2;
        proof {
            lemma_square_monotonic(mid as int, 0xffff_ffff_ffff_ffffint);
            assert(0xffff_ffff_ffff_ffffint * 0xffff_ffff_ffff_ffffint <= u128::MAX);
        }
        if mid * mid >= n {
            hi = mid;
        } else {
            lo = mid + 1;
        }
    }
    lo
}

/// Square of the distance between two points.
pub fn distance_squared(a: &Point, b: &Point) -> (d: u64)
    requires
        a.in_range(),
        b.in_range(),
    ensures
        d == squared_distance(*a, *b),
{
    let dx: i64 = a.x - b.x;
    let dy: i64 = a.y - b.y;
    proof {
        lemma_product_bound(dx as int, dx as int, 2 * COORD_LIMIT as int);
        lemma_product_bound(dy as int, dy as int, 2 * COORD_LIMIT as int);
        assert(dx * dx >= 0) by (nonlinear_arith);
        assert(dy * dy >= 0) by (nonlinear_arith);
    }
    let sx: i64 = dx * dx;
    let sy: i64 = dy * dy;
    (sx + sy) as u64
}

/// Distance between two points, rounded up to a whole centimetre.
pub fn point_distance(a: Point, b: Point) -> (d: u64)
    requires
        a.in_range(),
        b.in_range(),
    ensures
        rounds_up_root(d as int, squared_distance(a, b), 1),
{
    let sq: u64 = distance_squared(&a, &b);
    let root: u128 = ceil_sqrt(sq as u128);
    proof {
        assert(0x1_0000_0000int * 0x1_0000_0000int * 1 >= sq);
        lemma_rounds_up_root_bound(root as int, sq as int, 1, 0x1_0000_0000);
    }
    root as u64
}

/// Distance from `point` to the segment from `start` to `end`, rounded up to
/// a whole centimetre.
pub fn distance_point_to_segment(point: &Point, start: &Point, end: &Point) -> (d: u64)
    requires
        point.in_range(),
        start.in_range(),
        end.in_range(),
    ensures
        rounds_up_root(
            d as int,
            segment_distance_sq(*point, *start, *end).0,
            segment_distance_sq(*point, *start, *end).1,
        ),
        d == segment_distance(*point, *start, *end),
        *start == *end ==> rounds_up_root(d as int, squared_distance(*point, *start), 1),
{
    let d: u64 = rounded_segment_distance(point, start, end);
    proof {
        let fraction = segment_distance_sq(*point, *start, *end);
        lemma_segment_distance_sq_positive(*point, *start, *end);
        lemma_rounds_up_root_unique(
            d as int,
            segment_distance(*point, *start, *end),
            fraction.0,
            fraction.1,
        );
    }
    d
}

/// Every rounded-up distance to a segment is the rounded-up root of the
/// squared distance.
pub proof fn lemma_rounded_distance_exists(p: Point, s: Point, e: Point)
    requires
        p.in_range(),
        s.in_range(),
        e.in_range(),
    ensures
        rounds_up_root(
            segment_distance(p, s, e),
            segment_distance_sq(p, s, e).0,
            segment_distance_sq(p, s, e).1,
        ),
{
    lemma_segment_distance_sq_positive(p, s, e);
    let fraction = segment_distance_sq(p, s, e);
    let dx = p.x - s.x;
    let dy = p.y - s.y;
    let ex = p.x - e.x;
    let ey = p.y - e.y;
    let c = cross(p, s, e);
    assert(dx * dx >= 0 && dy * dy >= 0 && ex * ex >= 0 && ey * ey >= 0 && c * c >= 0)
        by (nonlinear_arith);
    let root = lemma_root_exists(fraction.0, fraction.1, 0);
}

/// A number at or above `from` is the rounded-up root of the fraction, if
/// the square of no smaller number at or above `from` reaches it.
pub proof fn lemma_root_exists(num: int, den: int, from: int) -> (root: int)
    requires
        num >= 0,
        den > 0,
        from >= 0,
        from > 0 ==> (from - 1) * (from - 1) * den < num,
    ensures
        rounds_up_root(root, num, den),
    decreases num - from,
{
    if from * from * den >= num {
        from
    } else {
        assert(from < num) by (nonlinear_arith)
            requires
                from * from * den < num,
                from >= 0,
                den >= 1,
        ;
        lemma_root_exists(num, den, from + 1)
    }
}

/// The denominator of the squared distance to a segment is positive.
pub proof fn lemma_segment_distance_sq_positive(p: Point, s: Point, e: Point)
    ensures
        segment_distance_sq(p, s, e).1 > 0,
{
    let dx = s.x - e.x;
    let dy = s.y - e.y;
    assert(dx * dx >= 0) by (nonlinear_arith);
    assert(dy * dy >= 0) by (nonlinear_arith);
}

/// The rounded-up root of the squared distance to a segment.
fn rounded_segment_distance(point: &Point, start: &Point, end: &Point) -> (d: u64)
    requires
        point.in_range(),
        start.in_range(),
        end.in_range(),
    ensures
        rounds_up_root(
            d as int,
            segment_distance_sq(*point, *start, *end).0,
            segment_distance_sq(*point, *start, *end).1,
        ),
{
    let px: i128 = (point.x - start.x) as i128;
    let py: i128 = (point.y - start.y) as i128;
    let lx: i128 = (end.x - start.x) as i128;
    let ly: i128 = (end.y - start.y) as i128;
    proof {
        let m: int = 2 * COORD_LIMIT as int;
        lemma_product_bound(lx as int, lx as int, m);
        lemma_product_bound(ly as int, ly as int, m);
        lemma_product_bound(px as int, lx as int, m);
        lemma_product_bound(py as int, ly as int, m);
        lemma_product_bound(lx as int, py as int, m);
        lemma_product_bound(ly as int, px as int, m);
    }
    let len_sq: i128 = lx * lx + ly * ly;
    let along: i128 = px * lx + py * ly;
    proof {
        assert(lx * lx == (start.x - end.x) * (start.x - end.x)) by (nonlinear_arith)
            requires
                lx == end.x - start.x,
        ;
        assert(ly * ly == (start.y - end.y) * (start.y - end.y)) by (nonlinear_arith)
            requires
                ly == end.y - start.y,
        ;
        assert(len_sq == squared_distance(*start, *end));
        assert(along == dot(*point, *start, *end));
    }
    if len_sq == 0 || along <= 0 {
        return point_distance(*point, *start);
    }
    if along >= len_sq {
        return point_distance(*point, *end);
    }
    let c: i128 = lx * py - ly * px;
    proof {
        let m: int = 2 * COORD_LIMIT as int;
        lemma_product_bound(c as int, c as int, 2 * (m * m));
        assert(c * c >= 0) by (nonlinear_arith);
    }
    let num: u128 = (c * c) as u128;
    let den: u128 = len_sq as u128;
    let quotient: u128 = (num + (den - 1)) / den;
    let root: u128 = ceil_sqrt(quotient);
    proof {
        let x: int = num + den - 1;
        lemma_fundamental_div_mod(x, den as int);
        lemma_mod_bound(x, den as int);
        assert(den * quotient >= num);
        assert(den * (quotient - 1) < num) by (nonlinear_arith)
            requires
                den * quotient == x - x % (den as int),
                0 <= x % (den as int),
                x == num + den - 1,
        ;
        assert(root * root * den >= num) by (nonlinear_arith)
            requires
                root * root >= quotient,
                den * quotient >= num,
                den > 0,
        ;
        if root > 0 {
            assert((root - 1) * (root - 1) * den < num) by (nonlinear_arith)
                requires
                    (root - 1) * (root - 1) <= quotient - 1,
                    den * (quotient - 1) < num,
                    den > 0,
            ;
        }
        assert(segment_distance_sq(*point, *start, *end) == ((c * c) as int, len_sq as int));
        assert(0x8000_0000_0000_0000int * 0x8000_0000_0000_0000int * den >= num)
            by (nonlinear_arith)
            requires
                den >= 1,
                num <= 0x8000_0000_0000_0000int * 0x8000_0000_0000_0000int,
        ;
        lemma_rounds_up_root_bound(root as int, num as int, den as int, 0x8000_0000_0000_0000);
    }
    root as u64
}

/// Determinant of the directions of the segments `p1 p2` and `p3 p4`; zero
/// exactly when they are parallel or one of them is a single point.
pub open spec fn intersection_denominator(p1: Point, p2: Point, p3: Point, p4: Point) -> int {
    (p1.x - p2.x) * (p3.y - p4.y) - (p1.y - p2.y) * (p3.x - p4.x)
}

/// Numerator of the position of the meeting point along `p1 p2`, over
/// [`intersection_denominator`].
pub open spec fn intersection_along_first(p1: Point, p2: Point, p3: Point, p4: Point) -> int {
    (p1.x - p3.x) * (p3.y - p4.y) - (p1.y - p3.y) * (p3.x - p4.x)
}

/// Numerator of the position of the meeting point along `p3 p4`, over
/// [`intersection_denominator`].
pub open spec fn intersection_along_second(p1: Point, p2: Point, p3: Point, p4: Point) -> int {
    -((p1.x - p2.x) * (p1.y - p3.y) - (p1.y - p2.y) * (p1.x - p3.x))
}

/// The fraction `num / den` lies between 0 and 1, both included.
pub open spec fn in_unit_interval(num: int, den: int) -> bool {
    if den > 0 {
        0 <= num <= den
    } else {
        den < 0 && den <= num <= 0
    }
}

/// The segments `p1 p2` and `p3 p4` are not parallel and meet in a point of
/// both.
pub open spec fn segments_cross(p1: Point, p2: Point, p3: Point, p4: Point) -> bool {
    let den = intersection_denominator(p1, p2, p3, p4);
    &&& in_unit_interval(intersection_along_first(p1, p2, p3, p4), den)
    &&& in_unit_interval(intersection_along_second(p1, p2, p3, p4), den)
}

/// `num / den` rounded down, for a positive `den`.
pub open spec fn floor_div(num: int, den: int) -> int {
    num / den
}

/// The point where two crossing segments meet, each coordinate rounded down
/// to a whole centimetre.
pub open spec fn crossing_point(p1: Point, p2: Point, p3: Point, p4: Point) -> Point {
    let den = intersection_denominator(p1, p2, p3, p4);
    let t = intersection_along_first(p1, p2, p3, p4);
    let (t, den) = if den > 0 {
        (t, den)
    } else {
        (-t, -den)
    };
    Point {
        x: (p1.x + floor_div(t * (p2.x - p1.x), den)) as i64,
        y: (p1.y + floor_div(t * (p2.y - p1.y), den)) as i64,
    }
}

/// `base + floor(t * delta / den)` for `0 <= t <= den`, which lies between
/// `base` and `base + delta`.
fn interpolate(base: i64, delta: i64, t: u128, den: u128) -> (r: i64)
    requires
        -COORD_LIMIT <= base <= COORD_LIMIT,
        -COORD_LIMIT <= base + delta <= COORD_LIMIT,
        0 < den <= 0x1_0000_0000_0000_0000,
        t <= den,
    ensures
        r == base + floor_div(t * delta, den as int),
        -COORD_LIMIT <= r <= COORD_LIMIT,
{
    if delta >= 0 {
        let step: u128 = delta as u128;
        proof {
            assert(0 <= t * step <= 0x1_0000_0000_0000_0000 * 0x1_0000_0000) by (nonlinear_arith)
                requires
                    0 <= t <= 0x1_0000_0000_0000_0000,
                    0 <= step <= 0x1_0000_0000,
            ;
        }
        let product: u128 = t * step;
        let q: u128 = product / den;
        proof {
            lemma_fundamental_div_mod(product as int, den as int);
            lemma_mod_bound(product as int, den as int);
            assert(q <= step) by (nonlinear_arith)
                requires
                    den * q <= product,
                    product == t * step,
                    t <= den,
                    den > 0,
                    step >= 0,
                    q >= 0,
            ;
        }
        base + q as i64
    } else {
        let step: u128 = (-delta) as u128;
        proof {
            assert(0 <= t * step <= 0x1_0000_0000_0000_0000 * 0x1_0000_0000) by (nonlinear_arith)
                requires
                    0 <= t <= 0x1_0000_0000_0000_0000,
                    0 <= step <= 0x1_0000_0000,
            ;
        }
        let product: u128 = t * step;
        let q: u128 = (product + (den - 1)) / den;
        proof {
            let x: int = product + den - 1;
            lemma_fundamental_div_mod(x, den as int);
            lemma_mod_bound(x, den as int);
            lemma_fundamental_div_mod(-(product as int), den as int);
            lemma_mod_bound(-(product as int), den as int);
            // q is the least number with den * q >= product, so -q is the floor of -product / den
            let f: int = (-(product as int)) / (den as int);
            let neg: int = -(product as int);
            assert(den * q >= product);
            assert(den * (q - 1) < product) by (nonlinear_arith)
                requires
                    den * q == x - x % (den as int),
                    0 <= x % (den as int),
                    x == product + den - 1,
            ;
            assert(den * f <= neg && den * (f + 1) > neg) by (nonlinear_arith)
                requires
                    neg == den * f + neg % (den as int),
                    0 <= neg % (den as int) < den,
            ;
            assert(f == -(q as int)) by (nonlinear_arith)
                requires
                    den * q >= product,
                    den * (q - 1) < product,
                    den * f <= neg,
                    den * (f + 1) > neg,
                    neg == -(product as int),
                    den > 0,
            ;
            assert(q <= step) by (nonlinear_arith)
                requires
                    den * (q - 1) < product,
                    product == t * step,
                    t <= den,
                    den > 0,
                    step >= 0,
            ;
            assert(t * delta == -(product as int)) by (nonlinear_arith)
                requires
                    product == t * step,
                    step == -delta,
            ;
        }
        base - q as i64
    }
}

/// Meeting point of the segments `p1 p2` and `p3 p4`, if they are not
/// parallel and meet.
///
/// Both positions along the segments are found by solving the two linear
/// equations for the meeting point; the segments meet when both lie between
/// 0 and 1.
pub fn line_intersection(p1: &Point, p2: &Point, p3: &Point, p4: &Point) -> (hit: Option<Point>)
    requires
        p1.in_range(),
        p2.in_range(),
        p3.in_range(),
        p4.in_range(),
    ensures
        hit is Some <==> segments_cross(*p1, *p2, *p3, *p4),
        hit is Some ==> hit->0 == crossing_point(*p1, *p2, *p3, *p4),
        hit is Some ==> hit->0.in_range(),
{
    let a: i128 = (p1.x - p2.x) as i128;
    let b: i128 = (p1.y - p2.y) as i128;
    let c: i128 = (p3.x - p4.x) as i128;
    let d: i128 = (p3.y - p4.y) as i128;
    let e: i128 = (p1.x - p3.x) as i128;
    let f: i128 = (p1.y - p3.y) as i128;
    proof {
        let m: int = 2 * COORD_LIMIT as int;
        lemma_product_bound(a as int, d as int, m);
        lemma_product_bound(b as int, c as int, m);
        lemma_product_bound(e as int, d as int, m);
        lemma_product_bound(f as int, c as int, m);
        lemma_product_bound(a as int, f as int, m);
        lemma_product_bound(b as int, e as int, m);
    }
    let den: i128 = a * d - b * c;
    let t: i128 = e * d - f * c;
    let u: i128 = -(a * f - b * e);
    if den == 0 {
        return None;
    }
    let (t, u, den) = if den > 0 {
        (t, u, den)
    } else {
        (-t, -u, -den)
    };
    if 0 <= t && t <= den && 0 <= u && u <= den {
        let x: i64 = interpolate(p1.x, p2.x - p1.x, t as u128, den as u128);
        let y: i64 = interpolate(p1.y, p2.y - p1.y, t as u128, den as u128);
        Some(Point { x, y })
    } else {
        None
    }
}


} // verus!
