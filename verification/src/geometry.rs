//! Points on the keyboard grid, distances between them and points between them.

use vstd::prelude::*;

verus! {

/// Grid units per keyboard width, and per keyboard height.
pub const UNIT: i32 = 1_000_000_000;

/// Two key centres closer than this many grid units count as one key position.
pub const MERGE_RADIUS: u64 = 100;

/// A position on the keyboard, in grid units.
#[derive(Clone, Copy, Debug, PartialEq, Eq, Structural)]
pub struct Point {
    pub x: i32,
    pub y: i32,
}

/// `r` is the square root of `q`, rounded down.
pub open spec fn is_floor_sqrt(q: nat, r: nat) -> bool {
    r * r <= q < (r + 1) * (r + 1)
}

/// The square root of `q`, rounded down.
pub open spec fn floor_sqrt(q: nat) -> nat {
    choose|r: nat| is_floor_sqrt(q, r)
}

/// Every natural number has a rounded-down square root.
pub proof fn lemma_floor_sqrt_exists(q: nat)
    ensures
        is_floor_sqrt(q, floor_sqrt(q)),
    decreases q,
{
    if q == 0 {
        assert(0nat * 0nat <= 0 < (0nat + 1) * (0nat + 1)) by (nonlinear_arith);
        assert(is_floor_sqrt(0, 0));
    } else {
        lemma_floor_sqrt_exists((q - 1) as nat);
        let r = floor_sqrt((q - 1) as nat);
        if q == (r + 1) * (r + 1) {
            assert(is_floor_sqrt(q, r + 1)) by (nonlinear_arith)
                requires
                    q == (r + 1) * (r + 1),
            ;
        } else {
            assert(is_floor_sqrt(q, r));
        }
    }
}

/// The rounded-down square root is the only number between whose square and
/// whose successor's square `q` lies.
pub proof fn lemma_floor_sqrt_unique(q: nat, r: nat)
    requires
        is_floor_sqrt(q, r),
    ensures
        floor_sqrt(q) == r,
{
    let s = floor_sqrt(q);
    assert(is_floor_sqrt(q, s));
    assert(s == r) by (nonlinear_arith)
        requires
            r * r <= q < (r + 1) * (r + 1),
            s * s <= q < (s + 1) * (s + 1),
    ;
}

/// Squared Euclidean distance between two points.
pub open spec fn dist_sq(a: Point, b: Point) -> nat {
    ((a.x - b.x) * (a.x - b.x) + (a.y - b.y) * (a.y - b.y)) as nat
}

/// Euclidean distance between two points, rounded down to whole grid units.
pub open spec fn distance(a: Point, b: Point) -> nat {
    floor_sqrt(dist_sq(a, b))
}

/// A point is at no distance from itself.
pub proof fn lemma_distance_self(a: Point)
    ensures
        distance(a, a) == 0,
        coincident(a, a),
{
    assert(dist_sq(a, a) == 0) by (nonlinear_arith)
        requires
            dist_sq(a, a) == ((a.x - a.x) * (a.x - a.x) + (a.y - a.y) * (a.y - a.y)) as nat,
    ;
    assert(is_floor_sqrt(0, 0)) by (nonlinear_arith);
    lemma_floor_sqrt_unique(0, 0);
}

/// Two points are close enough to be the same key position.
pub open spec fn coincident(a: Point, b: Point) -> bool {
    distance(a, b) < MERGE_RADIUS
}

/// Computes the rounded-down square root by bisection.
pub fn isqrt(q: u128) -> (r: u64)
    ensures
        r == floor_sqrt(q as nat),
{
    let mut lo: u128 = 0;
    let mut hi: u128 = 0x1_0000_0000_0000_0000;
    assert(0x1_0000_0000_0000_0000int * 0x1_0000_0000_0000_0000int > u128::MAX) by (nonlinear_arith);
    while hi - lo > 1
        invariant
            lo < hi <= 0x1_0000_0000_0000_0000,
            lo * lo <= q,
            q < hi * hi,
        decreases hi - lo,
    {
        let mid: u128 = lo + (hi - lo) / 2;
        assert(mid * mid <= u128::MAX) by (nonlinear_arith)
            requires
                mid < 0x1_0000_0000_0000_0000,
        ;
        if mid * mid <= q {
            lo = mid;
        } else {
            hi = mid;
        }
    }
    proof {
        lemma_floor_sqrt_unique(q as nat, lo as nat);
    }
    lo as u64
}

/// Distance between two points, in whole grid units.
pub fn dist(start: &Point, end: &Point) -> (d: u64)
    ensures
        d == distance(*start, *end),
        d <= 0x2_0000_0000,
{
    let dx: i128 = start.x as i128 - end.x as i128;
    let dy: i128 = start.y as i128 - end.y as i128;
    assert(0 <= dx * dx <= 0x1_0000_0000_0000_0000) by (nonlinear_arith)
        requires
            -0x1_0000_0000 <= dx <= 0x1_0000_0000,
    ;
    assert(0 <= dy * dy <= 0x1_0000_0000_0000_0000) by (nonlinear_arith)
        requires
            -0x1_0000_0000 <= dy <= 0x1_0000_0000,
    ;
    let q: i128 = dx * dx + dy * dy;
    proof {
        lemma_distance_bound(*start, *end);
    }
    isqrt(q as u128)
}

/// The coordinate `k` of `n` equal steps from `a` towards `b`; what is cut off
/// in rounding pulls the result towards `a`.
pub open spec fn lerp_coord(a: int, b: int, k: int, n: int) -> int {
    if a <= b {
        a + ((b - a) * k) / n
    } else {
        a - ((a - b) * k) / n
    }
}

/// The point `k` of `n` equal steps along the straight line from `a` to `b`.
pub open spec fn lerp(a: Point, b: Point, k: int, n: int) -> Point {
    Point {
        x: lerp_coord(a.x as int, b.x as int, k, n) as i32,
        y: lerp_coord(a.y as int, b.y as int, k, n) as i32,
    }
}

/// A step along a line stays between the line's two ends, starts at the first
/// and arrives at the second.
pub proof fn lemma_lerp_coord_between(a: int, b: int, k: int, n: int)
    requires
        0 < n,
        0 <= k <= n,
    ensures
        a <= b ==> a <= lerp_coord(a, b, k, n) <= b,
        b <= a ==> b <= lerp_coord(a, b, k, n) <= a,
        k == 0 ==> lerp_coord(a, b, k, n) == a,
        k == n ==> lerp_coord(a, b, k, n) == b,
{
    let span: int = if a <= b {
        b - a
    } else {
        a - b
    };
    lemma_scaled_offset(span, k, n);
}

/// A whole number of `n`-ths of a span: between nothing and the span, nothing
/// for no step and the whole span for all `n` steps.
proof fn lemma_scaled_offset(span: int, k: int, n: int)
    requires
        0 <= span,
        0 < n,
        0 <= k <= n,
    ensures
        0 <= (span * k) / n <= span,
        k == 0 ==> (span * k) / n == 0,
        k == n ==> (span * k) / n == span,
{
    assert(0 <= span * k <= span * n) by (nonlinear_arith)
        requires
            0 <= span,
            0 <= k <= n,
    ;
    vstd::arithmetic::div_mod::lemma_div_is_ordered(0, span * k, n);
    vstd::arithmetic::div_mod::lemma_div_is_ordered(span * k, span * n, n);
    vstd::arithmetic::div_mod::lemma_div_multiples_vanish(span, n);
    assert(span * n == n * span) by (nonlinear_arith);
    if k == 0 {
        assert(span * k == 0) by (nonlinear_arith)
            requires
                k == 0,
        ;
    }
}

fn lerp_axis(a: i32, b: i32, k: u64, n: u64) -> (c: i32)
    requires
        0 < n,
        k <= n,
    ensures
        c == lerp_coord(a as int, b as int, k as int, n as int),
{
    proof {
        lemma_lerp_coord_between(a as int, b as int, k as int, n as int);
    }
    if a <= b {
        let span: u128 = (b as i64 - a as i64) as u128;
        assert(span * k <= 0x1_0000_0000 * 0x1_0000_0000_0000_0000) by (nonlinear_arith)
            requires
                span <= 0x1_0000_0000,
                k <= 0x1_0000_0000_0000_0000,
        ;
        let off: u128 = span * (k as u128) / (n as u128);
        (a as i64 + off as i64) as i32
    } else {
        let span: u128 = (a as i64 - b as i64) as u128;
        assert(span * k <= 0x1_0000_0000 * 0x1_0000_0000_0000_0000) by (nonlinear_arith)
            requires
                span <= 0x1_0000_0000,
                k <= 0x1_0000_0000_0000_0000,
        ;
        let off: u128 = span * (k as u128) / (n as u128);
        (a as i64 - off as i64) as i32
    }
}

/// The point `k` of `n` equal steps along the straight line from `start` to
/// `end`.
pub fn interpolate(start: &Point, end: &Point, k: u64, n: u64) -> (p: Point)
    requires
        0 < n,
        k <= n,
    ensures
        p == lerp(*start, *end, k as int, n as int),
{
    Point { x: lerp_axis(start.x, end.x, k, n), y: lerp_axis(start.y, end.y, k, n) }
}

/// Length of the straight leg that starts at point `i` and ends at the next.
pub open spec fn leg(points: Seq<Point>, i: int) -> nat {
    distance(points[i], points[i + 1])
}

/// Summed length of the first `legs` legs of the polyline through `points`.
pub open spec fn length_before(points: Seq<Point>, legs: int) -> nat
    decreases legs,
{
    if legs <= 0 {
        0
    } else {
        length_before(points, legs - 1) + leg(points, legs - 1)
    }
}

/// Summed length of all legs of the polyline through `points`.
pub open spec fn polyline_length(points: Seq<Point>) -> nat {
    length_before(points, points.len() - 1)
}

/// No leg between two grid points is longer than the grid's diagonal.
pub proof fn lemma_distance_bound(a: Point, b: Point)
    ensures
        distance(a, b) <= 0x2_0000_0000,
{
    let dx: int = a.x - b.x;
    let dy: int = a.y - b.y;
    assert(0 <= dx * dx <= 0x1_0000_0000_0000_0000) by (nonlinear_arith)
        requires
            -0x1_0000_0000 <= dx <= 0x1_0000_0000,
    ;
    assert(0 <= dy * dy <= 0x1_0000_0000_0000_0000) by (nonlinear_arith)
        requires
            -0x1_0000_0000 <= dy <= 0x1_0000_0000,
    ;
    let q: nat = dist_sq(a, b);
    lemma_floor_sqrt_exists(q);
    let d: nat = floor_sqrt(q);
    assert(d <= 0x2_0000_0000) by (nonlinear_arith)
        requires
            d * d <= q,
            q <= 0x2_0000_0000_0000_0000,
    ;
}

} // verus!
