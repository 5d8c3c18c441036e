//! Resampling a polyline: every leg is cut into a whole number of sections, and
//! what a leg leaves of the spacing is carried into the next one.

use crate::geometry::{
    coincident, dist, interpolate, leg, lemma_distance_bound, lemma_lerp_coord_between,
    length_before, lerp, polyline_length, Point, MERGE_RADIUS,
};
use crate::waypoints::{
    lemma_length_before_bound, lemma_retained_one_spot, retained, spaced, Waypoints,
};
use vstd::arithmetic::div_mod::{
    lemma_basic_div, lemma_fundamental_div_mod, lemma_fundamental_div_mod_converse,
    lemma_mod_bound, lemma_small_mod,
};
use vstd::prelude::*;

verus! {

/// What the legs before leg `i` have left over, in `div`-ths of a section, when
/// a section is `div / mul` grid units long.
pub open spec fn carry(w: Seq<Point>, mul: nat, div: nat, i: int) -> nat
    decreases i,
{
    if i <= 0 {
        0
    } else {
        (leg(w, i - 1) * mul + carry(w, mul, div, i - 1)) % div
    }
}

/// Number of whole sections that leg `i` is cut into.
pub open spec fn sections(w: Seq<Point>, mul: nat, div: nat, i: int) -> nat {
    (leg(w, i) * mul + carry(w, mul, div, i)) / div
}

/// The points that a leg from `a` to `b` of `n` sections adds to a path: the
/// end of each section, the last of which is `b`. A leg without a section adds
/// `b` alone if the path keeps its corners, and nothing if it does not.
pub open spec fn leg_points(a: Point, b: Point, n: nat, corners: bool) -> Seq<Point> {
    if n == 0 {
        if corners {
            seq![b]
        } else {
            Seq::empty()
        }
    } else {
        Seq::new(n, |k: int| lerp(a, b, k + 1, n as int))
    }
}

/// The path over the first `legs` legs of the polyline through `w`: its first
/// point, then what each leg adds.
pub open spec fn traced(w: Seq<Point>, mul: nat, div: nat, corners: bool, legs: int) -> Seq<Point>
    decreases legs,
{
    if legs <= 0 {
        seq![w[0]]
    } else {
        traced(w, mul, div, corners, legs - 1) + leg_points(
            w[legs - 1],
            w[legs],
            sections(w, mul, div, legs - 1),
            corners,
        )
    }
}

/// Number of sections that the first `legs` legs are cut into, all told.
pub open spec fn sections_before(w: Seq<Point>, mul: nat, div: nat, legs: int) -> nat
    decreases legs,
{
    if legs <= 0 {
        0
    } else {
        sections_before(w, mul, div, legs - 1) + sections(w, mul, div, legs - 1)
    }
}

/// How a path is resampled.
#[derive(Clone, Copy, Debug, PartialEq, Eq)]
pub enum Resampling {
    /// A point every so many grid units along the path.
    Density(i64),
    /// So many points in all.
    Count(usize),
}

/// The path through `w` with a point every `density` grid units: each
/// waypoint, and between two of them the ends of the sections that their leg
/// is cut into. There is none without a waypoint or for a spacing that is not
/// positive.
pub open spec fn density_path(w: Seq<Point>, density: int) -> Option<Seq<Point>> {
    if w.len() == 0 || density <= 0 {
        None
    } else {
        Some(traced(w, 1, density as nat, true, w.len() - 1))
    }
}

/// The path of `total` points through `w`, a polyline of length `length`: the
/// first waypoint, then the ends of the sections that the legs are cut into,
/// each the `total - 1`-th part of the length. A polyline without length gives
/// its first waypoint `total` times. There is no path without a waypoint or
/// with fewer points than waypoints.
pub open spec fn count_path(w: Seq<Point>, length: nat, total: nat) -> Option<Seq<Point>> {
    if w.len() == 0 || total < w.len() {
        None
    } else if length == 0 {
        Some(Seq::new(total, |k: int| w[0]))
    } else {
        Some(traced(w, (total - 1) as nat, length, false, w.len() - 1))
    }
}

/// The path that a policy makes of the polyline through `w` of length
/// `length`.
pub open spec fn resampled(w: Seq<Point>, length: nat, policy: Resampling) -> Option<Seq<Point>> {
    match policy {
        Resampling::Density(density) => density_path(w, density as int),
        Resampling::Count(total) => count_path(w, length, total as nat),
    }
}

/// The carry never reaches a whole section.
pub proof fn lemma_carry_bound(w: Seq<Point>, mul: nat, div: nat, i: int)
    requires
        0 < div,
    ensures
        carry(w, mul, div, i) < div,
{
    if i > 0 {
        lemma_mod_bound(
            (leg(w, i - 1) * mul + carry(w, mul, div, i - 1)) as int,
            div as int,
        );
    }
}

/// The sections cut so far and the carry account for the length walked so
/// far, to the last `div`-th.
pub proof fn lemma_budget_spent(w: Seq<Point>, mul: nat, div: nat, legs: int)
    requires
        0 < div,
    ensures
        sections_before(w, mul, div, legs) * div + carry(w, mul, div, legs) == mul * length_before(
            w,
            legs,
        ),
    decreases legs,
{
    if legs > 0 {
        lemma_budget_spent(w, mul, div, legs - 1);
        let before = sections_before(w, mul, div, legs - 1);
        let walked = length_before(w, legs - 1);
        let l = leg(w, legs - 1);
        let budget = l * mul + carry(w, mul, div, legs - 1);
        lemma_fundamental_div_mod(budget as int, div as int);
        let n = budget / div;
        assert((before + n) * div == before * div + div * n) by (nonlinear_arith);
        assert(mul * (walked + l) == mul * walked + l * mul) by (nonlinear_arith);
    } else {
        assert(mul * 0 == 0) by (nonlinear_arith);
        assert(0 * div == 0) by (nonlinear_arith);
    }
}

/// No leg has more sections than all legs together.
pub proof fn lemma_sections_le_all(w: Seq<Point>, mul: nat, div: nat, i: int, legs: int)
    requires
        0 <= i < legs,
    ensures
        sections(w, mul, div, i) <= sections_before(w, mul, div, legs),
    decreases legs,
{
    if i < legs - 1 {
        lemma_sections_le_all(w, mul, div, i, legs - 1);
    }
}

/// Cut to a whole share of its own length, a polyline spends its length to
/// the last unit: with `length` the length of the polyline through `w` and not
/// zero, sections of the `mul`-th part of it come to `mul` in all and leave no
/// carry.
pub proof fn lemma_whole_shares(w: Seq<Point>, mul: nat, length: nat)
    requires
        length == polyline_length(w),
        0 < length,
    ensures
        sections_before(w, mul, length, w.len() - 1) == mul,
        carry(w, mul, length, w.len() - 1) == 0,
{
    let legs = w.len() - 1;
    lemma_budget_spent(w, mul, length, legs);
    lemma_carry_bound(w, mul, length, legs);
    let all = sections_before(w, mul, length, legs);
    let c = carry(w, mul, length, legs);
    assert(all == mul && c == 0) by (nonlinear_arith)
        requires
            all * length + c == mul * length,
            0 <= c < length,
    ;
}

/// Waypoints of which none coincides with the next make a polyline without
/// length only where there is but one of them.
pub proof fn lemma_single_waypoint(w: Seq<Point>)
    requires
        w.len() >= 1,
        spaced(w),
    ensures
        polyline_length(w) == 0 <==> w.len() == 1,
{
    if w.len() > 1 {
        let legs = w.len() - 1;
        assert(!coincident(w[legs - 1], w[legs - 1 + 1]));
        assert(leg(w, legs - 1) >= MERGE_RADIUS);
    } else {
        assert(length_before(w, 0) == 0);
    }
}

/// Cut to a whole share of its length, a polyline whose waypoints are spaced
/// ends its path on its last waypoint.
pub proof fn lemma_count_path_last(w: Seq<Point>, mul: nat, length: nat)
    requires
        w.len() >= 2,
        spaced(w),
        length == polyline_length(w),
        0 < mul,
    ensures
        traced(w, mul, length, false, w.len() - 1).last() == w.last(),
{
    let legs = w.len() - 1;
    lemma_single_waypoint(w);
    lemma_whole_shares(w, mul, length);
    assert(!coincident(w[legs - 1], w[legs - 1 + 1]));
    let l = leg(w, legs - 1);
    let budget = l * mul + carry(w, mul, length, legs - 1);
    lemma_fundamental_div_mod(budget as int, length as int);
    assert(l * mul > 0) by (nonlinear_arith)
        requires
            l > 0,
            mul > 0,
    ;
    let n = sections(w, mul, length, legs - 1);
    assert(n > 0) by (nonlinear_arith)
        requires
            budget == length * n + 0,
            budget > 0,
            n >= 0,
    ;
    lemma_leg_points_last(w[legs - 1], w[legs], n, false);
}

/// A path starts at the first waypoint.
pub proof fn lemma_traced_first(w: Seq<Point>, mul: nat, div: nat, corners: bool, legs: int)
    ensures
        traced(w, mul, div, corners, legs).len() >= 1,
        traced(w, mul, div, corners, legs)[0] == w[0],
    decreases legs,
{
    if legs > 0 {
        lemma_traced_first(w, mul, div, corners, legs - 1);
    }
}

/// A path that drops the corners of legs without a section has one point
/// more than the legs have sections.
pub proof fn lemma_traced_len(w: Seq<Point>, mul: nat, div: nat, legs: int)
    ensures
        traced(w, mul, div, false, legs).len() == 1 + sections_before(w, mul, div, legs),
    decreases legs,
{
    if legs > 0 {
        lemma_traced_len(w, mul, div, legs - 1);
    }
}

/// A path that keeps its corners has a point for each waypoint at least, and
/// at least one more than the legs have sections.
pub proof fn lemma_traced_corners_len(w: Seq<Point>, mul: nat, div: nat, legs: int)
    requires
        0 <= legs,
    ensures
        traced(w, mul, div, true, legs).len() >= 1 + legs,
        traced(w, mul, div, true, legs).len() >= 1 + sections_before(w, mul, div, legs),
    decreases legs,
{
    if legs > 0 {
        lemma_traced_corners_len(w, mul, div, legs - 1);
    }
}

/// The last point that a leg with a section, or any leg of a path that keeps
/// its corners, adds is the leg's end.
pub proof fn lemma_leg_points_last(a: Point, b: Point, n: nat, corners: bool)
    requires
        n > 0 || corners,
    ensures
        leg_points(a, b, n, corners).len() > 0,
        leg_points(a, b, n, corners).last() == b,
{
    if n > 0 {
        lemma_lerp_coord_between(a.x as int, b.x as int, n as int, n as int);
        lemma_lerp_coord_between(a.y as int, b.y as int, n as int, n as int);
    }
}

/// A leg without length has no section and leaves the carry as it was.
pub proof fn lemma_zero_leg(w: Seq<Point>, mul: nat, div: nat, i: int)
    requires
        0 < div,
        0 <= i,
        leg(w, i) == 0,
    ensures
        sections(w, mul, div, i) == 0,
        carry(w, mul, div, i + 1) == carry(w, mul, div, i),
{
    lemma_carry_bound(w, mul, div, i);
    let c = carry(w, mul, div, i);
    assert(leg(w, i) * mul == 0) by (nonlinear_arith)
        requires
            leg(w, i) == 0,
    ;
    lemma_basic_div(c as int, div as int);
    lemma_small_mod(c, div);
}

/// A leg no longer than a section has one section at most, so no point of the
/// path lies within it.
pub proof fn lemma_short_leg(w: Seq<Point>, mul: nat, div: nat, i: int)
    requires
        0 < div,
        leg(w, i) * mul <= div,
    ensures
        sections(w, mul, div, i) <= 1,
        leg_points(w[i], w[i + 1], sections(w, mul, div, i), true) == seq![w[i + 1]],
{
    lemma_carry_bound(w, mul, div, i);
    let budget = leg(w, i) * mul + carry(w, mul, div, i);
    let n = budget / div;
    lemma_fundamental_div_mod(budget as int, div as int);
    lemma_mod_bound(budget as int, div as int);
    assert(n <= 1) by (nonlinear_arith)
        requires
            budget == div * n + budget % div,
            0 <= budget % div,
            budget < 2 * div,
            0 < div,
    ;
    if n == 1 {
        lemma_leg_points_last(w[i], w[i + 1], 1, true);
        assert(leg_points(w[i], w[i + 1], 1, true) =~= seq![w[i + 1]]);
    }
}

/// A path over more legs starts with the path over fewer.
pub proof fn lemma_traced_prefix(
    w: Seq<Point>,
    mul: nat,
    div: nat,
    corners: bool,
    i: int,
    legs: int,
)
    requires
        0 <= i <= legs,
    ensures
        traced(w, mul, div, corners, i).len() <= traced(w, mul, div, corners, legs).len(),
        traced(w, mul, div, corners, legs).take(traced(w, mul, div, corners, i).len() as int)
            == traced(w, mul, div, corners, i),
    decreases legs,
{
    let short = traced(w, mul, div, corners, i);
    let long = traced(w, mul, div, corners, legs);
    if i < legs {
        lemma_traced_prefix(w, mul, div, corners, i, legs - 1);
        let mid = traced(w, mul, div, corners, legs - 1);
        assert(long.take(short.len() as int) =~= mid.take(short.len() as int));
    } else {
        assert(long.take(short.len() as int) =~= short);
    }
}

/// A path that keeps its corners passes through every waypoint, in order:
/// the path over the legs up to a waypoint ends on it.
pub proof fn lemma_corner_kept(w: Seq<Point>, mul: nat, div: nat, i: int, legs: int)
    requires
        0 <= i <= legs,
    ensures
        traced(w, mul, div, true, i).len() <= traced(w, mul, div, true, legs).len(),
        traced(w, mul, div, true, legs)[traced(w, mul, div, true, i).len() - 1] == w[i],
{
    let short = traced(w, mul, div, true, i);
    let long = traced(w, mul, div, true, legs);
    lemma_traced_prefix(w, mul, div, true, i, legs);
    lemma_traced_first(w, mul, div, true, i);
    if i > 0 {
        lemma_leg_points_last(w[i - 1], w[i], sections(w, mul, div, i - 1), true);
    }
    assert(short.last() == w[i]);
    assert(long.take(short.len() as int)[short.len() - 1] == long[short.len() - 1]);
}

/// Where every leg has a section, a path that keeps its corners has one point
/// more than the legs have sections.
pub proof fn lemma_traced_corners_full(w: Seq<Point>, mul: nat, div: nat, legs: int)
    requires
        forall|i: int| 0 <= i < legs ==> #[trigger] sections(w, mul, div, i) >= 1,
    ensures
        traced(w, mul, div, true, legs).len() == 1 + sections_before(w, mul, div, legs),
    decreases legs,
{
    if legs > 0 {
        lemma_traced_corners_full(w, mul, div, legs - 1);
        assert(sections(w, mul, div, legs - 1) >= 1);
    }
}

/// With a point every `density` grid units, the legs have as many sections as
/// the polyline is whole multiples of `density` long; and where no leg is
/// shorter than `density`, the path has one point more than that.
pub proof fn lemma_density_count(w: Seq<Point>, density: int)
    requires
        w.len() >= 1,
        0 < density,
    ensures
        sections_before(w, 1, density as nat, w.len() - 1) == polyline_length(w) / (density as nat),
        (forall|i: int| 0 <= i < w.len() - 1 ==> #[trigger] leg(w, i) >= density)
            ==> density_path(w, density)->0.len() == 1 + polyline_length(w) / (density as nat),
{
    let d = density as nat;
    let legs = w.len() - 1;
    lemma_budget_spent(w, 1, d, legs);
    lemma_carry_bound(w, 1, d, legs);
    let all = sections_before(w, 1, d, legs);
    let c = carry(w, 1, d, legs);
    assert(1 * polyline_length(w) == polyline_length(w)) by (nonlinear_arith);
    assert(all * d == d * all) by (nonlinear_arith);
    lemma_fundamental_div_mod_converse(polyline_length(w) as int, d as int, all as int, c as int);
    if forall|i: int| 0 <= i < w.len() - 1 ==> #[trigger] leg(w, i) >= density {
        assert forall|i: int| 0 <= i < legs implies #[trigger] sections(w, 1, d, i) >= 1 by {
            assert(leg(w, i) >= density);
            let budget = leg(w, i) * 1 + carry(w, 1, d, i);
            assert(budget / d >= 1) by (nonlinear_arith)
                requires
                    budget >= d,
                    d > 0,
            ;
        }
        lemma_traced_corners_full(w, 1, d, legs);
    }
}

/// A path of `total` points has `total` points, starts on the first waypoint
/// and ends on the last, whenever there is one: for waypoints of which none
/// coincides with the next, and the length of the polyline through them.
pub proof fn lemma_count_path_len(w: Seq<Point>, total: nat)
    requires
        w.len() >= 1,
        spaced(w),
    ensures
        count_path(w, polyline_length(w), total) is Some <==> total >= w.len(),
        count_path(w, polyline_length(w), total) matches Some(p) ==> p.len() == total && p[0]
            == w[0] && p.last() == w.last(),
{
    let length = polyline_length(w);
    lemma_single_waypoint(w);
    if total >= w.len() && length > 0 {
        let mul = (total - 1) as nat;
        lemma_whole_shares(w, mul, length);
        lemma_traced_len(w, mul, length, w.len() - 1);
        lemma_traced_first(w, mul, length, false, w.len() - 1);
        lemma_count_path_last(w, mul, length);
    }
}

/// Stops that all coincide with the first of them make a path of `total`
/// points that is the first stop `total` times.
pub proof fn lemma_count_path_one_spot(stops: Seq<Point>, total: nat)
    requires
        stops.len() >= 1,
        forall|i: int| 0 <= i < stops.len() ==> coincident(stops[0], #[trigger] stops[i]),
        total >= 1,
    ensures
        count_path(retained(stops), polyline_length(retained(stops)), total) == Some(
            Seq::new(total, |k: int| stops[0]),
        ),
{
    lemma_retained_one_spot(stops);
    let w = retained(stops);
    assert(length_before(w, 0) == 0);
    assert(Seq::new(total, |k: int| w[0]) =~= Seq::new(total, |k: int| stops[0]));
}

/// Walks the polyline through `waypoints` and cuts each leg into sections of
/// `div / mul` grid units.
fn trace(waypoints: &Vec<Point>, mul: u64, div: u128, corners: bool) -> (path: Vec<Point>)
    requires
        waypoints@.len() >= 1,
        0 < div < 0x1_0000_0000_0000_0000_0000_0000_0000,
        forall|i: int|
            0 <= i < waypoints@.len() - 1 ==> #[trigger] sections(
                waypoints@,
                mul as nat,
                div as nat,
                i,
            ) <= u64::MAX,
    ensures
        path@ == traced(waypoints@, mul as nat, div as nat, corners, waypoints@.len() - 1),
{
    let mut path: Vec<Point> = Vec::new();
    path.push(waypoints[0]);
    let mut rest: u128 = 0;
    let mut i: usize = 0;
    while i + 1 < waypoints.len()
        invariant
            i < waypoints.len(),
            0 < div < 0x1_0000_0000_0000_0000_0000_0000_0000,
            rest == carry(waypoints@, mul as nat, div as nat, i as int),
            path@ == traced(waypoints@, mul as nat, div as nat, corners, i as int),
            forall|j: int|
                0 <= j < waypoints@.len() - 1 ==> #[trigger] sections(
                    waypoints@,
                    mul as nat,
                    div as nat,
                    j,
                ) <= u64::MAX,
        decreases waypoints@.len() - i,
    {
        let start: Point = waypoints[i];
        let end: Point = waypoints[i + 1];
        let leg_length: u64 = dist(&start, &end);
        proof {
            lemma_carry_bound(waypoints@, mul as nat, div as nat, i as int);
            assert(leg_length * mul <= 0x2_0000_0000 * 0x1_0000_0000_0000_0000) by (nonlinear_arith)
                requires
                    leg_length <= 0x2_0000_0000,
                    mul <= 0x1_0000_0000_0000_0000,
            ;
            assert(sections(waypoints@, mul as nat, div as nat, i as int) <= u64::MAX);
        }
        let budget: u128 = leg_length as u128 * mul as u128 + rest;
        let n: u64 = (budget / div) as u64;
        rest = budget % div;
        let ghost before: Seq<Point> = path@;
        let mut k: u64 = 1;
        while k < n
            invariant
                1 <= k,
                k <= n || (n == 0 && k == 1),
                path@ == before + Seq::new((k - 1) as nat, |j: int| lerp(start, end, j + 1, n as int)),
            decreases n - k,
        {
            path.push(interpolate(&start, &end, k, n));
            k = k + 1;
            assert(path@ =~= before + Seq::new(
                (k - 1) as nat,
                |j: int| lerp(start, end, j + 1, n as int),
            ));
        }
        let ghost inner: Seq<Point> = path@;
        if n >= 1 || corners {
            path.push(end);
        }
        proof {
            let added: Seq<Point> = leg_points(start, end, n as nat, corners);
            if n >= 1 {
                lemma_lerp_coord_between(start.x as int, end.x as int, n as int, n as int);
                lemma_lerp_coord_between(start.y as int, end.y as int, n as int, n as int);
                assert(lerp(start, end, n as int, n as int) == end);
                assert(k == n);
                assert(inner.len() == before.len() + n - 1);
                assert(path@.len() == before.len() + n);
                assert(added.len() == n);
                assert forall|j: int| 0 <= j < path@.len() implies path@[j] == (before + added)[j] by {
                    if j < before.len() {
                        assert(path@[j] == inner[j]);
                    } else if j < before.len() + n - 1 {
                        assert(path@[j] == inner[j]);
                        assert(inner[j] == lerp(start, end, j - before.len() + 1, n as int));
                    } else {
                        assert(path@[j] == end);
                    }
                }
            } else {
                assert(inner =~= before);
            }
            assert(path@ =~= before + added);
        }
        i = i + 1;
    }
    path
}

/// With a section of `density` grid units, no leg on the grid has more
/// sections than a machine word counts.
proof fn lemma_density_sections_fit(w: Seq<Point>, density: nat, i: int)
    requires
        0 < density <= i64::MAX,
    ensures
        sections(w, 1, density, i) <= u64::MAX,
{
    lemma_distance_bound(w[i], w[i + 1]);
    lemma_carry_bound(w, 1, density, i);
    let budget = leg(w, i) * 1 + carry(w, 1, density, i);
    assert(budget / density <= budget) by (nonlinear_arith)
        requires
            0 <= budget,
            0 < density,
    ;
}

/// Resamples the polyline through `waypoints` with a point every `density`
/// grid units.
pub fn at_density(waypoints: &Vec<Point>, density: i64) -> (path: Option<Vec<Point>>)
    ensures
        match path {
            Some(p) => density_path(waypoints@, density as int) == Some(p@),
            None => density_path(waypoints@, density as int) is None,
        },
        path is None <==> waypoints@.len() == 0 || density <= 0,
        path matches Some(p) ==> p@.len() >= waypoints@.len() && p@[0] == waypoints@[0]
            && p@.last() == waypoints@.last(),
{
    if waypoints.len() == 0 || density <= 0 {
        return None;
    }
    proof {
        let w = waypoints@;
        assert forall|i: int| 0 <= i < w.len() - 1 implies #[trigger] sections(
            w,
            1,
            density as nat,
            i,
        ) <= u64::MAX by {
            lemma_density_sections_fit(w, density as nat, i);
        }
        lemma_traced_first(w, 1, density as nat, true, w.len() - 1);
        lemma_traced_corners_len(w, 1, density as nat, w.len() - 1);
        if w.len() > 1 {
            lemma_leg_points_last(
                w[w.len() - 2],
                w[w.len() - 1],
                sections(w, 1, density as nat, w.len() - 2),
                true,
            );
        }
    }
    Some(trace(waypoints, 1, density as u128, true))
}

/// Resamples the polyline through `waypoints` to `total` points.
pub fn in_count(waypoints: &Waypoints, total: usize) -> (path: Option<Vec<Point>>)
    ensures
        match path {
            Some(p) => count_path(waypoints@, waypoints.spec_length() as nat, total as nat) == Some(
                p@,
            ),
            None => count_path(waypoints@, waypoints.spec_length() as nat, total as nat) is None,
        },
        path is None <==> total < waypoints@.len(),
        path matches Some(p) ==> p@.len() == total && p@[0] == waypoints@[0] && p@.last()
            == waypoints@.last(),
{
    proof {
        use_type_invariant(waypoints);
    }
    let points: &Vec<Point> = waypoints.points();
    if total < points.len() {
        return None;
    }
    let length: u128 = waypoints.length();
    if length == 0 {
        let first: Point = points[0];
        let mut path: Vec<Point> = Vec::new();
        let mut k: usize = 0;
        while k < total
            invariant
                k <= total,
                path@ == Seq::new(k as nat, |j: int| first),
            decreases total - k,
        {
            path.push(first);
            k = k + 1;
            assert(path@ =~= Seq::new(k as nat, |j: int| first));
        }
        proof {
            lemma_single_waypoint(points@);
        }
        return Some(path);
    }
    let mul: u64 = (total - 1) as u64;
    proof {
        let w = points@;
        let legs = w.len() - 1;
        lemma_whole_shares(w, mul as nat, length as nat);
        assert forall|i: int| 0 <= i < legs implies #[trigger] sections(
            w,
            mul as nat,
            length as nat,
            i,
        ) <= u64::MAX by {
            lemma_sections_le_all(w, mul as nat, length as nat, i, legs);
        }
        lemma_length_before_bound(w, legs);
        lemma_traced_first(w, mul as nat, length as nat, false, legs);
        lemma_traced_len(w, mul as nat, length as nat, legs);
        lemma_count_path_last(w, mul as nat, length as nat);
    }
    Some(trace(points, mul, length, false))
}

/// Resamples the polyline through `waypoints` as `policy` says.
pub fn resample(waypoints: &Waypoints, policy: Resampling) -> (path: Option<Vec<Point>>)
    ensures
        match path {
            Some(p) => resampled(waypoints@, waypoints.spec_length() as nat, policy) == Some(p@),
            None => resampled(waypoints@, waypoints.spec_length() as nat, policy) is None,
        },
        path is None <==> match policy {
            Resampling::Density(density) => density <= 0,
            Resampling::Count(total) => total < waypoints@.len(),
        },
        path matches Some(p) ==> p@[0] == waypoints@[0] && p@.last() == waypoints@.last(),
        path matches Some(p) ==> (policy matches Resampling::Count(total) ==> p@.len() == total),
{
    proof {
        use_type_invariant(waypoints);
    }
    match policy {
        Resampling::Density(density) => at_density(waypoints.points(), density),
        Resampling::Count(total) => in_count(waypoints, total),
    }
}

} // verus!
