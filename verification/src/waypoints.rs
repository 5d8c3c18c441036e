//! The waypoints of a path: the key centres it must pass through, with
//! repeated key positions merged, and the length of the polyline through them.

use crate::geometry::{
    coincident, dist, distance, leg, lemma_distance_bound, lemma_distance_self, length_before,
    polyline_length, Point, MERGE_RADIUS,
};
use vstd::prelude::*;

verus! {

/// The stops that stay as waypoints: the first, and each later one that does
/// not coincide with the waypoint kept last before it.
pub open spec fn retained(stops: Seq<Point>) -> Seq<Point>
    decreases stops.len(),
{
    if stops.len() == 0 {
        Seq::empty()
    } else {
        let kept = retained(stops.drop_last());
        if kept.len() > 0 && coincident(kept.last(), stops.last()) {
            kept
        } else {
            kept.push(stops.last())
        }
    }
}

/// No point coincides with the one after it.
pub open spec fn spaced(points: Seq<Point>) -> bool {
    forall|i: int| 0 <= i < points.len() - 1 ==> !coincident(#[trigger] points[i], points[i + 1])
}

/// Merging keeps the first stop and never adds one.
pub proof fn lemma_retained_len(stops: Seq<Point>)
    ensures
        retained(stops).len() <= stops.len(),
        stops.len() > 0 ==> retained(stops).len() >= 1 && retained(stops)[0] == stops[0],
    decreases stops.len(),
{
    if stops.len() > 0 {
        lemma_retained_len(stops.drop_last());
    }
}

/// After merging, no waypoint coincides with the next.
pub proof fn lemma_retained_spaced(stops: Seq<Point>)
    ensures
        spaced(retained(stops)),
    decreases stops.len(),
{
    if stops.len() > 0 {
        lemma_retained_spaced(stops.drop_last());
        let kept = retained(stops.drop_last());
        let all = retained(stops);
        assert forall|i: int| 0 <= i < all.len() - 1 implies !coincident(
            #[trigger] all[i],
            all[i + 1],
        ) by {
            if i < kept.len() - 1 {
                assert(!coincident(kept[i], kept[i + 1]));
            }
        }
    }
}

/// Merging drops a stop exactly where two stops in a row coincide: as many
/// waypoints as stops are left if and only if no stop coincides with the next,
/// and then the waypoints are the stops.
pub proof fn lemma_retained_all(stops: Seq<Point>)
    ensures
        retained(stops).len() == stops.len() <==> spaced(stops),
        spaced(stops) ==> retained(stops) == stops,
    decreases stops.len(),
{
    if stops.len() > 0 {
        let front = stops.drop_last();
        let kept = retained(front);
        lemma_retained_all(front);
        lemma_retained_len(front);
        if spaced(stops) {
            assert forall|i: int| 0 <= i < front.len() - 1 implies !coincident(
                #[trigger] front[i],
                front[i + 1],
            ) by {
                assert(!coincident(stops[i], stops[i + 1]));
            }
            assert(kept == front);
            if front.len() > 0 {
                assert(!coincident(stops[stops.len() - 2], stops[stops.len() - 2 + 1]));
            }
            assert(retained(stops) =~= stops);
        }
        if retained(stops).len() == stops.len() {
            assert(kept.len() == front.len());
            assert(kept == front);
            assert(retained(stops) == kept.push(stops.last()));
            assert forall|i: int| 0 <= i < stops.len() - 1 implies !coincident(
                #[trigger] stops[i],
                stops[i + 1],
            ) by {
                if i < front.len() - 1 {
                    assert(!coincident(front[i], front[i + 1]));
                }
            }
        }
    } else {
        assert(retained(stops) =~= stops);
    }
}

/// Stops that all coincide with the first of them leave that one waypoint.
pub proof fn lemma_retained_one_spot(stops: Seq<Point>)
    requires
        stops.len() >= 1,
        forall|i: int| 0 <= i < stops.len() ==> coincident(stops[0], #[trigger] stops[i]),
    ensures
        retained(stops) == seq![stops[0]],
    decreases stops.len(),
{
    if stops.len() > 1 {
        let front = stops.drop_last();
        assert forall|i: int| 0 <= i < front.len() implies coincident(
            front[0],
            #[trigger] front[i],
        ) by {
            assert(coincident(stops[0], stops[i]));
        }
        lemma_retained_one_spot(front);
        assert(coincident(stops[0], stops[stops.len() - 1]));
        assert(retained(front).last() == stops[0]);
    } else {
        assert(retained(stops.drop_last()) =~= Seq::<Point>::empty());
        assert(retained(stops) =~= seq![stops[0]]);
    }
}

/// A stop that repeats the stop before it adds no waypoint.
pub proof fn lemma_retained_repeat(stops: Seq<Point>)
    requires
        stops.len() >= 2,
        stops[stops.len() - 2] == stops[stops.len() - 1],
    ensures
        retained(stops) == retained(stops.drop_last()),
{
    let front = stops.drop_last();
    let p = stops.last();
    assert(front.last() == p);
    lemma_distance_self(p);
    lemma_retained_len(front);
}

/// Merging what is merged changes nothing.
pub proof fn lemma_retained_twice(stops: Seq<Point>)
    ensures
        retained(retained(stops)) == retained(stops),
{
    lemma_retained_spaced(stops);
    lemma_retained_all(retained(stops));
}

/// The length of the first legs of a polyline is that of any polyline with
/// the same points up to there.
pub proof fn lemma_length_before_agree(a: Seq<Point>, b: Seq<Point>, legs: int)
    requires
        forall|j: int| 0 <= j <= legs ==> a[j] == b[j],
    ensures
        length_before(a, legs) == length_before(b, legs),
    decreases legs,
{
    if legs > 0 {
        lemma_length_before_agree(a, b, legs - 1);
    }
}

/// A polyline is no longer than its legs, each at most the grid's diagonal,
/// can make it.
pub proof fn lemma_length_before_bound(points: Seq<Point>, legs: int)
    ensures
        length_before(points, legs) <= if legs <= 0 {
            0
        } else {
            legs * 0x2_0000_0000
        },
    decreases legs,
{
    if legs > 0 {
        lemma_length_before_bound(points, legs - 1);
        lemma_distance_bound(points[legs - 1], points[legs - 1 + 1]);
    }
}

/// Waypoints in order, and the length of the polyline through them.
pub struct Waypoints {
    points: Vec<Point>,
    length: u128,
}

impl View for Waypoints {
    type V = Seq<Point>;

    closed spec fn view(&self) -> Seq<Point> {
        self.points@
    }
}

impl Waypoints {
    /// The path length on record.
    pub closed spec fn spec_length(&self) -> u128 {
        self.length
    }

    /// There is a waypoint, none coincides with the next, and the length on
    /// record is that of the polyline through them.
    pub open spec fn wf(&self) -> bool {
        &&& self@.len() >= 1
        &&& spaced(self@)
        &&& self.spec_length() == polyline_length(self@)
    }

    /// Every value of the type is well-formed.
    #[verifier::type_invariant]
    pub open spec fn inv(&self) -> bool {
        self.wf()
    }

    /// Merges coinciding stops and measures the polyline through what is
    /// left. Without a stop there are no waypoints.
    pub fn through(stops: &Vec<Point>) -> (waypoints: Option<Waypoints>)
        ensures
            waypoints is Some <==> stops@.len() > 0,
            waypoints matches Some(w) ==> w.wf() && w@ == retained(stops@),
    {
        if stops.len() == 0 {
            return None;
        }
        let mut kept: Vec<Point> = Vec::new();
        let mut total: u128 = 0;
        let mut i: usize = 0;
        assert(stops@.take(0) =~= Seq::<Point>::empty());
        while i < stops.len()
            invariant
                i <= stops.len(),
                kept@ == retained(stops@.take(i as int)),
                kept@.len() <= i,
                total == polyline_length(kept@),
                total <= kept@.len() * 0x2_0000_0000,
            decreases stops.len() - i,
        {
            let stop: Point = stops[i];
            proof {
                assert(stops@.take(i + 1).drop_last() =~= stops@.take(i as int));
                assert(stops@.take(i + 1).last() == stop);
            }
            if kept.len() == 0 {
                kept.push(stop);
            } else {
                let last: Point = kept[kept.len() - 1];
                let leg_length: u64 = dist(&last, &stop);
                if leg_length >= MERGE_RADIUS {
                    proof {
                        let longer = kept@.push(stop);
                        lemma_length_before_agree(longer, kept@, kept@.len() - 1);
                        assert(leg(longer, kept@.len() - 1) == distance(last, stop));
                    }
                    kept.push(stop);
                    total = total + leg_length as u128;
                }
            }
            i = i + 1;
        }
        proof {
            assert(stops@.take(stops@.len() as int) =~= stops@);
            lemma_retained_spaced(stops@);
            lemma_retained_len(stops@);
        }
        Some(Waypoints { points: kept, length: total })
    }

    /// The waypoints in order.
    pub fn points(&self) -> (points: &Vec<Point>)
        ensures
            points@ == self@,
            self.wf(),
    {
        proof {
            use_type_invariant(self);
        }
        &self.points
    }

    /// Length of the polyline through the waypoints, in grid units.
    #[verifier::when_used_as_spec(spec_length)]
    pub fn length(&self) -> (length: u128)
        ensures
            length == self.spec_length(),
            length == polyline_length(self@),
    {
        proof {
            use_type_invariant(self);
        }
        self.length
    }
}

} // verus!
