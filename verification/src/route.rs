//! Summarising a route: counting the points of a trip as they arrive, the
//! features passed and the distance covered.

use crate::feature::{is_place_of, FeatureDatabase, FeatureView};
use crate::geo::Point;
use vstd::prelude::*;

verus! {

/// What is reported of a finished route.
#[derive(Clone, Copy, Debug, PartialEq, Eq, Structural)]
pub struct RouteSummary {
    /// Number of points received.
    pub point_count: i32,
    /// Number of received points at which the store has an entry.
    pub feature_count: i32,
    /// Metres covered between consecutive points.
    pub distance: i32,
    /// Seconds the route took.
    pub elapsed_time: i32,
}

/// One received point, with the metres measured from the point received
/// before it. For the first point of a route there is no such point, and the
/// measure given with it counts for nothing.
#[derive(Clone, Copy, Debug, PartialEq, Eq, Structural)]
pub struct Visit {
    pub point: Point,
    pub leg: i32,
}

/// Why a point could not be added to a route.
#[derive(Clone, Copy, Debug, PartialEq, Eq, Structural)]
pub enum RouteError {
    /// One of the totals would no longer fit the summary's 32-bit fields.
    Overflow,
}

/// What one visit adds to the count of features passed: one where the store
/// has an entry placed exactly at its point, however many it has there.
pub open spec fn feature_met(store: Seq<FeatureView>, point: Point) -> int {
    if is_place_of(store, point) {
        1
    } else {
        0
    }
}

/// The features passed on a route: the number of visits at whose point the
/// store has an entry.
pub open spec fn features_passed(store: Seq<FeatureView>, visits: Seq<Visit>) -> int
    decreases visits.len(),
{
    if visits.len() == 0 {
        0
    } else {
        features_passed(store, visits.drop_last()) + feature_met(store, visits.last().point)
    }
}

/// The metres covered on a route: the legs of all visits but the first.
pub open spec fn distance_travelled(visits: Seq<Visit>) -> int
    decreases visits.len(),
{
    if visits.len() <= 1 {
        0
    } else {
        distance_travelled(visits.drop_last()) + visits.last().leg
    }
}

/// Whether the totals of a route fit the 32-bit fields of a summary. The
/// features passed are never more than the points, so they fit where the
/// points do.
pub open spec fn fits_summary(visits: Seq<Visit>) -> bool {
    &&& visits.len() <= i32::MAX
    &&& i32::MIN <= distance_travelled(visits) <= i32::MAX
}

/// The point from which the next leg is measured: the last one received.
pub open spec fn last_point(visits: Seq<Visit>) -> Option<Point> {
    if visits.len() == 0 {
        None
    } else {
        Some(visits.last().point)
    }
}

/// Whether `leg` is a length that `measure` gives for the leg into `point` on
/// a route whose visits so far are `visits`: what it gives for the way from
/// the last point, and zero where there is no last point.
pub open spec fn is_leg_into<F: Fn(Point, Point) -> i32>(
    measure: F,
    visits: Seq<Visit>,
    point: Point,
    leg: i32,
) -> bool {
    if visits.len() == 0 {
        leg == 0
    } else {
        call_ensures(measure, (visits.last().point, point), leg)
    }
}

/// Whether `visits` are the points of `points`, in order, each with a length
/// that `measure` gives for the way from the point before it, and the first
/// with zero.
pub open spec fn is_measured_route<F: Fn(Point, Point) -> i32>(
    measure: F,
    points: Seq<Point>,
    visits: Seq<Visit>,
) -> bool {
    &&& visits.len() == points.len()
    &&& forall|i: int| 0 <= i < visits.len() ==> (#[trigger] visits[i]).point == points[i]
    &&& forall|i: int|
        0 <= i < visits.len() ==> is_leg_into(
            measure,
            visits.take(i),
            points[i],
            (#[trigger] visits[i]).leg,
        )
}

/// Whether `summary` reports the totals of `visits` held against `store`,
/// closed after `elapsed_secs` seconds.
pub open spec fn is_summary_of(
    summary: RouteSummary,
    store: Seq<FeatureView>,
    visits: Seq<Visit>,
    elapsed_secs: u64,
) -> bool {
    &&& summary.point_count == visits.len()
    &&& summary.feature_count == features_passed(store, visits)
    &&& summary.distance == distance_travelled(visits)
    &&& summary.elapsed_time == elapsed_secs as i32
}

/// A measured route stays one when the next point joins it with a length
/// measured from its last point.
pub proof fn lemma_measured_route_step<F: Fn(Point, Point) -> i32>(
    measure: F,
    points: Seq<Point>,
    visits: Seq<Visit>,
    point: Point,
    leg: i32,
)
    requires
        is_measured_route(measure, points, visits),
        is_leg_into(measure, visits, point, leg),
    ensures
        is_measured_route(measure, points.push(point), visits.push(Visit { point, leg })),
{
    let longer = visits.push(Visit { point, leg });
    assert forall|i: int| 0 <= i < longer.len() implies is_leg_into(
        measure,
        longer.take(i),
        points.push(point)[i],
        (#[trigger] longer[i]).leg,
    ) by {
        if i < visits.len() {
            assert(longer.take(i) =~= visits.take(i));
            assert(longer[i] == visits[i]);
        } else {
            assert(longer.take(i) =~= visits);
        }
    }
}

/// On a measured route every leg but the first is a length that `measure`
/// gives for the way from the point before to the point itself, and the leg
/// of the first point is zero.
pub proof fn lemma_measured_legs<F: Fn(Point, Point) -> i32>(
    measure: F,
    points: Seq<Point>,
    visits: Seq<Visit>,
)
    requires
        is_measured_route(measure, points, visits),
    ensures
        visits.len() > 0 ==> visits[0].leg == 0,
        forall|i: int|
            0 < i < visits.len() ==> call_ensures(
                measure,
                (points[i - 1], points[i]),
                (#[trigger] visits[i]).leg,
            ),
{
    if visits.len() > 0 {
        assert(is_leg_into(measure, visits.take(0), points[0], visits[0].leg));
    }
    assert forall|i: int| 0 < i < visits.len() implies call_ensures(
        measure,
        (points[i - 1], points[i]),
        (#[trigger] visits[i]).leg,
    ) by {
        assert(is_leg_into(measure, visits.take(i), points[i], visits[i].leg));
        assert(visits.take(i).last() == visits[i - 1]);
    }
}

/// A measured route over three points covers the way measured from the
/// first to the second plus the way measured from the second to the third,
/// and nothing for reaching the first.
pub proof fn lemma_measured_three_points<F: Fn(Point, Point) -> i32>(
    measure: F,
    first: Point,
    second: Point,
    third: Point,
    visits: Seq<Visit>,
)
    requires
        is_measured_route(measure, seq![first, second, third], visits),
    ensures
        call_ensures(measure, (first, second), visits[1].leg),
        call_ensures(measure, (second, third), visits[2].leg),
        distance_travelled(visits) == visits[1].leg + visits[2].leg,
{
    lemma_measured_legs(measure, seq![first, second, third], visits);
    assert(visits =~= seq![visits[0], visits[1], visits[2]]);
    lemma_three_point_route(visits[0], visits[1], visits[2]);
}

/// A route without points has passed nothing and covered nothing.
pub proof fn lemma_empty_route(store: Seq<FeatureView>)
    ensures
        Seq::<Visit>::empty().len() == 0,
        features_passed(store, Seq::<Visit>::empty()) == 0,
        distance_travelled(Seq::<Visit>::empty()) == 0,
{
}

/// One more visit adds one point, one feature where the store has an entry
/// at it, and its leg, unless it is the first visit of the route, whose leg
/// counts for nothing.
pub proof fn lemma_route_step(store: Seq<FeatureView>, visits: Seq<Visit>, visit: Visit)
    ensures
        features_passed(store, visits.push(visit)) == features_passed(store, visits) + feature_met(
            store,
            visit.point,
        ),
        distance_travelled(visits.push(visit)) == distance_travelled(visits) + if visits.len()
            == 0 {
            0
        } else {
            visit.leg as int
        },
        last_point(visits.push(visit)) == Some(visit.point),
{
    assert(visits.push(visit).drop_last() =~= visits);
    if visits.len() == 0 {
        assert(distance_travelled(visits) == 0);
    }
}

/// The features passed are counted by points: there are never more of them
/// than points received, and never fewer than none.
pub proof fn lemma_features_passed_bounded(store: Seq<FeatureView>, visits: Seq<Visit>)
    ensures
        0 <= features_passed(store, visits) <= visits.len(),
    decreases visits.len(),
{
    if visits.len() > 0 {
        lemma_features_passed_bounded(store, visits.drop_last());
    }
}

/// Over three points the distance is the leg into the second plus the leg
/// into the third: nothing is counted for reaching the first.
pub proof fn lemma_three_point_route(first: Visit, second: Visit, third: Visit)
    ensures
        distance_travelled(seq![first, second, third]) == second.leg + third.leg,
{
    let one = Seq::<Visit>::empty().push(first);
    let two = one.push(second);
    let three = two.push(third);
    assert(seq![first, second, third] =~= three);
    lemma_route_step(Seq::<FeatureView>::empty(), Seq::<Visit>::empty(), first);
    lemma_route_step(Seq::<FeatureView>::empty(), one, second);
    lemma_route_step(Seq::<FeatureView>::empty(), two, third);
}

/// The measure that comes with the first point of a route changes nothing.
pub proof fn lemma_first_leg_ignored(visits: Seq<Visit>, leg: i32)
    requires
        visits.len() > 0,
    ensures
        distance_travelled(visits.update(0, Visit { point: visits[0].point, leg }))
            == distance_travelled(visits),
    decreases visits.len(),
{
    let changed = visits.update(0, Visit { point: visits[0].point, leg });
    if visits.len() > 1 {
        lemma_first_leg_ignored(visits.drop_last(), leg);
        assert(changed.drop_last() =~= visits.drop_last().update(
            0,
            Visit { point: visits[0].point, leg },
        ));
    }
}

/// The running totals of one route, from its first point to its summary.
/// It belongs to one call and reads the store without changing it.
pub struct RouteRecorder<'a> {
    store: &'a FeatureDatabase,
    point_count: i32,
    feature_count: i32,
    distance: i32,
    previous: Option<Point>,
    visits: Ghost<Seq<Visit>>,
}

impl<'a> View for RouteRecorder<'a> {
    type V = Seq<Visit>;

    closed spec fn view(&self) -> Seq<Visit> {
        self.visits@
    }
}

impl<'a> RouteRecorder<'a> {
    /// The totals kept are those of the visits recorded.
    #[verifier::type_invariant]
    pub closed spec fn wf(&self) -> bool {
        &&& self.point_count == self.visits@.len()
        &&& self.feature_count == features_passed(self.store@, self.visits@)
        &&& self.distance == distance_travelled(self.visits@)
        &&& self.previous == last_point(self.visits@)
    }

    /// The entries of the store that the route is held against.
    pub closed spec fn store(&self) -> Seq<FeatureView> {
        self.store@
    }

    /// Starts a route with no points, held against `store`.
    pub fn new(store: &'a FeatureDatabase) -> (recorder: RouteRecorder<'a>)
        ensures
            recorder@ == Seq::<Visit>::empty(),
            recorder.store() == store@,
    {
        RouteRecorder {
            store,
            point_count: 0,
            feature_count: 0,
            distance: 0,
            previous: None,
            visits: Ghost(Seq::empty()),
        }
    }

    /// The point received last, from which the next leg is measured.
    pub fn previous(&self) -> (point: Option<Point>)
        ensures
            point == last_point(self@),
    {
        proof {
            use_type_invariant(self);
        }
        self.previous
    }

    /// Adds `point` to the route. `leg` is the distance in metres from the
    /// point received before it; with the first point of a route it counts
    /// for nothing. Where a total would leave the range of the summary's
    /// fields the point is refused and the route stays as it was.
    pub fn record(&mut self, point: Point, leg: i32) -> (recorded: Result<(), RouteError>)
        ensures
            final(self).store() == old(self).store(),
            fits_summary(old(self)@.push(Visit { point, leg })) ==> recorded is Ok && final(self)@
                == old(self)@.push(Visit { point, leg }),
            !fits_summary(old(self)@.push(Visit { point, leg })) ==> recorded == Err::<
                (),
                RouteError,
            >(RouteError::Overflow) && final(self)@ == old(self)@,
    {
        proof {
            use_type_invariant(&*self);
            lemma_route_step(self.store@, self.visits@, Visit { point, leg });
            lemma_features_passed_bounded(self.store@, self.visits@);
        }
        let passed: i32 = match self.store.lookup_exact(&point) {
            Some(_) => 1,
            None => 0,
        };
        let added: i32 = match self.previous {
            Some(_) => leg,
            None => 0,
        };
        if self.point_count == i32::MAX {
            return Err(RouteError::Overflow);
        }
        let distance: i32 = match self.distance.checked_add(added) {
            Some(total) => total,
            None => {
                return Err(RouteError::Overflow);
            },
        };
        *self = RouteRecorder {
            store: self.store,
            point_count: self.point_count + 1,
            feature_count: self.feature_count + passed,
            distance,
            previous: Some(point),
            visits: Ghost(self.visits@.push(Visit { point, leg })),
        };
        Ok(())
    }

    /// Adds `point` to the route and has `measure` give the metres from the
    /// point received before it. For the first point of a route nothing is
    /// measured. Where a total would leave the range of the summary's fields
    /// the point is refused and the route stays as it was.
    pub fn record_measured<F: Fn(Point, Point) -> i32>(
        &mut self,
        point: Point,
        measure: &F,
    ) -> (recorded: Result<(), RouteError>)
        requires
            forall|from: Point, to: Point| call_requires(*measure, (from, to)),
        ensures
            final(self).store() == old(self).store(),
            match recorded {
                Ok(_) => {
                    &&& final(self)@.len() == old(self)@.len() + 1
                    &&& final(self)@.drop_last() == old(self)@
                    &&& final(self)@.last().point == point
                    &&& is_leg_into(*measure, old(self)@, point, final(self)@.last().leg)
                    &&& fits_summary(final(self)@)
                },
                Err(error) => {
                    &&& error == RouteError::Overflow
                    &&& final(self)@ == old(self)@
                    &&& exists|leg: i32|
                        is_leg_into(*measure, old(self)@, point, leg) && !fits_summary(
                            #[trigger] old(self)@.push(Visit { point, leg }),
                        )
                },
            },
    {
        let leg: i32 = match self.previous() {
            Some(from) => measure(from, point),
            None => 0,
        };
        let recorded = self.record(point, leg);
        proof {
            let next = old(self)@.push(Visit { point, leg });
            assert(next.drop_last() =~= old(self)@);
            assert(is_leg_into(*measure, old(self)@, point, leg));
        }
        recorded
    }

    /// Closes the route after `elapsed_secs` seconds and reports its totals.
    /// The seconds are cut to the low 32 bits of their two's complement form,
    /// which leaves every duration below 2^31 seconds as it is.
    pub fn finish(&self, elapsed_secs: u64) -> (summary: RouteSummary)
        ensures
            summary.point_count == self@.len(),
            summary.feature_count == features_passed(self.store(), self@),
            summary.feature_count <= summary.point_count,
            summary.distance == distance_travelled(self@),
            summary.elapsed_time == elapsed_secs as i32,
            elapsed_secs <= i32::MAX ==> summary.elapsed_time == elapsed_secs,
    {
        proof {
            use_type_invariant(self);
            lemma_features_passed_bounded(self.store@, self.visits@);
        }
        RouteSummary {
            point_count: self.point_count,
            feature_count: self.feature_count,
            distance: self.distance,
            elapsed_time: #[verifier::truncate] (elapsed_secs as i32),
        }
    }
}

/// Summarises a whole route: every point of `points` is taken in order, the
/// way from each point to the next is measured with `measure`, and the route
/// is closed after `elapsed_secs` seconds. Nothing is measured for reaching
/// the first point. The route is refused where, after one of its points, a
/// total no longer fits the summary's fields.
pub fn summarize_route<F: Fn(Point, Point) -> i32>(
    store: &FeatureDatabase,
    points: &Vec<Point>,
    measure: &F,
    elapsed_secs: u64,
) -> (summary: Result<RouteSummary, RouteError>)
    requires
        forall|from: Point, to: Point| call_requires(*measure, (from, to)),
    ensures
        match summary {
            Ok(report) => exists|visits: Seq<Visit>|
                {
                    &&& #[trigger] is_measured_route(*measure, points@, visits)
                    &&& is_summary_of(report, store@, visits, elapsed_secs)
                    &&& fits_summary(visits)
                },
            Err(error) => error == RouteError::Overflow && exists|visits: Seq<Visit>|
                {
                    &&& 0 < visits.len() <= points@.len()
                    &&& #[trigger] is_measured_route(
                        *measure,
                        points@.take(visits.len() as int),
                        visits,
                    )
                    &&& !fits_summary(visits)
                },
        },
{
    let mut recorder = RouteRecorder::new(store);
    let mut taken: usize = 0;
    while taken < points.len()
        invariant
            taken <= points@.len(),
            recorder.store() == store@,
            is_measured_route(*measure, points@.take(taken as int), recorder@),
            fits_summary(recorder@),
            forall|from: Point, to: Point| call_requires(*measure, (from, to)),
        decreases points@.len() - taken,
    {
        let ghost before = recorder@;
        let point = points[taken];
        assert(points@.take(taken + 1) =~= points@.take(taken as int).push(point));
        match recorder.record_measured(point, measure) {
            Ok(_) => {
                proof {
                    let leg = recorder@.last().leg;
                    assert(recorder@ =~= before.push(Visit { point, leg }));
                    lemma_measured_route_step(
                        *measure,
                        points@.take(taken as int),
                        before,
                        point,
                        leg,
                    );
                }
            },
            Err(error) => {
                proof {
                    let leg = choose|leg: i32|
                        is_leg_into(*measure, before, point, leg) && !fits_summary(
                            #[trigger] before.push(Visit { point, leg }),
                        );
                    let refused = before.push(Visit { point, leg });
                    lemma_measured_route_step(
                        *measure,
                        points@.take(taken as int),
                        before,
                        point,
                        leg,
                    );
                    assert(is_measured_route(
                        *measure,
                        points@.take(refused.len() as int),
                        refused,
                    ));
                }
                return Err(error);
            },
        }
        taken += 1;
    }
    assert(points@.take(taken as int) =~= points@);
    let report = recorder.finish(elapsed_secs);
    assert(is_measured_route(*measure, points@, recorder@));
    Ok(report)
}

} // verus!
