use route_guide::feature::{Feature, FeatureDatabase};
use route_guide::geo::Point;
use route_guide::route::{summarize_route, RouteError, RouteRecorder, RouteSummary};

fn point(latitude: i32, longitude: i32) -> Point {
    Point { latitude, longitude }
}

fn store() -> FeatureDatabase {
    FeatureDatabase::load(vec![
        Feature::new("a".to_string(), point(407838351, -746143763)),
        Feature::new("b".to_string(), point(408122808, -743999179)),
        Feature::new("b again".to_string(), point(408122808, -743999179)),
        Feature::new("".to_string(), point(413628156, -749015468)),
    ])
    .unwrap()
}

// Great-circle distance in metres, cut towards zero, as a front end measures
// the legs that it hands to the recorder.
fn haversine(start: &Point, end: &Point) -> i32 {
    let lat1 = (start.latitude as f64 / 1e7).to_radians();
    let lat2 = (end.latitude as f64 / 1e7).to_radians();
    let lon1 = (start.longitude as f64 / 1e7).to_radians();
    let lon2 = (end.longitude as f64 / 1e7).to_radians();
    let delta_lat = lat2 - lat1;
    let delta_lon = lon2 - lon1;
    let a = (delta_lat / 2f64).sin() * (delta_lat / 2f64).sin()
        + lat1.cos() * lat2.cos() * (delta_lon / 2f64).sin() * (delta_lon / 2f64).sin();
    let c = 2f64 * a.sqrt().atan2((1f64 - a).sqrt());
    (6371000 as f64 * c) as i32
}

#[test]
fn empty_route_has_zero_totals() {
    let db = store();
    let recorder = RouteRecorder::new(&db);
    assert_eq!(recorder.previous(), None);
    let summary = recorder.finish(0);
    assert_eq!(
        summary,
        RouteSummary { point_count: 0, feature_count: 0, distance: 0, elapsed_time: 0 }
    );
}

#[test]
fn first_leg_counts_for_nothing() {
    let db = store();
    let mut recorder = RouteRecorder::new(&db);
    assert_eq!(recorder.record(point(1, 1), 123456), Ok(()));
    let summary = recorder.finish(3);
    assert_eq!(
        summary,
        RouteSummary { point_count: 1, feature_count: 0, distance: 0, elapsed_time: 3 }
    );
}

#[test]
fn three_points_sum_two_legs() {
    let db = store();
    let a = point(407838351, -746143763);
    let b = point(408122808, -743999179);
    let c = point(413628156, -749015468);
    let mut recorder = RouteRecorder::new(&db);
    let mut previous: Option<Point> = None;
    for p in [a, b, c].iter() {
        let leg = match previous {
            Some(from) => haversine(&from, p),
            None => haversine(p, p),
        };
        assert_eq!(recorder.previous(), previous);
        assert_eq!(recorder.record(*p, leg), Ok(()));
        previous = Some(*p);
    }
    let summary = recorder.finish(1);
    assert_eq!(summary.point_count, 3);
    assert_eq!(summary.feature_count, 3);
    assert_eq!(summary.distance, haversine(&a, &b) + haversine(&b, &c));
    assert!(summary.distance > 0);
}

#[test]
fn legs_are_summed_exactly() {
    let db = store();
    let mut recorder = RouteRecorder::new(&db);
    assert_eq!(recorder.record(point(0, 0), 999), Ok(()));
    assert_eq!(recorder.record(point(0, 1), 10), Ok(()));
    assert_eq!(recorder.record(point(0, 2), 25), Ok(()));
    assert_eq!(recorder.record(point(0, 2), 0), Ok(()));
    let summary = recorder.finish(0);
    assert_eq!(summary.point_count, 4);
    assert_eq!(summary.feature_count, 0);
    assert_eq!(summary.distance, 35);
}

#[test]
fn a_point_counts_once_however_many_entries_are_there() {
    let place = point(1, 2);
    let db = FeatureDatabase::load(vec![
        Feature::new("A".to_string(), place),
        Feature::new("B".to_string(), place),
    ])
    .unwrap();
    let mut recorder = RouteRecorder::new(&db);
    assert_eq!(recorder.record(place, 0), Ok(()));
    let summary = recorder.finish(0);
    assert_eq!(
        summary,
        RouteSummary { point_count: 1, feature_count: 1, distance: 0, elapsed_time: 0 }
    );
}

#[test]
fn every_point_is_held_against_the_whole_store() {
    let db = store();
    let b = point(408122808, -743999179);
    let mut recorder = RouteRecorder::new(&db);
    assert_eq!(recorder.record(b, 0), Ok(()));
    assert_eq!(recorder.record(b, 0), Ok(()));
    assert_eq!(recorder.record(point(407838351, -746143763), 5), Ok(()));
    assert_eq!(recorder.record(point(5, 5), 5), Ok(()));
    let summary = recorder.finish(0);
    assert_eq!(summary.point_count, 4);
    assert_eq!(summary.feature_count, 3);
    assert_eq!(summary.distance, 10);
}

#[test]
fn previous_is_the_last_point_received() {
    let db = store();
    let mut recorder = RouteRecorder::new(&db);
    assert_eq!(recorder.previous(), None);
    recorder.record(point(1, 2), 0).unwrap();
    assert_eq!(recorder.previous(), Some(point(1, 2)));
    recorder.record(point(3, 4), 7).unwrap();
    assert_eq!(recorder.previous(), Some(point(3, 4)));
}

#[test]
fn distance_overflow_is_refused_and_changes_nothing() {
    let db = store();
    let mut recorder = RouteRecorder::new(&db);
    assert_eq!(recorder.record(point(0, 0), i32::MAX), Ok(()));
    assert_eq!(recorder.record(point(0, 1), i32::MAX), Ok(()));
    assert_eq!(recorder.record(point(0, 2), 1), Err(RouteError::Overflow));
    assert_eq!(recorder.previous(), Some(point(0, 1)));
    let summary = recorder.finish(0);
    assert_eq!(summary.point_count, 2);
    assert_eq!(summary.distance, i32::MAX);
    assert_eq!(recorder.record(point(0, 3), 0), Ok(()));
    assert_eq!(recorder.finish(0).point_count, 3);
}

#[test]
fn distance_underflow_is_refused() {
    let db = store();
    let mut recorder = RouteRecorder::new(&db);
    assert_eq!(recorder.record(point(0, 0), 0), Ok(()));
    assert_eq!(recorder.record(point(0, 1), i32::MIN), Ok(()));
    assert_eq!(recorder.record(point(0, 2), -1), Err(RouteError::Overflow));
    assert_eq!(recorder.finish(0).distance, i32::MIN);
}

#[test]
fn elapsed_seconds_are_cut_to_32_bits() {
    let db = store();
    let recorder = RouteRecorder::new(&db);
    assert_eq!(recorder.finish(5).elapsed_time, 5);
    assert_eq!(recorder.finish(i32::MAX as u64).elapsed_time, i32::MAX);
    assert_eq!(recorder.finish(1u64 << 31).elapsed_time, i32::MIN);
    assert_eq!(recorder.finish((1u64 << 32) + 7).elapsed_time, 7);
    assert_eq!(recorder.finish(u64::MAX).elapsed_time, -1);
}

fn measured(from: Point, to: Point) -> i32 {
    haversine(&from, &to)
}

#[test]
fn haversine_gives_known_distances() {
    assert_eq!(haversine(&point(0, 0), &point(0, 10000000)), 111194);
    assert_eq!(haversine(&point(0, 0), &point(10000000, 0)), 111194);
    assert_eq!(haversine(&point(0, 0), &point(0, 1800000000)), 20015086);
}

#[test]
fn measured_route_over_three_points_sums_two_distances() {
    let db = store();
    let a = point(407838351, -746143763);
    let b = point(408122808, -743999179);
    let c = point(413628156, -749015468);
    let mut recorder = RouteRecorder::new(&db);
    for p in [a, b, c].iter() {
        assert_eq!(recorder.record_measured(*p, &measured), Ok(()));
    }
    let summary = recorder.finish(2);
    assert_eq!(
        summary,
        RouteSummary {
            point_count: 3,
            feature_count: 3,
            distance: haversine(&a, &b) + haversine(&b, &c),
            elapsed_time: 2,
        }
    );
}

#[test]
fn nothing_is_measured_for_the_first_point() {
    let db = store();
    let mut recorder = RouteRecorder::new(&db);
    let never = |_: Point, _: Point| -> i32 { panic!("measured a leg into the first point") };
    assert_eq!(recorder.record_measured(point(1, 1), &never), Ok(()));
    assert_eq!(recorder.finish(0).distance, 0);
}

#[test]
fn each_leg_is_measured_from_the_point_before() {
    let db = store();
    let mut recorder = RouteRecorder::new(&db);
    let by_latitude = |from: Point, to: Point| to.latitude * 10 - from.latitude;
    for p in [point(1, 0), point(2, 0), point(5, 0)].iter() {
        assert_eq!(recorder.record_measured(*p, &by_latitude), Ok(()));
    }
    assert_eq!(recorder.finish(0).distance, (20 - 1) + (50 - 2));
}

#[test]
fn measured_overflow_is_refused_and_changes_nothing() {
    let db = store();
    let mut recorder = RouteRecorder::new(&db);
    let far = |_: Point, _: Point| i32::MAX;
    assert_eq!(recorder.record_measured(point(0, 0), &far), Ok(()));
    assert_eq!(recorder.record_measured(point(0, 1), &far), Ok(()));
    assert_eq!(recorder.record_measured(point(0, 2), &far), Err(RouteError::Overflow));
    assert_eq!(recorder.previous(), Some(point(0, 1)));
    assert_eq!(recorder.finish(0).point_count, 2);
    assert_eq!(recorder.finish(0).distance, i32::MAX);
}

#[test]
fn summary_of_no_points_is_all_zero() {
    let db = store();
    let summary = summarize_route(&db, &Vec::new(), &measured, 0);
    assert_eq!(
        summary,
        Ok(RouteSummary { point_count: 0, feature_count: 0, distance: 0, elapsed_time: 0 })
    );
}

#[test]
fn summary_of_three_points_sums_two_distances() {
    let db = store();
    let a = point(407838351, -746143763);
    let b = point(408122808, -743999179);
    let c = point(0, 0);
    let summary = summarize_route(&db, &vec![a, b, c], &measured, 9).unwrap();
    assert_eq!(summary.point_count, 3);
    assert_eq!(summary.feature_count, 2);
    assert_eq!(summary.distance, haversine(&a, &b) + haversine(&b, &c));
    assert_eq!(summary.elapsed_time, 9);
}

#[test]
fn summary_of_a_route_back_and_forth_counts_both_ways() {
    let db = store();
    let a = point(0, 0);
    let b = point(0, 10000000);
    let summary = summarize_route(&db, &vec![a, b, a, b], &measured, 0).unwrap();
    assert_eq!(summary.distance, 3 * 111194);
    assert_eq!(summary.point_count, 4);
    assert_eq!(summary.feature_count, 0);
}

#[test]
fn summary_is_refused_where_a_total_overflows() {
    let db = store();
    let far = |_: Point, _: Point| i32::MAX;
    let points = vec![point(0, 0), point(0, 1), point(0, 2)];
    assert_eq!(summarize_route(&db, &points, &far, 0), Err(RouteError::Overflow));
    assert!(summarize_route(&db, &points[..2].to_vec(), &far, 0).is_ok());
}
