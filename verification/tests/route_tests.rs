use route_tracker::route::{
    build_saved_route, format_timestamp, generate_timestamp, render_route_json, route_filename,
    save_route_document, EmptyRouteError, RoutePoint, SavedRoute,
};
use route_tracker::tracker::{PositionSample, RouteTracker};
use route_tracker::transformer::WorldPositionTransformer;

fn point(x: i64, timestamp_ms: u64) -> RoutePoint {
    RoutePoint {
        x,
        y: 250,
        z: -1500,
        global_x: x + 2000,
        global_y: 250,
        global_z: -4500,
        map_id: 0x3C2A2400,
        map_id_str: String::from("m60_42_36_00"),
        timestamp_ms,
        on_torrent: timestamp_ms > 0,
    }
}

#[test]
fn save_on_empty_trajectory_is_rejected_before_any_output() {
    let route: Vec<RoutePoint> = Vec::new();
    assert_eq!(
        save_route_document(&route, 500, "2024-01-02 03:04:05").unwrap_err(),
        EmptyRouteError
    );
    assert!(build_saved_route(&route, 500, "x").is_err());
    let t = RouteTracker::new(500, WorldPositionTransformer::empty(), 0);
    assert!(t.save_route("2024-01-02 03:04:05").is_err());
}

#[test]
fn save_round_trips_through_the_document() {
    let route = vec![point(1500, 0), point(3250, 500)];
    let doc = save_route_document(&route, 500, "2024-01-02 03:04:05").unwrap();
    assert_eq!(doc.filename, "route_2024-01-02_03-04-05.json");
    let v: serde_json::Value = serde_json::from_str(&doc.json).unwrap();
    assert_eq!(v["name"].as_str().unwrap(), "Route 2024-01-02 03:04:05");
    assert_eq!(v["recorded_at"].as_str().unwrap(), "2024-01-02 03:04:05");
    assert_eq!(v["duration_secs"].as_f64().unwrap(), 0.5);
    assert_eq!(v["interval_ms"].as_u64().unwrap(), 500);
    assert_eq!(v["point_count"].as_u64().unwrap(), 2);
    let pts = v["points"].as_array().unwrap();
    assert_eq!(pts.len(), 2);
    assert_eq!(pts[0]["x"].as_f64().unwrap(), 1.5);
    assert_eq!(pts[0]["y"].as_f64().unwrap(), 0.25);
    assert_eq!(pts[0]["z"].as_f64().unwrap(), -1.5);
    assert_eq!(pts[0]["global_x"].as_f64().unwrap(), 3.5);
    assert_eq!(pts[0]["global_z"].as_f64().unwrap(), -4.5);
    assert_eq!(pts[0]["map_id"].as_u64().unwrap(), 0x3C2A2400);
    assert_eq!(pts[0]["map_id_str"].as_str().unwrap(), "m60_42_36_00");
    assert_eq!(pts[0]["timestamp_ms"].as_u64().unwrap(), 0);
    assert_eq!(pts[0]["on_torrent"].as_bool().unwrap(), false);
    assert_eq!(pts[1]["x"].as_f64().unwrap(), 3.25);
    assert_eq!(pts[1]["timestamp_ms"].as_u64().unwrap(), 500);
    assert_eq!(pts[1]["on_torrent"].as_bool().unwrap(), true);
}

#[test]
fn recorded_session_saves_with_derived_duration() {
    let mut t = RouteTracker::new(500, WorldPositionTransformer::empty(), 0);
    t.start_recording(1000);
    t.record_position(1000, Some(PositionSample { x: 0, y: 0, z: 0, map_id: 1 }), false);
    t.record_position(1500, Some(PositionSample { x: 1000, y: 0, z: 0, map_id: 1 }), false);
    let doc = t.save_route("1970-01-01 00:00:00").unwrap();
    let v: serde_json::Value = serde_json::from_str(&doc.json).unwrap();
    assert_eq!(v["duration_secs"].as_f64().unwrap(), 0.5);
    assert_eq!(v["point_count"].as_u64().unwrap(), 2);
    // A failed or successful save never touches the trajectory.
    assert_eq!(t.route.len(), 2);
}

#[test]
fn single_point_at_zero_elapsed_has_zero_duration() {
    let route = vec![point(100, 0)];
    let doc = save_route_document(&route, 500, "1970-01-01 00:00:00").unwrap();
    let v: serde_json::Value = serde_json::from_str(&doc.json).unwrap();
    assert_eq!(v["duration_secs"].as_f64().unwrap(), 0.0);
    assert_eq!(v["point_count"].as_u64().unwrap(), 1);
}

#[test]
fn build_saved_route_aggregates_metadata() {
    let route = vec![point(0, 0), point(1, 200), point(2, 401)];
    let sr = build_saved_route(&route, 200, "2024-06-01 10:20:30").unwrap();
    assert_eq!(sr.name, "Route 2024-06-01 10:20:30");
    assert_eq!(sr.recorded_at, "2024-06-01 10:20:30");
    assert_eq!(sr.duration_ms, 401);
    assert_eq!(sr.interval_ms, 200);
    assert_eq!(sr.point_count, 3);
    assert_eq!(sr.points.len(), 3);
    assert_eq!(sr.points[2].x, 2);
}

#[test]
fn timestamp_formatting_is_fixed_width() {
    assert_eq!(format_timestamp(0), "1970-01-01 00:00:00");
    // 1 day, 1 hour, 1 minute, 1 second into the epoch.
    assert_eq!(format_timestamp(86400 + 3661), "1970-01-02 01:01:01");
    // 370 days: one approximate year (365 days) plus 5 remaining days.
    assert_eq!(format_timestamp(370 * 86400), "1971-01-06 00:00:00");
    let now = generate_timestamp();
    assert_eq!(now.len(), 19);
}

#[test]
fn filename_substitutes_unsafe_characters() {
    assert_eq!(
        route_filename("2024-01-02 03:04:05"),
        "route_2024-01-02_03-04-05.json"
    );
}

#[test]
fn string_fields_are_escaped_in_the_document() {
    let sr = SavedRoute {
        name: String::from("a\"b\\c\nd\t\u{00b5}"),
        recorded_at: String::from("now"),
        duration_ms: 1234,
        interval_ms: 10,
        point_count: 0,
        points: Vec::new(),
    };
    let json = render_route_json(&sr);
    let v: serde_json::Value = serde_json::from_str(&json).unwrap();
    assert_eq!(v["name"].as_str().unwrap(), "a\"b\\c\nd\t\u{00b5}");
    assert_eq!(v["duration_secs"].as_f64().unwrap(), 1.234);
    assert_eq!(v["points"].as_array().unwrap().len(), 0);
}
