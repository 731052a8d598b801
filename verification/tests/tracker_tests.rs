use route_tracker::tracker::{PositionSample, RouteTracker};
use route_tracker::transformer::WorldPositionTransformer;

fn sample(x: i64, y: i64, z: i64, map_id: u32) -> Option<PositionSample> {
    Some(PositionSample { x, y, z, map_id })
}

fn tracker_with_interval(interval_ms: u64) -> RouteTracker {
    RouteTracker::new(interval_ms, WorldPositionTransformer::empty(), 0)
}

#[test]
fn idle_tracker_ignores_ticks() {
    let mut t = tracker_with_interval(500);
    t.record_position(1000, sample(1, 2, 3, 7), false);
    assert_eq!(t.route.len(), 0);
    assert!(!t.is_recording);
}

#[test]
fn interval_gating_spaces_accepted_samples() {
    let mut t = tracker_with_interval(500);
    t.start_recording(1000);
    t.record_position(1000, sample(1, 2, 3, 7), false);
    t.record_position(1200, sample(4, 5, 6, 7), false);
    t.record_position(1499, sample(4, 5, 6, 7), false);
    t.record_position(1500, sample(4, 5, 6, 7), true);
    t.record_position(1700, sample(8, 8, 8, 7), false);
    assert_eq!(t.route.len(), 2);
    assert_eq!(t.route[0].timestamp_ms, 0);
    assert_eq!(t.route[1].timestamp_ms, 500);
    assert!(t.route[1].timestamp_ms - t.route[0].timestamp_ms >= 500);
    assert!(!t.route[0].on_torrent);
    assert!(t.route[1].on_torrent);
}

#[test]
fn start_clears_prior_points() {
    let mut t = tracker_with_interval(100);
    t.start_recording(1000);
    t.record_position(2000, sample(1, 2, 3, 7), false);
    assert_eq!(t.route.len(), 1);
    t.start_recording(3000);
    assert_eq!(t.route.len(), 0);
    assert!(t.is_recording);
    // Also from the Idle state with retained points.
    t.record_position(4000, sample(1, 2, 3, 7), false);
    t.stop_recording();
    assert_eq!(t.route.len(), 1);
    t.start_recording(5000);
    assert_eq!(t.route.len(), 0);
}

#[test]
fn stop_retains_points_and_blocks_ticks() {
    let mut t = tracker_with_interval(100);
    t.start_recording(1000);
    t.record_position(2000, sample(1, 2, 3, 7), false);
    t.stop_recording();
    assert_eq!(t.route.len(), 1);
    t.record_position(3000, sample(9, 9, 9, 7), false);
    t.record_position(4000, sample(9, 9, 9, 7), false);
    assert_eq!(t.route.len(), 1);
}

#[test]
fn unavailable_sample_skips_the_tick_entirely() {
    let mut t = tracker_with_interval(100);
    t.start_recording(1000);
    t.record_position(2000, None, true);
    assert_eq!(t.route.len(), 0);
    // The interval timer did not advance: the next resolved tick appends.
    t.record_position(2001, sample(1, 2, 3, 7), false);
    assert_eq!(t.route.len(), 1);
}

#[test]
fn empty_transformer_falls_back_to_local_coordinates() {
    let mut t = tracker_with_interval(100);
    t.start_recording(1000);
    t.record_position(2000, sample(1500, -250, 321, 0x3C2A2400), false);
    let p = &t.route[0];
    assert_eq!((p.global_x, p.global_y, p.global_z), (p.x, p.y, p.z));
    assert_eq!((p.x, p.y, p.z), (1500, -250, 321));
    assert_eq!(p.map_id, 0x3C2A2400);
    assert_eq!(p.map_id_str, "m60_42_36_00");
}

#[test]
fn conversion_is_applied_when_the_table_knows_the_tile() {
    let table = WorldPositionTransformer::from_csv(b"7,99,2,-3\n").unwrap();
    let mut t = RouteTracker::new(100, table, 0);
    t.start_recording(1000);
    t.record_position(2000, sample(1000, 500, 1000, 7), false);
    let p = &t.route[0];
    assert_eq!((p.global_x, p.global_y, p.global_z), (3000, 500, -2000));
    assert_eq!((p.x, p.y, p.z), (1000, 500, 1000));
}

#[test]
fn status_message_expires_after_the_window() {
    let mut t = tracker_with_interval(100);
    assert_eq!(t.get_status(0), None);
    t.set_status(String::from("Route saved!"), 1000);
    assert_eq!(t.get_status(1000).as_deref(), Some("Route saved!"));
    assert_eq!(t.get_status(3999).as_deref(), Some("Route saved!"));
    assert_eq!(t.get_status(4000), None);
    assert_eq!(t.get_status(9000), None);
}

#[test]
fn current_position_reports_local_and_global() {
    let table = WorldPositionTransformer::from_csv(b"7,99,2,-3\n").unwrap();
    let t = RouteTracker::new(100, table, 0);
    assert_eq!(t.get_current_position(None), None);
    let g = t.get_current_position(sample(1000, 500, 1000, 7)).unwrap();
    assert_eq!(g, (1000, 500, 1000, 3000, 500, -2000, 7));
    let fallback = t.get_current_position(sample(1000, 500, 1000, 8)).unwrap();
    assert_eq!(fallback, (1000, 500, 1000, 1000, 500, 1000, 8));
}
