use mimo_desktop_bridge::json::Json;
use mimo_desktop_bridge::state::{BoundAddr, BridgeState, LogHub};
use mimo_desktop_bridge::storage::Storage;

#[test]
fn log_shows_the_newest_first() {
    let mut log = LogHub::new(3);
    for i in 0..5 {
        log.push(Json::unsigned(i));
    }
    let rows: Vec<u64> = log.snapshot().iter().filter_map(|r| r.as_u64()).collect();
    assert_eq!(rows, vec![4, 3, 2]);
}

#[test]
fn log_is_bounded_in_bytes() {
    let mut log = LogHub::new(100);
    let big = "x".repeat(3 * 1024 * 1024);
    log.push(Json::text("small"));
    log.push(Json::text(&big));
    log.push(Json::text(&big));
    assert_eq!(log.snapshot().len(), 3);
    log.push(Json::text(&big));
    assert_eq!(log.snapshot().len(), 2);
    let huge = "y".repeat(9 * 1024 * 1024);
    log.push(Json::text(&huge));
    assert_eq!(log.snapshot().len(), 1);
    log.push(Json::text("after"));
    let rows = log.snapshot();
    assert_eq!(rows.len(), 1);
    assert_eq!(rows[0].as_str(), Some("after"));
}

#[test]
fn log_without_room_keeps_one_row() {
    let mut log = LogHub::new(0);
    log.push(Json::unsigned(1));
    log.push(Json::unsigned(2));
    assert_eq!(log.snapshot().len(), 1);
    assert_eq!(log.snapshot()[0].as_u64(), Some(2));
}

#[test]
fn state_starts_empty() {
    let mut state = BridgeState::new(Storage::load_all(None, None, None), None);
    assert!(state.bound_addr().is_none());
    assert!(state.two_factor.is_none());
    assert!(state.admin_sessions.is_empty());
    state.set_bound_addr(BoundAddr { text: "127.0.0.1:1".to_string(), loopback: true });
    assert_eq!(state.bound_addr().unwrap().text, "127.0.0.1:1");
    state.clear_bound_addr();
    assert!(state.bound_addr().is_none());
    for i in 0..201 {
        state.emit_log(Json::unsigned(i));
    }
    assert_eq!(state.logs.snapshot().len(), 200);
}
