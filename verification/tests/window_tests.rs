use repo_tracker::EarlyStopTracker;
use repo_tracker::RelationEvent;
use repo_tracker::RelationKind;
use repo_tracker::filter_window;
use repo_tracker::in_window;

fn ev(kind: RelationKind, login: &str, occurred_at: Option<i64>) -> RelationEvent {
    RelationEvent { kind, login: login.to_string(), occurred_at }
}

#[test]
fn in_window_is_inclusive_at_the_boundary() {
    assert!(in_window(5, 5));
    assert!(in_window(6, 5));
    assert!(!in_window(4, 5));
    assert!(in_window(-3, -10));
    assert!(!in_window(-11, -10));
}

#[test]
fn tracker_stops_after_threshold_consecutive_misses() {
    let mut t = EarlyStopTracker::new(3);
    assert!(!t.should_stop());
    let miss = ev(RelationKind::Fork, "a", Some(0));
    t.observe(&miss, 10);
    t.observe(&miss, 10);
    assert!(!t.should_stop());
    t.observe(&miss, 10);
    assert!(t.should_stop());
}

#[test]
fn tracker_resets_on_a_hit() {
    let mut t = EarlyStopTracker::new(2);
    let miss = ev(RelationKind::Star, "a", Some(0));
    let hit = ev(RelationKind::Star, "a", Some(99));
    t.observe(&miss, 10);
    t.observe(&hit, 10);
    t.observe(&miss, 10);
    assert!(!t.should_stop());
    t.observe(&miss, 10);
    assert!(t.should_stop());
}

#[test]
fn tracker_ignores_events_without_a_timestamp() {
    let mut t = EarlyStopTracker::new(1);
    let blank = ev(RelationKind::Watch, "a", None);
    t.observe(&blank, 10);
    t.observe(&blank, 10);
    assert!(!t.should_stop());
}

#[test]
fn filter_keeps_exactly_the_in_window_events() {
    let events = vec![
        ev(RelationKind::Fork, "a", Some(100)),
        ev(RelationKind::Fork, "b", Some(40)),
        ev(RelationKind::Fork, "c", Some(70)),
    ];
    let (kept, consumed, stopped) = filter_window(&events, 50, 10);
    assert_eq!(consumed, 3);
    assert!(!stopped);
    let logins: Vec<&str> = kept.iter().map(|e| e.login.as_str()).collect();
    assert_eq!(logins, vec!["a", "c"]);
}

#[test]
fn early_stop_halts_within_threshold_past_the_boundary() {
    let stamps = [100, 90, 80, 70, 60, 50, 40, 30, 20, 10];
    let events: Vec<RelationEvent> =
        stamps.iter().map(|t| ev(RelationKind::Fork, "x", Some(*t))).collect();
    let (kept, consumed, stopped) = filter_window(&events, 65, 3);
    assert_eq!(kept.len(), 4);
    assert_eq!(consumed, 7);
    assert!(stopped);
}

#[test]
fn events_without_timestamps_do_not_trigger_the_early_stop() {
    let events = vec![
        ev(RelationKind::Watch, "a", None),
        ev(RelationKind::Watch, "b", None),
        ev(RelationKind::Watch, "c", None),
        ev(RelationKind::Fork, "d", Some(90)),
    ];
    let (kept, consumed, stopped) = filter_window(&events, 50, 2);
    assert_eq!(consumed, 4);
    assert!(!stopped);
    assert_eq!(kept.len(), 1);
    assert_eq!(kept[0].login, "d");
}

#[test]
fn threshold_zero_consumes_nothing() {
    let events = vec![ev(RelationKind::Fork, "a", Some(100))];
    let (kept, consumed, stopped) = filter_window(&events, 50, 0);
    assert_eq!(consumed, 0);
    assert!(stopped);
    assert!(kept.is_empty());
}
