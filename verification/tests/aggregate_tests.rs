use repo_tracker::ProfileRecord;
use repo_tracker::RelationEvent;
use repo_tracker::RelationKind;
use repo_tracker::aggregate;
use repo_tracker::filter_window;
use repo_tracker::logins_to_fetch;

fn ev(kind: RelationKind, login: &str, occurred_at: Option<i64>) -> RelationEvent {
    RelationEvent { kind, login: login.to_string(), occurred_at }
}

fn profile(login: &str, email: &str, twitter: &str) -> ProfileRecord {
    ProfileRecord {
        login: login.to_string(),
        email: email.to_string(),
        twitter: twitter.to_string(),
    }
}

#[test]
fn one_record_per_distinct_login() {
    let forks = vec![
        ev(RelationKind::Fork, "alice", Some(3)),
        ev(RelationKind::Fork, "alice", Some(2)),
    ];
    let stars = vec![ev(RelationKind::Star, "alice", Some(1))];
    let watches = vec![ev(RelationKind::Watch, "bob", None)];
    let records = aggregate(&forks, &stars, &watches, &Vec::new());
    assert_eq!(records.len(), 2);
    assert_eq!(records[0].login, "alice");
    assert!(records[0].forked && records[0].starred && !records[0].watching);
    assert_eq!(records[1].login, "bob");
    assert!(!records[1].forked && !records[1].starred && records[1].watching);
}

#[test]
fn watching_is_reported_for_a_forker_who_also_watches() {
    let forks = vec![ev(RelationKind::Fork, "alice", Some(3))];
    let watches = vec![ev(RelationKind::Watch, "alice", None)];
    let records = aggregate(&forks, &Vec::new(), &watches, &Vec::new());
    assert_eq!(records.len(), 1);
    assert!(records[0].forked && records[0].watching);
}

#[test]
fn watching_is_reported_for_a_stargazer_who_also_watches() {
    let stars = vec![ev(RelationKind::Star, "alice", Some(3))];
    let watches = vec![ev(RelationKind::Watch, "alice", None)];
    let records = aggregate(&Vec::new(), &stars, &watches, &Vec::new());
    assert_eq!(records.len(), 1);
    assert!(records[0].starred && records[0].watching && !records[0].forked);
}

#[test]
fn contact_fields_come_from_the_first_matching_profile() {
    let forks = vec![ev(RelationKind::Fork, "alice", Some(3))];
    let profiles = vec![
        profile("alice", "first@example.com", "first_handle"),
        profile("alice", "second@example.com", "second_handle"),
    ];
    let records = aggregate(&forks, &Vec::new(), &Vec::new(), &profiles);
    assert_eq!(records[0].email, "first@example.com");
    assert_eq!(records[0].twitter, "first_handle");
}

#[test]
fn failed_profile_lookup_keeps_the_record_with_empty_contact() {
    let forks = vec![ev(RelationKind::Fork, "carol", Some(3))];
    let stars = vec![ev(RelationKind::Star, "carol", Some(2))];
    let records = aggregate(&forks, &stars, &Vec::new(), &Vec::new());
    assert_eq!(records.len(), 1);
    assert!(records[0].forked);
    assert!(records[0].starred);
    assert_eq!(records[0].email, "");
    assert_eq!(records[0].twitter, "");
}

#[test]
fn window_filtered_scenario_keeps_only_alice() {
    let forks_raw = vec![
        ev(RelationKind::Fork, "alice", Some(100)),
        ev(RelationKind::Fork, "bob", Some(10)),
    ];
    let (forks, _, _) = filter_window(&forks_raw, 50, 10);
    let stars_raw = vec![ev(RelationKind::Star, "alice", Some(80))];
    let (stars, _, _) = filter_window(&stars_raw, 50, 10);
    let watches = vec![ev(RelationKind::Watch, "alice", None)];
    let records = aggregate(&forks, &stars, &watches, &Vec::new());
    assert_eq!(records.len(), 1);
    assert_eq!(records[0].login, "alice");
    assert!(records[0].forked && records[0].starred && records[0].watching);
}

#[test]
fn empty_relations_give_an_empty_aggregate() {
    let records = aggregate(&Vec::new(), &Vec::new(), &Vec::new(), &Vec::new());
    assert!(records.is_empty());
}

#[test]
fn fetch_plan_lists_each_login_once_in_first_seen_order() {
    let forks = vec![
        ev(RelationKind::Fork, "alice", Some(3)),
        ev(RelationKind::Fork, "bob", Some(2)),
        ev(RelationKind::Fork, "alice", Some(1)),
    ];
    let stars = vec![ev(RelationKind::Star, "carol", Some(5))];
    let watches = vec![ev(RelationKind::Watch, "bob", None)];
    let plan = logins_to_fetch(&forks, &stars, &watches);
    assert_eq!(plan, vec!["alice".to_string(), "bob".to_string(), "carol".to_string()]);
}

#[test]
fn profile_fetcher_is_invoked_at_most_once_per_login() {
    let forks = vec![
        ev(RelationKind::Fork, "alice", Some(3)),
        ev(RelationKind::Fork, "alice", Some(2)),
        ev(RelationKind::Fork, "bob", Some(1)),
    ];
    let stars = vec![ev(RelationKind::Star, "alice", Some(9))];
    let watches = vec![ev(RelationKind::Watch, "bob", None)];
    let plan = logins_to_fetch(&forks, &stars, &watches);
    let mut call_counts: Vec<(String, u32)> = Vec::new();
    for login in &plan {
        let mut seen = false;
        for entry in call_counts.iter_mut() {
            if entry.0 == *login {
                entry.1 += 1;
                seen = true;
            }
        }
        if !seen {
            call_counts.push((login.clone(), 1));
        }
    }
    assert_eq!(call_counts.len(), 2);
    for entry in &call_counts {
        assert_eq!(entry.1, 1);
    }
}
