use repo_tracker::PageAction;
use repo_tracker::RawEntry;
use repo_tracker::RawPage;
use repo_tracker::RelationKind;
use repo_tracker::RepoRef;
use repo_tracker::TrackError;
use repo_tracker::build_relation_query;
use repo_tracker::gql_request_body;
use repo_tracker::next_page_action;
use repo_tracker::page_events;
use repo_tracker::page_profiles;
use repo_tracker::parse_owner_repo;
use repo_tracker::parse_timestamp;

fn entry(
    login: Option<&str>,
    email: Option<&str>,
    twitter: Option<&str>,
    occurred_at: Option<i64>,
) -> RawEntry {
    RawEntry {
        login: login.map(|s| s.to_string()),
        email: email.map(|s| s.to_string()),
        twitter: twitter.map(|s| s.to_string()),
        occurred_at,
    }
}

#[test]
fn watcher_query_is_exact() {
    let repo = RepoRef { owner: "octo".to_string(), repo: "hello".to_string() };
    let q = build_relation_query(&repo, RelationKind::Watch, &None);
    assert_eq!(
        q,
        "query { repository(owner: \"octo\", name: \"hello\") { \
         watchers(first: 100, after: null) { edges { node { login email twitterUsername } } \
         pageInfo { endCursor hasNextPage } } } }"
    );
}

#[test]
fn fork_query_carries_the_cursor_quoted() {
    let repo = RepoRef { owner: "o".to_string(), repo: "r".to_string() };
    let q = build_relation_query(&repo, RelationKind::Fork, &Some("abc==".to_string()));
    assert!(q.contains("forks(first: 100, after: \"abc==\", orderBy: {field: CREATED_AT, direction: DESC})"));
    assert!(q.contains("createdAt"));
}

#[test]
fn star_query_orders_by_star_time() {
    let repo = RepoRef { owner: "o".to_string(), repo: "r".to_string() };
    let q = build_relation_query(&repo, RelationKind::Star, &None);
    assert!(q.contains("stargazers(first: 100, after: null, orderBy: {field: STARRED_AT, direction: DESC})"));
    assert!(q.contains("starredAt"));
}

#[test]
fn request_body_escapes_the_query() {
    assert_eq!(gql_request_body("ab\"c"), "{\"query\":\"ab\\\"c\"}");
    assert_eq!(gql_request_body("a\\b"), "{\"query\":\"a\\\\b\"}");
    assert_eq!(gql_request_body("a\nb\tc"), "{\"query\":\"a\\nb\\tc\"}");
    assert_eq!(gql_request_body("a\u{1}b"), "{\"query\":\"a\\u0001b\"}");
}

#[test]
fn page_events_skip_entries_without_a_login() {
    let page = RawPage {
        entries: vec![
            entry(Some("alice"), None, None, Some(7)),
            entry(None, Some("ghost@example.com"), None, Some(6)),
            entry(Some("bob"), None, None, None),
        ],
        end_cursor: None,
        has_next_page: false,
    };
    let evs = page_events(&page, RelationKind::Fork);
    assert_eq!(evs.len(), 2);
    assert_eq!(evs[0].login, "alice");
    assert_eq!(evs[0].occurred_at, Some(7));
    assert_eq!(evs[1].login, "bob");
    assert_eq!(evs[1].occurred_at, None);
}

#[test]
fn page_profiles_default_missing_contact_to_empty() {
    let page = RawPage {
        entries: vec![
            entry(Some("alice"), Some("a@example.com"), None, None),
            entry(None, Some("x@example.com"), Some("x"), None),
        ],
        end_cursor: None,
        has_next_page: false,
    };
    let ps = page_profiles(&page);
    assert_eq!(ps.len(), 1);
    assert_eq!(ps[0].login, "alice");
    assert_eq!(ps[0].email, "a@example.com");
    assert_eq!(ps[0].twitter, "");
}

#[test]
fn traversal_stops_on_an_empty_page() {
    let page = RawPage {
        entries: Vec::new(),
        end_cursor: Some("c".to_string()),
        has_next_page: true,
    };
    assert!(matches!(next_page_action(&page), PageAction::Done));
}

#[test]
fn traversal_stops_when_no_next_page_is_reported() {
    let page = RawPage {
        entries: vec![entry(Some("a"), None, None, None)],
        end_cursor: Some("c".to_string()),
        has_next_page: false,
    };
    assert!(matches!(next_page_action(&page), PageAction::Done));
}

#[test]
fn traversal_stops_without_a_cursor() {
    let page = RawPage {
        entries: vec![entry(Some("a"), None, None, None)],
        end_cursor: None,
        has_next_page: true,
    };
    assert!(matches!(next_page_action(&page), PageAction::Done));
}

#[test]
fn traversal_continues_with_the_end_cursor() {
    let page = RawPage {
        entries: vec![entry(Some("a"), None, None, None)],
        end_cursor: Some("next==".to_string()),
        has_next_page: true,
    };
    match next_page_action(&page) {
        PageAction::Continue(c) => assert_eq!(c, "next=="),
        PageAction::Done => panic!("expected to continue"),
    }
}

#[test]
fn owner_repo_splits_at_the_first_slash() {
    let rr = parse_owner_repo("octo/hello").unwrap();
    assert_eq!(rr.owner, "octo");
    assert_eq!(rr.repo, "hello");
    let rr2 = parse_owner_repo("a/b/c").unwrap();
    assert_eq!(rr2.owner, "a");
    assert_eq!(rr2.repo, "b/c");
}

#[test]
fn missing_or_malformed_owner_repo_is_invalid_input() {
    assert_eq!(parse_owner_repo("").unwrap_err(), TrackError::InvalidInput);
    assert_eq!(parse_owner_repo("noslash").unwrap_err(), TrackError::InvalidInput);
    assert_eq!(parse_owner_repo("/repo").unwrap_err(), TrackError::InvalidInput);
    assert_eq!(parse_owner_repo("owner/").unwrap_err(), TrackError::InvalidInput);
}

#[test]
fn replies_carry_the_documented_statuses() {
    let invalid = repo_tracker::invalid_input_reply();
    assert_eq!(invalid.status, 400);
    assert_eq!(invalid.body, "You must provide an owner/repo name.");
    let failure = repo_tracker::failure_reply();
    assert_eq!(failure.status, 400);
    assert_eq!(
        failure.body,
        "You've entered invalid owner/repo, or the target is private. Please try again."
    );
    let ok = repo_tracker::success_reply("report body".to_string());
    assert_eq!(ok.status, 200);
    assert_eq!(ok.body, "report body");
}

#[test]
fn timestamps_parse_to_epoch_seconds() {
    assert_eq!(parse_timestamp("1970-01-01T00:00:00Z"), Some(0));
    assert_eq!(parse_timestamp("2021-03-01T00:00:00Z"), Some(1614556800));
    assert_eq!(parse_timestamp("2020-02-29T23:59:59Z"), Some(1583020799));
    assert_eq!(parse_timestamp("2014-12-24T17:30:22Z"), Some(1419442222));
}

#[test]
fn malformed_timestamps_parse_to_nothing() {
    assert_eq!(parse_timestamp(""), None);
    assert_eq!(parse_timestamp("2021-03-01"), None);
    assert_eq!(parse_timestamp("2021-13-01T00:00:00Z"), None);
    assert_eq!(parse_timestamp("2021-03-01 00:00:00Z"), None);
    assert_eq!(parse_timestamp("1969-12-31T23:59:59Z"), None);
    assert_eq!(parse_timestamp("2021-03-01T00:00:0xZ"), None);
}
