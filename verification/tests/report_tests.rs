use repo_tracker::AggregateRecord;
use repo_tracker::RelationEvent;
use repo_tracker::RelationKind;
use repo_tracker::TrackError;
use repo_tracker::parse_csv;
use repo_tracker::render_csv;
use repo_tracker::render_markdown;
use repo_tracker::report_as_md;

fn record(
    login: &str,
    forked: bool,
    starred: bool,
    watching: bool,
    email: &str,
    twitter: &str,
) -> AggregateRecord {
    AggregateRecord {
        login: login.to_string(),
        forked,
        starred,
        watching,
        email: email.to_string(),
        twitter: twitter.to_string(),
    }
}

const HEADER: &str = "\"Name\",\"Forked\",\"Starred\",\"Watching\",\"Email\",\"Twitter\"\n";

#[test]
fn csv_of_one_record_is_exact() {
    let records = vec![record("alice", true, false, true, "a@example.com", "")];
    let out = render_csv(&records);
    let expected =
        format!("{}{}", HEADER, "\"alice\",\"Y\",\"\",\"Y\",\"a@example.com\",\"\"\n");
    assert_eq!(out, expected);
}

#[test]
fn csv_round_trip_recovers_plain_records() {
    let records = vec![
        record("alice", true, false, true, "a@example.com", "alice_tw"),
        record("bob", false, true, false, "", ""),
    ];
    let out = render_csv(&records);
    let back = parse_csv(&out).unwrap();
    assert_eq!(back, records);
}

#[test]
fn csv_round_trip_survives_quotes_commas_and_newlines() {
    let records = vec![
        record("we\"ird", true, true, true, "a,b@c", "line\nbreak"),
        record("x", false, false, false, "\"\"", ","),
    ];
    let out = render_csv(&records);
    let back = parse_csv(&out).unwrap();
    assert_eq!(back, records);
}

#[test]
fn empty_aggregate_renders_header_only() {
    let records: Vec<AggregateRecord> = Vec::new();
    assert_eq!(render_csv(&records), HEADER);
    let md = render_markdown(&records);
    assert_eq!(
        md,
        "| Name | Forked | Starred | Watching | Email | Twitter |\n|---|---|---|---|---|---|\n"
    );
    let back = parse_csv(HEADER).unwrap();
    assert!(back.is_empty());
}

#[test]
fn markdown_of_one_record_is_exact() {
    let records = vec![record("alice", true, false, true, "a@example.com", "")];
    let md = render_markdown(&records);
    let expected = "| Name | Forked | Starred | Watching | Email | Twitter |\n\
                    |---|---|---|---|---|---|\n\
                    | alice | Y |  | Y | a@example.com |  |\n";
    assert_eq!(md, expected);
}

#[test]
fn garbage_is_a_deserialize_error() {
    assert_eq!(parse_csv("garbage"), Err(TrackError::DeserializeError));
}

#[test]
fn unterminated_field_is_a_deserialize_error() {
    let text = format!("{}{}", HEADER, "\"alice");
    assert_eq!(parse_csv(&text), Err(TrackError::DeserializeError));
}

#[test]
fn unknown_flag_text_is_a_deserialize_error() {
    let text = format!("{}{}", HEADER, "\"alice\",\"Q\",\"\",\"\",\"\",\"\"\n");
    assert_eq!(parse_csv(&text), Err(TrackError::DeserializeError));
}

#[test]
fn missing_newline_is_a_deserialize_error() {
    let text = format!("{}{}", HEADER, "\"alice\",\"Y\",\"\",\"\",\"\",\"\"");
    assert_eq!(parse_csv(&text), Err(TrackError::DeserializeError));
}

#[test]
fn report_pipeline_renders_the_merged_markdown() {
    let forks = vec![RelationEvent {
        kind: RelationKind::Fork,
        login: "alice".to_string(),
        occurred_at: Some(100),
    }];
    let watches = vec![RelationEvent {
        kind: RelationKind::Watch,
        login: "alice".to_string(),
        occurred_at: None,
    }];
    let profiles = vec![repo_tracker::ProfileRecord {
        login: "alice".to_string(),
        email: "a@example.com".to_string(),
        twitter: "alice_tw".to_string(),
    }];
    let md = report_as_md(&forks, &Vec::new(), &watches, &profiles);
    let expected = "| Name | Forked | Starred | Watching | Email | Twitter |\n\
                    |---|---|---|---|---|---|\n\
                    | alice | Y |  | Y | a@example.com | alice_tw |\n";
    assert_eq!(md, expected);
}
