//! Tracks the accounts that forked, starred or watch a repository, merges the
//! three relations into one record per login, and renders the result as a
//! CSV-backed Markdown report.

mod aggregate;
mod collect;
mod datetime;
mod model;
mod report;
mod text;
mod trigger;
mod window;

pub use aggregate::aggregate;
pub use aggregate::aggregate_ok;
pub use aggregate::appears;
pub use aggregate::contact_email;
pub use aggregate::contact_twitter;
pub use aggregate::distinct_logins;
pub use aggregate::has_kind;
pub use aggregate::lemma_aggregate_complete;
pub use aggregate::lemma_distinct_contains;
pub use aggregate::lemma_distinct_no_dup;
pub use aggregate::lemma_flag_reported;
pub use aggregate::logins_to_fetch;
pub use aggregate::no_record_for;
pub use aggregate::record_logins;
pub use aggregate::record_matches;
pub use aggregate::aggregate_rows;
pub use aggregate::lemma_aggregate_rows;
pub use collect::PageAction;
pub use datetime::days_before_month;
pub use datetime::days_before_year;
pub use datetime::epoch_seconds;
pub use datetime::is_leap;
pub use datetime::leaps_before;
pub use datetime::parse_timestamp;
pub use datetime::timestamp_value;
pub use datetime::valid_timestamp_text;
pub use collect::RawEntry;
pub use collect::RawPage;
pub use collect::build_relation_query;
pub use collect::cursor_text;
pub use collect::entry_event;
pub use collect::entry_profile_view;
pub use collect::gql_request_body;
pub use collect::hex_digit;
pub use collect::json_escape_char;
pub use collect::json_escaped;
pub use collect::keep_event;
pub use collect::keep_profile;
pub use collect::next_page_action;
pub use collect::opt_str_view;
pub use collect::page_events;
pub use collect::page_profiles;
pub use collect::profile_views;
pub use collect::relation_query;
pub use collect::request_body;
pub use collect::spec_next_page_action;
pub use trigger::HttpReply;
pub use trigger::RepoRef;
pub use trigger::TrackerConfig;
pub use trigger::failure_reply;
pub use trigger::invalid_input_reply;
pub use trigger::parse_owner_repo;
pub use trigger::success_reply;
pub use model::AggregateRecord;
pub use model::ProfileRecord;
pub use model::RelationEvent;
pub use model::RelationKind;
pub use model::RowData;
pub use model::TrackError;
pub use model::row_view;
pub use model::rows_view;
pub use report::csv_header;
pub use report::csv_row;
pub use report::csv_rows;
pub use report::escape_field;
pub use report::expect_char;
pub use report::flag_text;
pub use report::lemma_csv_round_trip;
pub use report::md_header;
pub use report::md_row;
pub use report::md_rows;
pub use report::parse_csv;
pub use report::parse_csv_spec;
pub use report::parse_field;
pub use report::parse_field_body;
pub use report::parse_flag;
pub use report::parse_flag_field;
pub use report::parse_row;
pub use report::parse_rows;
pub use report::quoted;
pub use report::render_csv;
pub use report::render_csv_spec;
pub use report::render_markdown;
pub use report::render_markdown_spec;
pub use report::report_as_md;
pub use text::chars_of;
pub use text::string_of;
pub use window::EarlyStopTracker;
pub use window::event_in_window;
pub use window::filter_page;
pub use window::filter_window;
pub use window::in_window;
pub use window::keep_in_window;
pub use window::lemma_early_stop;
pub use window::next_misses;
pub use window::scan_consumed;
pub use window::scan_final_misses;
pub use window::spec_in_window;
