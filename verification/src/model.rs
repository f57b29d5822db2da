//! The data the tracker works over: relation events observed against the
//! repository, contact profiles, and the merged per-login records.

use vstd::prelude::*;

verus! {

/// One of the three relations an account can have to the tracked repository.
#[derive(Clone, Copy, PartialEq, Eq, Structural, Debug)]
pub enum RelationKind {
    Fork,
    Star,
    Watch,
}

/// One observed edge from the repository to an account. Watch edges carry no
/// timestamp, so `occurred_at` is optional.
#[derive(Debug)]
pub struct RelationEvent {
    pub kind: RelationKind,
    pub login: String,
    pub occurred_at: Option<i64>,
}

/// The contact information resolved for one login. Missing fields are kept as
/// empty strings.
#[derive(Debug)]
pub struct ProfileRecord {
    pub login: String,
    pub email: String,
    pub twitter: String,
}

/// One row of the final report: the merged view of everything observed for a
/// single login.
#[derive(PartialEq, Eq, Debug)]
pub struct AggregateRecord {
    pub login: String,
    pub forked: bool,
    pub starred: bool,
    pub watching: bool,
    pub email: String,
    pub twitter: String,
}

/// The mathematical content of one aggregate record: the same fields with the
/// strings abstracted to character sequences.
pub struct RowData {
    pub login: Seq<char>,
    pub forked: bool,
    pub starred: bool,
    pub watching: bool,
    pub email: Seq<char>,
    pub twitter: Seq<char>,
}

/// The mathematical content of `r`.
pub open spec fn row_view(r: AggregateRecord) -> RowData {
    RowData {
        login: r.login@,
        forked: r.forked,
        starred: r.starred,
        watching: r.watching,
        email: r.email@,
        twitter: r.twitter@,
    }
}

/// The mathematical content of a record sequence.
pub open spec fn rows_view(recs: Seq<AggregateRecord>) -> Seq<RowData> {
    recs.map_values(|r: AggregateRecord| row_view(r))
}

/// The failures a run can surface.
#[derive(Clone, Copy, PartialEq, Eq, Structural, Debug)]
pub enum TrackError {
    /// Transport failure or a non-success status from the remote endpoint.
    FetchError,
    /// A response body that could not be decoded.
    DeserializeError,
    /// A profile lookup that returned no usable record.
    ProfileNotFound,
    /// A missing or malformed owner/repo identifier.
    InvalidInput,
}

} // verus!
