//! The collector's verified half: building the paged queries, turning decoded
//! pages into relation events and profile records, and deciding whether a
//! traversal continues to the next page.

use vstd::prelude::*;
use vstd::string::StringExecFns;

use crate::model::ProfileRecord;
use crate::model::RelationEvent;
use crate::model::RelationKind;
use crate::text::chars_of;
use crate::trigger::RepoRef;

verus! {

/// One decoded edge of a paged response: the fields the engine reads, each of
/// which the endpoint may omit.
pub struct RawEntry {
    pub login: Option<String>,
    pub email: Option<String>,
    pub twitter: Option<String>,
    pub occurred_at: Option<i64>,
}

/// One decoded page of a paged response.
pub struct RawPage {
    pub entries: Vec<RawEntry>,
    pub end_cursor: Option<String>,
    pub has_next_page: bool,
}

/// What the traversal does after a page: fetch the next page from a cursor,
/// or stop.
pub enum PageAction {
    Continue(String),
    Done,
}

/// The traversal stops when a page has no entries (defensive fallback for
/// malformed responses), when the endpoint reports no further page, or when
/// no cursor is available to advance with.
pub open spec fn spec_next_page_action(page: RawPage) -> PageAction {
    if page.entries@.len() == 0 {
        PageAction::Done
    } else if !page.has_next_page {
        PageAction::Done
    } else {
        match page.end_cursor {
            Some(c) => PageAction::Continue(c),
            None => PageAction::Done,
        }
    }
}

/// Decides whether the traversal fetches another page after `page`.
pub fn next_page_action(page: &RawPage) -> (a: PageAction)
    ensures
        a == spec_next_page_action(*page),
{
    if page.entries.len() == 0 {
        PageAction::Done
    } else if !page.has_next_page {
        PageAction::Done
    } else {
        match &page.end_cursor {
            Some(c) => PageAction::Continue(c.clone()),
            None => PageAction::Done,
        }
    }
}

/// The relation event one entry yields: an entry without a login identifies
/// nobody and is dropped.
pub open spec fn entry_event(e: RawEntry, kind: RelationKind) -> Option<RelationEvent> {
    match e.login {
        Some(l) => Some(RelationEvent { kind, login: l, occurred_at: e.occurred_at }),
        None => None,
    }
}

/// The event filter for one relation kind.
pub open spec fn keep_event(kind: RelationKind) -> spec_fn(RawEntry) -> Option<RelationEvent> {
    |e: RawEntry| entry_event(e, kind)
}

/// Turns a decoded page into the relation events it witnesses, in page order.
pub fn page_events(page: &RawPage, kind: RelationKind) -> (evs: Vec<RelationEvent>)
    ensures
        evs@ == page.entries@.filter_map(keep_event(kind)),
{
    let mut evs: Vec<RelationEvent> = Vec::new();
    let mut i: usize = 0;
    proof {
        assert(page.entries@.take(0).filter_map(keep_event(kind)) =~= Seq::<
            RelationEvent,
        >::empty());
    }
    while i < page.entries.len()
        invariant
            i <= page.entries@.len(),
            evs@ == page.entries@.take(i as int).filter_map(keep_event(kind)),
        decreases page.entries@.len() - i,
    {
        let e = &page.entries[i];
        match &e.login {
            Some(l) => {
                let nev = RelationEvent { kind, login: l.clone(), occurred_at: e.occurred_at };
                proof {
                    assert(entry_event(page.entries@[i as int], kind) == Some(nev));
                }
                evs.push(nev);
            },
            None => {},
        }
        proof {
            page.entries@.lemma_filter_map_take_succ(keep_event(kind), i as int);
        }
        i = i + 1;
    }
    proof {
        assert(page.entries@.take(page.entries@.len() as int) =~= page.entries@);
    }
    evs
}

/// The view of an optional string: its characters, or empty when absent.
pub open spec fn opt_str_view(o: Option<String>) -> Seq<char> {
    match o {
        Some(s) => s@,
        None => Seq::empty(),
    }
}

/// The contact triple one entry yields, as character sequences: login, email,
/// Twitter handle. An entry without a login yields none.
pub open spec fn entry_profile_view(e: RawEntry) -> Option<(Seq<char>, Seq<char>, Seq<char>)> {
    match e.login {
        Some(l) => Some((l@, opt_str_view(e.email), opt_str_view(e.twitter))),
        None => None,
    }
}

/// The profile filter.
pub open spec fn keep_profile() -> spec_fn(RawEntry) -> Option<(Seq<char>, Seq<char>, Seq<char>)> {
    |e: RawEntry| entry_profile_view(e)
}

/// The contact triples of a profile sequence.
pub open spec fn profile_views(ps: Seq<ProfileRecord>) -> Seq<(Seq<char>, Seq<char>, Seq<char>)> {
    ps.map_values(|p: ProfileRecord| (p.login@, p.email@, p.twitter@))
}

/// Turns a decoded page into the profile records its entries carry inline:
/// one per entry with a login, with absent contact fields left empty.
pub fn page_profiles(page: &RawPage) -> (ps: Vec<ProfileRecord>)
    ensures
        profile_views(ps@) == page.entries@.filter_map(keep_profile()),
{
    let mut ps: Vec<ProfileRecord> = Vec::new();
    let mut i: usize = 0;
    proof {
        assert(profile_views(ps@) =~= Seq::<(Seq<char>, Seq<char>, Seq<char>)>::empty());
        assert(page.entries@.take(0).filter_map(keep_profile()) =~= Seq::<
            (Seq<char>, Seq<char>, Seq<char>),
        >::empty());
    }
    while i < page.entries.len()
        invariant
            i <= page.entries@.len(),
            profile_views(ps@) == page.entries@.take(i as int).filter_map(keep_profile()),
        decreases page.entries@.len() - i,
    {
        let e = &page.entries[i];
        match &e.login {
            Some(l) => {
                let email = match &e.email {
                    Some(s) => s.clone(),
                    None => String::new(),
                };
                let twitter = match &e.twitter {
                    Some(s) => s.clone(),
                    None => String::new(),
                };
                let ghost before = ps@;
                let p = ProfileRecord { login: l.clone(), email, twitter };
                proof {
                    assert(entry_profile_view(page.entries@[i as int]) == Some(
                        (p.login@, p.email@, p.twitter@),
                    ));
                }
                ps.push(p);
                proof {
                    assert(profile_views(ps@) =~= profile_views(before) + seq![
                        (p.login@, p.email@, p.twitter@),
                    ]);
                }
            },
            None => {},
        }
        proof {
            page.entries@.lemma_filter_map_take_succ(keep_profile(), i as int);
        }
        i = i + 1;
    }
    proof {
        assert(page.entries@.take(page.entries@.len() as int) =~= page.entries@);
    }
    ps
}

/// The cursor argument as it stands in a query: `null` at the start of a
/// traversal, the quoted cursor afterwards.
pub open spec fn cursor_text(cursor: Option<String>) -> Seq<char> {
    match cursor {
        None => "null"@,
        Some(c) => "\""@ + c@ + "\""@,
    }
}

/// The connection clause a relation's query opens with.
pub open spec fn connection_open(kind: RelationKind) -> Seq<char> {
    match kind {
        RelationKind::Fork => "forks(first: 100, after: "@,
        RelationKind::Star => "stargazers(first: 100, after: "@,
        RelationKind::Watch => "watchers(first: 100, after: "@,
    }
}

/// The rest of a relation's query after the cursor argument: ordering where
/// the relation is timestamped (most recent first, so the early stop can
/// fire), the node fields the engine reads, and the page info.
pub open spec fn connection_close(kind: RelationKind) -> Seq<char> {
    match kind {
        RelationKind::Fork => ", orderBy: {field: CREATED_AT, direction: DESC}) { edges { node { createdAt owner { login ... on User { email twitterUsername } } } } pageInfo { endCursor hasNextPage } } } }"@,
        RelationKind::Star => ", orderBy: {field: STARRED_AT, direction: DESC}) { edges { starredAt node { login email twitterUsername } } pageInfo { endCursor hasNextPage } } } }"@,
        RelationKind::Watch => ") { edges { node { login email twitterUsername } } pageInfo { endCursor hasNextPage } } } }"@,
    }
}

/// The query that fetches one page of a relation's traversal.
pub open spec fn relation_query(
    kind: RelationKind,
    owner: Seq<char>,
    repo: Seq<char>,
    cursor: Option<String>,
) -> Seq<char> {
    "query { repository(owner: \""@ + owner + "\", name: \""@ + repo + "\") { "@
        + connection_open(kind) + cursor_text(cursor) + connection_close(kind)
}

/// Builds the query for one page of `kind`'s traversal of the repository.
#[verifier::rlimit(50)]
pub fn build_relation_query(repo_ref: &RepoRef, kind: RelationKind, after_cursor: &Option<String>)
    -> (q: String)
    ensures
        q@ == relation_query(kind, repo_ref.owner@, repo_ref.repo@, *after_cursor),
{
    let mut q = String::new();
    q.append("query { repository(owner: \"");
    q.append(repo_ref.owner.as_str());
    q.append("\", name: \"");
    q.append(repo_ref.repo.as_str());
    q.append("\") { ");
    match kind {
        RelationKind::Fork => q.append("forks(first: 100, after: "),
        RelationKind::Star => q.append("stargazers(first: 100, after: "),
        RelationKind::Watch => q.append("watchers(first: 100, after: "),
    }
    match after_cursor {
        None => q.append("null"),
        Some(c) => {
            q.append("\"");
            q.append(c.as_str());
            q.append("\"");
        },
    }
    match kind {
        RelationKind::Fork => q.append(
            ", orderBy: {field: CREATED_AT, direction: DESC}) { edges { node { createdAt owner { login ... on User { email twitterUsername } } } } pageInfo { endCursor hasNextPage } } } }",
        ),
        RelationKind::Star => q.append(
            ", orderBy: {field: STARRED_AT, direction: DESC}) { edges { starredAt node { login email twitterUsername } } pageInfo { endCursor hasNextPage } } } }",
        ),
        RelationKind::Watch => q.append(
            ") { edges { node { login email twitterUsername } } pageInfo { endCursor hasNextPage } } } }",
        ),
    }
    proof {
        assert(q@ =~= relation_query(kind, repo_ref.owner@, repo_ref.repo@, *after_cursor));
    }
    q
}

/// A hexadecimal digit, lower case.
pub open spec fn hex_digit(n: u32) -> char {
    if n == 0 {
        '0'
    } else if n == 1 {
        '1'
    } else if n == 2 {
        '2'
    } else if n == 3 {
        '3'
    } else if n == 4 {
        '4'
    } else if n == 5 {
        '5'
    } else if n == 6 {
        '6'
    } else if n == 7 {
        '7'
    } else if n == 8 {
        '8'
    } else if n == 9 {
        '9'
    } else if n == 10 {
        'a'
    } else if n == 11 {
        'b'
    } else if n == 12 {
        'c'
    } else if n == 13 {
        'd'
    } else if n == 14 {
        'e'
    } else {
        'f'
    }
}

/// How one character stands inside a JSON string literal: quotes and
/// backslashes escaped, control characters written out by code.
pub open spec fn json_escape_char(c: char) -> Seq<char> {
    if c == '"' {
        seq!['\\', '"']
    } else if c == '\\' {
        seq!['\\', '\\']
    } else if c == '\n' {
        seq!['\\', 'n']
    } else if c == '\r' {
        seq!['\\', 'r']
    } else if c == '\t' {
        seq!['\\', 't']
    } else if (c as u32) < 32 {
        seq!['\\', 'u', '0', '0', hex_digit((c as u32) / 16), hex_digit((c as u32) % 16)]
    } else {
        seq![c]
    }
}

/// A whole string as it stands inside a JSON string literal.
pub open spec fn json_escaped(s: Seq<char>) -> Seq<char>
    decreases s.len(),
{
    if s.len() == 0 {
        Seq::empty()
    } else {
        json_escape_char(s[0]) + json_escaped(s.drop_first())
    }
}

/// JSON escaping distributes over concatenation.
proof fn lemma_json_escaped_add(a: Seq<char>, b: Seq<char>)
    ensures
        json_escaped(a + b) == json_escaped(a) + json_escaped(b),
    decreases a.len(),
{
    if a.len() == 0 {
        assert(a + b =~= b);
        assert(json_escaped(a) + json_escaped(b) =~= json_escaped(b));
    } else {
        assert((a + b)[0] == a[0]);
        assert((a + b).drop_first() =~= a.drop_first() + b);
        lemma_json_escaped_add(a.drop_first(), b);
        assert(json_escape_char(a[0]) + (json_escaped(a.drop_first()) + json_escaped(b)) =~= (
        json_escape_char(a[0]) + json_escaped(a.drop_first())) + json_escaped(b));
    }
}

proof fn lemma_json_escaped_singleton(c: char)
    ensures
        json_escaped(seq![c]) == json_escape_char(c),
{
    assert(seq![c].drop_first() =~= Seq::<char>::empty());
    assert(json_escape_char(c) + json_escaped(Seq::<char>::empty()) =~= json_escape_char(c));
}

fn hex_digit_char(n: u32) -> (c: char)
    requires
        n < 16,
    ensures
        c == hex_digit(n),
{
    if n == 0 {
        '0'
    } else if n == 1 {
        '1'
    } else if n == 2 {
        '2'
    } else if n == 3 {
        '3'
    } else if n == 4 {
        '4'
    } else if n == 5 {
        '5'
    } else if n == 6 {
        '6'
    } else if n == 7 {
        '7'
    } else if n == 8 {
        '8'
    } else if n == 9 {
        '9'
    } else if n == 10 {
        'a'
    } else if n == 11 {
        'b'
    } else if n == 12 {
        'c'
    } else if n == 13 {
        'd'
    } else if n == 14 {
        'e'
    } else {
        'f'
    }
}

/// The body posted to the query endpoint: a JSON object with the query under
/// the key `query`, the query JSON-escaped.
pub open spec fn request_body(query: Seq<char>) -> Seq<char> {
    "{\"query\":\""@ + json_escaped(query) + "\"}"@
}

/// Builds the JSON request body that carries `query`.
pub fn gql_request_body(query: &str) -> (body: String)
    ensures
        body@ == request_body(query@),
{
    let mut buf = chars_of("{\"query\":\"");
    let cs = chars_of(query);
    let ghost prefix = "{\"query\":\""@;
    let mut i: usize = 0;
    proof {
        assert(query@.take(0) =~= Seq::<char>::empty());
        assert(buf@ =~= prefix + json_escaped(query@.take(0)));
    }
    while i < cs.len()
        invariant
            i <= cs@.len(),
            cs@ == query@,
            buf@ == prefix + json_escaped(query@.take(i as int)),
        decreases cs@.len() - i,
    {
        let c = cs[i];
        if c == '"' {
            buf.push('\\');
            buf.push('"');
        } else if c == '\\' {
            buf.push('\\');
            buf.push('\\');
        } else if c == '\n' {
            buf.push('\\');
            buf.push('n');
        } else if c == '\r' {
            buf.push('\\');
            buf.push('r');
        } else if c == '\t' {
            buf.push('\\');
            buf.push('t');
        } else if (c as u32) < 32 {
            buf.push('\\');
            buf.push('u');
            buf.push('0');
            buf.push('0');
            buf.push(hex_digit_char((c as u32) / 16));
            buf.push(hex_digit_char((c as u32) % 16));
        } else {
            buf.push(c);
        }
        proof {
            assert(query@.take(i as int + 1) =~= query@.take(i as int) + seq![query@[i as int]]);
            lemma_json_escaped_add(query@.take(i as int), seq![query@[i as int]]);
            lemma_json_escaped_singleton(query@[i as int]);
            assert(buf@ =~= prefix + json_escaped(query@.take(i as int + 1)));
        }
        i = i + 1;
    }
    proof {
        assert(query@.take(cs@.len() as int) =~= query@);
    }
    let mut tail = chars_of("\"}");
    buf.append(&mut tail);
    proof {
        assert(buf@ =~= request_body(query@));
    }
    crate::text::string_of(&buf)
}

} // verus!
