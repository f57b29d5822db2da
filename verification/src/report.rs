//! The report formats: the always-quoted comma-separated tabular format the
//! aggregate is rendered into and parsed back from, and the Markdown table
//! built from the same rows.

use vstd::prelude::*;

use crate::aggregate::aggregate;
use crate::aggregate::aggregate_rows;
use crate::aggregate::lemma_aggregate_rows;
use crate::model::AggregateRecord;
use crate::model::ProfileRecord;
use crate::model::RelationEvent;
use crate::model::RowData;
use crate::model::TrackError;
use crate::model::row_view;
use crate::model::rows_view;
use crate::text::chars_of;
use crate::text::string_of;
use vstd::string::StringExecFns;

verus! {

/// A field as it stands inside its quotes: every quote doubled.
pub open spec fn escape_field(s: Seq<char>) -> Seq<char>
    decreases s.len(),
{
    if s.len() == 0 {
        Seq::empty()
    } else {
        (if s[0] == '"' {
            seq!['"', '"']
        } else {
            seq![s[0]]
        }) + escape_field(s.drop_first())
    }
}

/// A rendered field: the escaped content between quotes.
pub open spec fn quoted(s: Seq<char>) -> Seq<char> {
    seq!['"'] + escape_field(s) + seq!['"']
}

/// How a relation flag prints: `Y` when set, empty otherwise.
pub open spec fn flag_text(b: bool) -> Seq<char> {
    if b {
        seq!['Y']
    } else {
        Seq::empty()
    }
}

/// One rendered data row: the six quoted fields, comma-separated, newline
/// terminated.
pub open spec fn csv_row(r: RowData) -> Seq<char> {
    quoted(r.login) + seq![','] + quoted(flag_text(r.forked)) + seq![','] + quoted(
        flag_text(r.starred),
    ) + seq![','] + quoted(flag_text(r.watching)) + seq![','] + quoted(r.email) + seq![',']
        + quoted(r.twitter) + seq!['\n']
}

/// The rendered data rows, in order.
pub open spec fn csv_rows(rows: Seq<RowData>) -> Seq<char>
    decreases rows.len(),
{
    if rows.len() == 0 {
        Seq::empty()
    } else {
        csv_row(rows[0]) + csv_rows(rows.drop_first())
    }
}

/// The header row of the tabular format.
pub open spec fn csv_header() -> Seq<char> {
    "\"Name\",\"Forked\",\"Starred\",\"Watching\",\"Email\",\"Twitter\"\n"@
}

/// The whole rendered table: the header row, then one row per record.
pub open spec fn render_csv_spec(rows: Seq<RowData>) -> Seq<char> {
    csv_header() + csv_rows(rows)
}

/// Escaping distributes over concatenation.
proof fn lemma_escape_add(a: Seq<char>, b: Seq<char>)
    ensures
        escape_field(a + b) == escape_field(a) + escape_field(b),
    decreases a.len(),
{
    if a.len() == 0 {
        assert(a + b =~= b);
        assert(escape_field(a) + escape_field(b) =~= escape_field(b));
    } else {
        assert((a + b)[0] == a[0]);
        assert((a + b).drop_first() =~= a.drop_first() + b);
        lemma_escape_add(a.drop_first(), b);
        let head = if a[0] == '"' {
            seq!['"', '"']
        } else {
            seq![a[0]]
        };
        assert(escape_field(a + b) == head + (escape_field(a.drop_first()) + escape_field(b)));
        assert(head + (escape_field(a.drop_first()) + escape_field(b)) =~= (head + escape_field(
            a.drop_first(),
        )) + escape_field(b));
    }
}

/// Escaping a single character.
proof fn lemma_escape_singleton(c: char)
    ensures
        escape_field(seq![c]) == if c == '"' {
            seq!['"', '"']
        } else {
            seq![c]
        },
{
    assert(seq![c].drop_first() =~= Seq::<char>::empty());
    if c == '"' {
        assert(seq!['"', '"'] + escape_field(Seq::<char>::empty()) =~= seq!['"', '"']);
    } else {
        assert(seq![c] + escape_field(Seq::<char>::empty()) =~= seq![c]);
    }
}

/// Appends the quoted form of `field` to the buffer.
fn push_quoted(buf: &mut Vec<char>, field: &String)
    ensures
        final(buf)@ == old(buf)@ + quoted(field@),
{
    let ghost base = buf@;
    buf.push('"');
    let cs = chars_of(field.as_str());
    let mut i: usize = 0;
    proof {
        assert(field@.take(0) =~= Seq::<char>::empty());
        assert(buf@ =~= base + seq!['"'] + escape_field(field@.take(0)));
    }
    while i < cs.len()
        invariant
            i <= cs@.len(),
            cs@ == field@,
            buf@ == base + seq!['"'] + escape_field(field@.take(i as int)),
        decreases cs@.len() - i,
    {
        let c = cs[i];
        if c == '"' {
            buf.push('"');
            buf.push('"');
        } else {
            buf.push(c);
        }
        proof {
            assert(field@.take(i as int + 1) =~= field@.take(i as int) + seq![field@[i as int]]);
            lemma_escape_add(field@.take(i as int), seq![field@[i as int]]);
            lemma_escape_singleton(field@[i as int]);
            if c == '"' {
                assert(buf@ =~= base + seq!['"'] + (escape_field(field@.take(i as int)) + seq![
                    '"',
                    '"',
                ]));
            } else {
                assert(buf@ =~= base + seq!['"'] + (escape_field(field@.take(i as int))
                    + seq![c]));
            }
        }
        i = i + 1;
    }
    buf.push('"');
    proof {
        assert(field@.take(cs@.len() as int) =~= field@);
        assert(buf@ =~= base + quoted(field@));
    }
}

/// Appends the quoted form of a flag to the buffer.
fn push_quoted_flag(buf: &mut Vec<char>, b: bool)
    ensures
        final(buf)@ == old(buf)@ + quoted(flag_text(b)),
{
    let ghost base = buf@;
    buf.push('"');
    if b {
        buf.push('Y');
        proof {
            lemma_escape_singleton('Y');
        }
    }
    buf.push('"');
    proof {
        if !b {
            assert(escape_field(flag_text(b)) =~= Seq::<char>::empty());
        }
        assert(buf@ =~= base + quoted(flag_text(b)));
    }
}

/// Appends one rendered row to the buffer.
#[verifier::rlimit(50)]
fn push_csv_row(buf: &mut Vec<char>, rec: &AggregateRecord)
    ensures
        final(buf)@ == old(buf)@ + csv_row(row_view(*rec)),
{
    let ghost base = buf@;
    push_quoted(buf, &rec.login);
    buf.push(',');
    push_quoted_flag(buf, rec.forked);
    buf.push(',');
    push_quoted_flag(buf, rec.starred);
    buf.push(',');
    push_quoted_flag(buf, rec.watching);
    buf.push(',');
    push_quoted(buf, &rec.email);
    buf.push(',');
    push_quoted(buf, &rec.twitter);
    buf.push('\n');
    proof {
        assert(buf@ =~= base + csv_row(row_view(*rec)));
    }
}

/// Rendered rows concatenate.
proof fn lemma_csv_rows_add(a: Seq<RowData>, b: Seq<RowData>)
    ensures
        csv_rows(a + b) == csv_rows(a) + csv_rows(b),
    decreases a.len(),
{
    if a.len() == 0 {
        assert(a + b =~= b);
        assert(csv_rows(a) + csv_rows(b) =~= csv_rows(b));
    } else {
        assert((a + b)[0] == a[0]);
        assert((a + b).drop_first() =~= a.drop_first() + b);
        lemma_csv_rows_add(a.drop_first(), b);
        assert(csv_row(a[0]) + (csv_rows(a.drop_first()) + csv_rows(b)) =~= (csv_row(a[0])
            + csv_rows(a.drop_first())) + csv_rows(b));
    }
}

proof fn lemma_csv_rows_singleton(r: RowData)
    ensures
        csv_rows(seq![r]) == csv_row(r),
{
    assert(seq![r].drop_first() =~= Seq::<RowData>::empty());
    assert(csv_row(r) + csv_rows(Seq::<RowData>::empty()) =~= csv_row(r));
}

/// Renders the aggregate records into the tabular format: the header row,
/// then one always-quoted comma-separated row per record.
pub fn render_csv(records: &Vec<AggregateRecord>) -> (out: String)
    ensures
        out@ == render_csv_spec(rows_view(records@)),
{
    let mut buf = chars_of("\"Name\",\"Forked\",\"Starred\",\"Watching\",\"Email\",\"Twitter\"\n");
    let mut i: usize = 0;
    proof {
        assert(rows_view(records@).take(0) =~= Seq::<RowData>::empty());
        assert(buf@ =~= csv_header() + csv_rows(rows_view(records@).take(0)));
    }
    while i < records.len()
        invariant
            i <= records@.len(),
            buf@ == csv_header() + csv_rows(rows_view(records@).take(i as int)),
        decreases records@.len() - i,
    {
        push_csv_row(&mut buf, &records[i]);
        proof {
            let rows = rows_view(records@);
            assert(rows.take(i as int + 1) =~= rows.take(i as int) + seq![rows[i as int]]);
            lemma_csv_rows_add(rows.take(i as int), seq![rows[i as int]]);
            lemma_csv_rows_singleton(rows[i as int]);
            assert(rows[i as int] == row_view(records@[i as int]));
            assert(buf@ =~= csv_header() + csv_rows(rows.take(i as int + 1)));
        }
        i = i + 1;
    }
    proof {
        assert(rows_view(records@).take(records@.len() as int) =~= rows_view(records@));
    }
    string_of(&buf)
}

/// Parses the inside of a quoted field, after its opening quote: everything
/// up to the closing quote, with doubled quotes collapsed. Yields the content
/// and the text after the closing quote.
pub open spec fn parse_field_body(s: Seq<char>) -> Option<(Seq<char>, Seq<char>)>
    decreases s.len(),
{
    if s.len() == 0 {
        None
    } else if s[0] == '"' {
        if s.len() >= 2 && s[1] == '"' {
            match parse_field_body(s.skip(2)) {
                Some(p) => Some((seq!['"'] + p.0, p.1)),
                None => None,
            }
        } else {
            Some((Seq::empty(), s.skip(1)))
        }
    } else {
        match parse_field_body(s.skip(1)) {
            Some(p) => Some((seq![s[0]] + p.0, p.1)),
            None => None,
        }
    }
}

/// Parses one quoted field from the front of `s`.
pub open spec fn parse_field(s: Seq<char>) -> Option<(Seq<char>, Seq<char>)> {
    if s.len() > 0 && s[0] == '"' {
        parse_field_body(s.skip(1))
    } else {
        None
    }
}

/// Consumes one expected character from the front of `s`.
pub open spec fn expect_char(s: Seq<char>, c: char) -> Option<Seq<char>> {
    if s.len() > 0 && s[0] == c {
        Some(s.skip(1))
    } else {
        None
    }
}

/// Reads a flag field's content back into the flag it printed.
pub open spec fn parse_flag(content: Seq<char>) -> Option<bool> {
    if content.len() == 0 {
        Some(false)
    } else if content.len() == 1 && content[0] == 'Y' {
        Some(true)
    } else {
        None
    }
}

/// Parses one quoted flag field from the front of `s`.
pub open spec fn parse_flag_field(s: Seq<char>) -> Option<(bool, Seq<char>)> {
    match parse_field(s) {
        Some(p) => match parse_flag(p.0) {
            Some(b) => Some((b, p.1)),
            None => None,
        },
        None => None,
    }
}

/// Parses one data row from the front of `s`.
pub open spec fn parse_row(s: Seq<char>) -> Option<(RowData, Seq<char>)> {
    match parse_field(s) {
        None => None,
        Some((login, s1)) => match expect_char(s1, ',') {
            None => None,
            Some(s2) => match parse_flag_field(s2) {
                None => None,
                Some((forked, s3)) => match expect_char(s3, ',') {
                    None => None,
                    Some(s4) => match parse_flag_field(s4) {
                        None => None,
                        Some((starred, s5)) => match expect_char(s5, ',') {
                            None => None,
                            Some(s6) => match parse_flag_field(s6) {
                                None => None,
                                Some((watching, s7)) => match expect_char(s7, ',') {
                                    None => None,
                                    Some(s8) => match parse_field(s8) {
                                        None => None,
                                        Some((email, s9)) => match expect_char(s9, ',') {
                                            None => None,
                                            Some(s10) => match parse_field(s10) {
                                                None => None,
                                                Some((twitter, s11)) => match expect_char(
                                                    s11,
                                                    '\n',
                                                ) {
                                                    None => None,
                                                    Some(rest) => Some(
                                                        (
                                                            RowData {
                                                                login,
                                                                forked,
                                                                starred,
                                                                watching,
                                                                email,
                                                                twitter,
                                                            },
                                                            rest,
                                                        ),
                                                    ),
                                                },
                                            },
                                        },
                                    },
                                },
                            },
                        },
                    },
                },
            },
        },
    }
}

/// Parses the data rows until the input ends.
pub open spec fn parse_rows(s: Seq<char>) -> Option<Seq<RowData>>
    decreases s.len(),
{
    if s.len() == 0 {
        Some(Seq::empty())
    } else {
        match parse_row(s) {
            None => None,
            Some((row, rest)) => if rest.len() >= s.len() {
                None
            } else {
                match parse_rows(rest) {
                    None => None,
                    Some(more) => Some(seq![row] + more),
                }
            },
        }
    }
}

/// Parses a whole rendered table: the exact header row, then the data rows.
pub open spec fn parse_csv_spec(s: Seq<char>) -> Option<Seq<RowData>> {
    if s.len() >= csv_header().len() && s.take(csv_header().len() as int) == csv_header() {
        parse_rows(s.skip(csv_header().len() as int))
    } else {
        None
    }
}

/// Parsing a field body undoes escaping, as long as the text after the
/// closing quote does not itself begin with a quote.
proof fn lemma_parse_field_body_inverts(content: Seq<char>, rest: Seq<char>)
    requires
        rest.len() == 0 || rest[0] != '"',
    ensures
        parse_field_body(escape_field(content) + seq!['"'] + rest) == Some((content, rest)),
    decreases content.len(),
{
    let s = escape_field(content) + seq!['"'] + rest;
    if content.len() == 0 {
        assert(s =~= seq!['"'] + rest);
        assert(s.skip(1) =~= rest);
        assert(content =~= Seq::<char>::empty());
    } else {
        let tail = content.drop_first();
        let s2 = escape_field(tail) + seq!['"'] + rest;
        lemma_parse_field_body_inverts(tail, rest);
        if content[0] == '"' {
            assert(s =~= seq!['"', '"'] + s2);
            assert(s[0] == '"' && s.len() >= 2 && s[1] == '"');
            assert(s.skip(2) =~= s2);
            assert(seq!['"'] + tail =~= content);
        } else {
            assert(s =~= seq![content[0]] + s2);
            assert(s[0] == content[0]);
            assert(s.skip(1) =~= s2);
            assert(seq![content[0]] + tail =~= content);
        }
    }
}

/// Parsing a quoted field recovers its content, as long as the text after it
/// does not begin with a quote.
proof fn lemma_parse_field_inverts(content: Seq<char>, rest: Seq<char>)
    requires
        rest.len() == 0 || rest[0] != '"',
    ensures
        parse_field(quoted(content) + rest) == Some((content, rest)),
{
    let s = quoted(content) + rest;
    assert(s =~= seq!['"'] + (escape_field(content) + seq!['"'] + rest));
    assert(s[0] == '"');
    assert(s.skip(1) =~= escape_field(content) + seq!['"'] + rest);
    lemma_parse_field_body_inverts(content, rest);
}

/// Parsing a rendered flag field recovers the flag.
proof fn lemma_parse_flag_field_inverts(b: bool, rest: Seq<char>)
    requires
        rest.len() == 0 || rest[0] != '"',
    ensures
        parse_flag_field(quoted(flag_text(b)) + rest) == Some((b, rest)),
{
    lemma_parse_field_inverts(flag_text(b), rest);
}

/// Parsing a rendered row recovers the row.
#[verifier::rlimit(100)]
proof fn lemma_parse_row_inverts(r: RowData, rest: Seq<char>)
    ensures
        parse_row(csv_row(r) + rest) == Some((r, rest)),
{
    let u6 = seq!['\n'] + rest;
    let f6 = quoted(r.twitter) + u6;
    let u5 = seq![','] + f6;
    let f5 = quoted(r.email) + u5;
    let u4 = seq![','] + f5;
    let f4 = quoted(flag_text(r.watching)) + u4;
    let u3 = seq![','] + f4;
    let f3 = quoted(flag_text(r.starred)) + u3;
    let u2 = seq![','] + f3;
    let f2 = quoted(flag_text(r.forked)) + u2;
    let u1 = seq![','] + f2;
    let f1 = quoted(r.login) + u1;
    assert(csv_row(r) + rest =~= f1);
    lemma_parse_field_inverts(r.login, u1);
    assert(u1.skip(1) =~= f2);
    lemma_parse_flag_field_inverts(r.forked, u2);
    assert(u2.skip(1) =~= f3);
    lemma_parse_flag_field_inverts(r.starred, u3);
    assert(u3.skip(1) =~= f4);
    lemma_parse_flag_field_inverts(r.watching, u4);
    assert(u4.skip(1) =~= f5);
    lemma_parse_field_inverts(r.email, u5);
    assert(u5.skip(1) =~= f6);
    lemma_parse_field_inverts(r.twitter, u6);
    assert(u6.skip(1) =~= rest);
    assert(parse_row(f1) == Some(
        (
            RowData {
                login: r.login,
                forked: r.forked,
                starred: r.starred,
                watching: r.watching,
                email: r.email,
                twitter: r.twitter,
            },
            rest,
        ),
    ));
    assert(RowData {
        login: r.login,
        forked: r.forked,
        starred: r.starred,
        watching: r.watching,
        email: r.email,
        twitter: r.twitter,
    } == r);
}

/// Parsing rendered rows recovers them all.
proof fn lemma_parse_rows_inverts(rows: Seq<RowData>)
    ensures
        parse_rows(csv_rows(rows)) == Some(rows),
    decreases rows.len(),
{
    if rows.len() == 0 {
        assert(rows =~= Seq::<RowData>::empty());
    } else {
        let first = rows[0];
        let more = rows.drop_first();
        let s = csv_rows(rows);
        lemma_parse_row_inverts(first, csv_rows(more));
        assert(csv_row(first).len() >= 1);
        assert(s.len() >= 1);
        lemma_parse_rows_inverts(more);
        assert(seq![first] + more =~= rows);
    }
}

/// The round-trip law: rendering an aggregate to the tabular format and
/// parsing it back recovers the same logins, flags and contact fields.
pub proof fn lemma_csv_round_trip(rows: Seq<RowData>)
    ensures
        parse_csv_spec(render_csv_spec(rows)) == Some(rows),
{
    let s = render_csv_spec(rows);
    assert(s.take(csv_header().len() as int) =~= csv_header());
    assert(s.skip(csv_header().len() as int) =~= csv_rows(rows));
    lemma_parse_rows_inverts(rows);
}

/// Scans a quoted field's body from position `start`, the position just
/// after the opening quote.
fn take_field_body(cs: &Vec<char>, start: usize) -> (r: Option<(Vec<char>, usize)>)
    requires
        start <= cs@.len(),
    ensures
        match parse_field_body(cs@.skip(start as int)) {
            Some(p) => r matches Some(q) && q.0@ == p.0 && start < q.1 <= cs@.len() && cs@.skip(
                q.1 as int,
            ) == p.1,
            None => r is None,
        },
{
    let mut content: Vec<char> = Vec::new();
    let mut i: usize = start;
    loop
        invariant
            start <= i <= cs@.len(),
            match parse_field_body(cs@.skip(i as int)) {
                Some(p) => parse_field_body(cs@.skip(start as int)) == Some::<
                    (Seq<char>, Seq<char>),
                >((content@ + p.0, p.1)),
                None => parse_field_body(cs@.skip(start as int)) is None,
            },
        decreases cs@.len() - i,
    {
        if i >= cs.len() {
            proof {
                assert(cs@.skip(i as int) =~= Seq::<char>::empty());
            }
            return None;
        }
        let ghost s_i = cs@.skip(i as int);
        proof {
            assert(s_i[0] == cs@[i as int]);
            assert(s_i.len() == cs@.len() - i);
            assert(s_i.skip(1) =~= cs@.skip(i as int + 1));
        }
        let c = cs[i];
        if c == '"' {
            if i + 1 < cs.len() && cs[i + 1] == '"' {
                proof {
                    assert(s_i[1] == cs@[i as int + 1]);
                    assert(s_i.skip(2) =~= cs@.skip(i as int + 2));
                    match parse_field_body(cs@.skip(i as int + 2)) {
                        Some(p2) => {
                            assert(parse_field_body(s_i) == Some::<(Seq<char>, Seq<char>)>(
                                (seq!['"'] + p2.0, p2.1),
                            ));
                            assert(content@ + (seq!['"'] + p2.0) =~= (content@ + seq!['"'])
                                + p2.0);
                        },
                        None => {},
                    }
                }
                content.push('"');
                i = i + 2;
            } else {
                proof {
                    if s_i.len() >= 2 {
                        assert(s_i[1] == cs@[i as int + 1]);
                    }
                    assert(parse_field_body(s_i) == Some::<(Seq<char>, Seq<char>)>(
                        (Seq::empty(), s_i.skip(1)),
                    ));
                    assert(content@ + Seq::<char>::empty() =~= content@);
                }
                return Some((content, i + 1));
            }
        } else {
            proof {
                match parse_field_body(cs@.skip(i as int + 1)) {
                    Some(p2) => {
                        assert(parse_field_body(s_i) == Some::<(Seq<char>, Seq<char>)>(
                            (seq![s_i[0]] + p2.0, p2.1),
                        ));
                        assert(content@ + (seq![s_i[0]] + p2.0) =~= (content@ + seq![s_i[0]])
                            + p2.0);
                    },
                    None => {},
                }
            }
            content.push(c);
            i = i + 1;
        }
    }
}

/// Consumes the single expected character at position `start`.
fn take_char(cs: &Vec<char>, start: usize, c: char) -> (r: Option<usize>)
    requires
        start <= cs@.len(),
    ensures
        match expect_char(cs@.skip(start as int), c) {
            Some(rem) => r matches Some(j) && start < j <= cs@.len() && cs@.skip(j as int) == rem,
            None => r is None,
        },
{
    proof {
        if start < cs@.len() {
            assert(cs@.skip(start as int)[0] == cs@[start as int]);
            assert(cs@.skip(start as int).skip(1) =~= cs@.skip(start as int + 1));
        }
        assert(cs@.skip(start as int).len() == cs@.len() - start);
    }
    if start < cs.len() && cs[start] == c {
        Some(start + 1)
    } else {
        None
    }
}

/// Scans one quoted field starting at position `start`.
fn take_field(cs: &Vec<char>, start: usize) -> (r: Option<(Vec<char>, usize)>)
    requires
        start <= cs@.len(),
    ensures
        match parse_field(cs@.skip(start as int)) {
            Some(p) => r matches Some(q) && q.0@ == p.0 && start < q.1 <= cs@.len() && cs@.skip(
                q.1 as int,
            ) == p.1,
            None => r is None,
        },
{
    proof {
        if start < cs@.len() {
            assert(cs@.skip(start as int)[0] == cs@[start as int]);
            assert(cs@.skip(start as int).skip(1) =~= cs@.skip(start as int + 1));
        }
        assert(cs@.skip(start as int).len() == cs@.len() - start);
    }
    if start < cs.len() && cs[start] == '"' {
        take_field_body(cs, start + 1)
    } else {
        None
    }
}

/// Scans one quoted flag field starting at position `start`.
fn take_flag_field(cs: &Vec<char>, start: usize) -> (r: Option<(bool, usize)>)
    requires
        start <= cs@.len(),
    ensures
        match parse_flag_field(cs@.skip(start as int)) {
            Some(p) => r matches Some(q) && q.0 == p.0 && start < q.1 <= cs@.len() && cs@.skip(
                q.1 as int,
            ) == p.1,
            None => r is None,
        },
{
    match take_field(cs, start) {
        None => None,
        Some((content, j)) => {
            if content.len() == 0 {
                Some((false, j))
            } else if content.len() == 1 && content[0] == 'Y' {
                Some((true, j))
            } else {
                None
            }
        },
    }
}

/// Scans one data row starting at position `start`.
fn take_row(cs: &Vec<char>, start: usize) -> (r: Option<(AggregateRecord, usize)>)
    requires
        start <= cs@.len(),
    ensures
        match parse_row(cs@.skip(start as int)) {
            Some(p) => r matches Some(q) && row_view(q.0) == p.0 && start < q.1 <= cs@.len()
                && cs@.skip(q.1 as int) == p.1,
            None => r is None,
        },
{
    let login = match take_field(cs, start) {
        None => {
            return None;
        },
        Some(x) => x,
    };
    let j1 = match take_char(cs, login.1, ',') {
        None => {
            return None;
        },
        Some(j) => j,
    };
    let forked = match take_flag_field(cs, j1) {
        None => {
            return None;
        },
        Some(x) => x,
    };
    let j2 = match take_char(cs, forked.1, ',') {
        None => {
            return None;
        },
        Some(j) => j,
    };
    let starred = match take_flag_field(cs, j2) {
        None => {
            return None;
        },
        Some(x) => x,
    };
    let j3 = match take_char(cs, starred.1, ',') {
        None => {
            return None;
        },
        Some(j) => j,
    };
    let watching = match take_flag_field(cs, j3) {
        None => {
            return None;
        },
        Some(x) => x,
    };
    let j4 = match take_char(cs, watching.1, ',') {
        None => {
            return None;
        },
        Some(j) => j,
    };
    let email = match take_field(cs, j4) {
        None => {
            return None;
        },
        Some(x) => x,
    };
    let j5 = match take_char(cs, email.1, ',') {
        None => {
            return None;
        },
        Some(j) => j,
    };
    let twitter = match take_field(cs, j5) {
        None => {
            return None;
        },
        Some(x) => x,
    };
    let j6 = match take_char(cs, twitter.1, '\n') {
        None => {
            return None;
        },
        Some(j) => j,
    };
    let rec = AggregateRecord {
        login: string_of(&login.0),
        forked: forked.0,
        starred: starred.0,
        watching: watching.0,
        email: string_of(&email.0),
        twitter: string_of(&twitter.0),
    };
    Some((rec, j6))
}

/// Parses a rendered table back into aggregate records. Succeeds on exactly
/// the strings the renderer produces shape-wise: the header row followed by
/// well-formed quoted rows; anything else is a deserialization error.
pub fn parse_csv(s: &str) -> (r: Result<Vec<AggregateRecord>, TrackError>)
    ensures
        match parse_csv_spec(s@) {
            Some(rows) => r matches Ok(recs) && rows_view(recs@) == rows,
            None => r matches Err(e) && e == TrackError::DeserializeError,
        },
{
    let cs = chars_of(s);
    let header = chars_of("\"Name\",\"Forked\",\"Starred\",\"Watching\",\"Email\",\"Twitter\"\n");
    let h = header.len();
    if cs.len() < h {
        return Err(TrackError::DeserializeError);
    }
    let mut k: usize = 0;
    while k < h
        invariant
            k <= h,
            h == csv_header().len(),
            h <= cs@.len(),
            cs@ == s@,
            header@ == csv_header(),
            forall|j: int| 0 <= j < k ==> cs@[j] == csv_header()[j],
        decreases h - k,
    {
        if cs[k] != header[k] {
            proof {
                assert(s@.take(csv_header().len() as int)[k as int] != csv_header()[k as int]);
            }
            return Err(TrackError::DeserializeError);
        }
        k = k + 1;
    }
    proof {
        assert(s@.take(csv_header().len() as int) =~= csv_header());
    }
    let mut recs: Vec<AggregateRecord> = Vec::new();
    let mut i: usize = h;
    loop
        invariant
            h <= i <= cs@.len(),
            cs@ == s@,
            h == csv_header().len(),
            s@.take(h as int) == csv_header(),
            match parse_rows(cs@.skip(i as int)) {
                Some(more) => parse_rows(cs@.skip(h as int)) == Some::<Seq<RowData>>(
                    rows_view(recs@) + more,
                ),
                None => parse_rows(cs@.skip(h as int)) is None,
            },
        decreases cs@.len() - i,
    {
        if i >= cs.len() {
            proof {
                assert(cs@.skip(i as int) =~= Seq::<char>::empty());
                assert(rows_view(recs@) + Seq::<RowData>::empty() =~= rows_view(recs@));
            }
            return Ok(recs);
        }
        let ghost s_i = cs@.skip(i as int);
        proof {
            assert(s_i.len() == cs@.len() - i);
        }
        match take_row(&cs, i) {
            None => {
                return Err(TrackError::DeserializeError);
            },
            Some((rec, j)) => {
                proof {
                    let p = parse_row(s_i)->0;
                    assert(cs@.skip(j as int).len() < s_i.len());
                    match parse_rows(cs@.skip(j as int)) {
                        Some(more2) => {
                            assert(parse_rows(s_i) == Some::<Seq<RowData>>(
                                seq![row_view(rec)] + more2,
                            ));
                            assert(rows_view(recs@.push(rec)) =~= rows_view(recs@) + seq![
                                row_view(rec),
                            ]);
                            assert(rows_view(recs@) + (seq![row_view(rec)] + more2) =~= (
                            rows_view(recs@) + seq![row_view(rec)]) + more2);
                        },
                        None => {},
                    }
                }
                recs.push(rec);
                i = j;
            },
        }
    }
}

/// One rendered Markdown table row: the six cells between pipes.
pub open spec fn md_row(r: RowData) -> Seq<char> {
    "| "@ + r.login + " | "@ + flag_text(r.forked) + " | "@ + flag_text(r.starred) + " | "@
        + flag_text(r.watching) + " | "@ + r.email + " | "@ + r.twitter + " |\n"@
}

/// The rendered Markdown data rows, in order.
pub open spec fn md_rows(rows: Seq<RowData>) -> Seq<char>
    decreases rows.len(),
{
    if rows.len() == 0 {
        Seq::empty()
    } else {
        md_row(rows[0]) + md_rows(rows.drop_first())
    }
}

/// The Markdown header row and its separator row.
pub open spec fn md_header() -> Seq<char> {
    "| Name | Forked | Starred | Watching | Email | Twitter |\n"@ + "|---|---|---|---|---|---|\n"@
}

/// The whole Markdown table.
pub open spec fn render_markdown_spec(rows: Seq<RowData>) -> Seq<char> {
    md_header() + md_rows(rows)
}

/// Rendered Markdown rows concatenate.
proof fn lemma_md_rows_add(a: Seq<RowData>, b: Seq<RowData>)
    ensures
        md_rows(a + b) == md_rows(a) + md_rows(b),
    decreases a.len(),
{
    if a.len() == 0 {
        assert(a + b =~= b);
        assert(md_rows(a) + md_rows(b) =~= md_rows(b));
    } else {
        assert((a + b)[0] == a[0]);
        assert((a + b).drop_first() =~= a.drop_first() + b);
        lemma_md_rows_add(a.drop_first(), b);
        assert(md_row(a[0]) + (md_rows(a.drop_first()) + md_rows(b)) =~= (md_row(a[0]) + md_rows(
            a.drop_first(),
        )) + md_rows(b));
    }
}

proof fn lemma_md_rows_singleton(r: RowData)
    ensures
        md_rows(seq![r]) == md_row(r),
{
    assert(seq![r].drop_first() =~= Seq::<RowData>::empty());
    assert(md_row(r) + md_rows(Seq::<RowData>::empty()) =~= md_row(r));
}

/// Appends one Markdown table row for `rec`.
#[verifier::rlimit(50)]
fn append_md_row(out: &mut String, rec: &AggregateRecord)
    ensures
        final(out)@ == old(out)@ + md_row(row_view(*rec)),
{
    let ghost base = out@;
    proof {
        reveal_strlit("Y");
        assert("Y"@ =~= seq!['Y']);
    }
    out.append("| ");
    out.append(rec.login.as_str());
    out.append(" | ");
    if rec.forked {
        out.append("Y");
    }
    out.append(" | ");
    if rec.starred {
        out.append("Y");
    }
    out.append(" | ");
    if rec.watching {
        out.append("Y");
    }
    out.append(" | ");
    out.append(rec.email.as_str());
    out.append(" | ");
    out.append(rec.twitter.as_str());
    out.append(" |\n");
    proof {
        assert(out@ =~= base + md_row(row_view(*rec)));
    }
}

/// Renders the aggregate records as a Markdown table: the header row, the
/// separator row, then one row per record. An empty aggregate renders the
/// header and separator rows alone.
pub fn render_markdown(records: &Vec<AggregateRecord>) -> (out: String)
    ensures
        out@ == render_markdown_spec(rows_view(records@)),
        records@.len() == 0 ==> out@ == md_header(),
{
    let mut out = String::new();
    out.append("| Name | Forked | Starred | Watching | Email | Twitter |\n");
    out.append("|---|---|---|---|---|---|\n");
    let mut i: usize = 0;
    proof {
        assert(rows_view(records@).take(0) =~= Seq::<RowData>::empty());
        assert(out@ =~= md_header() + md_rows(rows_view(records@).take(0)));
    }
    while i < records.len()
        invariant
            i <= records@.len(),
            out@ == md_header() + md_rows(rows_view(records@).take(i as int)),
        decreases records@.len() - i,
    {
        append_md_row(&mut out, &records[i]);
        proof {
            let rows = rows_view(records@);
            assert(rows.take(i as int + 1) =~= rows.take(i as int) + seq![rows[i as int]]);
            lemma_md_rows_add(rows.take(i as int), seq![rows[i as int]]);
            lemma_md_rows_singleton(rows[i as int]);
            assert(rows[i as int] == row_view(records@[i as int]));
            assert(out@ =~= md_header() + md_rows(rows.take(i as int + 1)));
        }
        i = i + 1;
    }
    proof {
        assert(rows_view(records@).take(records@.len() as int) =~= rows_view(records@));
        if records@.len() == 0 {
            assert(out@ =~= md_header());
        }
    }
    out
}

/// The whole reporting pipeline after collection: merges the three relation
/// sequences into one record per login and renders the Markdown report. The
/// result is fully determined by the observed events and the profile lookups.
pub fn report_as_md(
    fork_events: &Vec<RelationEvent>,
    star_events: &Vec<RelationEvent>,
    watch_events: &Vec<RelationEvent>,
    profiles: &Vec<ProfileRecord>,
) -> (report: String)
    ensures
        report@ == render_markdown_spec(
            aggregate_rows(fork_events@ + star_events@ + watch_events@, profiles@),
        ),
{
    let records = aggregate(fork_events, star_events, watch_events, profiles);
    proof {
        lemma_aggregate_rows(
            records@,
            fork_events@ + star_events@ + watch_events@,
            profiles@,
        );
    }
    render_markdown(&records)
}

} // verus!
