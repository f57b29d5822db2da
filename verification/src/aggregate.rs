//! The identity aggregator: merges the fork, star and watch event sequences
//! into exactly one record per distinct login, resolving contact fields from
//! the profile lookups handed in by the caller.

use vstd::prelude::*;

use crate::model::AggregateRecord;
use crate::model::ProfileRecord;
use crate::model::RelationEvent;
use crate::model::RelationKind;
use crate::model::RowData;
use crate::model::rows_view;

verus! {

/// Some event in `evs` relates `login` to the repository with relation `kind`.
pub open spec fn has_kind(evs: Seq<RelationEvent>, login: Seq<char>, kind: RelationKind) -> bool {
    exists|i: int|
        0 <= i < evs.len() && (#[trigger] evs[i]).login@ == login && evs[i].kind == kind
}

/// `login` was observed somewhere in `evs`, under any relation.
pub open spec fn appears(evs: Seq<RelationEvent>, login: Seq<char>) -> bool {
    exists|i: int| 0 <= i < evs.len() && (#[trigger] evs[i]).login@ == login
}

/// The distinct logins of `evs` in order of first observation.
pub open spec fn distinct_logins(evs: Seq<RelationEvent>) -> Seq<Seq<char>>
    decreases evs.len(),
{
    if evs.len() == 0 {
        Seq::empty()
    } else {
        let pre = distinct_logins(evs.drop_last());
        if pre.contains(evs.last().login@) {
            pre
        } else {
            pre.push(evs.last().login@)
        }
    }
}

/// The email that the first profile lookup for `login` resolved, or empty when
/// no lookup for it succeeded.
pub open spec fn contact_email(profiles: Seq<ProfileRecord>, login: Seq<char>) -> Seq<char>
    decreases profiles.len(),
{
    if profiles.len() == 0 {
        Seq::empty()
    } else if profiles[0].login@ == login {
        profiles[0].email@
    } else {
        contact_email(profiles.drop_first(), login)
    }
}

/// The Twitter handle that the first profile lookup for `login` resolved, or
/// empty when no lookup for it succeeded.
pub open spec fn contact_twitter(profiles: Seq<ProfileRecord>, login: Seq<char>) -> Seq<char>
    decreases profiles.len(),
{
    if profiles.len() == 0 {
        Seq::empty()
    } else if profiles[0].login@ == login {
        profiles[0].twitter@
    } else {
        contact_twitter(profiles.drop_first(), login)
    }
}

/// The logins of the aggregate records, in order.
pub open spec fn record_logins(recs: Seq<AggregateRecord>) -> Seq<Seq<char>> {
    recs.map_values(|r: AggregateRecord| r.login@)
}

/// One record agrees with the observations: each flag holds exactly when the
/// matching relation was observed for its login, and the contact fields are
/// the ones the profile lookups resolved.
pub open spec fn record_matches(
    r: AggregateRecord,
    evs: Seq<RelationEvent>,
    profiles: Seq<ProfileRecord>,
) -> bool {
    &&& r.forked == has_kind(evs, r.login@, RelationKind::Fork)
    &&& r.starred == has_kind(evs, r.login@, RelationKind::Star)
    &&& r.watching == has_kind(evs, r.login@, RelationKind::Watch)
    &&& r.email@ == contact_email(profiles, r.login@)
    &&& r.twitter@ == contact_twitter(profiles, r.login@)
}

/// The aggregate of `evs` under `profiles`: one record per distinct login in
/// order of first observation, each agreeing with the observations.
pub open spec fn aggregate_ok(
    recs: Seq<AggregateRecord>,
    evs: Seq<RelationEvent>,
    profiles: Seq<ProfileRecord>,
) -> bool {
    &&& record_logins(recs) == distinct_logins(evs)
    &&& forall|i: int| 0 <= i < recs.len() ==> record_matches(#[trigger] recs[i], evs, profiles)
}

proof fn lemma_contains_push<A>(s: Seq<A>, x: A, y: A)
    ensures
        s.push(x).contains(y) <==> (s.contains(y) || x == y),
{
    if s.push(x).contains(y) {
        let i = choose|i: int| 0 <= i < s.push(x).len() && s.push(x)[i] == y;
        if i < s.len() {
            assert(s[i] == y);
        }
    }
    if s.contains(y) {
        let i = choose|i: int| 0 <= i < s.len() && s[i] == y;
        assert(s.push(x)[i] == y);
    }
    if x == y {
        assert(s.push(x)[s.len() as int] == y);
    }
}

proof fn lemma_appears_push(evs: Seq<RelationEvent>, ev: RelationEvent, login: Seq<char>)
    ensures
        appears(evs.push(ev), login) <==> (appears(evs, login) || ev.login@ == login),
{
    if appears(evs.push(ev), login) {
        let i = choose|i: int| 0 <= i < evs.push(ev).len() && evs.push(ev)[i].login@ == login;
        if i < evs.len() {
            assert(evs[i].login@ == login);
        }
    }
    if appears(evs, login) {
        let i = choose|i: int| 0 <= i < evs.len() && evs[i].login@ == login;
        assert(evs.push(ev)[i].login@ == login);
    }
    if ev.login@ == login {
        assert(evs.push(ev)[evs.len() as int].login@ == login);
    }
}

proof fn lemma_has_kind_push(
    evs: Seq<RelationEvent>,
    ev: RelationEvent,
    login: Seq<char>,
    kind: RelationKind,
)
    ensures
        has_kind(evs.push(ev), login, kind) <==> (has_kind(evs, login, kind) || (ev.login@
            == login && ev.kind == kind)),
{
    if has_kind(evs.push(ev), login, kind) {
        let i = choose|i: int|
            0 <= i < evs.push(ev).len() && evs.push(ev)[i].login@ == login && evs.push(
                ev,
            )[i].kind == kind;
        if i < evs.len() {
            assert(evs[i].login@ == login && evs[i].kind == kind);
        }
    }
    if has_kind(evs, login, kind) {
        let i = choose|i: int| 0 <= i < evs.len() && evs[i].login@ == login && evs[i].kind == kind;
        assert(evs.push(ev)[i].login@ == login && evs.push(ev)[i].kind == kind);
    }
    if ev.login@ == login && ev.kind == kind {
        assert(evs.push(ev)[evs.len() as int].login@ == login);
    }
}

proof fn lemma_has_kind_implies_appears(evs: Seq<RelationEvent>, login: Seq<char>)
    ensures
        forall|kind: RelationKind| #[trigger]
            has_kind(evs, login, kind) ==> appears(evs, login),
{
    assert forall|kind: RelationKind| #[trigger]
        has_kind(evs, login, kind) implies appears(evs, login) by {
        let i = choose|i: int| 0 <= i < evs.len() && evs[i].login@ == login && evs[i].kind == kind;
        assert(evs[i].login@ == login);
    }
}

/// A login stands among the distinct logins exactly when it was observed.
pub proof fn lemma_distinct_contains(evs: Seq<RelationEvent>, login: Seq<char>)
    ensures
        distinct_logins(evs).contains(login) <==> appears(evs, login),
    decreases evs.len(),
{
    if evs.len() == 0 {
    } else {
        let pre = evs.drop_last();
        lemma_distinct_contains(pre, login);
        assert(pre.push(evs.last()) =~= evs);
        lemma_appears_push(pre, evs.last(), login);
        if !distinct_logins(pre).contains(evs.last().login@) {
            lemma_contains_push(distinct_logins(pre), evs.last().login@, login);
        }
    }
}

/// No login occurs twice among the distinct logins.
pub proof fn lemma_distinct_no_dup(evs: Seq<RelationEvent>)
    ensures
        distinct_logins(evs).no_duplicates(),
    decreases evs.len(),
{
    if evs.len() == 0 {
    } else {
        let pre = evs.drop_last();
        lemma_distinct_no_dup(pre);
        let d = distinct_logins(pre);
        let l = evs.last().login@;
        if !d.contains(l) {
            assert forall|i: int, j: int|
                0 <= i < j < d.push(l).len() implies d.push(l)[i] != d.push(l)[j] by {
                if j == d.len() {
                    assert(d[i] == d.push(l)[i]);
                    assert(d.contains(d[i]));
                }
            }
        }
    }
}

/// There is no record for `login` in `recs`.
pub open spec fn no_record_for(recs: Seq<AggregateRecord>, login: Seq<char>) -> bool {
    forall|i: int| 0 <= i < recs.len() ==> (#[trigger] recs[i]).login@ != login
}

/// Finds the index of the record that carries `login`, if any.
fn find_record_index(records: &Vec<AggregateRecord>, login: &String) -> (r: Option<usize>)
    ensures
        match r {
            Some(i) => i < records@.len() && records@[i as int].login@ == login@,
            None => no_record_for(records@, login@),
        },
{
    let mut i: usize = 0;
    while i < records.len()
        invariant
            i <= records@.len(),
            forall|j: int| 0 <= j < i ==> (#[trigger] records@[j]).login@ != login@,
        decreases records@.len() - i,
    {
        if records[i].login == *login {
            return Some(i);
        }
        i = i + 1;
    }
    None
}

/// Resolves the contact fields for `login` from the profile lookups: the first
/// lookup for the login wins; a login without one gets empty fields.
fn lookup_contact(profiles: &Vec<ProfileRecord>, login: &String) -> (r: (String, String))
    ensures
        r.0@ == contact_email(profiles@, login@),
        r.1@ == contact_twitter(profiles@, login@),
{
    let mut j: usize = 0;
    proof {
        assert(profiles@.skip(0) =~= profiles@);
    }
    while j < profiles.len()
        invariant
            j <= profiles@.len(),
            contact_email(profiles@, login@) == contact_email(profiles@.skip(j as int), login@),
            contact_twitter(profiles@, login@) == contact_twitter(
                profiles@.skip(j as int),
                login@,
            ),
        decreases profiles@.len() - j,
    {
        proof {
            assert(profiles@.skip(j as int)[0] == profiles@[j as int]);
            assert(profiles@.skip(j as int).drop_first() =~= profiles@.skip(j as int + 1));
        }
        if profiles[j].login == *login {
            return (profiles[j].email.clone(), profiles[j].twitter.clone());
        }
        j = j + 1;
    }
    proof {
        assert(profiles@.skip(j as int) =~= Seq::<ProfileRecord>::empty());
    }
    (String::new(), String::new())
}

/// Folds one event sequence into the running aggregate. `prior` is the ghost
/// sequence of events already folded in.
fn apply_events(
    records: &mut Vec<AggregateRecord>,
    events: &Vec<RelationEvent>,
    profiles: &Vec<ProfileRecord>,
    Ghost(prior): Ghost<Seq<RelationEvent>>,
)
    requires
        aggregate_ok(old(records)@, prior, profiles@),
    ensures
        aggregate_ok(final(records)@, prior + events@, profiles@),
{
    let mut k: usize = 0;
    proof {
        assert(prior + events@.take(0) =~= prior);
    }
    while k < events.len()
        invariant
            k <= events@.len(),
            aggregate_ok(records@, prior + events@.take(k as int), profiles@),
        decreases events@.len() - k,
    {
        let ghost cur = prior + events@.take(k as int);
        let ghost next = prior + events@.take(k as int + 1);
        let ev = &events[k];
        proof {
            assert(events@.take(k as int + 1) =~= events@.take(k as int).push(events@[k as int]));
            assert(next =~= cur.push(events@[k as int]));
            assert(next.drop_last() =~= cur);
            assert(next.last() == events@[k as int]);
            assert(next.len() == cur.len() + 1);
        }
        let found = find_record_index(records, &ev.login);
        match found {
            None => {
                proof {
                    lemma_distinct_contains(cur, ev.login@);
                    if distinct_logins(cur).contains(ev.login@) {
                        let i = choose|i: int|
                            0 <= i < distinct_logins(cur).len() && distinct_logins(cur)[i]
                                == ev.login@;
                        assert(record_logins(records@)[i] == ev.login@);
                        assert(records@[i].login@ == ev.login@);
                    }
                    assert(!appears(cur, ev.login@));
                    lemma_has_kind_implies_appears(cur, ev.login@);
                }
                let (email, twitter) = lookup_contact(profiles, &ev.login);
                let new_rec = AggregateRecord {
                    login: ev.login.clone(),
                    forked: ev.kind == RelationKind::Fork,
                    starred: ev.kind == RelationKind::Star,
                    watching: ev.kind == RelationKind::Watch,
                    email,
                    twitter,
                };
                proof {
                    lemma_has_kind_push(cur, events@[k as int], ev.login@, RelationKind::Fork);
                    lemma_has_kind_push(cur, events@[k as int], ev.login@, RelationKind::Star);
                    lemma_has_kind_push(cur, events@[k as int], ev.login@, RelationKind::Watch);
                }
                let ghost old_records = records@;
                records.push(new_rec);
                proof {
                    assert(record_logins(records@) =~= record_logins(old_records).push(
                        ev.login@,
                    ));
                    assert(distinct_logins(next) == distinct_logins(cur).push(ev.login@));
                    assert forall|i: int|
                        0 <= i < records@.len() implies record_matches(
                        #[trigger] records@[i],
                        next,
                        profiles@,
                    ) by {
                        if i < old_records.len() {
                            assert(records@[i] == old_records[i]);
                            assert(record_matches(old_records[i], cur, profiles@));
                            lemma_has_kind_push(
                                cur,
                                events@[k as int],
                                old_records[i].login@,
                                RelationKind::Fork,
                            );
                            lemma_has_kind_push(
                                cur,
                                events@[k as int],
                                old_records[i].login@,
                                RelationKind::Star,
                            );
                            lemma_has_kind_push(
                                cur,
                                events@[k as int],
                                old_records[i].login@,
                                RelationKind::Watch,
                            );
                        } else {
                            assert(records@[i] == new_rec);
                        }
                    }
                }
            },
            Some(idx) => {
                proof {
                    assert(record_logins(records@)[idx as int] == records@[idx as int].login@);
                    assert(distinct_logins(cur).contains(ev.login@));
                    assert(distinct_logins(next) == distinct_logins(cur));
                    lemma_distinct_no_dup(cur);
                }
                let ghost old_records = records@;
                let rec = &mut records[idx];
                match ev.kind {
                    RelationKind::Fork => {
                        rec.forked = true;
                    },
                    RelationKind::Star => {
                        rec.starred = true;
                    },
                    RelationKind::Watch => {
                        rec.watching = true;
                    },
                }
                proof {
                    assert(records@ == old_records.update(
                        idx as int,
                        records@[idx as int],
                    ));
                    assert(record_logins(records@) =~= record_logins(old_records));
                    assert forall|i: int|
                        0 <= i < records@.len() implies record_matches(
                        #[trigger] records@[i],
                        next,
                        profiles@,
                    ) by {
                        lemma_has_kind_push(
                            cur,
                            events@[k as int],
                            records@[i].login@,
                            RelationKind::Fork,
                        );
                        lemma_has_kind_push(
                            cur,
                            events@[k as int],
                            records@[i].login@,
                            RelationKind::Star,
                        );
                        lemma_has_kind_push(
                            cur,
                            events@[k as int],
                            records@[i].login@,
                            RelationKind::Watch,
                        );
                        if i != idx {
                            assert(records@[i] == old_records[i]);
                            assert(record_matches(old_records[i], cur, profiles@));
                            assert(record_logins(old_records)[i] != record_logins(
                                old_records,
                            )[idx as int]);
                        } else {
                            assert(record_matches(old_records[idx as int], cur, profiles@));
                        }
                    }
                }
            },
        }
        k = k + 1;
    }
    proof {
        assert(events@.take(events@.len() as int) =~= events@);
    }
}

/// Merges the three relation sequences into one aggregate record per distinct
/// login. Events are folded in order: forks, then stars, then watches; the
/// contact fields come from the first profile lookup for each login, and a
/// login without a successful lookup keeps empty contact fields while its
/// flags are preserved.
pub fn aggregate(
    fork_events: &Vec<RelationEvent>,
    star_events: &Vec<RelationEvent>,
    watch_events: &Vec<RelationEvent>,
    profiles: &Vec<ProfileRecord>,
) -> (records: Vec<AggregateRecord>)
    ensures
        aggregate_ok(records@, fork_events@ + star_events@ + watch_events@, profiles@),
{
    let mut records: Vec<AggregateRecord> = Vec::new();
    proof {
        assert(record_logins(records@) =~= distinct_logins(Seq::<RelationEvent>::empty()));
        assert(aggregate_ok(records@, Seq::<RelationEvent>::empty(), profiles@));
    }
    apply_events(&mut records, fork_events, profiles, Ghost(Seq::empty()));
    proof {
        assert(Seq::<RelationEvent>::empty() + fork_events@ =~= fork_events@);
    }
    apply_events(&mut records, star_events, profiles, Ghost(fork_events@));
    apply_events(&mut records, watch_events, profiles, Ghost(fork_events@ + star_events@));
    records
}

/// The aggregate is complete and duplicate-free: no two records share a
/// login, every record's login was observed, and every observed login has a
/// record.
pub proof fn lemma_aggregate_complete(
    recs: Seq<AggregateRecord>,
    evs: Seq<RelationEvent>,
    profiles: Seq<ProfileRecord>,
)
    requires
        aggregate_ok(recs, evs, profiles),
    ensures
        forall|i: int, j: int|
            0 <= i < j < recs.len() ==> (#[trigger] recs[i]).login@ != (#[trigger] recs[j]).login@,
        forall|i: int| 0 <= i < recs.len() ==> appears(evs, (#[trigger] recs[i]).login@),
        forall|k: int|
            0 <= k < evs.len() ==> exists|i: int|
                0 <= i < recs.len() && (#[trigger] recs[i]).login@ == (#[trigger] evs[k]).login@,
{
    lemma_distinct_no_dup(evs);
    assert forall|i: int, j: int|
        0 <= i < j < recs.len() implies (#[trigger] recs[i]).login@ != (
    #[trigger] recs[j]).login@ by {
        assert(record_logins(recs)[i] == recs[i].login@);
        assert(record_logins(recs)[j] == recs[j].login@);
    }
    assert forall|i: int| 0 <= i < recs.len() implies appears(evs, (#[trigger] recs[i]).login@) by {
        assert(record_logins(recs)[i] == recs[i].login@);
        assert(distinct_logins(evs).contains(recs[i].login@));
        lemma_distinct_contains(evs, recs[i].login@);
    }
    assert forall|k: int| 0 <= k < evs.len() implies exists|i: int|
        0 <= i < recs.len() && (#[trigger] recs[i]).login@ == (#[trigger] evs[k]).login@ by {
        let login = evs[k].login@;
        assert(appears(evs, login));
        lemma_distinct_contains(evs, login);
        let d = choose|d: int|
            0 <= d < distinct_logins(evs).len() && distinct_logins(evs)[d] == login;
        assert(record_logins(recs)[d] == login);
        assert(recs[d].login@ == login);
    }
}

/// Whoever watches the repository is reported as watching, whatever the order
/// the relations were discovered in; the same holds of the fork and star
/// flags.
pub proof fn lemma_flag_reported(
    recs: Seq<AggregateRecord>,
    evs: Seq<RelationEvent>,
    profiles: Seq<ProfileRecord>,
    login: Seq<char>,
    kind: RelationKind,
)
    requires
        aggregate_ok(recs, evs, profiles),
        has_kind(evs, login, kind),
    ensures
        exists|i: int|
            0 <= i < recs.len() && (#[trigger] recs[i]).login@ == login && (match kind {
                RelationKind::Fork => recs[i].forked,
                RelationKind::Star => recs[i].starred,
                RelationKind::Watch => recs[i].watching,
            }),
{
    lemma_has_kind_implies_appears(evs, login);
    lemma_distinct_contains(evs, login);
    let d = choose|d: int| 0 <= d < distinct_logins(evs).len() && distinct_logins(evs)[d] == login;
    assert(record_logins(recs)[d] == login);
    assert(recs[d].login@ == login);
    assert(record_matches(recs[d], evs, profiles));
}

/// The aggregate as pure mathematics: one row per distinct login in order of
/// first observation, flags and contact fields read off the observations.
pub open spec fn aggregate_rows(evs: Seq<RelationEvent>, profiles: Seq<ProfileRecord>) -> Seq<
    RowData,
> {
    distinct_logins(evs).map_values(
        |l: Seq<char>|
            RowData {
                login: l,
                forked: has_kind(evs, l, RelationKind::Fork),
                starred: has_kind(evs, l, RelationKind::Star),
                watching: has_kind(evs, l, RelationKind::Watch),
                email: contact_email(profiles, l),
                twitter: contact_twitter(profiles, l),
            },
    )
}

/// Any aggregate that satisfies `aggregate_ok` has exactly the mathematical
/// content `aggregate_rows` describes.
pub proof fn lemma_aggregate_rows(
    recs: Seq<AggregateRecord>,
    evs: Seq<RelationEvent>,
    profiles: Seq<ProfileRecord>,
)
    requires
        aggregate_ok(recs, evs, profiles),
    ensures
        rows_view(recs) == aggregate_rows(evs, profiles),
{
    assert forall|i: int|
        0 <= i < recs.len() implies rows_view(recs)[i] == aggregate_rows(evs, profiles)[i] by {
        assert(record_logins(recs)[i] == recs[i].login@);
        assert(record_matches(recs[i], evs, profiles));
    }
    assert(rows_view(recs) =~= aggregate_rows(evs, profiles));
}

/// The profile-lookup plan: the distinct logins observed across the three
/// relations, in order of first observation. Fetching exactly these looks a
/// profile up at most once per login, and misses none.
pub fn logins_to_fetch(
    fork_events: &Vec<RelationEvent>,
    star_events: &Vec<RelationEvent>,
    watch_events: &Vec<RelationEvent>,
) -> (logins: Vec<String>)
    ensures
        logins@.map_values(|s: String| s@) == distinct_logins(
            fork_events@ + star_events@ + watch_events@,
        ),
        forall|i: int, j: int|
            0 <= i < j < logins@.len() ==> (#[trigger] logins@[i])@ != (#[trigger] logins@[j])@,
        forall|k: int|
            0 <= k < (fork_events@ + star_events@ + watch_events@).len() ==> exists|i: int|
                0 <= i < logins@.len() && (#[trigger] logins@[i])@ == (#[trigger] (fork_events@
                    + star_events@ + watch_events@)[k]).login@,
{
    let mut profiles: Vec<ProfileRecord> = Vec::new();
    let records = aggregate(fork_events, star_events, watch_events, &profiles);
    let ghost evs = fork_events@ + star_events@ + watch_events@;
    proof {
        lemma_aggregate_complete(records@, evs, profiles@);
    }
    let mut logins: Vec<String> = Vec::new();
    let mut i: usize = 0;
    while i < records.len()
        invariant
            i <= records@.len(),
            aggregate_ok(records@, evs, profiles@),
            logins@.len() == i,
            forall|j: int| 0 <= j < i ==> (#[trigger] logins@[j])@ == records@[j].login@,
        decreases records@.len() - i,
    {
        logins.push(records[i].login.clone());
        i = i + 1;
    }
    proof {
        assert(logins@.map_values(|s: String| s@) =~= record_logins(records@));
        lemma_aggregate_complete(records@, evs, profiles@);
        assert forall|i0: int, j0: int|
            0 <= i0 < j0 < logins@.len() implies (#[trigger] logins@[i0])@ != (
        #[trigger] logins@[j0])@ by {
            assert(records@[i0].login@ != records@[j0].login@);
        }
        assert forall|k: int| 0 <= k < evs.len() implies exists|i0: int|
            0 <= i0 < logins@.len() && (#[trigger] logins@[i0])@ == (#[trigger] evs[k]).login@ by {
            let w = choose|w: int| 0 <= w < records@.len() && records@[w].login@ == evs[k].login@;
            assert(logins@[w]@ == evs[k].login@);
        }
    }
    logins
}

} // verus!
