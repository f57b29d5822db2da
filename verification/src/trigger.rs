//! The trigger's decisions: validating the repository identifier before any
//! network work, the run's configuration, and the replies the endpoint sends.

use vstd::prelude::*;
use vstd::string::StringExecFns;

use crate::model::TrackError;
use crate::text::chars_of;
use crate::text::string_of;

verus! {

/// The repository a run tracks.
#[derive(Debug)]
pub struct RepoRef {
    pub owner: String,
    pub repo: String,
}

/// The configuration one run receives from its caller: the repository, the
/// start of the tracked window, and the early-stop threshold for the
/// timestamp-ordered traversals.
pub struct TrackerConfig {
    pub repo: RepoRef,
    pub window_start: i64,
    pub early_stop_threshold: u64,
}

fn find_first_slash(cs: &Vec<char>) -> (r: Option<usize>)
    ensures
        match r {
            Some(i) => i < cs@.len() && cs@[i as int] == '/' && forall|j: int|
                0 <= j < i ==> cs@[j] != '/',
            None => forall|j: int| 0 <= j < cs@.len() ==> cs@[j] != '/',
        },
{
    let mut i: usize = 0;
    while i < cs.len()
        invariant
            i <= cs@.len(),
            forall|j: int| 0 <= j < i ==> cs@[j] != '/',
        decreases cs@.len() - i,
    {
        if cs[i] == '/' {
            return Some(i);
        }
        i = i + 1;
    }
    None
}

/// Splits an `owner/repo` identifier at its first slash. The identifier is
/// valid exactly when it has a slash with a non-empty owner before it and a
/// non-empty repository name after it; anything else is rejected before any
/// network work.
pub fn parse_owner_repo(s: &str) -> (r: Result<RepoRef, TrackError>)
    ensures
        match s@.index_of_first('/') {
            Some(i) => if 0 < i && i + 1 < s@.len() {
                r matches Ok(rr) && rr.owner@ == s@.take(i) && rr.repo@ == s@.skip(i + 1)
            } else {
                r matches Err(e) && e == TrackError::InvalidInput
            },
            None => r matches Err(e) && e == TrackError::InvalidInput,
        },
{
    let cs = chars_of(s);
    let found = find_first_slash(&cs);
    proof {
        cs@.index_of_first_ensures('/');
        match found {
            Some(i) => {
                assert(cs@.contains('/'));
                let k = cs@.index_of_first('/')->0;
                if k < i as int {
                    assert(cs@[k] != '/');
                } else if k > i as int {
                    assert(cs@[i as int] != '/');
                }
                assert(s@.index_of_first('/') == Some(i as int));
            },
            None => {
                if cs@.contains('/') {
                    let w = choose|w: int| 0 <= w < cs@.len() && cs@[w] == '/';
                    assert(cs@[w] != '/');
                }
            },
        }
    }
    match found {
        None => Err(TrackError::InvalidInput),
        Some(i) => {
            let n = cs.len();
            proof {
                assert(i < n);
            }
            if i == 0 || i + 1 >= n {
                Err(TrackError::InvalidInput)
            } else {
                let mut owner_cs: Vec<char> = Vec::new();
                let mut j: usize = 0;
                while j < i
                    invariant
                        j <= i < cs@.len(),
                        owner_cs@ == cs@.take(j as int),
                    decreases i - j,
                {
                    owner_cs.push(cs[j]);
                    proof {
                        assert(cs@.take(j as int + 1) =~= cs@.take(j as int).push(cs@[j as int]));
                    }
                    j = j + 1;
                }
                let mut repo_cs: Vec<char> = Vec::new();
                let mut k: usize = i + 1;
                while k < cs.len()
                    invariant
                        i + 1 <= k <= cs@.len(),
                        repo_cs@ == cs@.subrange(i as int + 1, k as int),
                    decreases cs@.len() - k,
                {
                    repo_cs.push(cs[k]);
                    proof {
                        assert(cs@.subrange(i as int + 1, k as int + 1) =~= cs@.subrange(
                            i as int + 1,
                            k as int,
                        ).push(cs@[k as int]));
                    }
                    k = k + 1;
                }
                proof {
                    assert(cs@.subrange(i as int + 1, cs@.len() as int) =~= cs@.skip(i as int + 1));
                }
                Ok(RepoRef { owner: string_of(&owner_cs), repo: string_of(&repo_cs) })
            }
        },
    }
}

/// One reply of the endpoint: a status code and a plain-text body.
pub struct HttpReply {
    pub status: u16,
    pub body: String,
}

/// The immediate rejection of a request that carries no usable `owner/repo`
/// identifier; sent before any network work.
pub fn invalid_input_reply() -> (r: HttpReply)
    ensures
        r.status == 400,
        r.body@ == "You must provide an owner/repo name."@,
{
    HttpReply { status: 400, body: String::from_str("You must provide an owner/repo name.") }
}

/// The reply for a run whose collection or rendering failed outright.
pub fn failure_reply() -> (r: HttpReply)
    ensures
        r.status == 400,
        r.body@
            == "You've entered invalid owner/repo, or the target is private. Please try again."@,
{
    HttpReply {
        status: 400,
        body: String::from_str(
            "You've entered invalid owner/repo, or the target is private. Please try again.",
        ),
    }
}

/// The reply that carries a finished report.
pub fn success_reply(report: String) -> (r: HttpReply)
    ensures
        r.status == 200,
        r.body == report,
{
    HttpReply { status: 200, body: report }
}

} // verus!
