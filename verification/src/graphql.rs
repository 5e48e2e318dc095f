use vstd::prelude::*;
use vstd::string::StrSliceExecFns;
use vstd::string::StringExecFns;
use crate::decimal::{all_dec_digits, parse_u64, spec_parse_u64};
use crate::errors::Error;

verus! {

/// The remote commit-graph API client's configuration: its bearer token.
/// The network calls themselves live outside the library; the query texts,
/// the response classification and the retry decisions are made here.
pub struct GitHubGraphQL {
    pub api_key: String,
}

impl GitHubGraphQL {
    pub fn new(api_key: &str) -> (c: Self)
        ensures
            c.api_key@ == api_key@,
    {
        GitHubGraphQL { api_key: api_key.to_owned() }
    }
}

/// The query that lists a page of the user's repositories, resuming from
/// `cursor` unless it is empty.
pub fn repos_query(username: &str, cursor: &str) -> (q: String)
    ensures
        cursor@.len() == 0 ==> q@ == "query { user(login: \""@ + username@
            + "\") { repositories(first: 100, ownerAffiliations: OWNER) { nodes { name isFork owner { login } } pageInfo { endCursor hasNextPage } } } }"@,
        cursor@.len() > 0 ==> q@ == "query { user(login: \""@ + username@
            + "\") { repositories(first: 100, ownerAffiliations: OWNER, after: \""@ + cursor@
            + "\") { nodes { name isFork owner { login } } pageInfo { endCursor hasNextPage } } } }"@,
{
    let mut q = String::from_str("query { user(login: \"");
    q.append(username);
    if cursor.unicode_len() == 0 {
        q.append(
            "\") { repositories(first: 100, ownerAffiliations: OWNER) { nodes { name isFork owner { login } } pageInfo { endCursor hasNextPage } } } }",
        );
    } else {
        q.append("\") { repositories(first: 100, ownerAffiliations: OWNER, after: \"");
        q.append(cursor);
        q.append(
            "\") { nodes { name isFork owner { login } } pageInfo { endCursor hasNextPage } } } }",
        );
    }
    q
}

/// The combined first query for one repository: the default branch's commit
/// total with up to the two newest commits and their page cursor inlined.
pub fn cursor_or_last_commit_query(name: &str, owner: &str) -> (q: String)
    ensures
        q@ == "query { repository(name: \""@ + name@ + "\", owner: \""@ + owner@
            + "\") { defaultBranchRef { target { ... on Commit { history(first: 2) { totalCount nodes { message committedDate } pageInfo { endCursor } } } } } } }"@,
{
    let mut q = String::from_str("query { repository(name: \"");
    q.append(name);
    q.append("\", owner: \"");
    q.append(owner);
    q.append(
        "\") { defaultBranchRef { target { ... on Commit { history(first: 2) { totalCount nodes { message committedDate } pageInfo { endCursor } } } } } } }",
    );
    q
}

/// The follow-up query that resumes the history from a seek cursor, landing
/// on the oldest commits.
pub fn last_commit_query(name: &str, owner: &str, cursor: &str) -> (q: String)
    ensures
        q@ == "query { repository(name: \""@ + name@ + "\", owner: \""@ + owner@
            + "\") { defaultBranchRef { target { ... on Commit { history(first: 2, after: \""@
            + cursor@
            + "\") { totalCount nodes { message committedDate } pageInfo { endCursor } } } } } } }"@,
{
    let mut q = String::from_str("query { repository(name: \"");
    q.append(name);
    q.append("\", owner: \"");
    q.append(owner);
    q.append("\") { defaultBranchRef { target { ... on Commit { history(first: 2, after: \"");
    q.append(cursor);
    q.append("\") { totalCount nodes { message committedDate } pageInfo { endCursor } } } } } } }");
    q
}

pub open spec fn is_success_status(status: int) -> bool {
    200 <= status < 300
}

pub open spec fn is_rate_limit_status(status: int) -> bool {
    status == 403
}

/// One reply of the remote API as the transport hands it over: the status
/// code, the advertised retry wait if any, and the raw body.
pub struct HttpReply {
    pub status: u16,
    pub retry_after: Option<String>,
    pub body: String,
}

/// What the client does with one reply.
pub enum ResponseAction {
    /// A success status: the raw body is handed to the caller for decoding.
    Completed(String),
    /// A rate-limit status: wait this many seconds, then re-issue the same
    /// query.
    RetryAfter(u64),
    /// Any other status fails immediately and is never retried.
    Failed { status: u16, body: String },
}

/// The server-directed wait in seconds: the advertised value when it is
/// present and written in decimal digits, three seconds otherwise.
pub open spec fn spec_retry_wait(header: Option<Seq<char>>) -> int {
    match header {
        Some(s) => {
            if s.len() > 0 && all_dec_digits(s) && spec_parse_u64(s) <= u64::MAX {
                spec_parse_u64(s)
            } else {
                3
            }
        },
        None => 3,
    }
}

pub fn retry_wait_seconds(header: &Option<String>) -> (w: u64)
    ensures
        w == spec_retry_wait(
            match header {
                Some(s) => Some(s@),
                None => None,
            },
        ),
{
    match header {
        Some(s) => match parse_u64(s.as_str()) {
            Some(v) => v,
            None => 3,
        },
        None => 3,
    }
}

/// Sorts one reply into the client's three cases: success completes with the
/// body, a rate limit asks for a server-directed wait and a retry, anything
/// else fails with its status and body.
pub fn classify_response(reply: &HttpReply) -> (r: ResponseAction)
    ensures
        if is_success_status(reply.status as int) {
            r matches ResponseAction::Completed(b) && b == reply.body
        } else if is_rate_limit_status(reply.status as int) {
            r matches ResponseAction::RetryAfter(w) && w == spec_retry_wait(
                match reply.retry_after {
                    Some(s) => Some(s@),
                    None => None,
                },
            )
        } else {
            r matches ResponseAction::Failed { status, body } && status == reply.status && body
                == reply.body
        },
{
    if 200 <= reply.status && reply.status < 300 {
        ResponseAction::Completed(reply.body.clone())
    } else if reply.status == 403 {
        ResponseAction::RetryAfter(retry_wait_seconds(&reply.retry_after))
    } else {
        ResponseAction::Failed { status: reply.status, body: reply.body.clone() }
    }
}

/// The index of the first reply that is not rate-limited, or the sequence's
/// length when every reply is.
pub open spec fn first_settled(replies: Seq<HttpReply>) -> int
    decreases replies.len(),
{
    if replies.len() == 0 {
        0
    } else if !is_rate_limit_status(replies[0].status as int) {
        0
    } else {
        1 + first_settled(replies.skip(1))
    }
}

proof fn lemma_first_settled_at(replies: Seq<HttpReply>, i: int)
    requires
        0 <= i <= replies.len(),
        forall|j: int| 0 <= j < i ==> is_rate_limit_status(
            (#[trigger] replies[j]).status as int,
        ),
        i == replies.len() || !is_rate_limit_status(replies[i].status as int),
    ensures
        first_settled(replies) == i,
    decreases i,
{
    if i > 0 {
        assert(forall|j: int| 0 <= j < i - 1 ==> replies.skip(1)[j] == replies[j + 1]);
        lemma_first_settled_at(replies.skip(1), i - 1);
    }
}

/// What the retry loop makes of a sequence of replies to one query: every
/// rate-limited reply is consumed by a retry, the first other reply settles
/// the call, and a sequence of nothing but rate limits settles nothing.
/// The second component counts the retries that were issued.
pub fn outcome_of_replies(replies: Vec<HttpReply>) -> (r: (Option<Result<String, Error>>, usize))
    ensures
        r.1 == first_settled(replies@),
        ({
            let i = first_settled(replies@);
            if i < replies@.len() {
                if is_success_status(replies@[i].status as int) {
                    r.0 matches Some(out) && out matches Ok(b) && b == replies@[i].body
                } else {
                    r.0 matches Some(out) && (out matches Err(e) && e matches
                        Error::RemoteRequestFailed { status, body } && status == replies@[i].status
                        && body == replies@[i].body)
                }
            } else {
                r.0 is None
            }
        }),
{
    let mut i: usize = 0;
    while i < replies.len()
        invariant
            0 <= i <= replies@.len(),
            forall|j: int| 0 <= j < i ==> is_rate_limit_status(
                (#[trigger] replies@[j]).status as int,
            ),
        decreases replies@.len() - i,
    {
        match classify_response(&replies[i]) {
            ResponseAction::Completed(body) => {
                proof {
                    lemma_first_settled_at(replies@, i as int);
                }
                return (Some(Ok(body)), i);
            },
            ResponseAction::Failed { status, body } => {
                proof {
                    lemma_first_settled_at(replies@, i as int);
                }
                return (Some(Err(Error::RemoteRequestFailed { status, body })), i);
            },
            ResponseAction::RetryAfter(_) => {
                i = i + 1;
            },
        }
    }
    proof {
        lemma_first_settled_at(replies@, i as int);
    }
    (None, i)
}

} // verus!
