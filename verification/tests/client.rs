use repo_birthday::errors::Error;
use repo_birthday::graphql::{
    classify_response, cursor_or_last_commit_query, last_commit_query, outcome_of_replies,
    repos_query, retry_wait_seconds, GitHubGraphQL, HttpReply, ResponseAction,
};

fn reply(status: u16, retry_after: Option<&str>, body: &str) -> HttpReply {
    HttpReply {
        status,
        retry_after: retry_after.map(String::from),
        body: String::from(body),
    }
}

#[test]
fn client_keeps_its_token() {
    let client = GitHubGraphQL::new("token-123");
    assert_eq!(client.api_key, "token-123");
}

#[test]
fn queries_carry_their_arguments() {
    let q = cursor_or_last_commit_query("proj", "someone");
    assert_eq!(
        q,
        "query { repository(name: \"proj\", owner: \"someone\") { defaultBranchRef { target \
         { ... on Commit { history(first: 2) { totalCount nodes { message committedDate } \
         pageInfo { endCursor } } } } } } }"
    );
    let q = last_commit_query("proj", "someone", "abc 3");
    assert_eq!(
        q,
        "query { repository(name: \"proj\", owner: \"someone\") { defaultBranchRef { target \
         { ... on Commit { history(first: 2, after: \"abc 3\") { totalCount nodes { message \
         committedDate } pageInfo { endCursor } } } } } } }"
    );
}

#[test]
fn repos_query_resumes_from_a_cursor() {
    let q = repos_query("someone", "");
    assert!(q.contains("user(login: \"someone\")"));
    assert!(!q.contains("after"));
    let q = repos_query("someone", "cur");
    assert!(q.contains("after: \"cur\""));
}

#[test]
fn success_completes_with_the_body() {
    match classify_response(&reply(200, None, "payload")) {
        ResponseAction::Completed(body) => assert_eq!(body, "payload"),
        _ => panic!("expected completion"),
    }
}

#[test]
fn rate_limit_waits_as_the_server_directs() {
    match classify_response(&reply(403, Some("11"), "slow down")) {
        ResponseAction::RetryAfter(w) => assert_eq!(w, 11),
        _ => panic!("expected a retry"),
    }
    match classify_response(&reply(403, None, "slow down")) {
        ResponseAction::RetryAfter(w) => assert_eq!(w, 3),
        _ => panic!("expected a retry"),
    }
    match classify_response(&reply(403, Some("soon"), "slow down")) {
        ResponseAction::RetryAfter(w) => assert_eq!(w, 3),
        _ => panic!("expected a retry"),
    }
}

#[test]
fn other_statuses_fail_at_once() {
    match classify_response(&reply(500, None, "boom")) {
        ResponseAction::Failed { status, body } => {
            assert_eq!(status, 500);
            assert_eq!(body, "boom");
        },
        _ => panic!("expected a failure"),
    }
}

#[test]
fn retry_wait_defaults_to_three_seconds() {
    assert_eq!(retry_wait_seconds(&None), 3);
    assert_eq!(retry_wait_seconds(&Some(String::from("7"))), 7);
    assert_eq!(retry_wait_seconds(&Some(String::from(""))), 3);
    assert_eq!(retry_wait_seconds(&Some(String::from("99999999999999999999999"))), 3);
}

#[test]
fn one_rate_limit_then_success_retries_exactly_once() {
    let replies = vec![reply(403, Some("1"), "wait"), reply(200, None, "done")];
    let (outcome, retries) = outcome_of_replies(replies);
    assert_eq!(retries, 1);
    match outcome {
        Some(Ok(body)) => assert_eq!(body, "done"),
        _ => panic!("expected a successful outcome"),
    }
}

#[test]
fn immediate_success_needs_no_retry() {
    let (outcome, retries) = outcome_of_replies(vec![reply(204, None, "")]);
    assert_eq!(retries, 0);
    assert!(matches!(outcome, Some(Ok(_))));
}

#[test]
fn a_hard_failure_is_never_retried() {
    let replies = vec![reply(403, None, "wait"), reply(502, None, "bad gateway")];
    let (outcome, retries) = outcome_of_replies(replies);
    assert_eq!(retries, 1);
    match outcome {
        Some(Err(Error::RemoteRequestFailed { status, body })) => {
            assert_eq!(status, 502);
            assert_eq!(body, "bad gateway");
        },
        _ => panic!("expected a request failure"),
    }
}

#[test]
fn nothing_but_rate_limits_settles_nothing() {
    let replies = vec![reply(403, None, "a"), reply(403, Some("2"), "b")];
    let (outcome, retries) = outcome_of_replies(replies);
    assert_eq!(retries, 2);
    assert!(outcome.is_none());
}
