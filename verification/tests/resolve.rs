use repo_birthday::commits::{
    resolution_failure, resolve_first_page, resolve_seek_page, resolution_of, Resolution,
};
use repo_birthday::date::{Date, DateTime};
use repo_birthday::errors::Error;
use repo_birthday::repositories::{Owner, Repository};

fn repo() -> Repository {
    Repository {
        name: String::from("proj"),
        is_fork: false,
        owner: Owner { login: String::from("someone") },
    }
}

fn history_body(total_count: i64, nodes: &str, end_cursor: &str) -> String {
    let mut body = String::from("{\"data\":{\"repository\":{\"defaultBranchRef\":{\"target\":");
    body.push_str("{\"history\":{\"totalCount\":");
    body.push_str(&total_count.to_string());
    body.push_str(",\"nodes\":[");
    body.push_str(nodes);
    body.push_str("],\"pageInfo\":{\"endCursor\":\"");
    body.push_str(end_cursor);
    body.push_str("\"}}}}}}}");
    body
}

#[test]
fn absent_branch_resolves_to_nothing() {
    let body = "{\"data\":{\"repository\":{\"defaultBranchRef\":null}}}";
    assert!(matches!(resolve_first_page(&repo(), body), Ok(Resolution::Empty)));
    assert!(resolution_of(&repo(), &None).is_ok_and(|r| matches!(r, Resolution::Empty)));
}

#[test]
fn empty_history_resolves_to_nothing() {
    let body = history_body(0, "", "whatever 0");
    assert!(matches!(resolve_first_page(&repo(), &body), Ok(Resolution::Empty)));
}

#[test]
fn single_commit_is_resolved_without_a_second_query() {
    let nodes = "{\"message\":\"first!\",\"committedDate\":\"2019-07-04T08:09:10Z\"}";
    let body = history_body(1, nodes, "abc 0");
    match resolve_first_page(&repo(), &body) {
        Ok(Resolution::Found(fc)) => {
            assert_eq!(fc.message, "first!");
            assert_eq!(fc.name, "proj");
            assert_eq!(fc.owner, "someone");
            assert_eq!(
                fc.date,
                DateTime {
                    date: Date { year: 2019, month: 7, day: 4 },
                    hour: 8,
                    minute: 9,
                    second: 10,
                }
            );
        },
        other => panic!("unexpected resolution: {:?}", other.is_ok()),
    }
}

#[test]
fn longer_history_asks_for_one_seek_query() {
    let nodes = "{\"message\":\"newest\",\"committedDate\":\"2023-01-02T03:04:05Z\"},\
                 {\"message\":\"older\",\"committedDate\":\"2023-01-01T03:04:05Z\"}";
    let body = history_body(5, nodes, "abc 4");
    match resolve_first_page(&repo(), &body) {
        Ok(Resolution::SeekWith(cursor)) => assert_eq!(cursor, "abc 3"),
        _ => panic!("expected a seek cursor"),
    }
}

#[test]
fn single_commit_total_without_nodes_falls_back_to_seeking() {
    let body = history_body(1, "", "abc 0");
    match resolve_first_page(&repo(), &body) {
        Ok(Resolution::SeekWith(cursor)) => assert_eq!(cursor, "abc 0"),
        _ => panic!("expected a seek cursor"),
    }
}

#[test]
fn empty_cursor_on_a_long_history_fails_with_the_repository() {
    let body = history_body(5, "", "");
    match resolve_first_page(&repo(), &body) {
        Err(Error::RepositoryResolutionFailed { owner, name, cause }) => {
            assert_eq!(owner, "someone");
            assert_eq!(name, "proj");
            assert!(matches!(*cause, Error::CursorMissing));
        },
        _ => panic!("expected a wrapped failure"),
    }
}

#[test]
fn malformed_body_fails_with_the_raw_body() {
    let body = "not json at all";
    match resolve_first_page(&repo(), body) {
        Err(Error::RepositoryResolutionFailed { owner, name, cause }) => {
            assert_eq!(owner, "someone");
            assert_eq!(name, "proj");
            match *cause {
                Error::DecodingFailed { raw_body, .. } => assert_eq!(raw_body, body),
                _ => panic!("expected a decoding failure"),
            }
        },
        _ => panic!("expected a wrapped failure"),
    }
}

#[test]
fn malformed_timestamp_is_a_decoding_failure() {
    let nodes = "{\"message\":\"x\",\"committedDate\":\"2019-07-04 08:09:10\"}";
    let body = history_body(1, nodes, "abc 0");
    match resolve_first_page(&repo(), &body) {
        Err(Error::RepositoryResolutionFailed { cause, .. }) => {
            assert!(matches!(*cause, Error::DecodingFailed { .. }));
        },
        _ => panic!("expected a wrapped decoding failure"),
    }
}

#[test]
fn negative_total_count_is_a_decoding_failure() {
    let body = history_body(-1, "", "abc 0");
    assert!(resolve_first_page(&repo(), &body).is_err());
}

#[test]
fn any_failure_is_tagged_with_its_repository() {
    let remote = Error::RemoteRequestFailed { status: 500, body: String::from("boom") };
    match resolution_failure(&repo(), remote) {
        Error::RepositoryResolutionFailed { owner, name, cause } => {
            assert_eq!(owner, "someone");
            assert_eq!(name, "proj");
            match *cause {
                Error::RemoteRequestFailed { status, body } => {
                    assert_eq!(status, 500);
                    assert_eq!(body, "boom");
                },
                _ => panic!("expected the remote failure to be kept"),
            }
        },
        _ => panic!("expected a wrapped failure"),
    }
}

#[test]
fn seek_page_resolves_to_its_oldest_node() {
    let nodes = "{\"message\":\"second\",\"committedDate\":\"2015-05-06T07:08:09Z\"},\
                 {\"message\":\"the very first\",\"committedDate\":\"2015-05-05T00:00:00Z\"}";
    let body = history_body(5, nodes, "abc 4");
    match resolve_seek_page(&repo(), &body) {
        Ok(Some(fc)) => {
            assert_eq!(fc.message, "the very first");
            assert_eq!(fc.date.date, Date { year: 2015, month: 5, day: 5 });
            assert_eq!(fc.name, "proj");
            assert_eq!(fc.owner, "someone");
        },
        _ => panic!("expected the oldest commit"),
    }
}

#[test]
fn seek_page_without_nodes_resolves_to_nothing() {
    let body = history_body(5, "", "abc 4");
    assert!(matches!(resolve_seek_page(&repo(), &body), Ok(None)));
    let absent = "{\"data\":{\"repository\":{\"defaultBranchRef\":null}}}";
    assert!(matches!(resolve_seek_page(&repo(), absent), Ok(None)));
}
