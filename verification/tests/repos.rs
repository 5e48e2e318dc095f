use repo_birthday::errors::Error;
use repo_birthday::repositories::{collect_page, decode_repos_response};

fn listing_body(has_next_page: bool) -> String {
    let mut body = String::from("{\"data\":{\"user\":{\"repositories\":{\"nodes\":[");
    body.push_str("{\"name\":\"original\",\"isFork\":false,\"owner\":{\"login\":\"someone\"}},");
    body.push_str("{\"name\":\"copied\",\"isFork\":true,\"owner\":{\"login\":\"someone\"}},");
    body.push_str("{\"name\":\"another\",\"isFork\":false,\"owner\":{\"login\":\"someone\"}}");
    body.push_str("],\"pageInfo\":{\"endCursor\":\"cur-1\",\"hasNextPage\":");
    body.push_str(if has_next_page { "true" } else { "false" });
    body.push_str("}}}}}");
    body
}

#[test]
fn forks_are_dropped_in_page_order() {
    let resp = decode_repos_response(&listing_body(false)).unwrap();
    let (repos, next) = collect_page(resp.data.user.repositories);
    let names: Vec<&str> = repos.iter().map(|r| r.name.as_str()).collect();
    assert_eq!(names, vec!["original", "another"]);
    assert!(next.is_none());
}

#[test]
fn a_further_page_hands_back_its_cursor() {
    let resp = decode_repos_response(&listing_body(true)).unwrap();
    let (_, next) = collect_page(resp.data.user.repositories);
    assert_eq!(next.unwrap(), "cur-1");
}

#[test]
fn a_broken_listing_keeps_the_raw_body() {
    let body = "{\"data\":{}}";
    match decode_repos_response(body) {
        Err(Error::DecodingFailed { raw_body, .. }) => assert_eq!(raw_body, body),
        _ => panic!("expected a decoding failure"),
    }
}
