use repo_birthday::crawler::{collect_results, sort_by_days, AdmissionGate, Crawl, CrawlOutcome};
use repo_birthday::date::{Date, DateTime};
use repo_birthday::errors::Error;
use repo_birthday::models::FirstCommit;

fn commit(message: &str, month: u8, day: u8) -> FirstCommit {
    FirstCommit {
        message: String::from(message),
        date: DateTime { date: Date { year: 2020, month, day }, hour: 0, minute: 0, second: 0 },
        name: String::from(message),
        owner: String::from("someone"),
    }
}

fn today() -> Date {
    Date { year: 2023, month: 1, day: 1 }
}

fn failure() -> Error {
    Error::RepositoryResolutionFailed {
        owner: String::from("someone"),
        name: String::from("broken"),
        cause: Box::new(Error::CursorMissing),
    }
}

#[test]
fn sorting_is_ascending_and_stable() {
    // Days to the next anniversary as seen from 2023-01-01:
    // "a" and "d" fall 5 days out, "b" 0 days, "c" 300 days.
    let records = vec![
        commit("a", 1, 6),
        commit("b", 1, 1),
        commit("c", 10, 28),
        commit("d", 1, 6),
    ];
    let sorted = sort_by_days(records, &today());
    let names: Vec<&str> = sorted.iter().map(|fc| fc.message.as_str()).collect();
    assert_eq!(names, vec!["b", "a", "d", "c"]);
    let keys: Vec<i64> = sorted.iter().map(|fc| fc.days_to_next_aniversary(&today())).collect();
    assert_eq!(keys, vec![0, 5, 5, 300]);
}

#[test]
fn collect_results_sorts_the_successes() {
    let outcomes: Vec<CrawlOutcome> = vec![
        Ok(Some(commit("a", 1, 6))),
        Ok(None),
        Ok(Some(commit("b", 1, 1))),
        Ok(Some(commit("c", 10, 28))),
    ];
    let sorted = collect_results(outcomes, &today()).unwrap();
    let names: Vec<&str> = sorted.iter().map(|fc| fc.message.as_str()).collect();
    assert_eq!(names, vec!["b", "a", "c"]);
}

#[test]
fn first_failure_aborts_the_crawl_and_identifies_the_repository() {
    let outcomes: Vec<CrawlOutcome> = vec![
        Ok(Some(commit("a", 1, 6))),
        Ok(None),
        Err(failure()),
        Ok(Some(commit("b", 1, 1))),
    ];
    match collect_results(outcomes, &today()) {
        Err(Error::RepositoryResolutionFailed { owner, name, .. }) => {
            assert_eq!(owner, "someone");
            assert_eq!(name, "broken");
        },
        _ => panic!("expected the crawl to abort with the failure"),
    }
}

#[test]
fn crawl_collector_counts_and_discards_after_a_failure() {
    let mut crawl = Crawl::new(4);
    assert!(!crawl.done());
    crawl.on_completion(Ok(Some(commit("a", 1, 6))));
    assert!(!crawl.done());
    crawl.on_completion(Err(failure()));
    assert!(crawl.done());
    crawl.on_completion(Ok(Some(commit("b", 1, 1))));
    crawl.on_completion(Ok(None));
    assert!(crawl.done());
    assert!(crawl.finish(&today()).is_err());
}

#[test]
fn crawl_collector_finishes_sorted_without_failures() {
    let mut crawl = Crawl::new(3);
    crawl.on_completion(Ok(Some(commit("a", 1, 6))));
    crawl.on_completion(Ok(Some(commit("b", 1, 1))));
    crawl.on_completion(Ok(None));
    assert!(crawl.done());
    let sorted = crawl.finish(&today()).unwrap();
    let names: Vec<&str> = sorted.iter().map(|fc| fc.message.as_str()).collect();
    assert_eq!(names, vec!["b", "a"]);
}

#[test]
fn gate_admits_at_most_its_limit() {
    let mut gate = AdmissionGate::new(2);
    assert!(gate.try_acquire());
    assert!(gate.try_acquire());
    assert!(!gate.try_acquire());
    gate.release();
    assert!(gate.try_acquire());
    assert!(!gate.try_acquire());
    gate.release();
    gate.release();
    assert!(gate.try_acquire());
}

#[test]
fn gate_bounds_a_crawl_of_many_tasks() {
    // Five tasks push against a gate of two; however the releases and
    // retries interleave, the holders never exceed two.
    let mut gate = AdmissionGate::new(2);
    let mut holders: usize = 0;
    let mut max_holders: usize = 0;
    let mut admitted: usize = 0;
    let mut pending: usize = 5;
    while admitted < 5 {
        if pending > 0 && gate.try_acquire() {
            pending -= 1;
            holders += 1;
            if holders > max_holders {
                max_holders = holders;
            }
        } else {
            gate.release();
            holders -= 1;
            admitted += 1;
        }
    }
    assert_eq!(max_holders, 2);
}

#[test]
fn gate_of_zero_admits_nobody() {
    let mut gate = AdmissionGate::new(0);
    assert!(!gate.try_acquire());
}
