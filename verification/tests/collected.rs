use site::collector::{Commit, Date};
use site::load::{CurrentState, Issue, Persistent, TryCommit};
use site::server::collected::{handle_collected, Comment, Request, Response};

fn commit(sha: &str) -> Commit {
    Commit {
        sha: sha.to_string(),
        date: Date { timestamp: 1, nanos: 0 },
    }
}

fn names(names: &[&str]) -> Vec<String> {
    names.iter().map(|name| name.to_string()).collect()
}

fn issue() -> Issue {
    Issue {
        repository_url: "https://example.com/r".to_string(),
        number: 7,
    }
}

fn memory() -> Persistent {
    Persistent {
        try_commits: vec![TryCommit {
            sha: "aaaa".to_string(),
            issue: issue(),
            comparison_url: "https://example.com/c".to_string(),
        }],
        current: None,
        posted_ends: Vec::new(),
    }
}

fn begin(persistent: &mut Persistent, sha: &str, benchmarks: &[&str]) -> Option<Comment> {
    let request = Request::BenchmarkCommit {
        commit: commit(sha),
        benchmarks: names(benchmarks),
    };
    let (response, comment) = handle_collected(request, persistent);
    assert_eq!(response, Response {});
    comment
}

fn done(persistent: &mut Persistent, sha: &str, benchmark: &str) -> Option<Comment> {
    let request = Request::BenchmarkDone {
        commit: commit(sha),
        benchmark: benchmark.to_string(),
    };
    handle_collected(request, persistent).1
}

fn announcement() -> Option<Comment> {
    Some(Comment {
        issue: issue(),
        body: "Finished benchmarking try commit aaaa, [comparison URL](https://example.com/c)."
            .to_string(),
    })
}

#[test]
fn begun_commit_is_current() {
    let mut persistent = memory();
    assert_eq!(begin(&mut persistent, "aaaa", &["x", "y"]), None);
    assert_eq!(
        persistent.current,
        Some(CurrentState {
            commit: commit("aaaa"),
            issue: Some(issue()),
            benchmarks: names(&["x", "y"]),
        })
    );
    begin(&mut persistent, "bbbb", &[]);
    assert_eq!(
        persistent.current,
        Some(CurrentState {
            commit: commit("bbbb"),
            issue: None,
            benchmarks: Vec::new(),
        })
    );
}

#[test]
fn last_benchmark_announces_the_end() {
    let mut persistent = memory();
    begin(&mut persistent, "aaaa", &["x", "y", "z"]);
    assert_eq!(done(&mut persistent, "aaaa", "y"), None);
    assert_eq!(done(&mut persistent, "aaaa", "z"), None);
    assert_eq!(done(&mut persistent, "aaaa", "x"), announcement());
    assert_eq!(persistent.posted_ends, names(&["aaaa"]));
    assert_eq!(persistent.current.unwrap().benchmarks, names(&[]));
}

#[test]
fn end_is_announced_once() {
    let mut persistent = memory();
    begin(&mut persistent, "aaaa", &["x"]);
    assert_eq!(done(&mut persistent, "aaaa", "x"), announcement());
    assert_eq!(done(&mut persistent, "aaaa", "x"), None);
    begin(&mut persistent, "aaaa", &["x"]);
    assert_eq!(done(&mut persistent, "aaaa", "x"), None);
    assert_eq!(persistent.posted_ends, names(&["aaaa"]));
}

#[test]
fn repeated_report_changes_nothing() {
    let mut persistent = memory();
    begin(&mut persistent, "aaaa", &["x", "y"]);
    done(&mut persistent, "aaaa", "x");
    let left = persistent.current.as_ref().unwrap().benchmarks.clone();
    assert_eq!(done(&mut persistent, "aaaa", "x"), None);
    assert_eq!(persistent.current.unwrap().benchmarks, left);
}

#[test]
fn only_the_first_of_equal_benchmarks_is_struck() {
    let mut persistent = memory();
    begin(&mut persistent, "aaaa", &["x", "y", "x"]);
    done(&mut persistent, "aaaa", "x");
    assert_eq!(persistent.current.unwrap().benchmarks, names(&["y", "x"]));
}

#[test]
fn report_on_another_commit_clears_the_current_one() {
    let mut persistent = memory();
    begin(&mut persistent, "aaaa", &["x"]);
    assert_eq!(done(&mut persistent, "bbbb", "x"), None);
    assert_eq!(persistent.current, None);
    assert_eq!(done(&mut persistent, "aaaa", "x"), None);
    assert_eq!(persistent.current, None);
}

#[test]
fn same_name_with_another_date_is_another_commit() {
    let mut persistent = memory();
    begin(&mut persistent, "aaaa", &["x"]);
    let request = Request::BenchmarkDone {
        commit: Commit {
            sha: "aaaa".to_string(),
            date: Date { timestamp: 2, nanos: 0 },
        },
        benchmark: "x".to_string(),
    };
    handle_collected(request, &mut persistent);
    assert_eq!(persistent.current, None);
    begin(&mut persistent, "aaaa", &["x"]);
    let request = Request::BenchmarkDone {
        commit: Commit {
            sha: "aaaa".to_string(),
            date: Date { timestamp: 1, nanos: 1 },
        },
        benchmark: "x".to_string(),
    };
    handle_collected(request, &mut persistent);
    assert_eq!(persistent.current, None);
}

#[test]
fn end_that_nobody_asked_for_is_not_announced() {
    let mut persistent = memory();
    begin(&mut persistent, "bbbb", &["x"]);
    assert_eq!(done(&mut persistent, "bbbb", "x"), None);
    assert_eq!(persistent.posted_ends, names(&[]));
}

#[test]
fn comparison_is_left_out_when_the_try_commit_is_gone() {
    let mut persistent = memory();
    begin(&mut persistent, "aaaa", &["x"]);
    persistent.try_commits.clear();
    assert_eq!(
        done(&mut persistent, "aaaa", "x").unwrap().body,
        "Finished benchmarking try commit aaaa"
    );
}

#[test]
fn oldest_end_is_forgotten() {
    let mut persistent = memory();
    persistent.posted_ends = (0..99).map(|i| format!("c{}", i)).collect();
    begin(&mut persistent, "aaaa", &["x"]);
    assert!(done(&mut persistent, "aaaa", "x").is_some());
    assert_eq!(persistent.posted_ends.len(), 100);
    assert_eq!(persistent.posted_ends[0], "c0");
    persistent.posted_ends[99] = "c99".to_string();
    assert!(done(&mut persistent, "aaaa", "x").is_some());
    assert_eq!(persistent.posted_ends.len(), 100);
    assert_eq!(persistent.posted_ends[0], "c1");
    assert_eq!(persistent.posted_ends[99], "aaaa");
}
