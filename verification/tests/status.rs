use site::collector::{Commit, Date};
use site::load::{CurrentState, InputData, MissingCommit, Persistent};
use site::server::info::handle_info;
use site::server::status::{
    handle_next_commit, handle_status_page, prettify_log, BenchmarkStatus,
};

fn commit(sha: &str) -> Commit {
    Commit {
        sha: sha.to_string(),
        date: Date { timestamp: 5, nanos: 0 },
    }
}

fn data(errors: Vec<(String, Option<String>)>) -> InputData {
    InputData {
        stats_list: vec!["cpu-clock".to_string(), "max-rss".to_string()],
        last_date: Some(Date { timestamp: 9, nanos: 0 }),
        artifact_data: Vec::new(),
        data: Vec::new(),
        commits: vec![commit("a"), commit("b")],
        errors,
        summary_series: Vec::new(),
    }
}

fn missing(sha: &str) -> MissingCommit {
    MissingCommit {
        commit: commit(sha),
        reason: "master".to_string(),
    }
}

#[test]
fn log_is_prettified() {
    let log = "Err(Error { message: \"first\\nsecond\" })\nmore \"x\" }";
    assert_eq!(prettify_log(log), Some("first\nsecond".to_string()));
    assert_eq!(prettify_log("\"\" }"), Some(String::new()));
    assert_eq!(prettify_log("a \"b\" c\" }"), Some("b\" c".to_string()));
    assert_eq!(prettify_log("\"\\\\n\" }"), Some("\\\n".to_string()));
}

#[test]
fn log_that_quotes_nothing_is_not_prettified() {
    assert_eq!(prettify_log(""), None);
    assert_eq!(prettify_log("plain"), None);
    assert_eq!(prettify_log("\"open"), None);
    assert_eq!(prettify_log("\n\"x\" }"), None);
    assert_eq!(prettify_log("\"x\"\r\n }"), None);
}

#[test]
fn failed_benchmarks_are_listed_first() {
    let data = data(vec![
        ("good".to_string(), None),
        ("bad".to_string(), Some("\"broke\" }".to_string())),
        ("fine".to_string(), None),
        ("worse".to_string(), Some("raw".to_string())),
    ]);
    let persistent = Persistent {
        try_commits: Vec::new(),
        current: Some(CurrentState {
            commit: commit("c"),
            issue: None,
            benchmarks: vec!["left".to_string()],
        }),
        posted_ends: Vec::new(),
    };
    let response = handle_status_page(&data, vec![missing("m")], &persistent);
    let status = |name: &str, error: Option<&str>| BenchmarkStatus {
        name: name.to_string(),
        success: error.is_none(),
        error: error.map(|e| e.to_string()),
    };
    assert_eq!(
        response.benchmarks,
        vec![
            status("worse", Some("raw")),
            status("bad", Some("broke")),
            status("fine", None),
            status("good", None),
        ]
    );
    assert_eq!(response.last_commit, commit("b"));
    assert_eq!(response.missing, vec![missing("m")]);
    assert_eq!(response.current, persistent.current);
}

#[test]
fn next_commit_is_the_first_that_is_missing() {
    assert_eq!(handle_next_commit(&Vec::new()), None);
    assert_eq!(
        handle_next_commit(&vec![missing("x"), missing("y")]),
        Some("x".to_string())
    );
}

#[test]
fn info_names_the_statistics() {
    let info = handle_info(&data(Vec::new()));
    assert_eq!(
        info.stats,
        vec!["cpu-clock".to_string(), "max-rss".to_string()]
    );
    assert_eq!(info.as_of, Some(Date { timestamp: 9, nanos: 0 }));
}
