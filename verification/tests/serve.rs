use site::server::reply::{
    json_response, parse_failure, to_response, Body, ContentType, Reply, ServerError,
};
use site::server::serve::{
    complete, Action, Event, Exchange, Method, Page, Stage, Task, BODY_LIMIT,
};

fn bare(action: Action) -> (u16, Option<ContentType>) {
    match action {
        Action::Answer(reply) => {
            assert_eq!(reply.body, Body::Empty);
            assert!(!reply.uncached);
            (reply.status, reply.content_type)
        }
        _ => panic!("no reply"),
    }
}

fn probed(method: Method, path: &str, is_file: bool) -> (Exchange, Action) {
    let mut exchange = Exchange::new(method, path.to_string());
    let action = exchange.serve_req(Event::Begin { has_data: true });
    assert!(matches!(action, Action::ProbeFile(_)));
    assert_eq!(exchange.stage, Stage::Probing);
    let action = exchange.serve_req(Event::Probed { is_file });
    (exchange, action)
}

fn completed(path: &str, authorization: Option<&[u8]>, signature: Option<&[u8]>) -> Action {
    let (mut exchange, action) = probed(Method::Post, path, false);
    assert!(matches!(action, Action::Receive));
    let action = exchange.serve_req(Event::Chunk { data: b"{" });
    assert!(matches!(action, Action::Receive));
    exchange.serve_req(Event::Chunk { data: b"}" });
    assert_eq!(exchange.body, b"{}");
    let event = Event::Complete {
        authorization,
        signature,
        token_secret: Some("s3cret"),
        hook_secret: Some("s3cret"),
    };
    assert!(exchange.is_checkable(&event));
    let action = exchange.serve_req(event);
    assert_eq!(exchange.stage, Stage::Settled);
    action
}

#[test]
fn nothing_is_served_without_data() {
    let mut exchange = Exchange::new(Method::Get, "/perf/info".to_string());
    match exchange.serve_req(Event::Begin { has_data: false }) {
        Action::Answer(reply) => assert_eq!(
            reply,
            Reply {
                status: 200,
                content_type: None,
                uncached: false,
                body: Body::Text("no data yet, please wait".to_string()),
            }
        ),
        _ => panic!("no reply"),
    }
    assert_eq!(exchange.stage, Stage::Settled);
}

#[test]
fn root_is_the_index() {
    for path in ["", "/"] {
        let mut exchange = Exchange::new(Method::Get, path.to_string());
        match exchange.serve_req(Event::Begin { has_data: true }) {
            Action::ProbeFile(file) => assert_eq!(file, "site/static/index.html"),
            _ => panic!("no file is looked up"),
        }
    }
    let mut exchange = Exchange::new(Method::Get, "/a/b.js".to_string());
    match exchange.serve_req(Event::Begin { has_data: true }) {
        Action::ProbeFile(file) => assert_eq!(file, "site/static/a/b.js"),
        _ => panic!("no file is looked up"),
    }
}

#[test]
fn wandering_paths_are_not_found() {
    for path in ["/../secret", "/a/./b", "/a../b", "./x"] {
        let mut exchange = Exchange::new(Method::Get, path.to_string());
        let action = exchange.serve_req(Event::Begin { has_data: true });
        assert_eq!(bare(action), (404, Some(ContentType::Html)));
    }
    let (_, action) = probed(Method::Get, "/a..b", true);
    assert!(matches!(action, Action::SendFile));
}

#[test]
fn file_goes_before_page() {
    let (_, action) = probed(Method::Post, "/perf/info", true);
    assert!(matches!(action, Action::SendFile));
}

#[test]
fn pages_are_shown_on_get() {
    let pages = [
        ("/perf/info", Page::Info),
        ("/perf/dashboard", Page::Dashboard),
        ("/perf/status_page", Page::StatusPage),
        ("/perf/next_commit", Page::NextCommit),
    ];
    for (path, page) in pages {
        match probed(Method::Get, path, false).1 {
            Action::Show(shown) => assert_eq!(shown, page),
            _ => panic!("no page"),
        }
        assert_eq!(bare(probed(Method::Post, path, false).1), (405, None));
        assert_eq!(bare(probed(Method::Other, path, false).1), (405, None));
    }
}

#[test]
fn push_takes_any_method() {
    for method in [Method::Get, Method::Post, Method::Other] {
        let (exchange, action) = probed(method, "/perf/onpush", false);
        assert!(matches!(action, Action::Push));
        assert_eq!(exchange.stage, Stage::Settled);
    }
}

#[test]
fn tasks_need_post() {
    assert_eq!(bare(probed(Method::Get, "/perf/graph", false).1), (405, None));
    assert_eq!(bare(probed(Method::Get, "/nowhere", false).1), (405, None));
}

#[test]
fn tasks_are_performed() {
    let tasks = [
        ("/perf/graph", Task::Graph),
        ("/perf/get", Task::Days),
        ("/perf/self-profile", Task::SelfProfile),
    ];
    for (path, task) in tasks {
        match completed(path, None, None) {
            Action::Perform(performed) => assert_eq!(performed, task),
            _ => panic!("no task"),
        }
    }
    assert_eq!(
        bare(completed("/nowhere", None, None)),
        (404, Some(ContentType::Html))
    );
}

#[test]
fn reports_need_the_secret() {
    let path = "/perf/collected";
    assert!(matches!(
        completed(path, Some(b"Bearer s3cret"), None),
        Action::Perform(Task::Collected)
    ));
    assert_eq!(bare(completed(path, Some(b"Bearer wrong"), None)), (401, None));
    assert_eq!(bare(completed(path, None, None)), (401, None));
}

#[test]
fn hooks_need_a_signature() {
    // The HMAC-SHA1 of "{}" under "s3cret".
    let key = ring::hmac::Key::new(ring::hmac::HMAC_SHA1_FOR_LEGACY_USE_ONLY, b"s3cret");
    let tag = hex::encode(ring::hmac::sign(&key, b"{}").as_ref());
    let header = format!("sha1={}", tag);
    let path = "/perf/github-hook";
    assert!(matches!(
        completed(path, None, Some(header.as_bytes())),
        Action::Perform(Task::GithubHook)
    ));
    assert_eq!(bare(completed(path, None, Some(b"sha1=00"))), (401, None));
    assert_eq!(bare(completed(path, None, None)), (401, None));
}

#[test]
fn proof_without_a_secret_cannot_be_checked() {
    let exchange = Exchange::new(Method::Post, "/perf/collected".to_string());
    assert!(!exchange.is_checkable(&Event::Complete {
        authorization: Some(b"Bearer x"),
        signature: None,
        token_secret: None,
        hook_secret: Some("s"),
    }));
    let exchange = Exchange::new(Method::Post, "/perf/github-hook".to_string());
    assert!(!exchange.is_checkable(&Event::Complete {
        authorization: None,
        signature: Some(b"sha1=00"),
        token_secret: Some("s"),
        hook_secret: None,
    }));
}

#[test]
fn decision_on_complete_requests() {
    assert!(matches!(
        complete("/perf/collected", true, false),
        Action::Perform(Task::Collected)
    ));
    assert_eq!(bare(complete("/perf/collected", false, true)), (401, None));
    assert_eq!(bare(complete("/perf/github-hook", true, false)), (401, None));
    assert!(matches!(
        complete("/perf/get", false, false),
        Action::Perform(Task::Days)
    ));
}

#[test]
fn body_may_be_as_long_as_the_limit() {
    assert_eq!(BODY_LIMIT, 10 * 1024 * 1024);
    let data = vec![0u8; BODY_LIMIT];
    let (mut exchange, _) = probed(Method::Post, "/perf/graph", false);
    assert!(matches!(
        exchange.serve_req(Event::Chunk { data: &data }),
        Action::Receive
    ));
    assert_eq!(
        bare(exchange.serve_req(Event::Chunk { data: b"x" })),
        (413, None)
    );
    assert_eq!(exchange.stage, Stage::Settled);
}

#[test]
fn broken_body_fails() {
    let (mut exchange, _) = probed(Method::Post, "/perf/graph", false);
    match exchange.serve_req(Event::ChunkFailed { detail: "reset" }) {
        Action::Fail(error) => {
            assert_eq!(error, ServerError("failed to read chunk: reset".to_string()));
            assert_eq!(error.message(), "server failed: failed to read chunk: reset");
        }
        _ => panic!("no failure"),
    }
}

#[test]
fn results_are_not_cached() {
    assert_eq!(
        to_response(Ok(vec![1, 2])),
        Reply {
            status: 200,
            content_type: Some(ContentType::OctetStream),
            uncached: true,
            body: Body::Bytes(vec![1, 2]),
        }
    );
    assert_eq!(
        to_response(Err("No such run".to_string())),
        Reply {
            status: 500,
            content_type: Some(ContentType::TextUtf8),
            uncached: true,
            body: Body::Text("No such run".to_string()),
        }
    );
}

#[test]
fn pages_are_json() {
    assert_eq!(
        json_response("null".to_string()),
        Reply {
            status: 200,
            content_type: Some(ContentType::Json),
            uncached: false,
            body: Body::Text("null".to_string()),
        }
    );
}

#[test]
fn unreadable_body_is_a_bad_request() {
    assert_eq!(
        parse_failure("EOF"),
        Reply {
            status: 400,
            content_type: Some(ContentType::TextUtf8),
            uncached: false,
            body: Body::Text("Failed to deserialize request; EOF".to_string()),
        }
    );
}
