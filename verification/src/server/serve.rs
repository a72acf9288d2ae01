//! The course of one exchange: from a request's arrival to what is done about it.
use crate::server::auth;
use crate::server::reply;
use crate::server::reply::{ContentType, Reply, ReplyView, ServerError};
use crate::text;
use vstd::prelude::*;
use vstd::string::*;
use vstd::utf8::*;

verus! {

/// The most bytes that a request's body may have.
pub const BODY_LIMIT: usize = 10_485_760;

/// The method of a request.
#[derive(Copy, Clone, Debug, PartialEq, Eq, Structural)]
pub enum Method {
    Get,
    Post,
    Other,
}

/// A page that is shown on request.
#[derive(Copy, Clone, Debug, PartialEq, Eq, Structural)]
pub enum Page {
    Info,
    Dashboard,
    StatusPage,
    NextCommit,
}

/// A task that a request's body describes.
#[derive(Copy, Clone, Debug, PartialEq, Eq, Structural)]
pub enum Task {
    Graph,
    Days,
    Collected,
    GithubHook,
    SelfProfile,
}

/// How far an exchange has come.
#[derive(Copy, Clone, Debug, PartialEq, Eq, Structural)]
pub enum Stage {
    /// The request is there.
    Arrived,
    /// It is being looked up whether the path names a file.
    Probing,
    /// The body is being received.
    Receiving,
    /// It is settled what is done.
    Settled,
}

/// One exchange.
pub struct Exchange {
    pub method: Method,
    pub path: String,
    pub stage: Stage,
    /// What was received of the request's body.
    pub body: Vec<u8>,
}

/// The state of an exchange.
pub struct ExchangeView {
    pub method: Method,
    pub path: Seq<char>,
    pub stage: Stage,
    pub body: Seq<u8>,
}

impl View for Exchange {
    type V = ExchangeView;

    open spec fn view(&self) -> ExchangeView {
        ExchangeView {
            method: self.method,
            path: self.path@,
            stage: self.stage,
            body: self.body@,
        }
    }
}

/// What happens in an exchange.
pub enum Event<'a> {
    /// The exchange begins; `has_data` says whether the site has loaded its data.
    Begin { has_data: bool },
    /// It was looked up whether the path names a file.
    Probed { is_file: bool },
    /// A part of the body was received.
    Chunk { data: &'a [u8] },
    /// A part of the body could not be received.
    ChunkFailed { detail: &'a str },
    /// All of the body was received.
    Complete {
        /// The value of the header `Authorization`.
        authorization: Option<&'a [u8]>,
        /// The value of the header `X-Hub-Signature`.
        signature: Option<&'a [u8]>,
        /// The secret that a token is checked against: the site's at this moment.
        token_secret: Option<&'a str>,
        /// The secret that a signature is checked with: that of the data that the task works on.
        hook_secret: Option<&'a str>,
    },
}

/// What happens in an exchange.
pub enum EventView {
    Begin { has_data: bool },
    Probed { is_file: bool },
    Chunk { data: Seq<u8> },
    ChunkFailed { detail: Seq<char> },
    Complete { authorized: bool, signed: bool },
}

/// What an event means for an exchange whose body is `body`.
pub open spec fn event_view(event: Event<'_>, body: Seq<u8>) -> EventView {
    match event {
        Event::Begin { has_data } => EventView::Begin { has_data },
        Event::Probed { is_file } => EventView::Probed { is_file },
        Event::Chunk { data } => EventView::Chunk { data: data@ },
        Event::ChunkFailed { detail } => EventView::ChunkFailed { detail: detail@ },
        Event::Complete {
            authorization,
            signature,
            token_secret,
            hook_secret,
        } => EventView::Complete {
            authorized: token_secret is Some && auth::carries_secret(
                auth::header_view(authorization),
                token_secret.unwrap()@,
            ),
            signed: hook_secret is Some && auth::is_signed(
                auth::header_view(signature),
                hook_secret.unwrap()@,
                body,
            ),
        },
    }
}

/// What is to be done next.
pub enum Action {
    /// Look up whether this path names a file.
    ProbeFile(String),
    /// Send the file that was found.
    SendFile,
    /// Show a page.
    Show(Page),
    /// Bring the site's data up to date.
    Push,
    /// Receive the next part of the body.
    Receive,
    /// Do what the body says.
    Perform(Task),
    /// Reply.
    Answer(Reply),
    /// Give up.
    Fail(ServerError),
}

/// What is to be done next.
pub enum ActionView {
    ProbeFile(Seq<char>),
    SendFile,
    Show(Page),
    Push,
    Receive,
    Perform(Task),
    Answer(ReplyView),
    Fail(Seq<char>),
}

impl View for Action {
    type V = ActionView;

    open spec fn view(&self) -> ActionView {
        match self {
            Action::ProbeFile(path) => ActionView::ProbeFile(path@),
            Action::SendFile => ActionView::SendFile,
            Action::Show(page) => ActionView::Show(*page),
            Action::Push => ActionView::Push,
            Action::Receive => ActionView::Receive,
            Action::Perform(task) => ActionView::Perform(*task),
            Action::Answer(reply) => ActionView::Answer(reply@),
            Action::Fail(error) => ActionView::Fail(error.0@),
        }
    }
}

/// Where the file lies that `path` may name.
pub open spec fn file_path(path: Seq<char>) -> Seq<char> {
    "site/static"@ + if path == ""@ || path == "/"@ {
        "/index.html"@
    } else {
        path
    }
}

/// Whether a path to a file holds a step to where it stands or out of it.
pub open spec fn wanders(path: Seq<char>) -> bool {
    text::occurs(path, "./"@) || text::occurs(path, "../"@)
}

/// The page that `path` names.
pub open spec fn page_of(path: Seq<char>) -> Option<Page> {
    if path == "/perf/info"@ {
        Some(Page::Info)
    } else if path == "/perf/dashboard"@ {
        Some(Page::Dashboard)
    } else if path == "/perf/status_page"@ {
        Some(Page::StatusPage)
    } else if path == "/perf/next_commit"@ {
        Some(Page::NextCommit)
    } else {
        None
    }
}

/// The task that `path` names.
pub open spec fn task_of(path: Seq<char>) -> Option<Task> {
    if path == "/perf/graph"@ {
        Some(Task::Graph)
    } else if path == "/perf/get"@ {
        Some(Task::Days)
    } else if path == "/perf/collected"@ {
        Some(Task::Collected)
    } else if path == "/perf/github-hook"@ {
        Some(Task::GithubHook)
    } else if path == "/perf/self-profile"@ {
        Some(Task::SelfProfile)
    } else {
        None
    }
}

/// Whether `path` is the one that asks to bring the data up to date.
pub open spec fn is_push(path: Seq<char>) -> bool {
    path == "/perf/onpush"@
}

/// The reply to a path that names nothing.
pub open spec fn not_found() -> ActionView {
    ActionView::Answer(reply::bare(404, Some(ContentType::Html)))
}

/// The reply to a request with the wrong method.
pub open spec fn method_not_allowed() -> ActionView {
    ActionView::Answer(reply::bare(405, None))
}

/// The reply to a request that does not prove who sends it.
pub open spec fn unauthorized() -> ActionView {
    ActionView::Answer(reply::bare(401, None))
}

/// What is done when an exchange begins.
pub open spec fn begun(path: Seq<char>, has_data: bool) -> ActionView {
    if !has_data {
        ActionView::Answer(reply::message(200, None, "no data yet, please wait"@))
    } else if wanders(file_path(path)) {
        not_found()
    } else {
        ActionView::ProbeFile(file_path(path))
    }
}

/// What is done once it is known whether the path names a file.
pub open spec fn probed(method: Method, path: Seq<char>, is_file: bool) -> ActionView {
    if is_file {
        ActionView::SendFile
    } else if page_of(path) is Some {
        if method == Method::Get {
            ActionView::Show(page_of(path)->0)
        } else {
            method_not_allowed()
        }
    } else if is_push(path) {
        ActionView::Push
    } else if method != Method::Post {
        method_not_allowed()
    } else {
        ActionView::Receive
    }
}

/// What is done once `body` was received, the last part of it just now.
pub open spec fn received(body: Seq<u8>) -> ActionView {
    if body.len() > BODY_LIMIT {
        ActionView::Answer(reply::bare(413, None))
    } else {
        ActionView::Receive
    }
}

/// What is done with a request whose body is complete.
pub open spec fn completed(path: Seq<char>, authorized: bool, signed: bool) -> ActionView {
    match task_of(path) {
        Some(Task::Collected) => if authorized {
            ActionView::Perform(Task::Collected)
        } else {
            unauthorized()
        },
        Some(Task::GithubHook) => if signed {
            ActionView::Perform(Task::GithubHook)
        } else {
            unauthorized()
        },
        Some(task) => ActionView::Perform(task),
        None => not_found(),
    }
}

/// What is done about `event`.
pub open spec fn action(exchange: ExchangeView, event: EventView) -> ActionView {
    match event {
        EventView::Begin { has_data } => begun(exchange.path, has_data),
        EventView::Probed { is_file } => probed(exchange.method, exchange.path, is_file),
        EventView::Chunk { data } => received(exchange.body + data),
        EventView::ChunkFailed { detail } => ActionView::Fail("failed to read chunk: "@ + detail),
        EventView::Complete { authorized, signed } => completed(
            exchange.path,
            authorized,
            signed,
        ),
    }
}

/// The stage in which an exchange waits for the outcome of `action`.
pub open spec fn stage_after(action: ActionView) -> Stage {
    match action {
        ActionView::ProbeFile(_) => Stage::Probing,
        ActionView::Receive => Stage::Receiving,
        _ => Stage::Settled,
    }
}

/// The exchange after `event`.
pub open spec fn next(exchange: ExchangeView, event: EventView) -> ExchangeView {
    ExchangeView {
        stage: stage_after(action(exchange, event)),
        body: match event {
            EventView::Chunk { data } => exchange.body + data,
            _ => exchange.body,
        },
        ..exchange
    }
}

/// Whether `event` can happen in `stage`.
pub open spec fn can_happen(stage: Stage, event: EventView) -> bool {
    match event {
        EventView::Begin { .. } => stage == Stage::Arrived,
        EventView::Probed { .. } => stage == Stage::Probing,
        EventView::Chunk { .. } => stage == Stage::Receiving,
        EventView::ChunkFailed { .. } => stage == Stage::Receiving,
        EventView::Complete { .. } => stage == Stage::Receiving,
    }
}

/// What holds of every exchange: nothing is received before its time, and nothing is received
/// any more once the body is too long.
pub open spec fn is_exchange(exchange: ExchangeView) -> bool {
    match exchange.stage {
        Stage::Arrived | Stage::Probing => exchange.body.len() == 0,
        Stage::Receiving => exchange.body.len() <= BODY_LIMIT,
        Stage::Settled => true,
    }
}

/// Whether the proof that a complete request to `path` needs can be checked.
pub open spec fn can_check(path: Seq<char>, event: Event<'_>) -> bool {
    match event {
        Event::Complete { authorization, signature, token_secret, hook_secret } => {
            &&& task_of(path) == Some(Task::Collected) ==> auth::can_check_auth(
                auth::header_view(authorization),
                token_secret,
            )
            &&& task_of(path) == Some(Task::GithubHook) ==> auth::can_check_signature(
                auth::header_view(signature),
                hook_secret,
            )
        },
        _ => true,
    }
}

/// An exchange that begins.
pub open spec fn arrived(method: Method, path: Seq<char>) -> ExchangeView {
    ExchangeView { method, path, stage: Stage::Arrived, body: Seq::empty() }
}

/// The exchange after `events`.
pub open spec fn after(exchange: ExchangeView, events: Seq<EventView>) -> ExchangeView
    decreases events.len(),
{
    if events.len() == 0 {
        exchange
    } else {
        next(after(exchange, events.drop_last()), events.last())
    }
}

/// Whether `events` can happen one behind the other.
pub open spec fn can_all_happen(exchange: ExchangeView, events: Seq<EventView>) -> bool
    decreases events.len(),
{
    events.len() > 0 ==> {
        &&& can_all_happen(exchange, events.drop_last())
        &&& can_happen(after(exchange, events.drop_last()).stage, events.last())
    }
}

/// The parts of the body that `events` bring, put together.
pub open spec fn chunks(events: Seq<EventView>) -> Seq<u8>
    decreases events.len(),
{
    if events.len() == 0 {
        Seq::empty()
    } else {
        match events.last() {
            EventView::Chunk { data } => chunks(events.drop_last()) + data,
            _ => chunks(events.drop_last()),
        }
    }
}

/// Throughout an exchange the request stays what it is, its body is what was received, in the
/// order in which it came, and only what is posted, to a path that names neither a page nor a
/// file, is received at all.
pub proof fn lemma_course(method: Method, path: Seq<char>, events: Seq<EventView>)
    requires
        can_all_happen(arrived(method, path), events),
    ensures
        after(arrived(method, path), events).method == method,
        after(arrived(method, path), events).path == path,
        after(arrived(method, path), events).body == chunks(events),
        is_exchange(after(arrived(method, path), events)),
        after(arrived(method, path), events).stage == Stage::Probing ==> !wanders(
            file_path(path),
        ),
        after(arrived(method, path), events).stage == Stage::Receiving ==> {
            &&& method == Method::Post
            &&& page_of(path) is None
            &&& !is_push(path)
            &&& !wanders(file_path(path))
        },
    decreases events.len(),
{
    if events.len() > 0 {
        lemma_course(method, path, events.drop_last());
    }
}

/// A task is performed only when it was posted to its path, with a body that is not too long,
/// and with the proof that the task needs.
pub proof fn lemma_tasks_are_guarded(
    method: Method,
    path: Seq<char>,
    events: Seq<EventView>,
    event: EventView,
    task: Task,
)
    requires
        can_all_happen(arrived(method, path), events),
        can_happen(after(arrived(method, path), events).stage, event),
        action(after(arrived(method, path), events), event) == ActionView::Perform(task),
    ensures
        method == Method::Post,
        task_of(path) == Some(task),
        chunks(events).len() <= BODY_LIMIT,
        event is Complete,
        task == Task::Collected ==> event->authorized,
        task == Task::GithubHook ==> event->signed,
{
    lemma_course(method, path, events);
}

/// A page is shown only when it was asked for with the method for reading.
pub proof fn lemma_pages_are_read(
    method: Method,
    path: Seq<char>,
    events: Seq<EventView>,
    event: EventView,
    page: Page,
)
    requires
        can_all_happen(arrived(method, path), events),
        can_happen(after(arrived(method, path), events).stage, event),
        action(after(arrived(method, path), events), event) == ActionView::Show(page),
    ensures
        method == Method::Get,
        page_of(path) == Some(page),
{
    lemma_course(method, path, events);
}

/// No file is looked up or sent whose path leads out of the directory of files.
pub proof fn lemma_files_do_not_wander(
    method: Method,
    path: Seq<char>,
    events: Seq<EventView>,
    event: EventView,
)
    requires
        can_all_happen(arrived(method, path), events),
        can_happen(after(arrived(method, path), events).stage, event),
    ensures
        action(after(arrived(method, path), events), event) matches ActionView::ProbeFile(file)
            ==> file == file_path(path) && !wanders(file),
        action(after(arrived(method, path), events), event) is SendFile ==> !wanders(
            file_path(path),
        ),
{
    lemma_course(method, path, events);
}

/// Once it is settled what is done, nothing more happens.
pub proof fn lemma_settled_is_the_end(
    method: Method,
    path: Seq<char>,
    events: Seq<EventView>,
    event: EventView,
)
    requires
        after(arrived(method, path), events).stage == Stage::Settled,
    ensures
        !can_all_happen(arrived(method, path), events.push(event)),
{
    assert(events.push(event).drop_last() =~= events);
}

/// A body is refused as too long as soon as more than the limit was received, and not before.
pub proof fn lemma_long_bodies_are_refused(
    method: Method,
    path: Seq<char>,
    events: Seq<EventView>,
    data: Seq<u8>,
)
    requires
        can_all_happen(arrived(method, path), events),
        after(arrived(method, path), events).stage == Stage::Receiving,
    ensures
        chunks(events).len() <= 10 * 1024 * 1024,
        action(after(arrived(method, path), events), EventView::Chunk { data })
            == if chunks(events).len() + data.len() > 10 * 1024 * 1024 {
            ActionView::Answer(reply::bare(413, None))
        } else {
            ActionView::Receive
        },
{
    lemma_course(method, path, events);
}

/// A complete request that does not prove what its task needs is answered with status 401, and
/// one to a path that names no task with status 404.
pub proof fn lemma_unproven_requests_are_refused(
    exchange: ExchangeView,
    authorized: bool,
    signed: bool,
)
    ensures
        task_of(exchange.path) == Some(Task::Collected) && !authorized ==> action(
            exchange,
            EventView::Complete { authorized, signed },
        ) == ActionView::Answer(reply::bare(401, None)),
        task_of(exchange.path) == Some(Task::GithubHook) && !signed ==> action(
            exchange,
            EventView::Complete { authorized, signed },
        ) == ActionView::Answer(reply::bare(401, None)),
        task_of(exchange.path) is None ==> action(
            exchange,
            EventView::Complete { authorized, signed },
        ) == ActionView::Answer(reply::bare(404, Some(ContentType::Html))),
{
}

/// As long as the site has no data, every request is answered with the same words.
pub proof fn lemma_all_wait_for_data(method: Method, path: Seq<char>)
    ensures
        action(arrived(method, path), EventView::Begin { has_data: false }) == ActionView::Answer(
            reply::message(200, None, "no data yet, please wait"@),
        ),
        next(arrived(method, path), EventView::Begin { has_data: false }).stage == Stage::Settled,
{
}

/// A path wanders exactly if a slash stands right behind a dot in it.
pub proof fn lemma_wanders(path: Seq<char>)
    ensures
        wanders(path) <==> exists|i: int|
            0 <= i < path.len() - 1 && #[trigger] path[i] == '.' && path[i + 1] == '/',
{
    reveal_strlit("./");
    reveal_strlit("../");
    if wanders(path) {
        if text::occurs(path, "./"@) {
            let at = choose|at: int| #[trigger] text::occurs_at(path, "./"@, at);
            let part = path.subrange(at, at + 2);
            assert(part[0] == path[at] && part[1] == path[at + 1]);
        } else {
            let at = choose|at: int| #[trigger] text::occurs_at(path, "../"@, at);
            let part = path.subrange(at, at + 3);
            assert(part[1] == path[at + 1] && part[2] == path[at + 2]);
            assert(path[at + 1 + 1] == '/');
        }
    }
    if exists|i: int| 0 <= i < path.len() - 1 && #[trigger] path[i] == '.' && path[i + 1] == '/' {
        let i = choose|i: int|
            0 <= i < path.len() - 1 && #[trigger] path[i] == '.' && path[i + 1] == '/';
        assert(path.subrange(i, i + 2) =~= "./"@);
        assert(text::occurs_at(path, "./"@, i));
    }
}

/// Once there is data, a request begins with a look for a file below `site/static`: for the first
/// page if no file is named, and otherwise for what the request names. A request in whose path a
/// slash stands right behind a dot names nothing.
pub proof fn lemma_files_are_looked_for(method: Method, path: Seq<char>)
    ensures
        path.len() == 0 || path == "/"@ ==> action(
            arrived(method, path),
            EventView::Begin { has_data: true },
        ) == ActionView::ProbeFile("site/static/index.html"@),
        path.len() > 0 && path != "/"@ ==> action(
            arrived(method, path),
            EventView::Begin { has_data: true },
        ) == if exists|i: int|
            0 <= i < path.len() - 1 && #[trigger] path[i] == '.' && path[i + 1] == '/' {
            ActionView::Answer(reply::bare(404, Some(ContentType::Html)))
        } else {
            ActionView::ProbeFile("site/static"@ + path)
        },
{
    reveal_strlit("");
    reveal_strlit("/");
    reveal_strlit("site/static");
    reveal_strlit("/index.html");
    reveal_strlit("site/static/index.html");
    let file = file_path(path);
    let prefix = "site/static"@;
    lemma_wanders(file);
    if path.len() == 0 {
        assert(path =~= ""@);
    }
    if path.len() == 0 || path == "/"@ {
        assert(file =~= "site/static/index.html"@);
    } else {
        assert(file =~= prefix + path);
        if wanders(file) {
            let i = choose|i: int|
                0 <= i < file.len() - 1 && #[trigger] file[i] == '.' && file[i + 1] == '/';
            assert(i >= prefix.len()) by {
                if i < prefix.len() {
                    assert(prefix[i] == '.');
                }
            }
            let k = i - prefix.len();
            assert(path[k] == '.' && path[k + 1] == '/');
        }
        if exists|i: int| 0 <= i < path.len() - 1 && #[trigger] path[i] == '.' && path[i + 1]
            == '/' {
            let i = choose|i: int|
                0 <= i < path.len() - 1 && #[trigger] path[i] == '.' && path[i + 1] == '/';
            let k = i + prefix.len();
            assert(file[k] == '.' && file[k + 1] == '/');
        }
    }
}

/// What a request asks for that names no file: four paths name pages, which are shown to those who
/// read, one path asks for an update, and everything else has to be posted.
pub proof fn lemma_pages_have_paths(method: Method, path: Seq<char>)
    ensures
        ({
            let now = ExchangeView {
                method,
                path,
                stage: Stage::Probing,
                body: Seq::empty(),
            };
            let done = action(now, EventView::Probed { is_file: false });
            &&& action(now, EventView::Probed { is_file: true }) == ActionView::SendFile
            &&& done == ActionView::Show(Page::Info) <==> path == "/perf/info"@ && method
                == Method::Get
            &&& done == ActionView::Show(Page::Dashboard) <==> path == "/perf/dashboard"@ && method
                == Method::Get
            &&& done == ActionView::Show(Page::StatusPage) <==> path == "/perf/status_page"@
                && method == Method::Get
            &&& done == ActionView::Show(Page::NextCommit) <==> path == "/perf/next_commit"@
                && method == Method::Get
            &&& done == ActionView::Push <==> path == "/perf/onpush"@
            &&& done == ActionView::Receive <==> method == Method::Post && path != "/perf/info"@
                && path != "/perf/dashboard"@ && path != "/perf/status_page"@ && path
                != "/perf/next_commit"@ && path != "/perf/onpush"@
            &&& done is Answer ==> done == ActionView::Answer(reply::bare(405, None))
            &&& done is Show || done is Push || done is Receive || done is Answer
        }),
{
    reveal_strlit("/perf/info");
    reveal_strlit("/perf/dashboard");
    reveal_strlit("/perf/status_page");
    reveal_strlit("/perf/next_commit");
    reveal_strlit("/perf/onpush");
    assert("/perf/status_page"@[6] != "/perf/next_commit"@[6]);
}

/// What a complete request asks for: five paths name tasks, of which the one that hands in results
/// takes the site's secret and the one for web hooks takes a signature.
pub proof fn lemma_tasks_have_paths(exchange: ExchangeView, authorized: bool, signed: bool)
    ensures
        ({
            let path = exchange.path;
            let done = action(exchange, EventView::Complete { authorized, signed });
            &&& done == ActionView::Perform(Task::Graph) <==> path == "/perf/graph"@
            &&& done == ActionView::Perform(Task::Days) <==> path == "/perf/get"@
            &&& done == ActionView::Perform(Task::Collected) <==> path == "/perf/collected"@
                && authorized
            &&& done == ActionView::Perform(Task::GithubHook) <==> path == "/perf/github-hook"@
                && signed
            &&& done == ActionView::Perform(Task::SelfProfile) <==> path == "/perf/self-profile"@
            &&& done is Perform || done is Answer
            &&& done is Answer ==> done->Answer_0 == if path == "/perf/collected"@ || path
                == "/perf/github-hook"@ {
                reply::bare(401, None)
            } else {
                reply::bare(404, Some(ContentType::Html))
            }
        }),
{
    reveal_strlit("/perf/graph");
    reveal_strlit("/perf/get");
    reveal_strlit("/perf/collected");
    reveal_strlit("/perf/github-hook");
    reveal_strlit("/perf/self-profile");
}

/// Results are taken from those whose token is the site's own secret, and web hooks from those who
/// sign the body that was received with the secret of the data; one does not stand for the other.
pub proof fn lemma_who_is_heard(
    exchange: ExchangeView,
    authorization: Option<&[u8]>,
    signature: Option<&[u8]>,
    token_secret: Option<&str>,
    hook_secret: Option<&str>,
)
    ensures
        ({
            let event = Event::Complete { authorization, signature, token_secret, hook_secret };
            let done = action(exchange, event_view(event, exchange.body));
            &&& done == ActionView::Perform(Task::Collected) <==> exchange.path
                == "/perf/collected"@ && authorization is Some && token_secret is Some
                && auth::bearer_token(authorization->0@) == Some(token_secret->0@)
            &&& done == ActionView::Perform(Task::GithubHook) <==> exchange.path
                == "/perf/github-hook"@ && signature is Some && hook_secret is Some
                && auth::header_text(signature->0@) is Some && auth::claimed_tag(
                auth::header_text(signature->0@)->0,
            ) == Some(auth::hmac_sha1(encode_utf8(hook_secret->0@), exchange.body))
        }),
{
    let event = Event::Complete { authorization, signature, token_secret, hook_secret };
    let view = event_view(event, exchange.body);
    lemma_tasks_have_paths(exchange, view->authorized, view->signed);
}

/// What proves who sends a request can be checked unless its task takes a token and it has one that
/// does not decode or without a secret to hold it against, or its task takes a signature and it has
/// one in visible text without a secret that an HMAC can be taken with.
pub proof fn lemma_what_can_be_checked(
    path: Seq<char>,
    authorization: Option<&[u8]>,
    signature: Option<&[u8]>,
    token_secret: Option<&str>,
    hook_secret: Option<&str>,
)
    ensures
        can_check(path, Event::Complete { authorization, signature, token_secret, hook_secret })
            <==> {
            &&& path == "/perf/collected"@ && authorization is Some ==> token_secret is Some
                && auth::bearer_token(authorization->0@) is Some
            &&& path == "/perf/github-hook"@ && signature is Some && auth::header_text(
                signature->0@,
            ) is Some ==> hook_secret is Some && encode_utf8(hook_secret->0@).len()
                <= 0x1fff_ffff_ffff_ff00
        },
        forall|event: Event<'_>| !(event is Complete) ==> #[trigger] can_check(path, event),
{
    lemma_tasks_have_paths(arrived(Method::Post, path), true, true);
}

/// Each part of a body is put behind those that came before, byte by byte, and nothing else changes
/// a body; no event changes the method or the path.
pub proof fn lemma_bodies_grow_at_the_end(exchange: ExchangeView, event: EventView)
    ensures
        next(exchange, event).method == exchange.method,
        next(exchange, event).path == exchange.path,
        !(event is Chunk) ==> next(exchange, event).body == exchange.body,
        event is Chunk ==> next(exchange, event).body.len() == exchange.body.len()
            + event->data.len(),
        forall|i: int|
            0 <= i < exchange.body.len() ==> #[trigger] next(exchange, event).body[i]
                == exchange.body[i],
        forall|i: int|
            event is Chunk && 0 <= i < event->data.len() ==> next(
                exchange,
                event,
            ).body[exchange.body.len() + i] == #[trigger] event->data[i],
{
}

/// An exchange goes on only where something is still to be learnt: whether there is a file, or what
/// the body is.
pub proof fn lemma_stages(exchange: ExchangeView, event: EventView)
    ensures
        next(exchange, event).stage == Stage::Probing <==> action(exchange, event) is ProbeFile,
        next(exchange, event).stage == Stage::Receiving <==> action(exchange, event) is Receive,
        next(exchange, event).stage != Stage::Arrived,
{
}

/// A part of the body that cannot be received ends the exchange, and it is told why.
pub proof fn lemma_failed_chunks_are_told(exchange: ExchangeView, detail: Seq<char>)
    ensures
        action(exchange, EventView::ChunkFailed { detail }) == ActionView::Fail(
            "failed to read chunk: "@ + detail,
        ),
        next(exchange, EventView::ChunkFailed { detail }).stage == Stage::Settled,
{
}

/// Whether `event` completes a request with a signature that is as long as an HMAC.
pub open spec fn brings_whole_tag(event: Event<'_>) -> bool {
    event matches Event::Complete { signature, .. } && auth::claims_whole_tag(
        auth::header_view(signature),
    )
}

/// Where the file lies that `path` may name.
fn fs_path(path: &str) -> (res: String)
    ensures
        res@ == file_path(path@),
{
    let mut res: String = "site/static".to_string();
    if text::same_text(path, "") || text::same_text(path, "/") {
        res.append("/index.html");
    } else {
        res.append(path);
    }
    res
}

/// The page that `path` names.
fn find_page(path: &str) -> (page: Option<Page>)
    ensures
        page == page_of(path@),
{
    if text::same_text(path, "/perf/info") {
        Some(Page::Info)
    } else if text::same_text(path, "/perf/dashboard") {
        Some(Page::Dashboard)
    } else if text::same_text(path, "/perf/status_page") {
        Some(Page::StatusPage)
    } else if text::same_text(path, "/perf/next_commit") {
        Some(Page::NextCommit)
    } else {
        None
    }
}

/// The task that `path` names.
fn find_task(path: &str) -> (task: Option<Task>)
    ensures
        task == task_of(path@),
{
    if text::same_text(path, "/perf/graph") {
        Some(Task::Graph)
    } else if text::same_text(path, "/perf/get") {
        Some(Task::Days)
    } else if text::same_text(path, "/perf/collected") {
        Some(Task::Collected)
    } else if text::same_text(path, "/perf/github-hook") {
        Some(Task::GithubHook)
    } else if text::same_text(path, "/perf/self-profile") {
        Some(Task::SelfProfile)
    } else {
        None
    }
}

/// What is done when an exchange begins.
fn begin(path: &str, has_data: bool) -> (action: Action)
    ensures
        action@ == begun(path@, has_data),
{
    if !has_data {
        return Action::Answer(
            reply::message_reply(200, None, "no data yet, please wait".to_string()),
        );
    }
    let path: String = fs_path(path);
    if text::contains(path.as_str(), "./") || text::contains(path.as_str(), "../") {
        return Action::Answer(reply::bare_reply(404, Some(ContentType::Html)));
    }
    Action::ProbeFile(path)
}

/// What is done once it is known whether the path names a file.
fn after_probe(method: Method, path: &str, is_file: bool) -> (action: Action)
    ensures
        action@ == probed(method, path@, is_file),
{
    if is_file {
        return Action::SendFile;
    }
    if let Some(page) = find_page(path) {
        if method == Method::Get {
            return Action::Show(page);
        }
        return Action::Answer(reply::bare_reply(405, None));
    }
    if text::same_text(path, "/perf/onpush") {
        return Action::Push;
    }
    if method != Method::Post {
        return Action::Answer(reply::bare_reply(405, None));
    }
    Action::Receive
}

/// What is done with a request to `path` whose body is complete, given whether it carries the
/// site's secret and whether it is signed with it.
pub fn complete(path: &str, authorized: bool, signed: bool) -> (action: Action)
    ensures
        action@ == completed(path@, authorized, signed),
{
    match find_task(path) {
        Some(task) => {
            if (task == Task::Collected && !authorized) || (task == Task::GithubHook && !signed) {
                Action::Answer(reply::bare_reply(401, None))
            } else {
                Action::Perform(task)
            }
        },
        None => Action::Answer(reply::bare_reply(404, Some(ContentType::Html))),
    }
}

impl Exchange {
    /// The exchange that a request begins.
    pub fn new(method: Method, path: String) -> (exchange: Self)
        ensures
            exchange@ == (ExchangeView {
                method,
                path: path@,
                stage: Stage::Arrived,
                body: Seq::empty(),
            }),
            is_exchange(exchange@),
    {
        Exchange { method, path, stage: Stage::Arrived, body: Vec::new() }
    }

    /// Whether the proof that the request needs can be checked when `event` completes it.
    pub fn is_checkable(&self, event: &Event<'_>) -> (res: bool)
        ensures
            res == can_check(self@.path, *event),
    {
        match event {
            Event::Complete { authorization, signature, token_secret, hook_secret } => {
                match find_task(self.path.as_str()) {
                    Some(Task::Collected) => auth::is_auth_checkable(*authorization, *token_secret),
                    Some(Task::GithubHook) => auth::is_signature_checkable(
                        *signature,
                        *hook_secret,
                    ),
                    _ => true,
                }
            },
            _ => true,
        }
    }

    /// Takes the exchange through `event`, and says what is to be done next. A web hook whose
    /// signature is missing, cut short or too long is refused.
    pub fn serve_req(&mut self, event: Event<'_>) -> (res: Action)
        requires
            is_exchange(old(self)@),
            can_happen(old(self)@.stage, event_view(event, old(self)@.body)),
            can_check(old(self)@.path, event),
        ensures
            res@ == action(old(self)@, event_view(event, old(self)@.body)),
            final(self)@ == next(old(self)@, event_view(event, old(self)@.body)),
            is_exchange(final(self)@),
            event is Complete && task_of(old(self)@.path) == Some(Task::GithubHook)
                && !brings_whole_tag(event) ==> res@ == unauthorized(),
    {
        let res: Action = match event {
            Event::Begin { has_data } => begin(self.path.as_str(), has_data),
            Event::Probed { is_file } => after_probe(self.method, self.path.as_str(), is_file),
            Event::Chunk { data } => {
                self.body.extend_from_slice(data);
                assert(self.body@ =~= old(self).body@ + data@);
                if self.body.len() > BODY_LIMIT {
                    Action::Answer(reply::bare_reply(413, None))
                } else {
                    Action::Receive
                }
            },
            Event::ChunkFailed { detail } => {
                let mut message: String = "failed to read chunk: ".to_string();
                message.append(detail);
                Action::Fail(ServerError(message))
            },
            Event::Complete { authorization, signature, token_secret, hook_secret } => {
                let task: Option<Task> = find_task(self.path.as_str());
                let authorized: bool = task == Some(Task::Collected) && auth::check_auth(
                    authorization,
                    token_secret,
                );
                let signed: bool = task == Some(Task::GithubHook) && auth::verify_gh(
                    hook_secret,
                    signature,
                    self.body.as_slice(),
                );
                complete(self.path.as_str(), authorized, signed)
            },
        };
        self.stage =
        match &res {
            Action::ProbeFile(_) => Stage::Probing,
            Action::Receive => Stage::Receiving,
            _ => Stage::Settled,
        };
        res
    }
}

} // verus!
