//! Replies, as plain values.
use vstd::prelude::*;
use vstd::string::*;

verus! {

/// What a reply says that its body is.
#[derive(Copy, Clone, Debug, PartialEq, Eq, Structural)]
pub enum ContentType {
    Json,
    TextUtf8,
    Html,
    OctetStream,
}

/// The body of a reply.
#[derive(Debug, PartialEq, Eq)]
pub enum Body {
    Empty,
    Text(String),
    Bytes(Vec<u8>),
}

/// What the body of a reply holds.
pub enum BodyView {
    Empty,
    Text(Seq<char>),
    Bytes(Seq<u8>),
}

impl View for Body {
    type V = BodyView;

    open spec fn view(&self) -> BodyView {
        match self {
            Body::Empty => BodyView::Empty,
            Body::Text(s) => BodyView::Text(s@),
            Body::Bytes(bytes) => BodyView::Bytes(bytes@),
        }
    }
}

/// A reply to a request.
#[derive(Debug, PartialEq, Eq)]
pub struct Reply {
    /// The HTTP status.
    pub status: u16,
    pub content_type: Option<ContentType>,
    /// Whether the reply says that it must be neither cached nor stored.
    pub uncached: bool,
    pub body: Body,
}

/// What a reply says.
pub struct ReplyView {
    pub status: u16,
    pub content_type: Option<ContentType>,
    pub uncached: bool,
    pub body: BodyView,
}

impl View for Reply {
    type V = ReplyView;

    open spec fn view(&self) -> ReplyView {
        ReplyView {
            status: self.status,
            content_type: self.content_type,
            uncached: self.uncached,
            body: self.body@,
        }
    }
}

/// A reply without a body.
pub open spec fn bare(status: u16, content_type: Option<ContentType>) -> ReplyView {
    ReplyView { status, content_type, uncached: false, body: BodyView::Empty }
}

/// A reply that is a line of text.
pub open spec fn message(
    status: u16,
    content_type: Option<ContentType>,
    body: Seq<char>,
) -> ReplyView {
    ReplyView { status, content_type, uncached: false, body: BodyView::Text(body) }
}

/// A reply without a body.
pub fn bare_reply(status: u16, content_type: Option<ContentType>) -> (reply: Reply)
    ensures
        reply@ == bare(status, content_type),
{
    Reply { status, content_type, uncached: false, body: Body::Empty }
}

/// A reply that is a line of text.
pub fn message_reply(status: u16, content_type: Option<ContentType>, body: String) -> (reply: Reply)
    ensures
        reply@ == message(status, content_type, body@),
{
    Reply { status, content_type, uncached: false, body: Body::Text(body) }
}

/// The reply that shows a page, given the page as JSON.
pub fn json_response(json: String) -> (reply: Reply)
    ensures
        reply@ == message(200, Some(ContentType::Json), json@),
{
    message_reply(200, Some(ContentType::Json), json)
}

/// The reply to the outcome of a task: its encoded result, or the message that says why it has
/// none. Neither must be cached or stored.
pub open spec fn response(result: Result<Seq<u8>, Seq<char>>) -> ReplyView {
    match result {
        Ok(bytes) => ReplyView {
            status: 200,
            content_type: Some(ContentType::OctetStream),
            uncached: true,
            body: BodyView::Bytes(bytes),
        },
        Err(message) => ReplyView {
            status: 500,
            content_type: Some(ContentType::TextUtf8),
            uncached: true,
            body: BodyView::Text(message),
        },
    }
}

/// The view of a task's outcome.
pub open spec fn result_view(result: Result<Vec<u8>, String>) -> Result<Seq<u8>, Seq<char>> {
    match result {
        Ok(bytes) => Ok(bytes@),
        Err(message) => Err(message@),
    }
}

/// Makes the reply to the outcome of a task.
pub fn to_response(result: Result<Vec<u8>, String>) -> (reply: Reply)
    ensures
        reply@ == response(result_view(result)),
{
    match result {
        Ok(bytes) => Reply {
            status: 200,
            content_type: Some(ContentType::OctetStream),
            uncached: true,
            body: Body::Bytes(bytes),
        },
        Err(message) => Reply {
            status: 500,
            content_type: Some(ContentType::TextUtf8),
            uncached: true,
            body: Body::Text(message),
        },
    }
}

/// The reply to a request whose body could not be read, given what is wrong with it.
pub fn parse_failure(detail: &str) -> (reply: Reply)
    ensures
        reply@ == message(
            400,
            Some(ContentType::TextUtf8),
            "Failed to deserialize request; "@ + detail@,
        ),
{
    let mut body: String = "Failed to deserialize request; ".to_string();
    body.append(detail);
    message_reply(400, Some(ContentType::TextUtf8), body)
}

/// A request that could not be answered.
#[derive(Debug, PartialEq, Eq)]
pub struct ServerError(pub String);

impl ServerError {
    /// The error as it is shown.
    pub fn message(&self) -> (shown: String)
        ensures
            shown@ == "server failed: "@ + self.0@,
    {
        let mut shown: String = "server failed: ".to_string();
        shown.append(self.0.as_str());
        shown
    }
}

/// The outcome of a task is never cached, and its status tells whether there is a result; the reply
/// carries the bytes of the result, or the message, and says which of the two it is.
pub proof fn lemma_outcomes_are_told(result: Result<Vec<u8>, String>, reply: Reply)
    requires
        call_ensures(to_response, (result,), reply),
    ensures
        reply.uncached,
        result matches Ok(bytes) ==> reply.status == 200 && reply.content_type == Some(
            ContentType::OctetStream,
        ) && reply@.body == BodyView::Bytes(bytes@),
        result matches Err(message) ==> reply.status == 500 && reply.content_type == Some(
            ContentType::TextUtf8,
        ) && reply@.body == BodyView::Text(message@),
{
}

} // verus!
