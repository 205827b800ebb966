use crate::error::{item_view, PulseError, PulseErrorView};
use crate::text::join3;
use vstd::prelude::*;
use vstd::string::*;

verus! {

/// How a request is sent.
#[derive(Clone, Copy, PartialEq, Eq, Structural, Debug)]
pub enum Method {
    Get,
    Post,
}

/// A request to the engine, as plain values: what to send, not the sending.
#[derive(Debug, PartialEq, Eq)]
pub struct UpstreamRequest {
    pub method: Method,
    pub url: String,
    /// Query parameters, in the order they are appended to the URL.
    pub query: Vec<(String, String)>,
    /// Value of the `Content-Type` header, if one is sent.
    pub content_type: Option<String>,
}

/// Mathematical value of an [`UpstreamRequest`].
pub struct UpstreamRequestView {
    pub method: Method,
    pub url: Seq<char>,
    pub query: Seq<(Seq<char>, Seq<char>)>,
    pub content_type: Option<Seq<char>>,
}

impl View for UpstreamRequest {
    type V = UpstreamRequestView;

    open spec fn view(&self) -> UpstreamRequestView {
        UpstreamRequestView {
            method: self.method,
            url: self.url@,
            query: Seq::new(self.query@.len(), |i: int| (self.query@[i].0@, self.query@[i].1@)),
            content_type: match self.content_type {
                Some(value) => Some(value@),
                None => None,
            },
        }
    }
}

/// The address of a pipeline of the engine.
pub open spec fn pipeline_url(host: Seq<char>, pipeline: Seq<char>) -> Seq<char> {
    host + "/v0/pipelines/"@ + pipeline
}

/// The query that reads the whole of a view.
pub open spec fn select_all(view: Seq<char>) -> Seq<char> {
    "SELECT * FROM "@ + view
}

/// The request for a snapshot of `view`: an ad-hoc query for all of its
/// rows, answered as JSON.
pub open spec fn snapshot_request_view(
    host: Seq<char>,
    pipeline: Seq<char>,
    view: Seq<char>,
) -> UpstreamRequestView {
    UpstreamRequestView {
        method: Method::Get,
        url: pipeline_url(host, pipeline) + "/query"@,
        query: seq![("sql"@, select_all(view)), ("format"@, "json"@)],
        content_type: None,
    }
}

/// The request that opens the change feed of `view`: one JSON record per
/// line, not wrapped in an array, with back-pressure off.
pub open spec fn stream_request_view(
    host: Seq<char>,
    pipeline: Seq<char>,
    view: Seq<char>,
) -> UpstreamRequestView {
    UpstreamRequestView {
        method: Method::Post,
        url: pipeline_url(host, pipeline) + "/egress/"@ + view,
        query: seq![
            ("format"@, "json"@),
            ("backpressure"@, "false"@),
            ("array"@, "false"@),
        ],
        content_type: Some("application/json"@),
    }
}

fn pair(key: &str, value: &str) -> (result: (String, String))
    ensures
        result.0@ == key@,
        result.1@ == value@,
{
    (String::from_str(key), String::from_str(value))
}

/// Builds the request for a snapshot of `view`.
pub fn snapshot_request(host: &str, pipeline: &str, view: &str) -> (request: UpstreamRequest)
    ensures
        request@ == snapshot_request_view(host@, pipeline@, view@),
{
    let mut url = join3(host, "/v0/pipelines/", pipeline);
    url.append("/query");
    let mut sql = String::from_str("SELECT * FROM ");
    sql.append(view);
    let mut query: Vec<(String, String)> = Vec::new();
    query.push(pair("sql", sql.as_str()));
    query.push(pair("format", "json"));
    let request = UpstreamRequest { method: Method::Get, url, query, content_type: None };
    assert(request@.query =~= snapshot_request_view(host@, pipeline@, view@).query);
    request
}

/// Builds the request that opens the change feed of `view`.
pub fn stream_request(host: &str, pipeline: &str, view: &str) -> (request: UpstreamRequest)
    ensures
        request@ == stream_request_view(host@, pipeline@, view@),
{
    let mut url = join3(host, "/v0/pipelines/", pipeline);
    url.append("/egress/");
    url.append(view);
    let mut query: Vec<(String, String)> = Vec::new();
    query.push(pair("format", "json"));
    query.push(pair("backpressure", "false"));
    query.push(pair("array", "false"));
    let request = UpstreamRequest {
        method: Method::Post,
        url,
        query,
        content_type: Some(String::from_str("application/json")),
    };
    assert(request@.query =~= stream_request_view(host@, pipeline@, view@).query);
    request
}

/// A status in the success range of HTTP.
pub open spec fn is_success(status: u16) -> bool {
    200 <= status < 300
}

/// Tells whether a status is in the success range of HTTP.
pub fn success(status: u16) -> (yes: bool)
    ensures
        yes == is_success(status),
{
    200 <= status && status < 300
}

/// How an exchange with the engine ended.
#[derive(Debug, PartialEq, Eq)]
pub enum Exchange {
    /// No answer came: the connection failed, with this description.
    Failed(String),
    /// The engine answered.
    Answered { status: u16, body: String },
    /// The engine answered with this status, but its body could not be
    /// read; the text says why.
    Truncated { status: u16, error: String },
}

/// Mathematical value of an [`Exchange`].
pub enum ExchangeView {
    Failed(Seq<char>),
    Answered { status: u16, body: Seq<char> },
    Truncated { status: u16, error: Seq<char> },
}

impl View for Exchange {
    type V = ExchangeView;

    open spec fn view(&self) -> ExchangeView {
        match self {
            Exchange::Failed(text) => ExchangeView::Failed(text@),
            Exchange::Answered { status, body } => ExchangeView::Answered {
                status: *status,
                body: body@,
            },
            Exchange::Truncated { status, error } => ExchangeView::Truncated {
                status: *status,
                error: error@,
            },
        }
    }
}

/// The snapshot that an exchange yields: the body of a successful answer.
/// A failed connection is a transport error, and so is a successful answer
/// whose body cannot be read; any other status is reported with the status
/// and the body, or with what is known in place of the body.
pub open spec fn snapshot_of(exchange: ExchangeView) -> Result<Seq<char>, PulseErrorView> {
    match exchange {
        ExchangeView::Failed(text) => Err(PulseErrorView::Transport(text)),
        ExchangeView::Answered { status, body } => if is_success(status) {
            Ok(body)
        } else {
            Err(PulseErrorView::UpstreamStatus { status, body })
        },
        ExchangeView::Truncated { status, error } => if is_success(status) {
            Err(PulseErrorView::Transport(error))
        } else {
            Err(PulseErrorView::UpstreamStatus { status, body: error })
        },
    }
}

/// Turns the outcome of a snapshot request into the snapshot or the error.
/// Nothing is retried here.
pub fn snapshot_result(exchange: Exchange) -> (result: Result<String, PulseError>)
    ensures
        item_view(result) == snapshot_of(exchange@),
{
    match exchange {
        Exchange::Failed(text) => Err(PulseError::Transport(text)),
        Exchange::Answered { status, body } => if success(status) {
            Ok(body)
        } else {
            Err(PulseError::UpstreamStatus { status, body })
        },
        Exchange::Truncated { status, error } => if success(status) {
            Err(PulseError::Transport(error))
        } else {
            Err(PulseError::UpstreamStatus { status, body: error })
        },
    }
}

} // verus!
