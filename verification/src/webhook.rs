use crate::json::{json_string, quoted};
use crate::snapshot::{is_success, pipeline_url, success};
use crate::text::join3;
use vstd::prelude::*;
use vstd::string::*;

verus! {

/// An answer to a caller: a status and a text.
#[derive(Debug, PartialEq, Eq)]
pub struct Reply {
    pub status: u16,
    pub body: String,
}

/// Mathematical value of a [`Reply`].
pub struct ReplyView {
    pub status: u16,
    pub body: Seq<char>,
}

impl View for Reply {
    type V = ReplyView;

    open spec fn view(&self) -> ReplyView {
        ReplyView { status: self.status, body: self.body@ }
    }
}

/// The answer to a hub that verifies a subscription: its challenge, echoed;
/// without a challenge the request is bad.
pub open spec fn challenge_reply_of(challenge: Option<Seq<char>>) -> ReplyView {
    match challenge {
        Some(text) => ReplyView { status: 200, body: text },
        None => ReplyView { status: 400, body: "Missing hub.challenge parameter"@ },
    }
}

/// Answers a hub that verifies a subscription.
pub fn challenge_reply(challenge: Option<String>) -> (reply: Reply)
    ensures
        reply@ == challenge_reply_of(
            match challenge {
                Some(text) => Some(text@),
                None => None,
            },
        ),
{
    match challenge {
        Some(text) => Reply { status: 200, body: text },
        None => Reply { status: 400, body: String::from_str("Missing hub.challenge parameter") },
    }
}

/// What is read of one entry of a pushed feed.
#[derive(Debug, PartialEq, Eq)]
pub struct FeedItem {
    pub title: Option<String>,
    pub summary: Option<String>,
}

/// Mathematical value of a [`FeedItem`].
pub struct FeedItemView {
    pub title: Option<Seq<char>>,
    pub summary: Option<Seq<char>>,
}

impl View for FeedItem {
    type V = FeedItemView;

    open spec fn view(&self) -> FeedItemView {
        FeedItemView {
            title: match self.title {
                Some(text) => Some(text@),
                None => None,
            },
            summary: match self.summary {
                Some(text) => Some(text@),
                None => None,
            },
        }
    }
}

/// Views of a list of feed items.
pub open spec fn items_view(items: Seq<FeedItem>) -> Seq<FeedItemView> {
    Seq::new(items.len(), |i: int| items[i]@)
}

/// The line that inserts one feed entry into the engine, put together from
/// the three texts as JSON strings: a JSON object with the entry under
/// `insert`.
pub open spec fn insert_object(title: Seq<char>, summary: Seq<char>, source: Seq<char>) -> Seq<
    char,
> {
    "{\"insert\":{\"item_description\":"@ + summary + ",\"item_title\":"@ + title
        + ",\"source_shortcode\":"@ + source + "}}"@
}

/// The line that inserts one feed entry into the engine.
pub open spec fn insert_line_of(title: Seq<char>, summary: Seq<char>, source: Seq<char>) -> Seq<
    char,
> {
    insert_object(quoted(title), quoted(summary), quoted(source))
}

/// Puts the line that inserts one feed entry together from its three
/// texts, each already written as a JSON string.
pub fn assemble_insert(title: &str, summary: &str, source: &str) -> (line: String)
    ensures
        line@ == insert_object(title@, summary@, source@),
{
    let mut line = join3("{\"insert\":{\"item_description\":", summary, ",\"item_title\":");
    line.append(title);
    line.append(",\"source_shortcode\":");
    line.append(source);
    line.append("}}");
    line
}

/// Builds the line that inserts one feed entry into the engine.
pub fn insert_line(title: &str, summary: &str, source: &str) -> (line: String)
    ensures
        line@ == insert_line_of(title@, summary@, source@),
{
    let quoted_title = json_string(title);
    let quoted_summary = json_string(summary);
    let quoted_source = json_string(source);
    assemble_insert(quoted_title.as_str(), quoted_summary.as_str(), quoted_source.as_str())
}

/// The line of one item, or the answer that rejects it: an item needs a
/// title and a summary, and the title is looked for first.
pub open spec fn item_line(item: FeedItemView, source: Seq<char>) -> Result<Seq<char>, ReplyView> {
    match item.title {
        None => Err(ReplyView { status: 400, body: "Missing <title>"@ }),
        Some(title) => match item.summary {
            None => Err(ReplyView { status: 400, body: "Missing <summary>"@ }),
            Some(summary) => Ok(insert_line_of(title, summary, source)),
        },
    }
}

/// The lines of the first `n` items, joined by line feeds, or the answer
/// that rejects the first item among them that lacks something.
pub open spec fn payload_upto(items: Seq<FeedItemView>, source: Seq<char>, n: nat) -> Result<
    Seq<char>,
    ReplyView,
>
    decreases n,
{
    if n == 0 {
        Ok(Seq::empty())
    } else {
        match payload_upto(items, source, (n - 1) as nat) {
            Err(reply) => Err(reply),
            Ok(earlier) => match item_line(items[n - 1], source) {
                Err(reply) => Err(reply),
                Ok(line) => Ok(
                    if n == 1 {
                        line
                    } else {
                        earlier + "\n"@ + line
                    },
                ),
            },
        }
    }
}

/// Mathematical value of a payload or the answer in its place.
pub open spec fn outcome_view(outcome: Result<String, Reply>) -> Result<Seq<char>, ReplyView> {
    match outcome {
        Ok(text) => Ok(text@),
        Err(reply) => Err(reply@),
    }
}

proof fn lemma_payload_stays_rejected(items: Seq<FeedItemView>, source: Seq<char>, n: nat, m: nat)
    requires
        n <= m,
        payload_upto(items, source, n) is Err,
    ensures
        payload_upto(items, source, m) == payload_upto(items, source, n),
    decreases m,
{
    if n < m {
        lemma_payload_stays_rejected(items, source, n, (m - 1) as nat);
    }
}

/// Builds what is sent to the engine for a pushed feed: one line per entry,
/// joined by line feeds. The first entry without a title or a summary
/// rejects the whole feed.
pub fn feed_payload(items: &Vec<FeedItem>, source: &str) -> (payload: Result<String, Reply>)
    ensures
        outcome_view(payload) == payload_upto(items_view(items@), source@, items@.len()),
{
    let ghost all = items_view(items@);
    let mut text = String::new();
    let mut i: usize = 0;
    while i < items.len()
        invariant
            i <= items.len(),
            all == items_view(items@),
            payload_upto(all, source@, i as nat) == Ok::<Seq<char>, ReplyView>(text@),
        decreases items.len() - i,
    {
        assert(all[i as int] == items@[i as int]@);
        let rejected = match &items[i].title {
            None => Some(Reply { status: 400, body: String::from_str("Missing <title>") }),
            Some(title) => match &items[i].summary {
                None => Some(Reply { status: 400, body: String::from_str("Missing <summary>") }),
                Some(summary) => {
                    let line = insert_line(title.as_str(), summary.as_str(), source);
                    if i > 0 {
                        text.append("\n");
                    }
                    text.append(line.as_str());
                    None
                },
            },
        };
        match rejected {
            Some(reply) => {
                proof {
                    lemma_payload_stays_rejected(all, source@, (i + 1) as nat, items@.len());
                }
                return Err(reply);
            },
            None => {},
        }
        i += 1;
    }
    Ok(text)
}

/// Where a pushed feed is sent: the ingress of the source table, as JSON.
pub open spec fn ingest_url_of(host: Seq<char>, pipeline: Seq<char>) -> Seq<char> {
    pipeline_url(host, pipeline) + "/ingress/source_data?format=json"@
}

/// Builds the address to which a pushed feed is sent.
pub fn ingest_url(host: &str, pipeline: &str) -> (url: String)
    ensures
        url@ == ingest_url_of(host@, pipeline@),
{
    let mut url = join3(host, "/v0/pipelines/", pipeline);
    url.append("/ingress/source_data?format=json");
    url
}

/// The answer to a push that is not a feed.
pub fn invalid_feed_reply(reason: &str) -> (reply: Reply)
    ensures
        reply@ == (ReplyView { status: 400, body: "Invalid feed: "@ + reason@ }),
{
    let mut body = String::from_str("Invalid feed: ");
    body.append(reason);
    Reply { status: 400, body }
}

/// How sending to the engine or to a hub ended.
#[derive(Debug, PartialEq, Eq)]
pub enum Posted {
    /// No answer came; the text says why.
    Failed(String),
    /// An answer came, with this status and this wording of the status.
    Answered { status: u16, status_text: String },
}

/// Mathematical value of a [`Posted`].
pub enum PostedView {
    Failed(Seq<char>),
    Answered { status: u16, status_text: Seq<char> },
}

impl View for Posted {
    type V = PostedView;

    open spec fn view(&self) -> PostedView {
        match self {
            Posted::Failed(text) => PostedView::Failed(text@),
            Posted::Answered { status, status_text } => PostedView::Answered {
                status: *status,
                status_text: status_text@,
            },
        }
    }
}

/// The answer to the hub once a feed was sent on: it was taken only if the
/// engine answered with a success status.
pub open spec fn ingest_reply_of(posted: PostedView) -> ReplyView {
    match posted {
        PostedView::Failed(text) => ReplyView { status: 400, body: "Error sending data: "@ + text },
        PostedView::Answered { status, status_text } => if is_success(status) {
            ReplyView { status: 200, body: "Callback handled and data ingested successfully."@ }
        } else {
            ReplyView { status: 400, body: "Downstream API error: "@ + status_text }
        },
    }
}

/// Answers the hub once a feed was sent on to the engine.
pub fn ingest_reply(posted: Posted) -> (reply: Reply)
    ensures
        reply@ == ingest_reply_of(posted@),
{
    match posted {
        Posted::Failed(text) => {
            let mut body = String::from_str("Error sending data: ");
            body.append(text.as_str());
            Reply { status: 400, body }
        },
        Posted::Answered { status, status_text } => if success(status) {
            Reply {
                status: 200,
                body: String::from_str("Callback handled and data ingested successfully."),
            }
        } else {
            let mut body = String::from_str("Downstream API error: ");
            body.append(status_text.as_str());
            Reply { status: 400, body }
        },
    }
}

/// The form that asks a hub to subscribe or unsubscribe: where the hub
/// calls back, the topic, and the mode.
pub open spec fn subscription_form_of(domain: Seq<char>, topic: Seq<char>, mode: Seq<char>) -> Seq<
    (Seq<char>, Seq<char>),
> {
    seq![
        ("hub.callback"@, "https://"@ + domain + "/callback"@),
        ("hub.topic"@, topic),
        ("hub.mode"@, mode),
    ]
}

/// Builds the form that asks a hub to subscribe or unsubscribe.
pub fn subscription_form(domain: &str, topic: &str, mode: &str) -> (form: Vec<(String, String)>)
    ensures
        Seq::new(form@.len(), |i: int| (form@[i].0@, form@[i].1@)) == subscription_form_of(
            domain@,
            topic@,
            mode@,
        ),
{
    let mut form: Vec<(String, String)> = Vec::new();
    form.push((String::from_str("hub.callback"), join3("https://", domain, "/callback")));
    form.push((String::from_str("hub.topic"), String::from_str(topic)));
    form.push((String::from_str("hub.mode"), String::from_str(mode)));
    assert(Seq::new(form@.len(), |i: int| (form@[i].0@, form@[i].1@)) =~= subscription_form_of(
        domain@,
        topic@,
        mode@,
    ));
    form
}

/// What is reported of a request to a hub.
#[derive(Debug, PartialEq, Eq)]
pub struct SetupReport {
    pub status: String,
    pub message: String,
}

/// The report of a request to a hub: whatever the hub answered counts as
/// sent; only a request that got no answer is an error.
pub open spec fn setup_report_of(mode: Seq<char>, topic: Seq<char>, posted: PostedView) -> (
    Seq<char>,
    Seq<char>,
) {
    match posted {
        PostedView::Answered { status, status_text } => (
            "success"@,
            "Sent "@ + mode + " request for "@ + topic + ". Hub responded with "@ + status_text,
        ),
        PostedView::Failed(text) => ("error"@, "Failed to subscribe: "@ + text),
    }
}

/// Reports on a request to a hub.
pub fn setup_report(mode: &str, topic: &str, posted: Posted) -> (report: SetupReport)
    ensures
        (report.status@, report.message@) == setup_report_of(mode@, topic@, posted@),
{
    match posted {
        Posted::Answered { status, status_text } => {
            let mut message = join3("Sent ", mode, " request for ");
            message.append(topic);
            message.append(". Hub responded with ");
            message.append(status_text.as_str());
            SetupReport { status: String::from_str("success"), message }
        },
        Posted::Failed(text) => {
            let mut message = String::from_str("Failed to subscribe: ");
            message.append(text.as_str());
            SetupReport { status: String::from_str("error"), message }
        },
    }
}

} // verus!
