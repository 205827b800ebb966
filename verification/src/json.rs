use serde_json::Value;
use vstd::prelude::*;

verus! {

/// One level of a JSON document: what kind of value stands at the top, with
/// the parts of an array or object given as compact JSON text of their own.
#[derive(Debug, PartialEq, Eq)]
pub enum JsonOutline {
    Null,
    Bool(bool),
    /// A number; the integer is present when the number is an integer that
    /// fits in 64 signed bits.
    Number(Option<i64>),
    Text(String),
    /// The elements, in order, each as compact JSON text.
    Array(Vec<String>),
    /// The members as pairs of key and compact JSON text of the value.
    Object(Vec<(String, String)>),
}

/// Mathematical value of a [`JsonOutline`].
pub enum JsonOutlineView {
    Null,
    Bool(bool),
    Number(Option<i64>),
    Text(Seq<char>),
    Array(Seq<Seq<char>>),
    Object(Seq<(Seq<char>, Seq<char>)>),
}

/// Views of a list of texts.
pub open spec fn texts_view(texts: Seq<String>) -> Seq<Seq<char>> {
    Seq::new(texts.len(), |i: int| texts[i]@)
}

/// Views of a list of object members.
pub open spec fn members_view(members: Seq<(String, String)>) -> Seq<(Seq<char>, Seq<char>)> {
    Seq::new(members.len(), |i: int| (members[i].0@, members[i].1@))
}

impl View for JsonOutline {
    type V = JsonOutlineView;

    open spec fn view(&self) -> JsonOutlineView {
        match self {
            JsonOutline::Null => JsonOutlineView::Null,
            JsonOutline::Bool(b) => JsonOutlineView::Bool(*b),
            JsonOutline::Number(n) => JsonOutlineView::Number(*n),
            JsonOutline::Text(s) => JsonOutlineView::Text(s@),
            JsonOutline::Array(items) => JsonOutlineView::Array(texts_view(items@)),
            JsonOutline::Object(members) => JsonOutlineView::Object(members_view(members@)),
        }
    }
}

/// What `serde_json` makes of a text: the outline of the document, or the
/// message of its syntax error.
pub uninterp spec fn json_outline(text: Seq<char>) -> Result<JsonOutlineView, Seq<char>>;

/// Parses `text` with `serde_json::from_str` into a `serde_json::Value` and
/// reports its top level. The parts of an array or object are written back
/// to text with the `Display` of `Value`, that is in compact form. A syntax
/// error comes back as its `Display` text. The contract only names the
/// result: the same text always gives the same outline.
#[verifier::external_body]
pub(crate) fn outline(text: &str) -> (result: Result<JsonOutline, String>)
    ensures
        match result {
            Ok(shape) => json_outline(text@) == Ok::<JsonOutlineView, Seq<char>>(shape@),
            Err(message) => json_outline(text@) == Err::<JsonOutlineView, Seq<char>>(message@),
        },
{
    let value = serde_json::from_str::<Value>(text).map_err(|e| e.to_string())?;
    Ok(match value {
        Value::Null => JsonOutline::Null,
        Value::Bool(b) => JsonOutline::Bool(b),
        Value::Number(n) => JsonOutline::Number(n.as_i64()),
        Value::String(s) => JsonOutline::Text(s),
        Value::Array(a) => JsonOutline::Array(a.iter().map(|v| v.to_string()).collect()),
        Value::Object(m) => JsonOutline::Object(
            m.iter().map(|(k, v)| (k.clone(), v.to_string())).collect(),
        ),
    })
}

/// A text as `serde_json` writes it as a JSON string: in double quotes,
/// with what must be escaped escaped.
pub uninterp spec fn quoted(text: Seq<char>) -> Seq<char>;

/// Writes a text as a JSON string, with the `Display` of a
/// `serde_json::Value::String` that holds it. The contract only names the
/// result: the same text always gives the same string.
#[verifier::external_body]
pub(crate) fn json_string(text: &str) -> (result: String)
    ensures
        result@ == quoted(text@),
{
    Value::String(text.to_owned()).to_string()
}

} // verus!
