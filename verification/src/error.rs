use vstd::prelude::*;
use vstd::string::*;

verus! {

/// Everything that can go wrong in the relay, by the layer that notices it.
#[derive(Debug, PartialEq, Eq)]
pub enum PulseError {
    /// The connection to the engine failed or broke; the text says how.
    Transport(String),
    /// A line of the change feed was not a change record.
    Decode(String),
    /// The engine answered with a status outside the success range.
    UpstreamStatus { status: u16, body: String },
    /// A subscriber fell behind and this many items were dropped from its queue.
    BusOverflow(u64),
}

/// Mathematical value of a [`PulseError`].
pub enum PulseErrorView {
    Transport(Seq<char>),
    Decode(Seq<char>),
    UpstreamStatus { status: u16, body: Seq<char> },
    BusOverflow(u64),
}

impl View for PulseError {
    type V = PulseErrorView;

    open spec fn view(&self) -> PulseErrorView {
        match self {
            PulseError::Transport(text) => PulseErrorView::Transport(text@),
            PulseError::Decode(text) => PulseErrorView::Decode(text@),
            PulseError::UpstreamStatus { status, body } => PulseErrorView::UpstreamStatus {
                status: *status,
                body: body@,
            },
            PulseError::BusOverflow(missed) => PulseErrorView::BusOverflow(*missed),
        }
    }
}

/// Text shown for a dropped-items error; the count stays in the variant.
pub open spec fn overflow_text() -> Seq<char> {
    "subscriber fell behind and missed items"@
}

impl PulseErrorView {
    /// The text a client is shown for this error.
    pub open spec fn message(self) -> Seq<char> {
        match self {
            PulseErrorView::Transport(text) => text,
            PulseErrorView::Decode(text) => text,
            PulseErrorView::UpstreamStatus { status, body } => body,
            PulseErrorView::BusOverflow(missed) => overflow_text(),
        }
    }
}

impl PulseError {
    /// The text a client is shown for this error.
    pub fn message(&self) -> (text: String)
        ensures
            text@ == self@.message(),
    {
        match self {
            PulseError::Transport(text) => text.clone(),
            PulseError::Decode(text) => text.clone(),
            PulseError::UpstreamStatus { status, body } => body.clone(),
            PulseError::BusOverflow(missed) => String::from_str(
                "subscriber fell behind and missed items",
            ),
        }
    }

    /// A transport error with the given description.
    pub fn transport(text: &str) -> (error: PulseError)
        ensures
            error@ == PulseErrorView::Transport(text@),
    {
        PulseError::Transport(String::from_str(text))
    }
}

impl Clone for PulseError {
    fn clone(&self) -> (copy: Self)
        ensures
            copy@ == self@,
    {
        match self {
            PulseError::Transport(text) => PulseError::Transport(text.clone()),
            PulseError::Decode(text) => PulseError::Decode(text.clone()),
            PulseError::UpstreamStatus { status, body } => PulseError::UpstreamStatus {
                status: *status,
                body: body.clone(),
            },
            PulseError::BusOverflow(missed) => PulseError::BusOverflow(*missed),
        }
    }
}

/// Copies a published item, keeping its value.
pub fn copy_item(item: &Result<String, PulseError>) -> (copy: Result<String, PulseError>)
    ensures
        item_view(copy) == item_view(*item),
{
    match item {
        Ok(text) => Ok(text.clone()),
        Err(error) => Err(error.clone()),
    }
}

/// Mathematical value of an item that travels over a bus: a payload or an
/// error marker.
pub open spec fn item_view(item: Result<String, PulseError>) -> Result<Seq<char>, PulseErrorView> {
    match item {
        Ok(text) => Ok(text@),
        Err(error) => Err(error@),
    }
}

} // verus!
