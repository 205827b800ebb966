use crate::bus::ItemView;
use crate::decoder::{
    decode_line, decoded, insert_payloads, inserts_newest_first, ChangeRecord, ChangeRecordView,
    DecodeError, DecodeErrorView,
};
use crate::error::{PulseError, PulseErrorView};
use crate::framing::{last_line, lines_view, scan, text_of, utf8_text, LineFramer};
use crate::json::texts_view;
use crate::registry::{Registry, RegistryView};
use crate::snapshot::{is_success, success};
use vstd::prelude::*;
use vstd::string::*;

verus! {

/// Seconds the reader waits before it connects again.
pub const BACKOFF_SECONDS: u64 = 10;

/// Where the reader of a view stands.
#[derive(Clone, Copy, PartialEq, Eq, Structural, Debug)]
pub enum ReaderState {
    /// A request to open the change feed is under way.
    Connecting,
    /// The feed is open and lines are read from it.
    Streaming,
    /// The connection is gone; the reader waits before it connects again.
    Backoff,
}

/// What happened on the reader's connection.
#[derive(Debug, PartialEq, Eq)]
pub enum ReaderEvent {
    /// The request to open the feed got no answer; the text says why.
    ConnectFailed(String),
    /// The engine answered the request to open the feed with this status.
    Answered(u16),
    /// The next bytes arrived on the open feed.
    Chunk(Vec<u8>),
    /// The connection broke while the feed was read; the text says how.
    TransportError(String),
    /// The engine closed the feed.
    Closed,
    /// The wait is over.
    Woke,
}

/// Mathematical value of a [`ReaderEvent`].
pub enum ReaderEventView {
    ConnectFailed(Seq<char>),
    Answered(u16),
    Chunk(Seq<u8>),
    TransportError(Seq<char>),
    Closed,
    Woke,
}

impl View for ReaderEvent {
    type V = ReaderEventView;

    open spec fn view(&self) -> ReaderEventView {
        match self {
            ReaderEvent::ConnectFailed(text) => ReaderEventView::ConnectFailed(text@),
            ReaderEvent::Answered(status) => ReaderEventView::Answered(*status),
            ReaderEvent::Chunk(bytes) => ReaderEventView::Chunk(bytes@),
            ReaderEvent::TransportError(text) => ReaderEventView::TransportError(text@),
            ReaderEvent::Closed => ReaderEventView::Closed,
            ReaderEvent::Woke => ReaderEventView::Woke,
        }
    }
}

/// What the reader's task does next.
#[derive(Clone, Copy, PartialEq, Eq, Structural, Debug)]
pub enum ReaderAction {
    /// Send the request that opens the feed and report how it went.
    Connect,
    /// Read the next bytes of the feed and report them.
    ReadChunk,
    /// Drop the connection if there is one, wait this many seconds and
    /// report that the wait is over.
    Sleep(u64),
}

/// What there is to do in a state.
pub open spec fn action_in(state: ReaderState) -> ReaderAction {
    match state {
        ReaderState::Connecting => ReaderAction::Connect,
        ReaderState::Streaming => ReaderAction::ReadChunk,
        ReaderState::Backoff => ReaderAction::Sleep(BACKOFF_SECONDS),
    }
}

/// The line terminator that ends every published payload.
pub open spec fn line_end() -> Seq<char> {
    "\n"@
}

/// What a record publishes: the payloads of its inserts, the last entry
/// first, each ended by a line terminator.
pub open spec fn record_items(record: ChangeRecordView) -> Seq<ItemView> {
    let payloads = inserts_newest_first(record.entries);
    Seq::new(payloads.len(), |i: int| Ok::<Seq<char>, PulseErrorView>(payloads[i] + line_end()))
}

/// What a line of the feed publishes. A line that does not decode
/// publishes nothing.
pub open spec fn line_items(line: Seq<char>) -> Seq<ItemView> {
    match decoded(line) {
        Ok(record) => record_items(record),
        Err(_) => Seq::empty(),
    }
}

/// The text of the error marker for a line that is not UTF-8.
pub open spec fn undecodable_text() -> Seq<char> {
    "Unable to decode input as UTF8"@
}

/// The error marker that tells subscribers that the feed broke.
pub open spec fn marker(text: Seq<char>) -> ItemView {
    Err(PulseErrorView::Transport(text))
}

/// What a run of framed lines publishes: each line publishes what it
/// decodes to, up to the first line that is not UTF-8, which publishes one
/// error marker and ends the run.
pub open spec fn lines_items(lines: Seq<Seq<u8>>) -> Seq<ItemView>
    decreases lines.len(),
{
    if lines.len() == 0 {
        Seq::empty()
    } else {
        match text_of(lines[0]) {
            None => seq![marker(undecodable_text())],
            Some(text) => line_items(text) + lines_items(lines.drop_first()),
        }
    }
}

/// One of the lines is not UTF-8.
pub open spec fn lines_break(lines: Seq<Seq<u8>>) -> bool
    decreases lines.len(),
{
    if lines.len() == 0 {
        false
    } else {
        match text_of(lines[0]) {
            None => true,
            Some(_) => lines_break(lines.drop_first()),
        }
    }
}

/// The reasons for which lines of a run are dropped, in order: the lines
/// that are text and do not decode, up to the first line that is not UTF-8.
pub open spec fn lines_skipped(lines: Seq<Seq<u8>>) -> Seq<DecodeErrorView>
    decreases lines.len(),
{
    if lines.len() == 0 {
        Seq::empty()
    } else {
        match text_of(lines[0]) {
            None => Seq::empty(),
            Some(text) => (match decoded(text) {
                Ok(_) => Seq::empty(),
                Err(error) => seq![error],
            }) + lines_skipped(lines.drop_first()),
        }
    }
}

/// Mathematical value of an [`UpstreamReader`].
pub struct ReaderView {
    pub view: usize,
    pub state: ReaderState,
    /// The bytes of the open feed after the last line feed.
    pub held: Seq<u8>,
}

impl ReaderView {
    /// The lines that an event completes: those that the bytes of a chunk
    /// end, or the line that a closed feed leaves without a line feed.
    pub open spec fn framed(self, event: ReaderEventView) -> Seq<Seq<u8>> {
        match (self.state, event) {
            (ReaderState::Streaming, ReaderEventView::Chunk(bytes)) => scan(self.held + bytes).0,
            (ReaderState::Streaming, ReaderEventView::Closed) => match last_line(self.held) {
                Some(line) => seq![line],
                None => Seq::empty(),
            },
            _ => Seq::empty(),
        }
    }

    /// What an event publishes on the view's bus: the lines that it
    /// completes publish their inserts, a broken connection publishes one
    /// error marker, and nothing is published while no feed is open.
    pub open spec fn emitted(self, event: ReaderEventView) -> Seq<ItemView> {
        match (self.state, event) {
            (ReaderState::Streaming, ReaderEventView::TransportError(text)) => seq![marker(text)],
            _ => lines_items(self.framed(event)),
        }
    }

    /// The reasons for which an event drops lines.
    pub open spec fn skipped(self, event: ReaderEventView) -> Seq<DecodeErrorView> {
        lines_skipped(self.framed(event))
    }

    /// The state after an event. The feed opens on an answer with a success
    /// status; it stays open while bytes arrive that frame into text; the
    /// wait ends when it is over. Everything else ends in the wait.
    pub open spec fn next_state(self, event: ReaderEventView) -> ReaderState {
        match (self.state, event) {
            (ReaderState::Connecting, ReaderEventView::Answered(status)) => if is_success(status) {
                ReaderState::Streaming
            } else {
                ReaderState::Backoff
            },
            (ReaderState::Streaming, ReaderEventView::Chunk(_)) => if lines_break(
                self.framed(event),
            ) {
                ReaderState::Backoff
            } else {
                ReaderState::Streaming
            },
            (ReaderState::Backoff, ReaderEventView::Woke) => ReaderState::Connecting,
            _ => ReaderState::Backoff,
        }
    }

    /// The reader after an event. Bytes are held back only while the feed
    /// stays open.
    pub open spec fn next(self, event: ReaderEventView) -> ReaderView {
        ReaderView {
            view: self.view,
            state: self.next_state(event),
            held: match (self.state, event) {
                (ReaderState::Streaming, ReaderEventView::Chunk(bytes)) => if lines_break(
                    self.framed(event),
                ) {
                    Seq::empty()
                } else {
                    scan(self.held + bytes).1
                },
                _ => Seq::empty(),
            },
        }
    }
}

/// What the reader did with an event.
pub struct Handled {
    /// What to do next.
    pub action: ReaderAction,
    /// Something went out on the bus.
    pub published: bool,
    /// Why lines were dropped, in order.
    pub skipped: Vec<DecodeError>,
}

/// Views of a list of decode errors.
pub open spec fn errors_view(errors: Seq<DecodeError>) -> Seq<DecodeErrorView> {
    Seq::new(errors.len(), |i: int| errors[i]@)
}

/// The reader of one view's change feed: a state machine that is told what
/// happened on the connection and says what to do next. It has no final
/// state.
pub struct UpstreamReader {
    view: usize,
    state: ReaderState,
    framer: LineFramer,
}

impl View for UpstreamReader {
    type V = ReaderView;

    closed spec fn view(&self) -> ReaderView {
        ReaderView { view: self.view, state: self.state, held: self.framer@ }
    }
}

/// Publishing two runs of items one after the other is publishing the runs
/// joined.
pub proof fn lemma_publish_all_joined(
    registry: RegistryView,
    view: int,
    first: Seq<ItemView>,
    second: Seq<ItemView>,
)
    ensures
        registry.publish_all(view, first + second) == registry.publish_all(view, first).publish_all(
            view,
            second,
        ),
    decreases second.len(),
{
    if second.len() == 0 {
        assert(first + second =~= first);
    } else {
        lemma_publish_all_joined(registry, view, first, second.drop_last());
        assert((first + second).drop_last() =~= first + second.drop_last());
    }
}

/// Publishes what a record holds on a view: the payloads of its inserts,
/// the last entry first, each ended by a line terminator. Returns how many
/// items went out.
pub fn publish_record(registry: &mut Registry, view: usize, record: &ChangeRecord) -> (count: usize)
    ensures
        final(registry)@ == old(registry)@.publish_all(view as int, record_items(record@)),
        count == record_items(record@).len(),
{
    let ghost before = registry@;
    let ghost items = record_items(record@);
    let payloads = insert_payloads(record);
    let mut i: usize = 0;
    assert(items.take(0) =~= Seq::<ItemView>::empty());
    while i < payloads.len()
        invariant
            i <= payloads.len(),
            items == record_items(record@),
            texts_view(payloads@) == inserts_newest_first(record@.entries),
            registry@ == before.publish_all(view as int, items.take(i as int)),
        decreases payloads.len() - i,
    {
        let mut text = payloads[i].clone();
        text.append("\n");
        assert(texts_view(payloads@)[i as int] == payloads@[i as int]@);
        assert(items.take(i + 1).drop_last() =~= items.take(i as int));
        assert(items.take(i + 1).last() == items[i as int]);
        registry.publish(view, Ok(text));
        i += 1;
    }
    assert(items.take(i as int) =~= items);
    i
}

/// What a run of framed lines did.
pub struct Run {
    /// Something went out on the bus.
    pub published: bool,
    /// Why lines were dropped, in order.
    pub skipped: Vec<DecodeError>,
    /// A line was not UTF-8, and the run ended there.
    pub broke: bool,
}

/// Publishes on a view what a line of text decodes to, and says how many
/// items went out; a line that does not decode publishes nothing and the
/// reason is returned.
pub fn publish_line(registry: &mut Registry, view: usize, line: &str) -> (result: Result<
    usize,
    DecodeError,
>)
    ensures
        final(registry)@ == old(registry)@.publish_all(view as int, line_items(line@)),
        match result {
            Ok(count) => decoded(line@) is Ok && count == line_items(line@).len(),
            Err(error) => decoded(line@) == Err::<ChangeRecordView, DecodeErrorView>(error@),
        },
{
    match decode_line(line) {
        Ok(record) => Ok(publish_record(registry, view, &record)),
        Err(error) => Err(error),
    }
}

/// Publishes on a view what a run of framed lines holds, line by line, up
/// to the first line that is not UTF-8, for which one error marker goes
/// out.
pub fn publish_lines(registry: &mut Registry, view: usize, lines: &Vec<Vec<u8>>) -> (run: Run)
    ensures
        final(registry)@ == old(registry)@.publish_all(
            view as int,
            lines_items(lines_view(lines@)),
        ),
        run.published == (lines_items(lines_view(lines@)).len() > 0),
        errors_view(run.skipped@) == lines_skipped(lines_view(lines@)),
        run.broke == lines_break(lines_view(lines@)),
{
    let ghost before = registry@;
    let ghost all = lines_view(lines@);
    let mut published = false;
    let mut skipped: Vec<DecodeError> = Vec::new();
    let mut i: usize = 0;
    assert(all.skip(0) =~= all);
    assert(errors_view(skipped@) + lines_skipped(all) =~= lines_skipped(all));
    while i < lines.len()
        invariant
            i <= lines.len(),
            all == lines_view(lines@),
            before == old(registry)@,
            before.publish_all(view as int, lines_items(all)) == registry@.publish_all(
                view as int,
                lines_items(all.skip(i as int)),
            ),
            (lines_items(all).len() > 0) == (published || lines_items(all.skip(i as int)).len()
                > 0),
            lines_skipped(all) == errors_view(skipped@) + lines_skipped(all.skip(i as int)),
            lines_break(all) == lines_break(all.skip(i as int)),
        decreases lines.len() - i,
    {
        let ghost left = all.skip(i as int);
        let ghost dropped = errors_view(skipped@);
        assert(left[0] == lines@[i as int]@);
        assert(left.drop_first() =~= all.skip(i + 1));
        match utf8_text(lines[i].as_slice()) {
            None => {
                let ghost last = seq![marker(undecodable_text())];
                assert(last.drop_last() =~= Seq::<ItemView>::empty());
                assert(registry@.publish_all(view as int, last.drop_last()) == registry@);
                assert(registry@.publish_all(view as int, last) == registry@.publish(
                    view as int,
                    last.last(),
                ));
                assert(lines_items(left) == last);
                registry.publish(
                    view,
                    Err(PulseError::Transport(String::from_str("Unable to decode input as UTF8"))),
                );
                assert(dropped + Seq::<DecodeErrorView>::empty() =~= dropped);
                return Run { published: true, skipped, broke: true };
            },
            Some(text) => {
                proof {
                    lemma_publish_all_joined(
                        registry@,
                        view as int,
                        line_items(text@),
                        lines_items(left.drop_first()),
                    );
                }
                match publish_line(registry, view, text) {
                    Ok(count) => {
                        if count > 0 {
                            published = true;
                        }
                        assert(dropped + (Seq::<DecodeErrorView>::empty() + lines_skipped(
                            left.drop_first(),
                        )) =~= dropped + lines_skipped(left.drop_first()));
                    },
                    Err(error) => {
                        skipped.push(error);
                        assert(errors_view(skipped@) =~= dropped.push(error@));
                        assert(dropped + (seq![error@] + lines_skipped(left.drop_first()))
                            =~= dropped.push(error@) + lines_skipped(left.drop_first()));
                    },
                }
            },
        }
        i += 1;
    }
    assert(errors_view(skipped@) + Seq::<DecodeErrorView>::empty() =~= errors_view(skipped@));
    Run { published, skipped, broke: false }
}

impl UpstreamReader {
    pub(crate) fn for_view(view: usize) -> (reader: UpstreamReader)
        ensures
            reader@ == (ReaderView { view, state: ReaderState::Connecting, held: Seq::empty() }),
    {
        let reader = UpstreamReader {
            view,
            state: ReaderState::Connecting,
            framer: LineFramer::new(),
        };
        assert(reader@.held =~= Seq::<u8>::empty());
        reader
    }

    /// The index of the view that this reader reads.
    pub fn view_index(&self) -> (view: usize)
        ensures
            view == self@.view,
    {
        self.view
    }

    /// Where the reader stands.
    pub fn state(&self) -> (state: ReaderState)
        ensures
            state == self@.state,
    {
        self.state
    }

    /// What there is to do in the reader's state.
    pub fn pending_action(&self) -> (action: ReaderAction)
        ensures
            action == action_in(self@.state),
    {
        match self.state {
            ReaderState::Connecting => ReaderAction::Connect,
            ReaderState::Streaming => ReaderAction::ReadChunk,
            ReaderState::Backoff => ReaderAction::Sleep(BACKOFF_SECONDS),
        }
    }

    /// Takes an event, moves to the next state, publishes on the view's bus
    /// what the event calls for, and says what to do next. A line that does
    /// not decode is dropped and reported, and the feed stays open.
    pub fn on_event(&mut self, event: ReaderEvent, registry: &mut Registry) -> (handled: Handled)
        ensures
            final(self)@ == old(self)@.next(event@),
            handled.action == action_in(final(self)@.state),
            final(registry)@ == old(registry)@.publish_all(
                old(self)@.view as int,
                old(self)@.emitted(event@),
            ),
            handled.published == (old(self)@.emitted(event@).len() > 0),
            errors_view(handled.skipped@) == old(self)@.skipped(event@),
    {
        let ghost before = registry@;
        let ghost reader = self@;
        let mut run = Run { published: false, skipped: Vec::new(), broke: false };
        assert(errors_view(run.skipped@) =~= Seq::<DecodeErrorView>::empty());
        let mut stays_open = false;
        match (self.state, event) {
            (ReaderState::Connecting, ReaderEvent::Answered(status)) => {
                self.framer.clear();
                self.state = if success(status) {
                    ReaderState::Streaming
                } else {
                    ReaderState::Backoff
                };
                stays_open = true;
            },
            (ReaderState::Streaming, ReaderEvent::Chunk(bytes)) => {
                let lines = self.framer.push(bytes.as_slice());
                run = publish_lines(registry, self.view, &lines);
                if run.broke {
                    self.state = ReaderState::Backoff;
                } else {
                    stays_open = true;
                }
            },
            (ReaderState::Streaming, ReaderEvent::Closed) => {
                let mut lines: Vec<Vec<u8>> = Vec::new();
                match self.framer.finish() {
                    Some(line) => {
                        lines.push(line);
                        assert(lines_view(lines@) =~= seq![line@]);
                    },
                    None => {
                        assert(lines_view(lines@) =~= Seq::<Seq<u8>>::empty());
                    },
                }
                run = publish_lines(registry, self.view, &lines);
                self.state = ReaderState::Backoff;
            },
            (ReaderState::Streaming, ReaderEvent::TransportError(text)) => {
                let ghost last = seq![marker(text@)];
                assert(last.drop_last() =~= Seq::<ItemView>::empty());
                assert(before.publish_all(self.view as int, last.drop_last()) == before);
                registry.publish(self.view, Err(PulseError::Transport(text)));
                run.published = true;
                self.state = ReaderState::Backoff;
            },
            (ReaderState::Backoff, ReaderEvent::Woke) => {
                self.state = ReaderState::Connecting;
            },
            _ => {
                self.state = ReaderState::Backoff;
            },
        }
        if !stays_open {
            self.framer.clear();
        }
        assert(self@.held =~= reader.next(event@).held);
        Handled { action: self.pending_action(), published: run.published, skipped: run.skipped }
    }
}

/// A failed attempt to connect reaches no subscriber: nothing is published,
/// the reader waits ten seconds, and connects again when the wait is over.
/// The same holds of an answer with a status outside the success range.
pub proof fn law_connect_failure_stays_inside(reader: ReaderView, event: ReaderEventView)
    requires
        reader.state == ReaderState::Connecting,
        event is ConnectFailed || (event matches ReaderEventView::Answered(status) && !is_success(
            status,
        )),
    ensures
        reader.emitted(event).len() == 0,
        reader.next(event).state == ReaderState::Backoff,
        action_in(reader.next(event).state) == ReaderAction::Sleep(10),
        reader.next(event).next(ReaderEventView::Woke).state == ReaderState::Connecting,
        action_in(ReaderState::Connecting) == ReaderAction::Connect,
{
}

/// The reader asks for a connection only when a wait has ended, that is
/// when it holds none: a view never has two connections at a time.
pub proof fn law_one_connection_at_a_time(reader: ReaderView, event: ReaderEventView)
    ensures
        action_in(reader.next(event).state) == ReaderAction::Connect <==> (reader.state
            == ReaderState::Backoff && event is Woke),
{
}

/// A line that is text never closes the feed, whether it decodes or not,
/// and a line that does not decode publishes nothing: bytes that frame into
/// text leave the reader streaming.
pub proof fn law_bad_line_is_skipped(reader: ReaderView, bytes: Seq<u8>, line: Seq<char>)
    requires
        reader.state == ReaderState::Streaming,
        !lines_break(scan(reader.held + bytes).0),
    ensures
        reader.next(ReaderEventView::Chunk(bytes)).state == ReaderState::Streaming,
        decoded(line) is Err ==> line_items(line).len() == 0,
{
}

/// When the open feed ends, in whatever way, the reader waits and then
/// connects again, and holds no bytes back. A broken connection leaves one
/// marker on the bus and nothing else.
pub proof fn law_lost_connection_is_retried(reader: ReaderView, event: ReaderEventView)
    requires
        reader.state == ReaderState::Streaming,
        !(event is Chunk),
    ensures
        reader.next(event).state == ReaderState::Backoff,
        reader.next(event).held.len() == 0,
        event matches ReaderEventView::TransportError(text) ==> reader.emitted(event) == seq![
            marker(text),
        ],
{
}

/// What two runs of lines publish, one after the other, is what the first
/// run publishes, followed by what the second publishes unless the first
/// broke off at a line that is not UTF-8; and so for what they drop.
pub proof fn lemma_lines_joined(first: Seq<Seq<u8>>, second: Seq<Seq<u8>>)
    ensures
        lines_break(first + second) == (lines_break(first) || lines_break(second)),
        lines_items(first + second) == if lines_break(first) {
            lines_items(first)
        } else {
            lines_items(first) + lines_items(second)
        },
        lines_skipped(first + second) == if lines_break(first) {
            lines_skipped(first)
        } else {
            lines_skipped(first) + lines_skipped(second)
        },
    decreases first.len(),
{
    if first.len() == 0 {
        assert(first + second =~= second);
        assert(lines_items(first) + lines_items(second) =~= lines_items(second));
        assert(lines_skipped(first) + lines_skipped(second) =~= lines_skipped(second));
    } else {
        assert((first + second).drop_first() =~= first.drop_first() + second);
        assert((first + second)[0] == first[0]);
        lemma_lines_joined(first.drop_first(), second);
        match text_of(first[0]) {
            None => {},
            Some(text) => {
                let head = line_items(text);
                let rest = lines_items(first.drop_first());
                assert(head + (rest + lines_items(second)) =~= (head + rest) + lines_items(second));
                let dropped = match decoded(text) {
                    Ok(_) => Seq::<DecodeErrorView>::empty(),
                    Err(error) => seq![error],
                };
                let more = lines_skipped(first.drop_first());
                assert(dropped + (more + lines_skipped(second)) =~= (dropped + more)
                    + lines_skipped(second));
            },
        }
    }
}

/// It does not matter how the bytes of a feed are cut into chunks: two
/// chunks, one after the other, publish what the two publish as one chunk,
/// drop the same lines and leave the reader as the one chunk does.
pub proof fn law_chunks_publish_what_their_bytes_publish(
    reader: ReaderView,
    first: Seq<u8>,
    second: Seq<u8>,
)
    requires
        reader.state == ReaderState::Streaming,
    ensures
        ({
            let between = reader.next(ReaderEventView::Chunk(first));
            let whole = ReaderEventView::Chunk(first + second);
            &&& reader.emitted(ReaderEventView::Chunk(first)) + between.emitted(
                ReaderEventView::Chunk(second),
            ) == reader.emitted(whole)
            &&& reader.skipped(ReaderEventView::Chunk(first)) + between.skipped(
                ReaderEventView::Chunk(second),
            ) == reader.skipped(whole)
            &&& between.next(ReaderEventView::Chunk(second)).state == reader.next(whole).state
            &&& between.next(ReaderEventView::Chunk(second)).held == reader.next(whole).held
        }),
{
    let between = reader.next(ReaderEventView::Chunk(first));
    let early = scan(reader.held + first);
    crate::framing::law_chunking_does_not_matter(reader.held + first, second);
    assert((reader.held + first) + second =~= reader.held + (first + second));
    lemma_lines_joined(early.0, scan(early.1 + second).0);
    if lines_break(early.0) {
        assert(reader.emitted(ReaderEventView::Chunk(first)) + Seq::<ItemView>::empty()
            =~= reader.emitted(ReaderEventView::Chunk(first)));
        assert(reader.skipped(ReaderEventView::Chunk(first)) + Seq::<DecodeErrorView>::empty()
            =~= reader.skipped(ReaderEventView::Chunk(first)));
    }
}

/// Only an open feed publishes.
pub proof fn law_only_an_open_feed_publishes(reader: ReaderView, event: ReaderEventView)
    requires
        reader.state != ReaderState::Streaming,
    ensures
        reader.emitted(event).len() == 0,
{
}

/// The reader never stops: in every state, every event leaves it in one of
/// its three states with something to do.
pub proof fn law_reader_never_stops(reader: ReaderView, event: ReaderEventView)
    ensures
        ({
            let action = action_in(reader.next(event).state);
            action == ReaderAction::Connect || action == ReaderAction::ReadChunk || action
                == ReaderAction::Sleep(10)
        }),
{
}

} // verus!
