use crate::bus::{Delivery, DeliveryView, Subscription, Waiting};
use crate::error::{item_view, PulseError, PulseErrorView};
use crate::json::{json_string, quoted, texts_view};
use crate::registry::{Registry, RegistryView};
use crate::text::{join3, trim, trimmed};
use vstd::prelude::*;

verus! {

/// Status of the answer to a request that cannot be served.
pub const REJECT_STATUS: u16 = 500;

/// The body of the answer to a request that cannot be served, put together
/// from the message as a JSON string: a JSON object with the message under
/// `error`.
pub open spec fn error_object(message: Seq<char>) -> Seq<char> {
    "{\"error\": "@ + message + "}"@
}

/// The body of the answer to a request that cannot be served: a JSON object
/// that holds the message, trimmed, under `error`.
pub open spec fn error_body_of(message: Seq<char>) -> Seq<char> {
    error_object(quoted(trimmed(message)))
}

/// Puts the body of the answer to a request that cannot be served together
/// from the message, already written as a JSON string.
pub fn assemble_error(message: &str) -> (body: String)
    ensures
        body@ == error_object(message@),
{
    join3("{\"error\": ", message, "}")
}

/// Builds the body of the answer to a request that cannot be served.
pub fn error_body(message: &str) -> (body: String)
    ensures
        body@ == error_body_of(message@),
{
    let text = trim(message);
    let written = json_string(text.as_str());
    assemble_error(written.as_str())
}

/// Message of the rejection of a request that names a view that was never
/// declared.
pub open spec fn unknown_view_text() -> Seq<char> {
    "unknown view"@
}

/// A live tail: a subscription on the bus of a view.
pub struct Tail {
    view: usize,
    subscription: Subscription,
}

/// Mathematical value of a [`Tail`].
pub struct TailView {
    pub view: int,
    pub slot: int,
}

impl View for Tail {
    type V = TailView;

    closed spec fn view(&self) -> TailView {
        TailView { view: self.view as int, slot: self.subscription@ }
    }
}

/// Views of a list of tails.
pub open spec fn tails_view(tails: Seq<Tail>) -> Seq<TailView> {
    Seq::new(tails.len(), |i: int| tails[i]@)
}

/// Mathematical value of what a step of a response yields.
pub enum StreamStepView {
    /// The next element of the body.
    Chunk(Seq<char>),
    /// Nothing is ready; the body stays open.
    Idle,
    /// The body ends with this error.
    Failed(PulseErrorView),
    /// The body has ended.
    Finished,
}

/// What a step of a response yields.
#[derive(Debug, PartialEq, Eq)]
pub enum StreamStep {
    /// The next element of the body.
    Chunk(String),
    /// Nothing is ready; the body stays open.
    Idle,
    /// The body ends with this error.
    Failed(PulseError),
    /// The body has ended.
    Finished,
}

impl View for StreamStep {
    type V = StreamStepView;

    open spec fn view(&self) -> StreamStepView {
        match self {
            StreamStep::Chunk(text) => StreamStepView::Chunk(text@),
            StreamStep::Idle => StreamStepView::Idle,
            StreamStep::Failed(error) => StreamStepView::Failed(error@),
            StreamStep::Finished => StreamStepView::Finished,
        }
    }
}

/// What waits for the subscriber of a tail.
pub open spec fn waiting_at(registry: RegistryView, tail: TailView) -> Waiting {
    registry.waiting(tail.view, tail.slot)
}

/// What waits as `first` goes before what waits as `second`: a notice goes
/// before any item, an item before the items that arrived after it, and
/// anything before nothing.
pub open spec fn sooner(first: Waiting, second: Waiting) -> bool {
    match (first, second) {
        (Waiting::Nothing, _) => false,
        (_, Waiting::Nothing) => true,
        (Waiting::Notice, Waiting::Notice) => false,
        (Waiting::Notice, Waiting::Item(_)) => true,
        (Waiting::Item(_), Waiting::Notice) => false,
        (Waiting::Item(early), Waiting::Item(late)) => early < late,
    }
}

/// Among the first `count` tails, the one whose subscriber is served next:
/// the one with the earliest arrival waiting, and of several such the first.
pub open spec fn earliest(registry: RegistryView, tails: Seq<TailView>, count: int) -> Option<int>
    decreases count,
{
    if count <= 0 {
        None
    } else {
        let best = earliest(registry, tails, count - 1);
        let here = waiting_at(registry, tails[count - 1]);
        match best {
            None => if here == Waiting::Nothing {
                None
            } else {
                Some(count - 1)
            },
            Some(place) => if sooner(here, waiting_at(registry, tails[place])) {
                Some(count - 1)
            } else {
                best
            },
        }
    }
}

/// Mathematical value of a [`ResponseStream`].
pub struct StreamView {
    /// The snapshots, in the order of the requested views.
    pub snapshots: Seq<Seq<char>>,
    /// How many of the snapshots have been yielded.
    pub sent: nat,
    /// The live tails, in the order of the requested views.
    pub tails: Seq<TailView>,
    /// The body has ended.
    pub ended: bool,
}

impl StreamView {
    /// No more snapshots are counted as yielded than there are.
    pub open spec fn wf(self) -> bool {
        self.sent <= self.snapshots.len()
    }

    /// A response that has yielded nothing yet.
    pub open spec fn fresh(snapshots: Seq<Seq<char>>, tails: Seq<TailView>) -> StreamView {
        StreamView { snapshots, sent: 0, tails, ended: false }
    }

    /// One step of the response against the registry as it is: the stream
    /// and the registry afterwards, and what the step yields. Snapshots come
    /// first, one per step, and leave the registry alone. After them the
    /// tails are merged in the order of arrival: of all that waits on them,
    /// what arrived first is served. A payload is yielded; an error marker
    /// or a count of dropped items ends the body with that error; a tail
    /// whose subscriber is gone ends the body.
    pub open spec fn step(self, registry: RegistryView) -> (
        StreamView,
        RegistryView,
        StreamStepView,
    ) {
        if self.ended {
            (self, registry, StreamStepView::Finished)
        } else if self.sent < self.snapshots.len() {
            (
                StreamView { sent: self.sent + 1, ..self },
                registry,
                StreamStepView::Chunk(self.snapshots[self.sent as int]),
            )
        } else {
            match earliest(registry, self.tails, self.tails.len() as int) {
                None => (self, registry, StreamStepView::Idle),
                Some(place) => self.serve(registry, place),
            }
        }
    }

    /// The step that serves the tail at `place`.
    pub open spec fn serve(self, registry: RegistryView, place: int) -> (
        StreamView,
        RegistryView,
        StreamStepView,
    ) {
        let tail = self.tails[place];
        let (after, delivery) = registry.receive(tail.view, tail.slot);
        match delivery {
            DeliveryView::Item(Ok(text)) => (self, after, StreamStepView::Chunk(text)),
            DeliveryView::Item(Err(error)) => (
                StreamView { ended: true, ..self },
                after,
                StreamStepView::Failed(error),
            ),
            DeliveryView::Missed(missed) => (
                StreamView { ended: true, ..self },
                after,
                StreamStepView::Failed(PulseErrorView::BusOverflow(missed as u64)),
            ),
            DeliveryView::Detached => (
                StreamView { ended: true, ..self },
                after,
                StreamStepView::Finished,
            ),
            DeliveryView::Empty => (self, registry, StreamStepView::Idle),
        }
    }
}

/// The registry after the subscribers of `tails` detach, the last tail
/// first.
pub open spec fn detach_all(registry: RegistryView, tails: Seq<TailView>) -> RegistryView
    decreases tails.len(),
{
    if tails.len() == 0 {
        registry
    } else {
        detach_all(registry.unsubscribe(tails.last().view, tails.last().slot), tails.drop_last())
    }
}

/// The registry after one subscriber attaches to each of `views`, in order,
/// and the tails that result.
pub open spec fn attach_all(registry: RegistryView, views: Seq<usize>) -> (
    RegistryView,
    Seq<TailView>,
)
    decreases views.len(),
{
    if views.len() == 0 {
        (registry, Seq::empty())
    } else {
        let (earlier, tails) = attach_all(registry, views.drop_last());
        let view = views.last() as int;
        (
            earlier.subscribe(view),
            tails.push(TailView { view, slot: earlier.bus(view).next_slot() }),
        )
    }
}

/// All of `views` are declared in the registry.
pub open spec fn all_known(registry: RegistryView, views: Seq<usize>) -> bool {
    forall|i: int| 0 <= i < views.len() ==> registry.knows(#[trigger] views[i] as int)
}

/// The body of one response: the snapshots of the requested views, then
/// what their buses carry, for as long as the client stays.
pub struct ResponseStream {
    snapshots: Vec<String>,
    sent: usize,
    tails: Vec<Tail>,
    ended: bool,
}

impl View for ResponseStream {
    type V = StreamView;

    closed spec fn view(&self) -> StreamView {
        StreamView {
            snapshots: texts_view(self.snapshots@),
            sent: self.sent as nat,
            tails: tails_view(self.tails@),
            ended: self.ended,
        }
    }
}

/// Tells whether what waits as `first` goes before what waits as `second`.
pub fn is_sooner(first: Waiting, second: Waiting) -> (yes: bool)
    ensures
        yes == sooner(first, second),
{
    match (first, second) {
        (Waiting::Nothing, _) => false,
        (_, Waiting::Nothing) => true,
        (Waiting::Notice, Waiting::Notice) => false,
        (Waiting::Notice, Waiting::Item(_)) => true,
        (Waiting::Item(_), Waiting::Notice) => false,
        (Waiting::Item(early), Waiting::Item(late)) => early < late,
    }
}

/// A subscriber that is handed nothing, or is not there, leaves the
/// registry as it was.
pub proof fn lemma_idle_receive(registry: RegistryView, view: int, slot: int)
    requires
        registry.receive(view, slot).1 is Empty || registry.receive(view, slot).1 is Detached,
    ensures
        registry.receive(view, slot).0 == registry,
{
    if registry.knows(view) {
        let bus = registry.bus(view);
        if bus.attached(slot) {
            assert(bus.receive(slot).0.slots =~= bus.slots);
        }
        assert(registry.receive(view, slot).0.relays =~= registry.relays);
    }
}

impl ResponseStream {
    #[verifier::type_invariant]
    spec fn sound(self) -> bool {
        self@.wf()
    }

    /// The counters of the stream are within their lists, at any time.
    pub fn stays_sound(&self)
        ensures
            self@.wf(),
    {
        proof {
            use_type_invariant(self);
        }
    }

    /// Takes one step: yields the next element of the body, if there is
    /// one.
    pub fn next(&mut self, registry: &mut Registry) -> (step: StreamStep)
        ensures
            (final(self)@, final(registry)@, step@) == old(self)@.step(old(registry)@),
    {
        proof {
            use_type_invariant(&*self);
        }
        let ghost before = registry@;
        let ghost stream = self@;
        if self.ended {
            return StreamStep::Finished;
        }
        if self.sent < self.snapshots.len() {
            let text = self.snapshots[self.sent].clone();
            self.sent = self.sent + 1;
            return StreamStep::Chunk(text);
        }
        let size = self.tails.len();
        let mut best: Option<usize> = None;
        let mut best_waiting = Waiting::Nothing;
        let mut i: usize = 0;
        while i < size
            invariant
                i <= size,
                size == self.tails.len(),
                self@ == stream,
                match best {
                    Some(place) => {
                        &&& earliest(registry@, stream.tails, i as int) == Some(place as int)
                        &&& place < i
                        &&& best_waiting == waiting_at(registry@, stream.tails[place as int])
                    },
                    None => earliest(registry@, stream.tails, i as int) is None,
                },
            decreases size - i,
        {
            assert(stream.tails[i as int] == self.tails@[i as int]@);
            let here = registry.waiting(self.tails[i].view, &self.tails[i].subscription);
            match best {
                None => {
                    if here != Waiting::Nothing {
                        best = Some(i);
                        best_waiting = here;
                    }
                },
                Some(_) => {
                    if is_sooner(here, best_waiting) {
                        best = Some(i);
                        best_waiting = here;
                    }
                },
            }
            i += 1;
        }
        let place = match best {
            None => {
                return StreamStep::Idle;
            },
            Some(place) => place,
        };
        assert(stream.tails[place as int] == self.tails@[place as int]@);
        let delivery = registry.receive(self.tails[place].view, &self.tails[place].subscription);
        match delivery {
            Delivery::Empty => {
                proof {
                    lemma_idle_receive(
                        before,
                        stream.tails[place as int].view,
                        stream.tails[place as int].slot,
                    );
                }
                StreamStep::Idle
            },
            Delivery::Item(Ok(text)) => StreamStep::Chunk(text),
            Delivery::Item(Err(error)) => {
                self.ended = true;
                StreamStep::Failed(error)
            },
            Delivery::Missed(missed) => {
                self.ended = true;
                StreamStep::Failed(PulseError::BusOverflow(missed))
            },
            Delivery::Detached => {
                self.ended = true;
                StreamStep::Finished
            },
        }
    }

    /// Ends the response: detaches its subscribers, the last tail first.
    /// What was still queued for them is discarded.
    pub fn close(self, registry: &mut Registry)
        ensures
            final(registry)@ == detach_all(old(registry)@, self@.tails),
    {
        detach(self.tails, registry);
    }
}

fn detach(tails: Vec<Tail>, registry: &mut Registry)
    ensures
        final(registry)@ == detach_all(old(registry)@, tails_view(tails@)),
{
    let ghost all = tails_view(tails@);
    let mut tails = tails;
    while tails.len() > 0
        invariant
            detach_all(old(registry)@, all) == detach_all(registry@, tails_view(tails@)),
        decreases tails.len(),
    {
        let ghost left = tails_view(tails@);
        let tail = tails.pop().unwrap();
        assert(tails_view(tails@) =~= left.drop_last());
        assert(left.last() == tail@);
        registry.unsubscribe(tail.view, tail.subscription);
    }
}


/// Mathematical value of a [`Composer`].
pub struct ComposerView {
    /// The requested views, in the order in which they are served.
    pub views: Seq<usize>,
    /// The snapshots that have arrived, in the order of the views.
    pub snapshots: Seq<Seq<char>>,
    /// The subscribers that were attached when the request began, one per
    /// view.
    pub tails: Seq<TailView>,
}

/// Mathematical value of a [`Progress`].
pub enum ProgressView {
    Fetch { view: usize, composer: ComposerView },
    Rejected { status: u16, body: Seq<char> },
    Streaming(StreamView),
}

impl ComposerView {
    /// A snapshot is still wanted, and there is one tail per view.
    pub open spec fn wf(self) -> bool {
        &&& self.snapshots.len() < self.views.len()
        &&& self.tails.len() == self.views.len()
    }

    /// Where a request stands with the snapshots that have arrived: the
    /// next one is wanted, or they are all there and the body begins.
    pub open spec fn progress(self) -> ProgressView {
        if self.snapshots.len() < self.views.len() {
            ProgressView::Fetch { view: self.views[self.snapshots.len() as int], composer: self }
        } else {
            ProgressView::Streaming(StreamView::fresh(self.snapshots, self.tails))
        }
    }

    /// Where the request stands after the wanted snapshot came, or failed to
    /// come. A failure rejects the request with the error's message and
    /// detaches its subscribers.
    pub open spec fn supply(
        self,
        snapshot: Result<Seq<char>, PulseErrorView>,
        registry: RegistryView,
    ) -> (ProgressView, RegistryView) {
        match snapshot {
            Err(error) => (
                ProgressView::Rejected {
                    status: REJECT_STATUS,
                    body: error_body_of(error.message()),
                },
                detach_all(registry, self.tails),
            ),
            Ok(text) => (
                ComposerView { snapshots: self.snapshots.push(text), ..self }.progress(),
                registry,
            ),
        }
    }
}

/// Where a request for `views` stands when it begins. A view that is not
/// declared rejects it, with nothing attached. Else one subscriber is
/// attached to each view, in order, before any snapshot is asked for: what
/// is published from now on waits in their queues, so nothing falls
/// between a snapshot and its tail.
pub open spec fn begin(views: Seq<usize>, registry: RegistryView) -> (ProgressView, RegistryView) {
    if !all_known(registry, views) {
        (
            ProgressView::Rejected {
                status: REJECT_STATUS,
                body: error_body_of(unknown_view_text()),
            },
            registry,
        )
    } else {
        let (after, tails) = attach_all(registry, views);
        (ComposerView { views, snapshots: Seq::empty(), tails }.progress(), after)
    }
}

/// A request for one or more views that still waits for snapshots.
pub struct Composer {
    views: Vec<usize>,
    snapshots: Vec<String>,
    tails: Vec<Tail>,
}

impl View for Composer {
    type V = ComposerView;

    closed spec fn view(&self) -> ComposerView {
        ComposerView {
            views: self.views@,
            snapshots: texts_view(self.snapshots@),
            tails: tails_view(self.tails@),
        }
    }
}

/// Where a request stands.
pub enum Progress {
    /// The snapshot of this view is wanted next.
    Fetch { view: usize, composer: Composer },
    /// The request is answered with this status and body, and no body
    /// stream is opened.
    Rejected { status: u16, body: String },
    /// The request is answered with this body stream.
    Streaming(ResponseStream),
}

impl View for Progress {
    type V = ProgressView;

    open spec fn view(&self) -> ProgressView {
        match self {
            Progress::Fetch { view, composer } => ProgressView::Fetch {
                view: *view,
                composer: composer@,
            },
            Progress::Rejected { status, body } => ProgressView::Rejected {
                status: *status,
                body: body@,
            },
            Progress::Streaming(stream) => ProgressView::Streaming(stream@),
        }
    }
}

fn knows_all(registry: &Registry, views: &Vec<usize>) -> (yes: bool)
    ensures
        yes == all_known(registry@, views@),
{
    let count = registry.view_count();
    let mut i: usize = 0;
    while i < views.len()
        invariant
            i <= views.len(),
            count == registry@.relays.len(),
            forall|j: int| 0 <= j < i ==> registry@.knows(#[trigger] views@[j] as int),
        decreases views.len() - i,
    {
        if views[i] >= count {
            return false;
        }
        i += 1;
    }
    true
}

fn attach(views: &Vec<usize>, registry: &mut Registry) -> (tails: Vec<Tail>)
    requires
        all_known(old(registry)@, views@),
    ensures
        (final(registry)@, tails_view(tails@)) == attach_all(old(registry)@, views@),
        tails@.len() == views@.len(),
{
    let ghost before = registry@;
    let mut tails: Vec<Tail> = Vec::new();
    let mut i: usize = 0;
    assert(views@.take(0) =~= Seq::<usize>::empty());
    assert(tails_view(tails@) =~= Seq::<TailView>::empty());
    while i < views.len()
        invariant
            i <= views.len(),
            before == old(registry)@,
            all_known(before, views@),
            registry@.relays.len() == before.relays.len(),
            tails@.len() == i,
            (registry@, tails_view(tails@)) == attach_all(before, views@.take(i as int)),
        decreases views.len() - i,
    {
        let ghost earlier = registry@;
        let ghost attached = tails_view(tails@);
        assert(views@.take(i + 1).drop_last() =~= views@.take(i as int));
        assert(views@.take(i + 1).last() == views@[i as int]);
        assert(before.knows(views@[i as int] as int));
        let subscription = registry.subscribe(views[i]).unwrap();
        tails.push(Tail { view: views[i], subscription });
        assert(tails_view(tails@) =~= attached.push(
            TailView {
                view: views@[i as int] as int,
                slot: earlier.bus(views@[i as int] as int).next_slot(),
            },
        ));
        i += 1;
    }
    assert(views@.take(i as int) =~= views@);
    tails
}

fn progress_of(views: Vec<usize>, snapshots: Vec<String>, tails: Vec<Tail>) -> (progress: Progress)
    requires
        snapshots@.len() <= views@.len(),
        tails@.len() == views@.len(),
    ensures
        progress@ == (ComposerView {
            views: views@,
            snapshots: texts_view(snapshots@),
            tails: tails_view(tails@),
        }).progress(),
{
    if snapshots.len() < views.len() {
        let view = views[snapshots.len()];
        Progress::Fetch { view, composer: Composer { views, snapshots, tails } }
    } else {
        Progress::Streaming(ResponseStream { snapshots, sent: 0, tails, ended: false })
    }
}

impl Composer {
    #[verifier::type_invariant]
    spec fn sound(self) -> bool {
        self@.wf()
    }

    /// Begins to serve a request for `views`, in this order: attaches a
    /// subscriber to each of them and says which snapshot is wanted first.
    pub fn start(views: Vec<usize>, registry: &mut Registry) -> (progress: Progress)
        ensures
            (progress@, final(registry)@) == begin(views@, old(registry)@),
    {
        if !knows_all(registry, &views) {
            return Progress::Rejected { status: REJECT_STATUS, body: error_body("unknown view") };
        }
        let tails = attach(&views, registry);
        let snapshots: Vec<String> = Vec::new();
        assert(texts_view(snapshots@) =~= Seq::<Seq<char>>::empty());
        progress_of(views, snapshots, tails)
    }

    /// The view whose snapshot is wanted next.
    pub fn wanted(&self) -> (view: usize)
        ensures
            self@.wf(),
            view == self@.views[self@.snapshots.len() as int],
    {
        proof {
            use_type_invariant(self);
        }
        self.views[self.snapshots.len()]
    }

    /// Takes the snapshot that was wanted, or the error that came in its
    /// place, and says where the request stands now.
    pub fn supply(self, snapshot: Result<String, PulseError>, registry: &mut Registry) -> (progress:
        Progress)
        ensures
            (progress@, final(registry)@) == self@.supply(item_view(snapshot), old(registry)@),
    {
        proof {
            use_type_invariant(&self);
        }
        match snapshot {
            Err(error) => {
                let message = error.message();
                detach(self.tails, registry);
                Progress::Rejected { status: REJECT_STATUS, body: error_body(message.as_str()) }
            },
            Ok(text) => {
                let ghost before = texts_view(self.snapshots@);
                let views = self.views;
                let tails = self.tails;
                let mut snapshots = self.snapshots;
                snapshots.push(text);
                assert(texts_view(snapshots@) =~= before.push(text@));
                progress_of(views, snapshots, tails)
            },
        }
    }

    /// Gives the request up, as when the client leaves before the body
    /// begins: detaches its subscribers, the last one first.
    pub fn abandon(self, registry: &mut Registry)
        ensures
            final(registry)@ == detach_all(old(registry)@, self@.tails),
    {
        detach(self.tails, registry);
    }
}

} // verus!
