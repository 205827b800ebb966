use crate::bus::{
    lemma_order_is_kept, lemma_publish_keeps_bound, lemma_receive_keeps_bound,
    lemma_subscribe_keeps_bound, tick, BusView, Delivery, DeliveryView, FanoutBus, ItemView,
    Subscription, Waiting,
};
use crate::error::{item_view, PulseError};
use crate::reader::{ReaderState, UpstreamReader};
use crate::text::same_text;
use vstd::prelude::*;
use vstd::string::*;

verus! {

/// Mathematical value of what the registry holds for one view.
pub struct RelayView {
    pub name: Seq<char>,
    pub bus: BusView,
    /// The reader of this view has been handed out.
    pub reader_claimed: bool,
}

/// Mathematical value of a [`Registry`]: the declared views in the order
/// of their declaration, and the mark that the next published item gets.
pub struct RegistryView {
    pub relays: Seq<RelayView>,
    pub clock: u64,
}

/// The mark of the item that is published `later` items after the one that
/// gets the mark `clock`.
pub open spec fn mark_at(clock: u64, later: int) -> u64 {
    if clock + later <= u64::MAX {
        (clock + later) as u64
    } else {
        u64::MAX
    }
}

/// The marks of `count` items that are published from the mark `clock` on.
pub open spec fn marks_from(clock: u64, count: nat) -> Seq<u64> {
    Seq::new(count, |i: int| mark_at(clock, i))
}

/// Index of the first of `relays` with the given name.
pub open spec fn position(relays: Seq<RelayView>, name: Seq<char>) -> Option<int>
    decreases relays.len(),
{
    if relays.len() == 0 {
        None
    } else {
        match position(relays.drop_last(), name) {
            Some(index) => Some(index),
            None => if relays.last().name == name {
                Some(relays.len() - 1)
            } else {
                None
            },
        }
    }
}

impl RegistryView {
    /// No two views share a name, every bus is well formed, and every
    /// queue holds its items in the order of arrival, all of them from
    /// before the next mark.
    pub open spec fn wf(self) -> bool {
        &&& forall|i: int, j: int|
            0 <= i < j < self.relays.len() ==> self.relays[i].name != self.relays[j].name
        &&& forall|i: int| 0 <= i < self.relays.len() ==> (#[trigger] self.relays[i]).bus.wf()
        &&& forall|i: int|
            0 <= i < self.relays.len() ==> (#[trigger] self.relays[i]).bus.ordered_before(
                self.clock,
            )
    }

    /// `view` is the index of a declared view.
    pub open spec fn knows(self, view: int) -> bool {
        0 <= view < self.relays.len()
    }

    /// The index of the view with the given name.
    pub open spec fn index_of(self, name: Seq<char>) -> Option<int> {
        position(self.relays, name)
    }

    /// The bus of a declared view.
    pub open spec fn bus(self, view: int) -> BusView
        recommends
            self.knows(view),
    {
        self.relays[view].bus
    }

    /// The registry with another state of one view's bus.
    pub open spec fn with_bus(self, view: int, bus: BusView) -> RegistryView {
        RegistryView {
            clock: self.clock,
            relays: self.relays.update(
                view,
                RelayView {
                    name: self.relays[view].name,
                    bus,
                    reader_claimed: self.relays[view].reader_claimed,
                },
            ),
        }
    }

    /// The registry after a view is declared. A name that is taken changes
    /// nothing.
    pub open spec fn declare(self, name: Seq<char>, capacity: nat) -> RegistryView {
        if self.index_of(name) is Some {
            self
        } else {
            RegistryView {
                clock: self.clock,
                relays: self.relays.push(
                    RelayView { name, bus: BusView::empty(capacity), reader_claimed: false },
                ),
            }
        }
    }

    /// The registry after the reader of a view is handed out.
    pub open spec fn claim(self, view: int) -> RegistryView {
        if self.knows(view) {
            RegistryView {
                clock: self.clock,
                relays: self.relays.update(
                    view,
                    RelayView {
                        name: self.relays[view].name,
                        bus: self.relays[view].bus,
                        reader_claimed: true,
                    },
                ),
            }
        } else {
            self
        }
    }

    /// The registry after `item` is published on a view: the item gets the
    /// next mark, and the mark moves on. An unknown view changes nothing.
    pub open spec fn publish(self, view: int, item: ItemView) -> RegistryView {
        if self.knows(view) {
            RegistryView {
                clock: tick(self.clock),
                relays: self.with_bus(view, self.bus(view).publish(item, self.clock)).relays,
            }
        } else {
            self
        }
    }

    /// What waits for a subscriber of a view. On an unknown view nobody is
    /// attached.
    pub open spec fn waiting(self, view: int, slot: int) -> Waiting {
        if self.knows(view) {
            self.bus(view).waiting(slot)
        } else {
            Waiting::Notice
        }
    }

    /// The registry after `items` are published on a view, one after the
    /// other.
    pub open spec fn publish_all(self, view: int, items: Seq<ItemView>) -> RegistryView
        decreases items.len(),
    {
        if items.len() == 0 {
            self
        } else {
            self.publish_all(view, items.drop_last()).publish(view, items.last())
        }
    }

    /// The registry after a subscriber attaches to a view.
    pub open spec fn subscribe(self, view: int) -> RegistryView {
        if self.knows(view) {
            self.with_bus(view, self.bus(view).subscribe())
        } else {
            self
        }
    }

    /// The registry after a subscriber detaches from a view.
    pub open spec fn unsubscribe(self, view: int, slot: int) -> RegistryView {
        if self.knows(view) {
            self.with_bus(view, self.bus(view).unsubscribe(slot))
        } else {
            self
        }
    }

    /// The registry after a subscriber of a view asks for its next item, and
    /// what it gets. On an unknown view nobody is attached.
    pub open spec fn receive(self, view: int, slot: int) -> (RegistryView, DeliveryView) {
        if self.knows(view) {
            let (bus, delivery) = self.bus(view).receive(slot);
            (self.with_bus(view, bus), delivery)
        } else {
            (self, DeliveryView::Detached)
        }
    }
}

/// What the registry holds for one view.
pub struct Relay {
    name: String,
    bus: FanoutBus,
    reader_claimed: bool,
}

impl View for Relay {
    type V = RelayView;

    closed spec fn view(&self) -> RelayView {
        RelayView { name: self.name@, bus: self.bus@, reader_claimed: self.reader_claimed }
    }
}

/// Views of the relays of a registry.
pub open spec fn relays_view(relays: Seq<Relay>) -> Seq<RelayView> {
    Seq::new(relays.len(), |i: int| relays[i]@)
}

/// The views of the process, each with its bus. It is built once at start
/// and handed to whoever publishes or subscribes.
pub struct Registry {
    relays: Vec<Relay>,
    clock: u64,
}

impl View for Registry {
    type V = RegistryView;

    closed spec fn view(&self) -> RegistryView {
        RegistryView { relays: relays_view(self.relays@), clock: self.clock }
    }
}

proof fn lemma_position_found(relays: Seq<RelayView>, name: Seq<char>, index: int)
    requires
        0 <= index < relays.len(),
        relays[index].name == name,
        position(relays.take(index), name) is None,
    ensures
        position(relays, name) == Some(index),
    decreases relays.len(),
{
    if index == relays.len() - 1 {
        assert(relays.drop_last() =~= relays.take(index));
    } else {
        assert(relays.drop_last().take(index) =~= relays.take(index));
        lemma_position_found(relays.drop_last(), name, index);
    }
}

/// A found position holds the name, and a name that is not found is not
/// there.
pub proof fn lemma_position(relays: Seq<RelayView>, name: Seq<char>)
    ensures
        match position(relays, name) {
            Some(index) => 0 <= index < relays.len() && relays[index].name == name,
            None => forall|i: int| 0 <= i < relays.len() ==> relays[i].name != name,
        },
    decreases relays.len(),
{
    if relays.len() > 0 {
        lemma_position(relays.drop_last(), name);
        if position(relays, name) is None {
            assert forall|i: int| 0 <= i < relays.len() implies relays[i].name != name by {
                if i < relays.len() - 1 {
                    assert(relays.drop_last()[i].name != name);
                }
            }
        }
    }
}

impl Registry {
    #[verifier::type_invariant]
    spec fn sound(self) -> bool {
        self@.wf()
    }

    /// A registry without views.
    pub fn new() -> (registry: Registry)
        ensures
            registry@.relays.len() == 0,
            registry@.clock == 0,
    {
        let registry = Registry { relays: Vec::new(), clock: 0 };
        assert(relays_view(registry.relays@) =~= Seq::<RelayView>::empty());
        registry
    }

    /// No two views share a name and every bus keeps within its capacity,
    /// at any time.
    pub fn stays_sound(&self)
        ensures
            self@.wf(),
    {
        proof {
            use_type_invariant(self);
        }
    }

    /// Number of declared views.
    pub fn view_count(&self) -> (count: usize)
        ensures
            count == self@.relays.len(),
    {
        self.relays.len()
    }

    /// The name under which a view was declared.
    pub fn name_of(&self, view: usize) -> (name: Option<String>)
        ensures
            match name {
                Some(text) => self@.knows(view as int) && text@ == self@.relays[view as int].name,
                None => !self@.knows(view as int),
            },
    {
        if view < self.relays.len() {
            Some(self.relays[view].name.clone())
        } else {
            None
        }
    }

    /// The index of the view with the given name.
    pub fn lookup(&self, name: &str) -> (found: Option<usize>)
        ensures
            match found {
                Some(index) => self@.index_of(name@) == Some(index as int),
                None => self@.index_of(name@) is None,
            },
    {
        let ghost all = relays_view(self.relays@);
        let mut i: usize = 0;
        assert(all.take(0) =~= Seq::<RelayView>::empty());
        while i < self.relays.len()
            invariant
                i <= self.relays.len(),
                all == relays_view(self.relays@),
                position(all.take(i as int), name@) is None,
            decreases self.relays.len() - i,
        {
            if same_text(&self.relays[i].name, name) {
                proof {
                    lemma_position_found(all, name@, i as int);
                }
                return Some(i);
            }
            assert(all.take(i + 1).drop_last() =~= all.take(i as int));
            i += 1;
        }
        assert(all.take(i as int) =~= all);
        None
    }

    /// Declares a view and gives it a bus of the given capacity. Returns the
    /// index of the view, or nothing if the name is taken.
    pub fn declare(&mut self, name: &str, capacity: usize) -> (index: Option<usize>)
        ensures
            final(self)@ == old(self)@.declare(name@, capacity as nat),
            match index {
                Some(i) => old(self)@.index_of(name@) is None && i == old(self)@.relays.len(),
                None => old(self)@.index_of(name@) is Some,
            },
    {
        proof {
            use_type_invariant(&*self);
        }
        if self.lookup(name).is_some() {
            return None;
        }
        let ghost before = self@;
        let index = self.relays.len();
        let relay = Relay {
            name: String::from_str(name),
            bus: FanoutBus::new(capacity),
            reader_claimed: false,
        };
        let mut relays: Vec<Relay> = Vec::new();
        core::mem::swap(&mut self.relays, &mut relays);
        relays.push(relay);
        proof {
            lemma_position(before.relays, name@);
            assert(relays_view(relays@) =~= before.declare(name@, capacity as nat).relays);
        }
        core::mem::swap(&mut self.relays, &mut relays);
        Some(index)
    }

    /// Hands out the reader of a view: once. It starts out connecting. A
    /// second request for the same view, or one for an unknown view, gets
    /// none.
    pub fn claim_reader(&mut self, view: usize) -> (reader: Option<UpstreamReader>)
        ensures
            match reader {
                Some(r) => {
                    &&& old(self)@.knows(view as int)
                    &&& !old(self)@.relays[view as int].reader_claimed
                    &&& r@.view == view
                    &&& r@.state == ReaderState::Connecting
                    &&& r@.held.len() == 0
                    &&& final(self)@ == old(self)@.claim(view as int)
                },
                None => {
                    &&& old(self)@.knows(view as int) ==> old(self)@.relays[view as int].reader_claimed
                    &&& final(self)@ == old(self)@
                },
            },
    {
        proof {
            use_type_invariant(&*self);
        }
        let ghost before = self@;
        if view >= self.relays.len() || self.relays[view].reader_claimed {
            return None;
        }
        let mut relays: Vec<Relay> = Vec::new();
        core::mem::swap(&mut self.relays, &mut relays);
        let ghost prev = relays@;
        relays[view].reader_claimed = true;
        proof {
            assert(relays_view(relays@) =~= before.claim(view as int).relays);
        }
        core::mem::swap(&mut self.relays, &mut relays);
        Some(UpstreamReader::for_view(view))
    }

    /// Number of subscribers attached to a view; none on an unknown view.
    pub fn subscriber_count(&self, view: usize) -> (count: usize)
        ensures
            count as nat == (if self@.knows(view as int) {
                self@.bus(view as int).subscribers()
            } else {
                0
            }),
    {
        if view < self.relays.len() {
            self.relays[view].bus.subscriber_count()
        } else {
            0
        }
    }

    /// Publishes `item` on a view and returns the number of subscribers
    /// attached to it. On an unknown view nothing happens.
    pub fn publish(&mut self, view: usize, item: Result<String, PulseError>) -> (count: usize)
        ensures
            final(self)@ == old(self)@.publish(view as int, item_view(item)),
            count as nat == (if old(self)@.knows(view as int) {
                old(self)@.bus(view as int).subscribers()
            } else {
                0
            }),
    {
        proof {
            use_type_invariant(&*self);
        }
        let ghost before = self@;
        if view >= self.relays.len() {
            return 0;
        }
        let mut relays: Vec<Relay> = Vec::new();
        core::mem::swap(&mut self.relays, &mut relays);
        let arrival = self.clock;
        if self.clock < u64::MAX {
            self.clock = self.clock + 1;
        }
        let count = relays[view].bus.publish(item, arrival);
        relays[view].bus.stays_bounded();
        proof {
            let after = before.publish(view as int, item_view(item));
            assert(relays_view(relays@) =~= after.relays);
            assert forall|i: int| 0 <= i < after.relays.len() implies (
            #[trigger] after.relays[i]).bus.ordered_before(after.clock) by {
                lemma_order_is_kept(before.relays[i].bus, before.clock, item_view(item), 0);
            }
        }
        core::mem::swap(&mut self.relays, &mut relays);
        count
    }

    /// Tells what waits for a subscriber of a view, and takes nothing.
    pub fn waiting(&self, view: usize, subscription: &Subscription) -> (waiting: Waiting)
        ensures
            waiting == self@.waiting(view as int, subscription@),
    {
        if view < self.relays.len() {
            self.relays[view].bus.waiting(subscription)
        } else {
            Waiting::Notice
        }
    }

    /// Attaches a subscriber to a view. On an unknown view there is nothing
    /// to attach to.
    pub fn subscribe(&mut self, view: usize) -> (subscription: Option<Subscription>)
        ensures
            final(self)@ == old(self)@.subscribe(view as int),
            match subscription {
                Some(s) => {
                    &&& old(self)@.knows(view as int)
                    &&& s@ == old(self)@.bus(view as int).next_slot()
                },
                None => !old(self)@.knows(view as int),
            },
    {
        proof {
            use_type_invariant(&*self);
        }
        let ghost before = self@;
        if view >= self.relays.len() {
            return None;
        }
        let mut relays: Vec<Relay> = Vec::new();
        core::mem::swap(&mut self.relays, &mut relays);
        let subscription = relays[view].bus.subscribe();
        relays[view].bus.stays_bounded();
        proof {
            assert(relays_view(relays@) =~= before.subscribe(view as int).relays);
            lemma_order_is_kept(before.relays[view as int].bus, before.clock, Ok(Seq::empty()), 0);
        }
        core::mem::swap(&mut self.relays, &mut relays);
        Some(subscription)
    }

    /// Detaches a subscriber from a view.
    pub fn unsubscribe(&mut self, view: usize, subscription: Subscription)
        ensures
            final(self)@ == old(self)@.unsubscribe(view as int, subscription@),
    {
        proof {
            use_type_invariant(&*self);
        }
        let ghost before = self@;
        if view >= self.relays.len() {
            return ;
        }
        let mut relays: Vec<Relay> = Vec::new();
        core::mem::swap(&mut self.relays, &mut relays);
        relays[view].bus.unsubscribe(subscription);
        relays[view].bus.stays_bounded();
        proof {
            assert(relays_view(relays@) =~= before.unsubscribe(
                view as int,
                subscription@,
            ).relays);
            lemma_order_is_kept(
                before.relays[view as int].bus,
                before.clock,
                Ok(Seq::empty()),
                subscription@,
            );
        }
        core::mem::swap(&mut self.relays, &mut relays);
    }

    /// Hands a subscriber of a view its next item.
    pub fn receive(&mut self, view: usize, subscription: &Subscription) -> (delivery: Delivery)
        ensures
            (final(self)@, delivery@) == old(self)@.receive(view as int, subscription@),
    {
        proof {
            use_type_invariant(&*self);
        }
        let ghost before = self@;
        if view >= self.relays.len() {
            return Delivery::Detached;
        }
        let mut relays: Vec<Relay> = Vec::new();
        core::mem::swap(&mut self.relays, &mut relays);
        let delivery = relays[view].bus.receive(subscription);
        relays[view].bus.stays_bounded();
        proof {
            assert(relays_view(relays@) =~= before.receive(view as int, subscription@).0.relays);
            lemma_order_is_kept(
                before.relays[view as int].bus,
                before.clock,
                Ok(Seq::empty()),
                subscription@,
            );
        }
        core::mem::swap(&mut self.relays, &mut relays);
        delivery
    }
}

/// Publishing on a view reaches the bus of that view and no other: the
/// view's bus takes the items one after the other, with the marks that
/// follow the registry's, and every other view is left as it was. No view
/// is added, renamed or reset by it.
pub proof fn law_publish_stays_on_its_view(
    registry: RegistryView,
    view: int,
    items: Seq<ItemView>,
)
    requires
        registry.knows(view),
    ensures
        registry.publish_all(view, items).relays.len() == registry.relays.len(),
        registry.publish_all(view, items).clock == mark_at(registry.clock, items.len() as int),
        registry.publish_all(view, items).bus(view) == registry.bus(view).publish_all(
            items,
            marks_from(registry.clock, items.len()),
        ),
        forall|other: int|
            0 <= other < registry.relays.len() ==> {
                let before = registry.relays[other];
                let after = #[trigger] registry.publish_all(view, items).relays[other];
                &&& after.name == before.name
                &&& after.reader_claimed == before.reader_claimed
                &&& other != view ==> after.bus == before.bus
            },
    decreases items.len(),
{
    if items.len() > 0 {
        law_publish_stays_on_its_view(registry, view, items.drop_last());
        assert(marks_from(registry.clock, items.len()).drop_last() =~= marks_from(
            registry.clock,
            items.drop_last().len(),
        ));
    }
}

/// A reader that was handed out stays handed out, and views keep their
/// names and places, whatever is declared, published, attached, detached or
/// received afterwards.
pub proof fn law_views_are_stable(
    registry: RegistryView,
    view: int,
    slot: int,
    item: ItemView,
    name: Seq<char>,
    capacity: nat,
)
    ensures
        forall|i: int|
            0 <= i < registry.relays.len() ==> {
                let before = #[trigger] registry.relays[i];
                &&& registry.declare(name, capacity).relays[i] == before
                &&& registry.publish(view, item).relays[i].name == before.name
                &&& registry.subscribe(view).relays[i].name == before.name
                &&& registry.unsubscribe(view, slot).relays[i].name == before.name
                &&& registry.receive(view, slot).0.relays[i].name == before.name
                &&& registry.claim(view).relays[i].name == before.name
                &&& registry.publish(view, item).relays[i].reader_claimed == before.reader_claimed
                &&& registry.subscribe(view).relays[i].reader_claimed == before.reader_claimed
                &&& registry.unsubscribe(view, slot).relays[i].reader_claimed
                    == before.reader_claimed
                &&& registry.receive(view, slot).0.relays[i].reader_claimed
                    == before.reader_claimed
                &&& before.reader_claimed ==> registry.claim(view).relays[i].reader_claimed
            },
{
}

/// Items are marked in the order of publication, on whichever views they
/// are published: an item gets the mark of the moment, and the mark of the
/// next item is larger, until the marks run out.
pub proof fn law_marks_follow_publication(registry: RegistryView, view: int, item: ItemView)
    requires
        registry.knows(view),
    ensures
        registry.publish(view, item).bus(view) == registry.bus(view).publish(item, registry.clock),
        registry.publish(view, item).clock >= registry.clock,
        registry.clock < u64::MAX ==> registry.publish(view, item).clock > registry.clock,
{
}

/// Whatever is done to a registry, no two views come to share a name, no
/// queue grows beyond its capacity, and every queue keeps its items in the
/// order of their publication.
pub proof fn law_registry_stays_sound(
    registry: RegistryView,
    view: int,
    slot: int,
    item: ItemView,
    name: Seq<char>,
    capacity: nat,
)
    requires
        registry.wf(),
    ensures
        registry.declare(name, capacity).wf(),
        registry.claim(view).wf(),
        registry.publish(view, item).wf(),
        registry.subscribe(view).wf(),
        registry.unsubscribe(view, slot).wf(),
        registry.receive(view, slot).0.wf(),
{
    lemma_position(registry.relays, name);
    let declared = registry.declare(name, capacity);
    assert forall|i: int| 0 <= i < declared.relays.len() implies (#[trigger] declared.relays[i]).bus.wf()
        && declared.relays[i].bus.ordered_before(declared.clock) by {
        if i < registry.relays.len() {
            assert(registry.relays[i].bus.wf());
        }
    }
    let claimed = registry.claim(view);
    assert forall|i: int| 0 <= i < claimed.relays.len() implies (#[trigger] claimed.relays[i]).bus.wf()
        && claimed.relays[i].bus.ordered_before(claimed.clock) by {
        assert(registry.relays[i].bus.wf());
    }
    assert forall|i: int, j: int| 0 <= i < j < claimed.relays.len() implies claimed.relays[i].name
        != claimed.relays[j].name by {
        assert(registry.relays[i].name != registry.relays[j].name);
    }
    if registry.knows(view) {
        let bus = registry.bus(view);
        assert(registry.relays[view].bus.wf());
        lemma_publish_keeps_bound(bus, item, registry.clock);
        lemma_subscribe_keeps_bound(bus);
        lemma_receive_keeps_bound(bus, slot);
        lemma_order_is_kept(bus, registry.clock, item, slot);
        let published = registry.publish(view, item);
        assert forall|i: int| 0 <= i < published.relays.len() implies (
        #[trigger] published.relays[i]).bus.wf() && published.relays[i].bus.ordered_before(
            published.clock,
        ) by {
            assert(registry.relays[i].bus.wf());
            lemma_order_is_kept(registry.relays[i].bus, registry.clock, item, slot);
        }
        assert forall|i: int, j: int| 0 <= i < j < published.relays.len() implies published.relays[i].name
            != published.relays[j].name by {
            assert(registry.relays[i].name != registry.relays[j].name);
        }
        let subscribed = registry.subscribe(view);
        assert forall|i: int| 0 <= i < subscribed.relays.len() implies (
        #[trigger] subscribed.relays[i]).bus.wf() && subscribed.relays[i].bus.ordered_before(
            subscribed.clock,
        ) by {
            assert(registry.relays[i].bus.wf());
        }
        assert forall|i: int, j: int| 0 <= i < j < subscribed.relays.len() implies subscribed.relays[i].name
            != subscribed.relays[j].name by {
            assert(registry.relays[i].name != registry.relays[j].name);
        }
        let detached = registry.unsubscribe(view, slot);
        assert(bus.unsubscribe(slot).wf()) by {
            let after = bus.unsubscribe(slot);
            assert forall|i: int| 0 <= i < after.slots.len() implies (
            #[trigger] after.slots[i] matches Some(queue) ==> queue.within(after.capacity)) by {
                assert(bus.slots[i] is Some ==> bus.slots[i]->0.within(bus.capacity));
            }
        }
        assert forall|i: int| 0 <= i < detached.relays.len() implies (
        #[trigger] detached.relays[i]).bus.wf() && detached.relays[i].bus.ordered_before(
            detached.clock,
        ) by {
            assert(registry.relays[i].bus.wf());
        }
        assert forall|i: int, j: int| 0 <= i < j < detached.relays.len() implies detached.relays[i].name
            != detached.relays[j].name by {
            assert(registry.relays[i].name != registry.relays[j].name);
        }
        let received = registry.receive(view, slot).0;
        assert forall|i: int| 0 <= i < received.relays.len() implies (
        #[trigger] received.relays[i]).bus.wf() && received.relays[i].bus.ordered_before(
            received.clock,
        ) by {
            assert(registry.relays[i].bus.wf());
        }
        assert forall|i: int, j: int| 0 <= i < j < received.relays.len() implies received.relays[i].name
            != received.relays[j].name by {
            assert(registry.relays[i].name != registry.relays[j].name);
        }
    }
}

} // verus!
