use crate::error::{copy_item, item_view, PulseError, PulseErrorView};
use std::collections::VecDeque;
use vstd::prelude::*;

verus! {

/// Capacity of a subscriber's queue where nothing else is asked for.
pub const DEFAULT_CAPACITY: usize = 4096;

/// Mathematical value of an item on a bus.
pub type ItemView = Result<Seq<char>, PulseErrorView>;

/// The largest count of dropped items a subscriber keeps; further drops leave
/// the count there.
pub open spec fn missed_limit() -> nat {
    0xffff_ffff_ffff_ffff
}

/// The marks do not go down.
pub open spec fn ascending(marks: Seq<u64>) -> bool {
    forall|i: int, j: int| 0 <= i <= j < marks.len() ==> marks[i] <= marks[j]
}

/// Every mark is below `next`, or the marks have run out.
pub open spec fn all_before(marks: Seq<u64>, next: u64) -> bool {
    forall|i: int| 0 <= i < marks.len() ==> marks[i] < next || next == u64::MAX
}

/// The mark that follows `mark`; the last mark is followed by itself.
pub open spec fn tick(mark: u64) -> u64 {
    if mark < u64::MAX {
        (mark + 1) as u64
    } else {
        mark
    }
}

/// Marks in order stay in order when the next mark is added, when the
/// first is taken away, and when the next mark moves on.
pub proof fn lemma_marks_stay_in_order(marks: Seq<u64>, next: u64)
    requires
        ascending(marks),
        all_before(marks, next),
    ensures
        ascending(marks.push(next)),
        all_before(marks.push(next), tick(next)),
        all_before(marks, tick(next)),
        marks.len() > 0 ==> ascending(marks.drop_first()) && all_before(marks.drop_first(), next),
        marks.len() > 0 ==> ascending(marks.drop_first().push(next)) && all_before(
            marks.drop_first().push(next),
            tick(next),
        ),
{
    let pushed = marks.push(next);
    assert forall|i: int, j: int| 0 <= i <= j < pushed.len() implies pushed[i] <= pushed[j] by {
        if j < marks.len() {
            assert(marks[i] <= marks[j]);
        } else if i < marks.len() {
            assert(marks[i] < next || next == u64::MAX);
        }
    }
    assert forall|i: int| 0 <= i < pushed.len() implies pushed[i] < tick(next) || tick(next)
        == u64::MAX by {
        if i < marks.len() {
            assert(marks[i] < next || next == u64::MAX);
        }
    }
    assert forall|i: int| 0 <= i < marks.len() implies marks[i] < tick(next) || tick(next)
        == u64::MAX by {
        assert(marks[i] < next || next == u64::MAX);
    }
    if marks.len() > 0 {
        let rest = marks.drop_first();
        assert forall|i: int, j: int| 0 <= i <= j < rest.len() implies rest[i] <= rest[j] by {
            assert(marks[i + 1] <= marks[j + 1]);
        }
        assert forall|i: int| 0 <= i < rest.len() implies rest[i] < next || next == u64::MAX by {
            assert(marks[i + 1] < next || next == u64::MAX);
        }
        let shifted = rest.push(next);
        assert forall|i: int, j: int| 0 <= i <= j < shifted.len() implies shifted[i]
            <= shifted[j] by {
            if j < rest.len() {
                assert(rest[i] <= rest[j]);
            } else if i < rest.len() {
                assert(rest[i] < next || next == u64::MAX);
            }
        }
        assert forall|i: int| 0 <= i < shifted.len() implies shifted[i] < tick(next) || tick(next)
            == u64::MAX by {
            if i < rest.len() {
                assert(rest[i] < next || next == u64::MAX);
            }
        }
    }
}

/// Mathematical value of one subscriber's queue.
pub struct QueueView {
    /// Items published and not yet received, oldest first.
    pub pending: Seq<ItemView>,
    /// For each pending item, the mark it was published with: its place in
    /// the order of arrival, as the publisher counts it.
    pub arrivals: Seq<u64>,
    /// Items dropped since the subscriber was last told.
    pub missed: nat,
}

impl QueueView {
    /// A queue as it is right after attaching.
    pub open spec fn fresh() -> QueueView {
        QueueView { pending: Seq::empty(), arrivals: Seq::empty(), missed: 0 }
    }

    /// The queue respects the capacity and the limit of its count, and
    /// every pending item has its mark.
    pub open spec fn within(self, capacity: nat) -> bool {
        &&& self.pending.len() <= capacity
        &&& self.arrivals.len() == self.pending.len()
        &&& self.missed <= missed_limit()
    }

    /// The marks of the pending items do not go down: what waits, waits in
    /// the order of arrival.
    pub open spec fn in_order(self) -> bool {
        ascending(self.arrivals)
    }

    /// Every pending item arrived before the mark `next`, or the marks have
    /// run out.
    pub open spec fn before(self, next: u64) -> bool {
        all_before(self.arrivals, next)
    }

    /// The count of dropped items after one more drop.
    pub open spec fn bump(missed: nat) -> nat {
        if missed < missed_limit() {
            missed + 1
        } else {
            missed
        }
    }

    /// The queue after `item` is published to it with the mark `arrival`.
    /// A queue that holds `capacity` items loses its oldest item to make
    /// room; with a capacity of zero the new item itself is dropped.
    pub open spec fn enqueue(self, item: ItemView, arrival: u64, capacity: nat) -> QueueView {
        if self.pending.len() < capacity {
            QueueView {
                pending: self.pending.push(item),
                arrivals: self.arrivals.push(arrival),
                missed: self.missed,
            }
        } else if self.pending.len() == 0 {
            QueueView { missed: Self::bump(self.missed), ..self }
        } else {
            QueueView {
                pending: self.pending.drop_first().push(item),
                arrivals: self.arrivals.drop_first().push(arrival),
                missed: Self::bump(self.missed),
            }
        }
    }
}

/// Mathematical value of what a subscriber gets when it asks for its next
/// item.
pub enum DeliveryView {
    /// The oldest pending item.
    Item(ItemView),
    /// This many items were dropped since the subscriber was last told.
    Missed(nat),
    /// Nothing is pending.
    Empty,
    /// No subscriber is attached at this slot.
    Detached,
}

/// What waits for a subscriber, without taking it.
#[derive(Clone, Copy, PartialEq, Eq, Structural, Debug)]
pub enum Waiting {
    /// Nothing is pending.
    Nothing,
    /// Something that goes before every item: a count of dropped items, or
    /// the news that no subscriber is attached.
    Notice,
    /// An item that was published with this mark.
    Item(u64),
}

impl QueueView {
    /// The queue after its subscriber asks for the next item, and what the
    /// subscriber gets. Dropped items are reported before anything else, once.
    pub open spec fn take(self) -> (QueueView, DeliveryView) {
        if self.missed > 0 {
            (QueueView { missed: 0, ..self }, DeliveryView::Missed(self.missed))
        } else if self.pending.len() > 0 {
            (
                QueueView {
                    pending: self.pending.drop_first(),
                    arrivals: self.arrivals.drop_first(),
                    missed: 0,
                },
                DeliveryView::Item(self.pending[0]),
            )
        } else {
            (self, DeliveryView::Empty)
        }
    }

    /// What the subscriber gets when it asks next, seen from outside.
    pub open spec fn waiting(self) -> Waiting {
        if self.missed > 0 {
            Waiting::Notice
        } else if self.pending.len() > 0 {
            Waiting::Item(self.arrivals[0])
        } else {
            Waiting::Nothing
        }
    }
}

/// What a subscriber gets when it asks for its next item.
#[derive(Debug, PartialEq, Eq)]
pub enum Delivery {
    /// The oldest pending item.
    Item(Result<String, PulseError>),
    /// This many items were dropped since the subscriber was last told.
    Missed(u64),
    /// Nothing is pending.
    Empty,
    /// No subscriber is attached at this slot.
    Detached,
}

impl View for Delivery {
    type V = DeliveryView;

    open spec fn view(&self) -> DeliveryView {
        match self {
            Delivery::Item(item) => DeliveryView::Item(item_view(*item)),
            Delivery::Missed(missed) => DeliveryView::Missed(*missed as nat),
            Delivery::Empty => DeliveryView::Empty,
            Delivery::Detached => DeliveryView::Detached,
        }
    }
}

/// One subscriber's bounded queue.
pub struct SubscriberQueue {
    pending: VecDeque<Result<String, PulseError>>,
    arrivals: VecDeque<u64>,
    missed: u64,
}

/// Views of queued items.
pub open spec fn items_view(items: Seq<Result<String, PulseError>>) -> Seq<ItemView> {
    Seq::new(items.len(), |i: int| item_view(items[i]))
}

impl View for SubscriberQueue {
    type V = QueueView;

    closed spec fn view(&self) -> QueueView {
        QueueView {
            pending: items_view(self.pending@),
            arrivals: self.arrivals@,
            missed: self.missed as nat,
        }
    }
}

impl SubscriberQueue {
    fn fresh() -> (queue: SubscriberQueue)
        ensures
            queue@ == QueueView::fresh(),
    {
        let queue = SubscriberQueue {
            pending: VecDeque::new(),
            arrivals: VecDeque::new(),
            missed: 0,
        };
        assert(items_view(queue.pending@) =~= Seq::<ItemView>::empty());
        queue
    }

    fn waiting(&self) -> (waiting: Waiting)
        requires
            self@.arrivals.len() == self@.pending.len(),
        ensures
            waiting == self@.waiting(),
    {
        if self.missed > 0 {
            Waiting::Notice
        } else if self.arrivals.len() > 0 {
            Waiting::Item(self.arrivals[0])
        } else {
            Waiting::Nothing
        }
    }

    fn take(&mut self) -> (delivery: Delivery)
        requires
            old(self)@.arrivals.len() == old(self)@.pending.len(),
        ensures
            (final(self)@, delivery@) == old(self)@.take(),
    {
        let ghost before = items_view(self.pending@);
        if self.missed > 0 {
            let missed = self.missed;
            self.missed = 0;
            Delivery::Missed(missed)
        } else {
            match self.pending.pop_front() {
                Some(item) => {
                    let ghost marks = self.arrivals@;
                    let _ = self.arrivals.pop_front();
                    assert(self.arrivals@ =~= marks.drop_first());
                    assert(items_view(self.pending@) =~= before.drop_first());
                    assert(before[0] == item_view(item));
                    Delivery::Item(item)
                },
                None => Delivery::Empty,
            }
        }
    }

    fn enqueue(&mut self, item: Result<String, PulseError>, arrival: u64, capacity: usize)
        requires
            old(self)@.arrivals.len() == old(self)@.pending.len(),
        ensures
            final(self)@ == old(self)@.enqueue(item_view(item), arrival, capacity as nat),
    {
        let ghost before = items_view(self.pending@);
        let ghost marks = self.arrivals@;
        if self.pending.len() < capacity {
            self.pending.push_back(item);
            self.arrivals.push_back(arrival);
            assert(items_view(self.pending@) =~= before.push(item_view(item)));
        } else {
            if self.missed < u64::MAX {
                self.missed = self.missed + 1;
            }
            if self.pending.len() > 0 {
                let _ = self.pending.pop_front();
                self.pending.push_back(item);
                let _ = self.arrivals.pop_front();
                self.arrivals.push_back(arrival);
                assert(items_view(self.pending@) =~= before.drop_first().push(item_view(item)));
                assert(self.arrivals@ =~= marks.drop_first().push(arrival));
            }
        }
    }
}


/// Mathematical value of a bus: its capacity and, per slot, the queue of the
/// subscriber attached there, if any.
pub struct BusView {
    pub capacity: nat,
    pub slots: Seq<Option<QueueView>>,
}

/// How many of the slots hold a subscriber.
pub open spec fn occupied(slots: Seq<Option<QueueView>>) -> nat
    decreases slots.len(),
{
    if slots.len() == 0 {
        0
    } else {
        occupied(slots.drop_last()) + if slots.last() is Some {
            1nat
        } else {
            0nat
        }
    }
}

/// The first slot that holds no subscriber, or the number of slots if all do.
pub open spec fn vacancy(slots: Seq<Option<QueueView>>) -> int
    decreases slots.len(),
{
    if slots.len() == 0 {
        0
    } else if slots[0] is None {
        0
    } else {
        1 + vacancy(slots.drop_first())
    }
}

impl BusView {
    /// No queue holds more than the capacity, and no count of dropped
    /// items is beyond its limit.
    pub open spec fn wf(self) -> bool {
        forall|i: int|
            0 <= i < self.slots.len() ==> (#[trigger] self.slots[i] matches Some(queue)
                ==> queue.within(self.capacity))
    }

    /// The queues of the bus hold their items in the order of arrival, all
    /// of them from before the mark `next`.
    pub open spec fn ordered_before(self, next: u64) -> bool {
        forall|i: int|
            0 <= i < self.slots.len() ==> (#[trigger] self.slots[i] matches Some(queue)
                ==> queue.in_order() && queue.before(next))
    }

    /// A subscriber is attached at `slot`.
    pub open spec fn attached(self, slot: int) -> bool {
        0 <= slot < self.slots.len() && self.slots[slot] is Some
    }

    /// The queue of the subscriber attached at `slot`.
    pub open spec fn queue(self, slot: int) -> QueueView
        recommends
            self.attached(slot),
    {
        self.slots[slot]->0
    }

    /// Number of attached subscribers.
    pub open spec fn subscribers(self) -> nat {
        occupied(self.slots)
    }

    /// A bus without subscribers.
    pub open spec fn empty(capacity: nat) -> BusView {
        BusView { capacity, slots: Seq::empty() }
    }

    /// The bus after `item` is published with the mark `arrival`: every
    /// attached subscriber's queue takes it.
    pub open spec fn publish(self, item: ItemView, arrival: u64) -> BusView {
        BusView {
            capacity: self.capacity,
            slots: Seq::new(
                self.slots.len(),
                |i: int|
                    match self.slots[i] {
                        Some(queue) => Some(queue.enqueue(item, arrival, self.capacity)),
                        None => None,
                    },
            ),
        }
    }

    /// The bus after `items` are published one after the other, each with
    /// its mark.
    pub open spec fn publish_all(self, items: Seq<ItemView>, arrivals: Seq<u64>) -> BusView
        recommends
            arrivals.len() == items.len(),
        decreases items.len(),
    {
        if items.len() == 0 {
            self
        } else {
            self.publish_all(items.drop_last(), arrivals.drop_last()).publish(
                items.last(),
                arrivals.last(),
            )
        }
    }

    /// What waits for the subscriber at `slot`.
    pub open spec fn waiting(self, slot: int) -> Waiting {
        if self.attached(slot) {
            self.queue(slot).waiting()
        } else {
            Waiting::Notice
        }
    }

    /// The slot a new subscriber gets: the first free one.
    pub open spec fn next_slot(self) -> int {
        vacancy(self.slots)
    }

    /// The bus after a subscriber attaches, with an empty queue, at
    /// `next_slot`.
    pub open spec fn subscribe(self) -> BusView {
        let slot = self.next_slot();
        if slot < self.slots.len() {
            BusView {
                capacity: self.capacity,
                slots: self.slots.update(slot, Some(QueueView::fresh())),
            }
        } else {
            BusView { capacity: self.capacity, slots: self.slots.push(Some(QueueView::fresh())) }
        }
    }

    /// The bus after the subscriber at `slot` detaches; its queue is
    /// discarded.
    pub open spec fn unsubscribe(self, slot: int) -> BusView {
        if 0 <= slot < self.slots.len() {
            BusView { capacity: self.capacity, slots: self.slots.update(slot, None) }
        } else {
            self
        }
    }

    /// The bus after the subscriber at `slot` asks for its next item, and
    /// what it gets.
    pub open spec fn receive(self, slot: int) -> (BusView, DeliveryView) {
        if self.attached(slot) {
            let (queue, delivery) = self.queue(slot).take();
            (BusView { capacity: self.capacity, slots: self.slots.update(slot, Some(queue)) }, delivery)
        } else {
            (self, DeliveryView::Detached)
        }
    }
}

/// Views of the slots of a bus.
pub open spec fn slots_view(slots: Seq<Option<SubscriberQueue>>) -> Seq<Option<QueueView>> {
    Seq::new(
        slots.len(),
        |i: int|
            match slots[i] {
                Some(queue) => Some(queue@),
                None => None,
            },
    )
}

/// Handle of an attached subscriber: the slot of its queue on the bus that
/// handed it out.
pub struct Subscription {
    slot: usize,
}

impl View for Subscription {
    type V = int;

    closed spec fn view(&self) -> int {
        self.slot as int
    }
}

impl Subscription {
    /// The slot of the subscriber's queue.
    pub fn slot(&self) -> (slot: usize)
        ensures
            slot as int == self@,
    {
        self.slot
    }
}

/// A bounded, lossy multicast queue for one view. The reader of the view
/// publishes; any number of subscribers attach and each gets, in order, what
/// is published after it attached. A subscriber that falls behind loses its
/// oldest items and is told how many.
pub struct FanoutBus {
    capacity: usize,
    slots: Vec<Option<SubscriberQueue>>,
}

impl View for FanoutBus {
    type V = BusView;

    closed spec fn view(&self) -> BusView {
        BusView { capacity: self.capacity as nat, slots: slots_view(self.slots@) }
    }
}

impl FanoutBus {
    #[verifier::type_invariant]
    spec fn bounded(self) -> bool {
        self@.wf()
    }

    /// A bus without subscribers whose queues will hold up to `capacity`
    /// items each.
    pub fn new(capacity: usize) -> (bus: FanoutBus)
        ensures
            bus@ == BusView::empty(capacity as nat),
    {
        let bus = FanoutBus { capacity, slots: Vec::new() };
        assert(slots_view(bus.slots@) =~= Seq::<Option<QueueView>>::empty());
        bus
    }

    /// The number of items each subscriber's queue holds at most.
    pub fn capacity(&self) -> (capacity: usize)
        ensures
            capacity as nat == self@.capacity,
    {
        self.capacity
    }

    /// No queue of the bus holds more than the capacity, at any time.
    pub fn stays_bounded(&self)
        ensures
            self@.wf(),
    {
        proof {
            use_type_invariant(self);
        }
    }

    /// Number of attached subscribers.
    pub fn subscriber_count(&self) -> (count: usize)
        ensures
            count as nat == self@.subscribers(),
    {
        let ghost all = slots_view(self.slots@);
        let mut count: usize = 0;
        let mut i: usize = 0;
        assert(all.subrange(0, 0) =~= Seq::<Option<QueueView>>::empty());
        while i < self.slots.len()
            invariant
                i <= self.slots.len(),
                all == slots_view(self.slots@),
                count <= i,
                count as nat == occupied(all.subrange(0, i as int)),
            decreases self.slots.len() - i,
        {
            assert(all.subrange(0, i + 1).drop_last() =~= all.subrange(0, i as int));
            assert(all.subrange(0, i + 1).last() == all[i as int]);
            if self.slots[i].is_some() {
                count += 1;
            }
            i += 1;
        }
        assert(all.subrange(0, all.len() as int) =~= all);
        count
    }

    /// Attaches a subscriber at the first free slot. Its queue starts empty:
    /// it gets what is published from now on.
    pub fn subscribe(&mut self) -> (subscription: Subscription)
        ensures
            subscription@ == old(self)@.next_slot(),
            final(self)@ == old(self)@.subscribe(),
            final(self)@.attached(subscription@),
            final(self)@.queue(subscription@) == QueueView::fresh(),
    {
        proof {
            use_type_invariant(&*self);
        }
        let ghost before = self@;
        let mut slots: Vec<Option<SubscriberQueue>> = Vec::new();
        core::mem::swap(&mut self.slots, &mut slots);
        let mut i: usize = 0;
        assert(before.slots.subrange(0, before.slots.len() as int) =~= before.slots);
        while i < slots.len() && slots[i].is_some()
            invariant
                i <= slots.len(),
                before.slots == slots_view(slots@),
                vacancy(before.slots) == i + vacancy(
                    before.slots.subrange(i as int, before.slots.len() as int),
                ),
            decreases slots.len() - i,
        {
            let ghost rest = before.slots.subrange(i as int, before.slots.len() as int);
            assert(rest[0] == before.slots[i as int]);
            assert(rest.drop_first() =~= before.slots.subrange(i + 1, before.slots.len() as int));
            i += 1;
        }
        let ghost rest = before.slots.subrange(i as int, before.slots.len() as int);
        if i < slots.len() {
            assert(rest[0] == before.slots[i as int]);
            slots[i] = Some(SubscriberQueue::fresh());
            assert(slots_view(slots@) =~= before.slots.update(i as int, Some(QueueView::fresh())));
        } else {
            assert(rest.len() == 0);
            slots.push(Some(SubscriberQueue::fresh()));
            assert(slots_view(slots@) =~= before.slots.push(Some(QueueView::fresh())));
        }
        proof {
            lemma_subscribe_keeps_bound(before);
            lemma_vacancy(before.slots);
        }
        core::mem::swap(&mut self.slots, &mut slots);
        Subscription { slot: i }
    }

    /// Detaches the subscriber; what is still queued for it is discarded.
    pub fn unsubscribe(&mut self, subscription: Subscription)
        ensures
            final(self)@ == old(self)@.unsubscribe(subscription@),
    {
        proof {
            use_type_invariant(&*self);
        }
        let ghost before = self@;
        let mut slots: Vec<Option<SubscriberQueue>> = Vec::new();
        core::mem::swap(&mut self.slots, &mut slots);
        if subscription.slot < slots.len() {
            slots[subscription.slot] = None;
            assert(slots_view(slots@) =~= before.slots.update(subscription.slot as int, None));
        }
        core::mem::swap(&mut self.slots, &mut slots);
    }

    /// Hands the subscriber its next item: first the count of items dropped
    /// since it was last told, if any were; else the oldest pending item;
    /// else nothing.
    pub fn receive(&mut self, subscription: &Subscription) -> (delivery: Delivery)
        ensures
            (final(self)@, delivery@) == old(self)@.receive(subscription@),
    {
        proof {
            use_type_invariant(&*self);
        }
        let ghost before = self@;
        let slot = subscription.slot;
        let mut slots: Vec<Option<SubscriberQueue>> = Vec::new();
        core::mem::swap(&mut self.slots, &mut slots);
        let mut delivery = Delivery::Detached;
        if slot < slots.len() {
            let ghost prev = slots@;
            assert(before.slots[slot as int] == slots_view(prev)[slot as int]);
            assert(before.slots[slot as int] is Some ==> before.slots[slot as int]->0.within(
                before.capacity,
            ));
            match &mut slots[slot] {
                Some(queue) => {
                    delivery = queue.take();
                },
                None => {},
            }
            assert(slots@.len() == prev.len());
            assert(forall|j: int| 0 <= j < prev.len() && j != slot ==> slots@[j] == prev[j]);
            assert(slots_view(slots@) =~= before.receive(slot as int).0.slots);
        }
        proof {
            lemma_receive_keeps_bound(before, slot as int);
        }
        core::mem::swap(&mut self.slots, &mut slots);
        delivery
    }

    /// Tells what waits for the subscriber, and takes nothing.
    pub fn waiting(&self, subscription: &Subscription) -> (waiting: Waiting)
        ensures
            waiting == self@.waiting(subscription@),
    {
        proof {
            use_type_invariant(self);
        }
        if subscription.slot < self.slots.len() {
            assert(slots_view(self.slots@)[subscription.slot as int] is Some ==> slots_view(
                self.slots@,
            )[subscription.slot as int]->0.within(self.capacity as nat));
            match &self.slots[subscription.slot] {
                Some(queue) => queue.waiting(),
                None => Waiting::Notice,
            }
        } else {
            Waiting::Notice
        }
    }

    /// Publishes `item`, with the mark `arrival`, to every attached
    /// subscriber and returns how many there are. A full queue drops its
    /// oldest item to take the new one. Never waits on a subscriber and
    /// never fails.
    pub fn publish(&mut self, item: Result<String, PulseError>, arrival: u64) -> (count: usize)
        ensures
            final(self)@ == old(self)@.publish(item_view(item), arrival),
            count as nat == old(self)@.subscribers(),
    {
        proof {
            use_type_invariant(&*self);
        }
        let ghost before = self@;
        let ghost value = item_view(item);
        let capacity = self.capacity;
        let mut slots: Vec<Option<SubscriberQueue>> = Vec::new();
        core::mem::swap(&mut self.slots, &mut slots);
        let mut count: usize = 0;
        let mut i: usize = 0;
        assert(before.slots.subrange(0, 0) =~= Seq::<Option<QueueView>>::empty());
        while i < slots.len()
            invariant
                i <= slots.len(),
                capacity as nat == before.capacity,
                slots@.len() == before.slots.len(),
                before.wf(),
                value == item_view(item),
                forall|j: int|
                    0 <= j < i ==> slots_view(slots@)[j] == before.publish(value, arrival).slots[j],
                forall|j: int| i <= j < slots@.len() ==> slots_view(slots@)[j] == before.slots[j],
                count <= i,
                count as nat == occupied(before.slots.subrange(0, i as int)),
            decreases slots.len() - i,
        {
            assert(before.slots.subrange(0, i + 1).drop_last() =~= before.slots.subrange(
                0,
                i as int,
            ));
            assert(before.slots.subrange(0, i + 1).last() == before.slots[i as int]);
            let copy = copy_item(&item);
            let ghost prev = slots@;
            match &mut slots[i] {
                Some(queue) => {
                    queue.enqueue(copy, arrival, capacity);
                    count += 1;
                },
                None => {},
            }
            assert(slots@.len() == prev.len());
            assert(forall|j: int| 0 <= j < prev.len() && j != i ==> slots@[j] == prev[j]);
            assert(slots_view(slots@)[i as int] == before.publish(value, arrival).slots[i as int]);
            assert forall|j: int| 0 <= j < i implies slots_view(slots@)[j] == before.publish(value, arrival).slots[j] by {
                assert(slots_view(slots@)[j] == slots_view(prev)[j]);
            }
            assert forall|j: int| i < j < slots@.len() implies slots_view(slots@)[j]
                == before.slots[j] by {
                assert(slots_view(slots@)[j] == slots_view(prev)[j]);
            }
            i += 1;
        }
        assert(before.slots.subrange(0, before.slots.len() as int) =~= before.slots);
        assert(slots_view(slots@) =~= before.publish(value, arrival).slots);
        proof {
            lemma_publish_keeps_bound(before, value, arrival);
        }
        core::mem::swap(&mut self.slots, &mut slots);
        count
    }
}

/// The first free slot lies within the slots or right behind them, every
/// slot before it is taken, and it is free itself.
pub proof fn lemma_vacancy(slots: Seq<Option<QueueView>>)
    ensures
        0 <= vacancy(slots) <= slots.len(),
        forall|j: int| 0 <= j < vacancy(slots) ==> slots[j] is Some,
        vacancy(slots) < slots.len() ==> slots[vacancy(slots)] is None,
    decreases slots.len(),
{
    if slots.len() > 0 && slots[0] is Some {
        let rest = slots.drop_first();
        lemma_vacancy(rest);
        assert forall|j: int| 0 <= j < vacancy(slots) implies slots[j] is Some by {
            if j > 0 {
                assert(rest[j - 1] is Some);
            }
        }
        if vacancy(slots) < slots.len() {
            assert(rest[vacancy(rest)] is None);
        }
    }
}

/// Attaching a subscriber keeps every queue within the capacity.
pub proof fn lemma_subscribe_keeps_bound(bus: BusView)
    requires
        bus.wf(),
    ensures
        bus.subscribe().wf(),
{
    let after = bus.subscribe();
    lemma_vacancy(bus.slots);
    assert forall|i: int| 0 <= i < after.slots.len() implies (#[trigger] after.slots[i] matches Some(
        queue,
    ) ==> queue.within(after.capacity)) by {
        if i < bus.slots.len() && i != bus.next_slot() {
            assert(bus.slots[i] is Some ==> bus.slots[i]->0.within(bus.capacity));
        }
    }
}

/// Handing out an item keeps every queue within the capacity.
pub proof fn lemma_receive_keeps_bound(bus: BusView, slot: int)
    requires
        bus.wf(),
    ensures
        bus.receive(slot).0.wf(),
{
    let after = bus.receive(slot).0;
    assert forall|i: int| 0 <= i < after.slots.len() implies (#[trigger] after.slots[i] matches Some(
        queue,
    ) ==> queue.within(after.capacity)) by {
        assert(bus.slots[i] is Some ==> bus.slots[i]->0.within(bus.capacity));
    }
}

/// Publishing keeps every queue within the capacity.
pub proof fn lemma_publish_keeps_bound(bus: BusView, item: ItemView, arrival: u64)
    requires
        bus.wf(),
    ensures
        bus.publish(item, arrival).wf(),
{
    let after = bus.publish(item, arrival);
    assert forall|i: int| 0 <= i < after.slots.len() implies (#[trigger] after.slots[i] matches Some(
        queue,
    ) ==> queue.within(after.capacity)) by {
        assert(bus.slots[i] is Some ==> bus.slots[i]->0.within(bus.capacity));
    }
}

/// A bus whose queues are in the order of arrival stays so when an item is
/// published with the next mark, and when a subscriber attaches, detaches
/// or is handed an item.
pub proof fn lemma_order_is_kept(bus: BusView, next: u64, item: ItemView, slot: int)
    requires
        bus.wf(),
        bus.ordered_before(next),
    ensures
        bus.publish(item, next).ordered_before(tick(next)),
        bus.ordered_before(tick(next)),
        bus.subscribe().ordered_before(next),
        bus.unsubscribe(slot).ordered_before(next),
        bus.receive(slot).0.ordered_before(next),
{
    let published = bus.publish(item, next);
    assert forall|i: int| 0 <= i < published.slots.len() implies (
    #[trigger] published.slots[i] matches Some(queue) ==> queue.in_order() && queue.before(
        tick(next),
    )) by {
        if bus.slots[i] is Some {
            let queue = bus.slots[i]->0;
            assert(queue.within(bus.capacity) && queue.in_order() && queue.before(next));
            lemma_marks_stay_in_order(queue.arrivals, next);
        }
    }
    assert forall|i: int| 0 <= i < bus.slots.len() implies (#[trigger] bus.slots[i] matches Some(
        queue,
    ) ==> queue.in_order() && queue.before(tick(next))) by {
        if bus.slots[i] is Some {
            let queue = bus.slots[i]->0;
            assert(queue.in_order() && queue.before(next));
            lemma_marks_stay_in_order(queue.arrivals, next);
        }
    }
    lemma_vacancy(bus.slots);
    let attached = bus.subscribe();
    assert forall|i: int| 0 <= i < attached.slots.len() implies (
    #[trigger] attached.slots[i] matches Some(queue) ==> queue.in_order() && queue.before(next)) by {
        if i < bus.slots.len() && i != bus.next_slot() {
            assert(bus.slots[i] is Some ==> bus.slots[i]->0.in_order());
        }
    }
    let detached = bus.unsubscribe(slot);
    assert forall|i: int| 0 <= i < detached.slots.len() implies (
    #[trigger] detached.slots[i] matches Some(queue) ==> queue.in_order() && queue.before(next)) by {
        assert(bus.slots[i] is Some ==> bus.slots[i]->0.in_order());
    }
    let received = bus.receive(slot).0;
    assert forall|i: int| 0 <= i < received.slots.len() implies (
    #[trigger] received.slots[i] matches Some(queue) ==> queue.in_order() && queue.before(next)) by {
        if bus.slots[i] is Some {
            let queue = bus.slots[i]->0;
            assert(queue.within(bus.capacity) && queue.in_order() && queue.before(next));
            lemma_marks_stay_in_order(queue.arrivals, next);
        }
    }
}

} // verus!
