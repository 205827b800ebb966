use crate::bus::{
    lemma_publish_keeps_bound, lemma_vacancy, missed_limit, occupied, BusView, DeliveryView,
    ItemView, QueueView,
};
use vstd::prelude::*;

verus! {

/// One call on a bus.
pub enum BusOp {
    Publish(ItemView, u64),
    Receive(int),
    Subscribe,
    Unsubscribe(int),
}

/// The bus after one call.
pub open spec fn apply(bus: BusView, op: BusOp) -> BusView {
    match op {
        BusOp::Publish(item, arrival) => bus.publish(item, arrival),
        BusOp::Receive(slot) => bus.receive(slot).0,
        BusOp::Subscribe => bus.subscribe(),
        BusOp::Unsubscribe(slot) => bus.unsubscribe(slot),
    }
}

/// The bus after a history of calls.
pub open spec fn run(bus: BusView, ops: Seq<BusOp>) -> BusView
    decreases ops.len(),
{
    if ops.len() == 0 {
        bus
    } else {
        apply(run(bus, ops.drop_last()), ops.last())
    }
}

/// The items that a history publishes, in order.
pub open spec fn published(ops: Seq<BusOp>) -> Seq<ItemView>
    decreases ops.len(),
{
    if ops.len() == 0 {
        Seq::empty()
    } else {
        published(ops.drop_last()) + (match ops.last() {
            BusOp::Publish(item, arrival) => seq![item],
            _ => Seq::empty(),
        })
    }
}

/// What the subscriber at `slot` is handed during a history, call by call.
pub open spec fn deliveries(bus: BusView, ops: Seq<BusOp>, slot: int) -> Seq<DeliveryView>
    decreases ops.len(),
{
    if ops.len() == 0 {
        Seq::empty()
    } else {
        deliveries(bus, ops.drop_last(), slot) + (match ops.last() {
            BusOp::Receive(s) if s == slot => seq![run(bus, ops.drop_last()).receive(slot).1],
            _ => Seq::empty(),
        })
    }
}

/// The items among what a subscriber was handed, in order.
pub open spec fn items_among(handed: Seq<DeliveryView>) -> Seq<ItemView>
    decreases handed.len(),
{
    if handed.len() == 0 {
        Seq::empty()
    } else {
        items_among(handed.drop_last()) + (match handed.last() {
            DeliveryView::Item(item) => seq![item],
            _ => Seq::empty(),
        })
    }
}

/// The subscriber at `slot` consumes fast enough: whenever the history
/// publishes, its queue has room.
pub open spec fn keeps_up(bus: BusView, ops: Seq<BusOp>, slot: int) -> bool
    decreases ops.len(),
{
    if ops.len() == 0 {
        true
    } else {
        &&& keeps_up(bus, ops.drop_last(), slot)
        &&& ops.last() is Publish ==> run(bus, ops.drop_last()).queue(slot).pending.len()
            < bus.capacity
    }
}

/// The history never detaches the subscriber at `slot`.
pub open spec fn stays_attached(ops: Seq<BusOp>, slot: int) -> bool {
    forall|k: int| 0 <= k < ops.len() ==> ops[k] != BusOp::Unsubscribe(slot)
}

proof fn lemma_items_among_push(handed: Seq<DeliveryView>, next: DeliveryView)
    ensures
        items_among(handed.push(next)) == items_among(handed) + (match next {
            DeliveryView::Item(item) => seq![item],
            _ => Seq::empty(),
        }),
{
    assert(handed.push(next).drop_last() =~= handed);
}

proof fn lemma_in_order(bus: BusView, slot: int, ops: Seq<BusOp>)
    requires
        bus.attached(slot),
        bus.queue(slot) == QueueView::fresh(),
        stays_attached(ops, slot),
        keeps_up(bus, ops, slot),
    ensures
        run(bus, ops).capacity == bus.capacity,
        run(bus, ops).attached(slot),
        run(bus, ops).queue(slot).missed == 0,
        items_among(deliveries(bus, ops, slot)) + run(bus, ops).queue(slot).pending == published(
            ops,
        ),
        forall|k: int|
            0 <= k < deliveries(bus, ops, slot).len() ==> {
                let handed = #[trigger] deliveries(bus, ops, slot)[k];
                handed is Item || handed is Empty
            },
    decreases ops.len(),
{
    if ops.len() == 0 {
        assert(items_among(deliveries(bus, ops, slot)) + run(bus, ops).queue(slot).pending
            =~= published(ops));
    } else {
        let earlier = ops.drop_last();
        assert(stays_attached(earlier, slot)) by {
            assert forall|k: int| 0 <= k < earlier.len() implies earlier[k] != BusOp::Unsubscribe(
                slot,
            ) by {
                assert(earlier[k] == ops[k]);
            }
        }
        lemma_in_order(bus, slot, earlier);
        let before = run(bus, earlier);
        let after = run(bus, ops);
        let handed = deliveries(bus, earlier, slot);
        let got = items_among(handed);
        let queue = before.queue(slot);
        match ops.last() {
            BusOp::Publish(item, arrival) => {
                assert(after.queue(slot).pending == queue.pending.push(item));
                assert(got + queue.pending.push(item) =~= (got + queue.pending) + seq![item]);
            },
            BusOp::Receive(s) => {
                if s == slot {
                    let outcome = before.receive(slot).1;
                    assert(deliveries(bus, ops, slot) == handed.push(outcome)) by {
                        assert(handed + seq![outcome] =~= handed.push(outcome));
                    }
                    lemma_items_among_push(handed, outcome);
                    if queue.pending.len() > 0 {
                        assert((got + seq![queue.pending[0]]) + queue.pending.drop_first() =~= got
                            + queue.pending);
                    } else {
                        assert(got + Seq::<ItemView>::empty() =~= got);
                    }
                } else {
                    assert(deliveries(bus, ops, slot) =~= handed);
                    assert(published(ops) =~= published(earlier));
                }
            },
            BusOp::Subscribe => {
                lemma_vacancy(before.slots);
                assert(deliveries(bus, ops, slot) =~= handed);
                assert(published(ops) =~= published(earlier));
            },
            BusOp::Unsubscribe(s) => {
                assert(ops[ops.len() - 1] != BusOp::Unsubscribe(slot));
                assert(deliveries(bus, ops, slot) =~= handed);
                assert(published(ops) =~= published(earlier));
            },
        }
    }
}

/// A subscriber that is attached before anything is published, and that
/// always has room in its queue when something is, is handed every published
/// item, in the order of publication, with none skipped: what it was handed
/// so far, followed by what still waits in its queue, is exactly what was
/// published. It is never told of a loss.
pub proof fn law_every_item_in_order(bus: BusView, slot: int, ops: Seq<BusOp>)
    requires
        bus.attached(slot),
        bus.queue(slot) == QueueView::fresh(),
        stays_attached(ops, slot),
        keeps_up(bus, ops, slot),
    ensures
        run(bus, ops).attached(slot),
        run(bus, ops).queue(slot).missed == 0,
        items_among(deliveries(bus, ops, slot)) + run(bus, ops).queue(slot).pending == published(
            ops,
        ),
        forall|k: int|
            0 <= k < deliveries(bus, ops, slot).len() ==> {
                let handed = #[trigger] deliveries(bus, ops, slot)[k];
                handed is Item || handed is Empty
            },
{
    lemma_in_order(bus, slot, ops);
}

/// The count of dropped items after `drops` more drops.
pub open spec fn missed_after(missed: nat, drops: nat) -> nat {
    if missed + drops <= missed_limit() {
        missed + drops
    } else {
        missed_limit()
    }
}

/// How many of `total` items do not fit into `capacity`.
pub open spec fn excess(total: nat, capacity: nat) -> nat {
    if total > capacity {
        (total - capacity) as nat
    } else {
        0
    }
}

/// What publishing `items` in a row does to one attached subscriber: its
/// queue holds the newest items that fit, each with its mark, and counts
/// the others as dropped.
pub proof fn lemma_publish_all_queue(
    bus: BusView,
    slot: int,
    items: Seq<ItemView>,
    arrivals: Seq<u64>,
)
    requires
        bus.wf(),
        bus.attached(slot),
        arrivals.len() == items.len(),
    ensures
        bus.publish_all(items, arrivals).wf(),
        bus.publish_all(items, arrivals).capacity == bus.capacity,
        bus.publish_all(items, arrivals).attached(slot),
        ({
            let queue = bus.queue(slot);
            let all = queue.pending + items;
            let marks = queue.arrivals + arrivals;
            let after = bus.publish_all(items, arrivals).queue(slot);
            &&& after.pending == all.skip(excess(all.len(), bus.capacity) as int)
            &&& after.arrivals == marks.skip(excess(all.len(), bus.capacity) as int)
            &&& after.missed == missed_after(queue.missed, excess(all.len(), bus.capacity))
        }),
    decreases items.len(),
{
    let queue = bus.queue(slot);
    let all = queue.pending + items;
    let marks = queue.arrivals + arrivals;
    assert(queue.within(bus.capacity));
    if items.len() == 0 {
        assert(all =~= queue.pending);
        assert(marks =~= queue.arrivals);
        assert(all.skip(0) =~= all);
        assert(marks.skip(0) =~= marks);
    } else {
        let earlier = items.drop_last();
        let earlier_marks = arrivals.drop_last();
        lemma_publish_all_queue(bus, slot, earlier, earlier_marks);
        let before = bus.publish_all(earlier, earlier_marks);
        lemma_publish_keeps_bound(before, items.last(), arrivals.last());
        let shorter = queue.pending + earlier;
        let shorter_marks = queue.arrivals + earlier_marks;
        assert(all =~= shorter.push(items.last()));
        assert(marks =~= shorter_marks.push(arrivals.last()));
        let mid = before.queue(slot);
        let after = bus.publish_all(items, arrivals).queue(slot);
        assert(mid.within(bus.capacity));
        assert(after == mid.enqueue(items.last(), arrivals.last(), bus.capacity));
        assert(after.pending =~= all.skip(excess(all.len(), bus.capacity) as int));
        assert(after.arrivals =~= marks.skip(excess(all.len(), bus.capacity) as int));
    }
}

/// A subscriber that does not consume while more is published than its
/// queue can take learns of it: the next thing it is handed is the count of
/// dropped items, at least one, and not an item. After that it is handed the
/// newest items, as many as the capacity.
pub proof fn law_overflow_is_signalled(
    bus: BusView,
    slot: int,
    items: Seq<ItemView>,
    arrivals: Seq<u64>,
)
    requires
        bus.wf(),
        bus.attached(slot),
        arrivals.len() == items.len(),
        bus.queue(slot).pending.len() + items.len() > bus.capacity,
    ensures
        ({
            let queue = bus.queue(slot);
            let all = queue.pending + items;
            let dropped = (all.len() - bus.capacity) as nat;
            let after = bus.publish_all(items, arrivals);
            &&& after.receive(slot).1 == DeliveryView::Missed(missed_after(queue.missed, dropped))
            &&& missed_after(queue.missed, dropped) >= 1
            &&& after.receive(slot).0.queue(slot).pending == all.skip(dropped as int)
            &&& after.receive(slot).0.queue(slot).missed == 0
        }),
{
    lemma_publish_all_queue(bus, slot, items, arrivals);
}

proof fn lemma_no_subscribers(slots: Seq<Option<QueueView>>)
    requires
        occupied(slots) == 0,
    ensures
        forall|i: int| 0 <= i < slots.len() ==> slots[i] is None,
    decreases slots.len(),
{
    if slots.len() > 0 {
        lemma_no_subscribers(slots.drop_last());
        assert forall|i: int| 0 <= i < slots.len() implies slots[i] is None by {
            if i < slots.len() - 1 {
                assert(slots.drop_last()[i] is None);
            }
        }
    }
}

/// Publishing to a bus without subscribers changes nothing.
pub proof fn law_publish_without_subscribers(bus: BusView, item: ItemView, arrival: u64)
    requires
        bus.subscribers() == 0,
    ensures
        bus.publish(item, arrival) == bus,
{
    lemma_no_subscribers(bus.slots);
    assert(bus.publish(item, arrival).slots =~= bus.slots);
}

/// A subscriber sees nothing that was published before it attached: its
/// queue starts empty whatever the bus has carried so far.
pub proof fn law_nothing_from_before_attaching(
    bus: BusView,
    earlier: Seq<ItemView>,
    arrivals: Seq<u64>,
)
    ensures
        ({
            let carried = bus.publish_all(earlier, arrivals);
            let slot = carried.next_slot();
            &&& carried.subscribe().attached(slot)
            &&& carried.subscribe().queue(slot) == QueueView::fresh()
        }),
{
    lemma_vacancy(bus.publish_all(earlier, arrivals).slots);
}

proof fn lemma_occupied_update(slots: Seq<Option<QueueView>>, at: int, value: Option<QueueView>)
    requires
        0 <= at < slots.len(),
    ensures
        occupied(slots.update(at, value)) + (if slots[at] is Some {
            1nat
        } else {
            0nat
        }) == occupied(slots) + (if value is Some {
            1nat
        } else {
            0nat
        }),
    decreases slots.len(),
{
    let changed = slots.update(at, value);
    if at == slots.len() - 1 {
        assert(changed.drop_last() =~= slots.drop_last());
    } else {
        assert(changed.drop_last() =~= slots.drop_last().update(at, value));
        lemma_occupied_update(slots.drop_last(), at, value);
    }
}

/// A subscriber that attaches and detaches again leaves the bus with the
/// subscribers it had, each with its queue as it was.
pub proof fn law_attach_then_detach(bus: BusView)
    ensures
        ({
            let slot = bus.next_slot();
            let after = bus.subscribe().unsubscribe(slot);
            &&& after.subscribers() == bus.subscribers()
            &&& after.capacity == bus.capacity
            &&& !after.attached(slot)
            &&& forall|other: int| 0 <= other < bus.slots.len() ==> after.slots[other] == bus.slots[other]
        }),
{
    let slot = bus.next_slot();
    lemma_vacancy(bus.slots);
    let attached = bus.subscribe();
    if slot < bus.slots.len() {
        lemma_occupied_update(bus.slots, slot, Some(QueueView::fresh()));
    } else {
        assert(attached.slots.drop_last() =~= bus.slots);
    }
    lemma_occupied_update(attached.slots, slot, None);
}

/// What is published reaches each subscriber by its own queue alone: the
/// queue of one subscriber after a publication does not depend on any other
/// slot of the bus.
pub proof fn law_subscribers_do_not_affect_each_other(
    bus: BusView,
    other: BusView,
    slot: int,
    item: ItemView,
    arrival: u64,
)
    requires
        bus.capacity == other.capacity,
        bus.attached(slot),
        other.attached(slot),
        bus.queue(slot) == other.queue(slot),
    ensures
        bus.publish(item, arrival).queue(slot) == other.publish(item, arrival).queue(slot),
{
}

} // verus!
