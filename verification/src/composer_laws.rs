use crate::bus::{lemma_subscribe_keeps_bound, lemma_vacancy, ItemView, QueueView, Waiting};
use crate::bus_laws::lemma_publish_all_queue;
use crate::composer::{
    attach_all, begin, detach_all, earliest, error_body_of, sooner, waiting_at, ComposerView,
    ProgressView, StreamStepView, StreamView, TailView,
};
use crate::error::PulseErrorView;
use crate::reader::lemma_publish_all_joined;
use crate::registry::{law_publish_stays_on_its_view, marks_from, RegistryView};
use vstd::prelude::*;

verus! {

/// What a response yields in as many steps as there are registries, where
/// each step meets the registry of its turn: between two steps anybody may
/// have published anything.
pub open spec fn outputs(stream: StreamView, registries: Seq<RegistryView>) -> Seq<StreamStepView>
    decreases registries.len(),
{
    if registries.len() == 0 {
        Seq::empty()
    } else {
        seq![stream.step(registries[0]).2] + outputs(
            stream.step(registries[0]).0,
            registries.drop_first(),
        )
    }
}

proof fn lemma_snapshots_first(stream: StreamView, registries: Seq<RegistryView>)
    requires
        !stream.ended,
        stream.sent + registries.len() <= stream.snapshots.len(),
    ensures
        outputs(stream, registries).len() == registries.len(),
        forall|i: int|
            0 <= i < registries.len() ==> #[trigger] outputs(stream, registries)[i]
                == StreamStepView::Chunk(stream.snapshots[stream.sent + i]),
    decreases registries.len(),
{
    if registries.len() > 0 {
        let next = stream.step(registries[0]).0;
        lemma_snapshots_first(next, registries.drop_first());
        let rest = outputs(next, registries.drop_first());
        assert forall|i: int| 0 <= i < registries.len() implies #[trigger] outputs(
            stream,
            registries,
        )[i] == StreamStepView::Chunk(stream.snapshots[stream.sent + i]) by {
            if i > 0 {
                assert(outputs(stream, registries)[i] == rest[i - 1]);
            }
        }
    }
}

/// The snapshots come first, in the order of the requested views, whatever
/// is published meanwhile and on whichever view: the first elements of a
/// body are its snapshots, and yielding them touches no bus.
pub proof fn law_snapshots_come_first(
    snapshots: Seq<Seq<char>>,
    tails: Seq<TailView>,
    registries: Seq<RegistryView>,
)
    requires
        registries.len() <= snapshots.len(),
    ensures
        outputs(StreamView::fresh(snapshots, tails), registries).len() == registries.len(),
        forall|i: int|
            0 <= i < registries.len() ==> #[trigger] outputs(
                StreamView::fresh(snapshots, tails),
                registries,
            )[i] == StreamStepView::Chunk(snapshots[i]),
        forall|stream: StreamView, registry: RegistryView|
            !stream.ended && stream.sent < stream.snapshots.len() ==> (#[trigger] stream.step(
                registry,
            )).1 == registry,
{
    lemma_snapshots_first(StreamView::fresh(snapshots, tails), registries);
}

/// A snapshot that fails rejects the whole request, whichever view it was
/// for and however many snapshots had arrived: the answer has the status of
/// a server error and a JSON body with the error's message, no body stream
/// is opened, and the subscribers of the request are detached.
pub proof fn law_failed_snapshot_rejects(
    composer: ComposerView,
    error: PulseErrorView,
    registry: RegistryView,
)
    ensures
        composer.supply(Err(error), registry) == (
            ProgressView::Rejected { status: 500, body: error_body_of(error.message()) },
            detach_all(registry, composer.tails),
        ),
{
}

/// Attaching to the requested views gives one tail per view, in the order
/// of the views, and declares or removes no view.
pub proof fn law_one_tail_per_view(registry: RegistryView, views: Seq<usize>)
    ensures
        attach_all(registry, views).1.len() == views.len(),
        attach_all(registry, views).0.relays.len() == registry.relays.len(),
        forall|i: int|
            0 <= i < views.len() ==> (#[trigger] attach_all(registry, views).1[i]).view
                == views[i] as int,
    decreases views.len(),
{
    if views.len() > 0 {
        law_one_tail_per_view(registry, views.drop_last());
        let (earlier, tails) = attach_all(registry, views.drop_last());
        assert forall|i: int| 0 <= i < views.len() implies (#[trigger] attach_all(
            registry,
            views,
        ).1[i]).view == views[i] as int by {
            if i < views.len() - 1 {
                assert(attach_all(registry, views).1[i] == tails[i]);
                assert(views.drop_last()[i] == views[i]);
            }
        }
    }
}

/// The snapshots are asked for in the order of the requested views, one at
/// a time, and the body begins only when all of them are there.
pub proof fn law_snapshots_follow_the_views(composer: ComposerView)
    ensures
        composer.snapshots.len() < composer.views.len() ==> composer.progress()
            == (ProgressView::Fetch {
            view: composer.views[composer.snapshots.len() as int],
            composer,
        }),
        composer.snapshots.len() >= composer.views.len() ==> composer.progress()
            == ProgressView::Streaming(StreamView::fresh(composer.snapshots, composer.tails)),
{
}

/// The tail that is served next has something waiting, and nothing that
/// waits on another tail goes before it; of tails that are level, the first
/// is served. If no tail is served, nothing waits on any.
pub proof fn lemma_earliest(registry: RegistryView, tails: Seq<TailView>, count: int)
    requires
        0 <= count <= tails.len(),
    ensures
        match earliest(registry, tails, count) {
            Some(place) => {
                &&& 0 <= place < count
                &&& waiting_at(registry, tails[place]) != Waiting::Nothing
                &&& forall|other: int|
                    0 <= other < count ==> !sooner(
                        waiting_at(registry, #[trigger] tails[other]),
                        waiting_at(registry, tails[place]),
                    )
                &&& forall|other: int|
                    0 <= other < place ==> sooner(
                        waiting_at(registry, #[trigger] tails[other]),
                        waiting_at(registry, tails[place]),
                    ) == false && sooner(
                        waiting_at(registry, tails[place]),
                        waiting_at(registry, tails[other]),
                    )
            },
            None => forall|other: int|
                0 <= other < count ==> waiting_at(registry, #[trigger] tails[other])
                    == Waiting::Nothing,
        },
    decreases count,
{
    if count > 0 {
        lemma_earliest(registry, tails, count - 1);
    }
}

/// The live part of a body is in the order of arrival, whichever views it
/// is merged from: when a step serves an item, nothing that waits on any
/// tail of the response arrived before that item.
pub proof fn law_live_items_in_arrival_order(
    stream: StreamView,
    registry: RegistryView,
    other: int,
    behind: int,
)
    requires
        registry.wf(),
        stream.wf(),
        !stream.ended,
        stream.sent == stream.snapshots.len(),
        0 <= other < stream.tails.len(),
        registry.knows(stream.tails[other].view),
        registry.bus(stream.tails[other].view).attached(stream.tails[other].slot),
        0 <= behind < registry.bus(stream.tails[other].view).queue(
            stream.tails[other].slot,
        ).arrivals.len(),
    ensures
        match earliest(registry, stream.tails, stream.tails.len() as int) {
            Some(place) => {
                &&& stream.step(registry) == stream.serve(registry, place)
                &&& waiting_at(registry, stream.tails[place]) matches Waiting::Item(arrival)
                    ==> arrival <= registry.bus(stream.tails[other].view).queue(
                    stream.tails[other].slot,
                ).arrivals[behind]
            },
            None => registry.bus(stream.tails[other].view).queue(
                stream.tails[other].slot,
            ).pending.len() == 0,
        },
{
    lemma_earliest(registry, stream.tails, stream.tails.len() as int);
    let tail = stream.tails[other];
    let bus = registry.relays[tail.view].bus;
    assert(bus.wf() && bus.ordered_before(registry.clock));
    let queue = bus.slots[tail.slot]->0;
    assert(queue.within(bus.capacity) && queue.in_order());
    assert(queue.arrivals[0] <= queue.arrivals[behind]);
}

/// What a response yields in `steps` steps when nobody else touches the
/// registry in between.
pub open spec fn drain(stream: StreamView, registry: RegistryView, steps: nat) -> Seq<
    StreamStepView,
>
    decreases steps,
{
    if steps == 0 {
        Seq::empty()
    } else {
        let (next, after, out) = stream.step(registry);
        seq![out] + drain(next, after, (steps - 1) as nat)
    }
}

/// The payloads as items.
pub open spec fn as_items(payloads: Seq<Seq<char>>) -> Seq<ItemView> {
    Seq::new(payloads.len(), |i: int| Ok::<Seq<char>, PulseErrorView>(payloads[i]))
}

/// The texts as elements of a body.
pub open spec fn as_chunks(texts: Seq<Seq<char>>) -> Seq<StreamStepView> {
    Seq::new(texts.len(), |i: int| StreamStepView::Chunk(texts[i]))
}

/// The body of a response for one view is the snapshots that are still to
/// come, followed by the payloads that wait in its subscriber's queue, in
/// the order of the queue, which is the order of publication.
pub proof fn law_snapshot_then_tail(
    stream: StreamView,
    registry: RegistryView,
    payloads: Seq<Seq<char>>,
)
    requires
        stream.wf(),
        !stream.ended,
        stream.tails.len() == 1,
        registry.knows(stream.tails[0].view),
        registry.bus(stream.tails[0].view).attached(stream.tails[0].slot),
        ({
            let queue = registry.bus(stream.tails[0].view).queue(stream.tails[0].slot);
            &&& queue.pending == as_items(payloads)
            &&& queue.arrivals.len() == payloads.len()
            &&& queue.missed == 0
        }),
    ensures
        drain(stream, registry, (stream.snapshots.len() - stream.sent + payloads.len()) as nat)
            == as_chunks(stream.snapshots.skip(stream.sent as int)) + as_chunks(payloads),
    decreases stream.snapshots.len() - stream.sent + payloads.len(),
{
    let steps = (stream.snapshots.len() - stream.sent + payloads.len()) as nat;
    let tail = stream.tails[0];
    let left = stream.snapshots.skip(stream.sent as int);
    if steps == 0 {
        assert(drain(stream, registry, steps) =~= as_chunks(left) + as_chunks(payloads));
    } else if stream.sent < stream.snapshots.len() {
        let next = stream.step(registry).0;
        law_snapshot_then_tail(next, registry, payloads);
        let rest = stream.snapshots.skip(next.sent as int);
        assert(as_chunks(left) =~= seq![StreamStepView::Chunk(stream.snapshots[stream.sent as int])]
            + as_chunks(rest));
        assert(drain(stream, registry, steps) =~= as_chunks(left) + as_chunks(payloads));
    } else {
        let queue = registry.bus(tail.view).queue(tail.slot);
        assert(as_items(payloads)[0] == Ok::<Seq<char>, PulseErrorView>(payloads[0]));
        assert(waiting_at(registry, tail) == Waiting::Item(queue.arrivals[0]));
        assert(earliest(registry, stream.tails, 0) is None);
        assert(earliest(registry, stream.tails, 1) == Some(0int));
        let (next, after, out) = stream.step(registry);
        assert(out == StreamStepView::Chunk(payloads[0]));
        assert(next == stream);
        assert(after.bus(tail.view).queue(tail.slot).pending =~= as_items(payloads.drop_first()));
        law_snapshot_then_tail(next, after, payloads.drop_first());
        assert(left =~= Seq::<Seq<char>>::empty());
        assert(as_chunks(left) + as_chunks(payloads) =~= seq![StreamStepView::Chunk(payloads[0])]
            + (as_chunks(left) + as_chunks(payloads.drop_first())));
    }
}

/// Nothing falls between a snapshot and its tail. A request for one view
/// attaches its subscriber when it begins; whatever is published on the view
/// from then on, before or after the snapshot arrives, follows the snapshot
/// in the body, in the order of publication, as long as it fits in the
/// queue.
pub proof fn law_snapshot_then_everything_published_since(
    registry: RegistryView,
    view: usize,
    snapshot: Seq<char>,
    early: Seq<Seq<char>>,
    late: Seq<Seq<char>>,
)
    requires
        registry.wf(),
        registry.knows(view as int),
        early.len() + late.len() <= registry.bus(view as int).capacity,
    ensures
        ({
            let (began, attached) = begin(seq![view], registry);
            let during = attached.publish_all(view as int, as_items(early));
            &&& began matches ProgressView::Fetch { view: wanted, composer }
            &&& wanted == view
            &&& composer.supply(Ok(snapshot), during).1 == during
            &&& composer.supply(Ok(snapshot), during).0 matches ProgressView::Streaming(stream)
            &&& drain(
                stream,
                during.publish_all(view as int, as_items(late)),
                (1 + early.len() + late.len()) as nat,
            ) == seq![StreamStepView::Chunk(snapshot)] + as_chunks(early + late)
        }),
{
    let views = seq![view];
    assert(views.drop_last() =~= Seq::<usize>::empty());
    assert(attach_all(registry, views.drop_last()) == (registry, Seq::<TailView>::empty()));
    let (attached, tails) = attach_all(registry, views);
    let bus = registry.bus(view as int);
    let slot = bus.next_slot();
    lemma_vacancy(bus.slots);
    assert(tails =~= seq![TailView { view: view as int, slot }]);
    assert(attached.bus(view as int) == bus.subscribe());
    let composer = ComposerView { views, snapshots: Seq::empty(), tails };
    let ready = ComposerView { snapshots: composer.snapshots.push(snapshot), ..composer };
    let stream = StreamView::fresh(ready.snapshots, tails);
    let all = early + late;
    let during = attached.publish_all(view as int, as_items(early));
    let after = during.publish_all(view as int, as_items(late));
    lemma_publish_all_joined(attached, view as int, as_items(early), as_items(late));
    assert(as_items(early) + as_items(late) =~= as_items(all));
    law_publish_stays_on_its_view(attached, view as int, as_items(all));
    assert(bus.subscribe().wf()) by {
        lemma_subscribe_keeps_bound(bus);
    }
    let marks = marks_from(attached.clock, all.len());
    lemma_publish_all_queue(bus.subscribe(), slot, as_items(all), marks);
    let queue = after.bus(view as int).queue(slot);
    assert(bus.subscribe().queue(slot) == QueueView::fresh());
    assert(Seq::<ItemView>::empty() + as_items(all) =~= as_items(all));
    assert(Seq::<u64>::empty() + marks =~= marks);
    assert(as_items(all).skip(0) =~= as_items(all));
    assert(marks.skip(0) =~= marks);
    assert(queue.pending == as_items(all) && queue.missed == 0 && queue.arrivals.len()
        == all.len());
    law_snapshot_then_tail(stream, after, all);
    assert(stream.snapshots.skip(0) =~= seq![snapshot]);
    assert(as_chunks(seq![snapshot]) =~= seq![StreamStepView::Chunk(snapshot)]);
}

} // verus!
