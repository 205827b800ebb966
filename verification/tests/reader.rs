use pulse_relay::bus::Delivery;
use pulse_relay::decoder::{ChangeRecord, DecodeError, Entry};
use pulse_relay::error::PulseError;
use pulse_relay::reader::{
    publish_record, ReaderAction, ReaderEvent, ReaderState, UpstreamReader, BACKOFF_SECONDS,
};
use pulse_relay::registry::Registry;

fn setup() -> (Registry, usize, UpstreamReader) {
    let mut registry = Registry::new();
    let view = registry.declare("graph_nodes", 16).unwrap();
    let reader = registry.claim_reader(view).unwrap();
    (registry, view, reader)
}

fn feed_line(line: &str) -> Vec<u8> {
    let mut bytes = line.as_bytes().to_vec();
    bytes.push(b'\n');
    bytes
}

fn open_feed(reader: &mut UpstreamReader, registry: &mut Registry) {
    let handled = reader.on_event(ReaderEvent::Answered(200), registry);
    assert_eq!(handled.action, ReaderAction::ReadChunk);
    assert_eq!(reader.state(), ReaderState::Streaming);
}

#[test]
fn reader_starts_out_connecting() {
    let (_registry, view, reader) = setup();
    assert_eq!(reader.state(), ReaderState::Connecting);
    assert_eq!(reader.view_index(), view);
    assert_eq!(reader.pending_action(), ReaderAction::Connect);
}

#[test]
fn backoff_is_ten_seconds() {
    assert_eq!(BACKOFF_SECONDS, 10);
}

#[test]
fn refused_connection_is_retried_after_ten_seconds_and_reaches_no_client() {
    let (mut registry, view, mut reader) = setup();
    let client = registry.subscribe(view).unwrap();
    let handled = reader.on_event(
        ReaderEvent::ConnectFailed("connection refused".to_string()),
        &mut registry,
    );
    assert_eq!(handled.action, ReaderAction::Sleep(10));
    assert!(!handled.published);
    assert!(handled.skipped.is_empty());
    assert_eq!(reader.state(), ReaderState::Backoff);
    assert_eq!(registry.receive(view, &client), Delivery::Empty);

    let handled = reader.on_event(ReaderEvent::Woke, &mut registry);
    assert_eq!(handled.action, ReaderAction::Connect);
    assert_eq!(reader.state(), ReaderState::Connecting);

    open_feed(&mut reader, &mut registry);
    let line = "{\"sequence_number\": 1, \"json_data\": [{\"insert\": {\"id\": 2}}]}";
    let handled = reader.on_event(ReaderEvent::Chunk(feed_line(line)), &mut registry);
    assert!(handled.published);
    assert_eq!(registry.receive(view, &client), Delivery::Item(Ok("{\"id\":2}\n".to_string())));
}

#[test]
fn status_outside_the_success_range_leads_to_backoff() {
    for status in [199u16, 300, 404, 500, 503, 0, 65535] {
        let (mut registry, view, mut reader) = setup();
        let client = registry.subscribe(view).unwrap();
        let handled = reader.on_event(ReaderEvent::Answered(status), &mut registry);
        assert_eq!(handled.action, ReaderAction::Sleep(10));
        assert_eq!(reader.state(), ReaderState::Backoff);
        assert_eq!(registry.receive(view, &client), Delivery::Empty);
    }
}

#[test]
fn every_success_status_opens_the_feed() {
    for status in [200u16, 201, 204, 299] {
        let (mut registry, _view, mut reader) = setup();
        let handled = reader.on_event(ReaderEvent::Answered(status), &mut registry);
        assert_eq!(handled.action, ReaderAction::ReadChunk);
        assert_eq!(reader.state(), ReaderState::Streaming);
    }
}

#[test]
fn line_publishes_its_inserts_newest_first_with_line_ends() {
    let (mut registry, view, mut reader) = setup();
    let client = registry.subscribe(view).unwrap();
    open_feed(&mut reader, &mut registry);
    let line = "{\"sequence_number\": 9, \"json_data\": [{\"insert\": {\"n\": \"A\"}}, {\"delete\": {\"n\": \"B\"}}, {\"insert\": {\"n\": \"C\"}}]}";
    let handled = reader.on_event(ReaderEvent::Chunk(feed_line(line)), &mut registry);
    assert_eq!(handled.action, ReaderAction::ReadChunk);
    assert!(handled.published);
    assert!(handled.skipped.is_empty());
    assert_eq!(registry.receive(view, &client), Delivery::Item(Ok("{\"n\":\"C\"}\n".to_string())));
    assert_eq!(registry.receive(view, &client), Delivery::Item(Ok("{\"n\":\"A\"}\n".to_string())));
    assert_eq!(registry.receive(view, &client), Delivery::Empty);
}

#[test]
fn bad_line_is_dropped_and_the_feed_stays_open() {
    let (mut registry, view, mut reader) = setup();
    let client = registry.subscribe(view).unwrap();
    open_feed(&mut reader, &mut registry);
    let handled = reader.on_event(ReaderEvent::Chunk(feed_line("[]")), &mut registry);
    assert_eq!(handled.action, ReaderAction::ReadChunk);
    assert!(!handled.published);
    assert_eq!(handled.skipped, vec![DecodeError::NotARecord]);
    assert_eq!(reader.state(), ReaderState::Streaming);
    let handled = reader.on_event(ReaderEvent::Chunk(feed_line("{oops")), &mut registry);
    assert!(matches!(handled.skipped.as_slice(), [DecodeError::Malformed(_)]));
    assert_eq!(reader.state(), ReaderState::Streaming);
    assert_eq!(registry.receive(view, &client), Delivery::Empty);
    let good = "{\"sequence_number\": 2, \"json_data\": [{\"insert\": 1}]}";
    let handled = reader.on_event(ReaderEvent::Chunk(feed_line(good)), &mut registry);
    assert!(handled.published);
    assert_eq!(registry.receive(view, &client), Delivery::Item(Ok("1\n".to_string())));
}

#[test]
fn broken_line_stream_leaves_one_marker_and_backs_off() {
    let (mut registry, view, mut reader) = setup();
    let client = registry.subscribe(view).unwrap();
    open_feed(&mut reader, &mut registry);
    let handled = reader.on_event(ReaderEvent::TransportError("stream reset".to_string()), &mut registry);
    assert_eq!(handled.action, ReaderAction::Sleep(10));
    assert!(handled.published);
    assert_eq!(reader.state(), ReaderState::Backoff);
    assert_eq!(
        registry.receive(view, &client),
        Delivery::Item(Err(PulseError::Transport("stream reset".to_string())))
    );
    assert_eq!(registry.receive(view, &client), Delivery::Empty);
}

#[test]
fn closed_feed_backs_off_without_a_marker() {
    let (mut registry, view, mut reader) = setup();
    let client = registry.subscribe(view).unwrap();
    open_feed(&mut reader, &mut registry);
    let handled = reader.on_event(ReaderEvent::Closed, &mut registry);
    assert_eq!(handled.action, ReaderAction::Sleep(10));
    assert!(!handled.published);
    assert_eq!(reader.state(), ReaderState::Backoff);
    assert_eq!(registry.receive(view, &client), Delivery::Empty);
}

#[test]
fn events_out_of_place_end_in_backoff_and_publish_nothing() {
    let events = || {
        vec![
            ReaderEvent::ConnectFailed("x".to_string()),
            ReaderEvent::Answered(200),
            ReaderEvent::Chunk(feed_line("{\"sequence_number\":1,\"json_data\":[{\"insert\":1}]}")),
            ReaderEvent::TransportError("x".to_string()),
            ReaderEvent::Closed,
        ]
    };
    for event in events() {
        let (mut registry, view, mut reader) = setup();
        let client = registry.subscribe(view).unwrap();
        reader.on_event(ReaderEvent::Closed, &mut registry);
        assert_eq!(reader.state(), ReaderState::Backoff);
        let handled = reader.on_event(event, &mut registry);
        assert_eq!(handled.action, ReaderAction::Sleep(10));
        assert!(!handled.published);
        assert_eq!(reader.state(), ReaderState::Backoff);
        assert_eq!(registry.receive(view, &client), Delivery::Empty);
    }
    for event in [
        ReaderEvent::Chunk(feed_line("{\"sequence_number\":1,\"json_data\":[{\"insert\":1}]}")),
        ReaderEvent::TransportError("x".to_string()),
        ReaderEvent::Closed,
        ReaderEvent::Woke,
    ] {
        let (mut registry, view, mut reader) = setup();
        let client = registry.subscribe(view).unwrap();
        let handled = reader.on_event(event, &mut registry);
        assert_eq!(handled.action, ReaderAction::Sleep(10));
        assert!(!handled.published);
        assert_eq!(registry.receive(view, &client), Delivery::Empty);
    }
    let (mut registry, _view, mut reader) = setup();
    open_feed(&mut reader, &mut registry);
    for event in [ReaderEvent::Woke] {
        let handled = reader.on_event(event, &mut registry);
        assert_eq!(handled.action, ReaderAction::Sleep(10));
    }
}

#[test]
fn publishing_with_nobody_attached_is_fine() {
    let (mut registry, view, mut reader) = setup();
    open_feed(&mut reader, &mut registry);
    let line = "{\"sequence_number\": 1, \"json_data\": [{\"insert\": 1}, {\"insert\": 2}]}";
    let handled = reader.on_event(ReaderEvent::Chunk(feed_line(line)), &mut registry);
    assert!(handled.published);
    assert_eq!(handled.action, ReaderAction::ReadChunk);
    assert_eq!(registry.subscriber_count(view), 0);
}

#[test]
fn publish_record_sends_each_insert() {
    let mut registry = Registry::new();
    let view = registry.declare("v", 4).unwrap();
    let client = registry.subscribe(view).unwrap();
    let record = ChangeRecord {
        sequence_number: 1,
        entries: vec![
            Entry::Insert("A".to_string()),
            Entry::Delete("B".to_string()),
            Entry::Insert("C".to_string()),
        ],
    };
    assert_eq!(publish_record(&mut registry, view, &record), 2);
    assert_eq!(registry.receive(view, &client), Delivery::Item(Ok("C\n".to_string())));
    assert_eq!(registry.receive(view, &client), Delivery::Item(Ok("A\n".to_string())));
    assert_eq!(publish_record(&mut registry, view + 1, &record), 2);
    assert_eq!(registry.receive(view, &client), Delivery::Empty);
}

#[test]
fn reader_runs_on_through_many_rounds() {
    let (mut registry, _view, mut reader) = setup();
    for _ in 0..50 {
        assert_eq!(reader.pending_action(), ReaderAction::Connect);
        reader.on_event(ReaderEvent::ConnectFailed("refused".to_string()), &mut registry);
        assert_eq!(reader.pending_action(), ReaderAction::Sleep(10));
        reader.on_event(ReaderEvent::Woke, &mut registry);
        reader.on_event(ReaderEvent::Answered(200), &mut registry);
        reader.on_event(ReaderEvent::Closed, &mut registry);
        reader.on_event(ReaderEvent::Woke, &mut registry);
    }
    assert_eq!(reader.state(), ReaderState::Connecting);
}

#[test]
fn lines_may_arrive_in_pieces() {
    let (mut registry, view, mut reader) = setup();
    let client = registry.subscribe(view).unwrap();
    open_feed(&mut reader, &mut registry);
    let line = "{\"sequence_number\": 1, \"json_data\": [{\"insert\": {\"id\": 2}}]}\r\n";
    let (head, tail) = line.as_bytes().split_at(17);
    let handled = reader.on_event(ReaderEvent::Chunk(head.to_vec()), &mut registry);
    assert!(!handled.published);
    assert_eq!(handled.action, ReaderAction::ReadChunk);
    assert_eq!(registry.receive(view, &client), Delivery::Empty);
    let handled = reader.on_event(ReaderEvent::Chunk(tail.to_vec()), &mut registry);
    assert!(handled.published);
    assert_eq!(registry.receive(view, &client), Delivery::Item(Ok("{\"id\":2}\n".to_string())));
}

#[test]
fn several_lines_in_one_chunk_are_taken_in_order() {
    let (mut registry, view, mut reader) = setup();
    let client = registry.subscribe(view).unwrap();
    open_feed(&mut reader, &mut registry);
    let chunk = "{\"sequence_number\":1,\"json_data\":[{\"insert\":1}]}\nnot json\n\n{\"sequence_number\":2,\"json_data\":[{\"insert\":2},{\"insert\":3}]}\n{\"sequ";
    let handled = reader.on_event(ReaderEvent::Chunk(chunk.as_bytes().to_vec()), &mut registry);
    assert!(handled.published);
    assert_eq!(handled.skipped.len(), 2);
    assert!(matches!(handled.skipped[0], DecodeError::Malformed(_)));
    assert!(matches!(handled.skipped[1], DecodeError::Malformed(_)));
    assert_eq!(reader.state(), ReaderState::Streaming);
    for expected in ["1\n", "3\n", "2\n"] {
        assert_eq!(registry.receive(view, &client), Delivery::Item(Ok(expected.to_string())));
    }
    assert_eq!(registry.receive(view, &client), Delivery::Empty);
}

#[test]
fn line_that_is_not_utf8_breaks_the_feed_with_one_marker() {
    let (mut registry, view, mut reader) = setup();
    let client = registry.subscribe(view).unwrap();
    open_feed(&mut reader, &mut registry);
    let mut chunk = feed_line("{\"sequence_number\":1,\"json_data\":[{\"insert\":1}]}");
    chunk.extend_from_slice(&[0xff, 0xfe, b'\n']);
    chunk.extend_from_slice(&feed_line("{\"sequence_number\":2,\"json_data\":[{\"insert\":2}]}"));
    let handled = reader.on_event(ReaderEvent::Chunk(chunk), &mut registry);
    assert_eq!(handled.action, ReaderAction::Sleep(10));
    assert!(handled.published);
    assert_eq!(reader.state(), ReaderState::Backoff);
    assert_eq!(registry.receive(view, &client), Delivery::Item(Ok("1\n".to_string())));
    assert_eq!(
        registry.receive(view, &client),
        Delivery::Item(Err(PulseError::Transport("Unable to decode input as UTF8".to_string())))
    );
    assert_eq!(registry.receive(view, &client), Delivery::Empty);
}

#[test]
fn closed_feed_still_yields_its_unfinished_line() {
    let (mut registry, view, mut reader) = setup();
    let client = registry.subscribe(view).unwrap();
    open_feed(&mut reader, &mut registry);
    let partial = "{\"sequence_number\":1,\"json_data\":[{\"insert\":7}]}";
    reader.on_event(ReaderEvent::Chunk(partial.as_bytes().to_vec()), &mut registry);
    assert_eq!(registry.receive(view, &client), Delivery::Empty);
    let handled = reader.on_event(ReaderEvent::Closed, &mut registry);
    assert!(handled.published);
    assert_eq!(handled.action, ReaderAction::Sleep(10));
    assert_eq!(registry.receive(view, &client), Delivery::Item(Ok("7\n".to_string())));
}

#[test]
fn bytes_held_back_do_not_survive_a_reconnect() {
    let (mut registry, view, mut reader) = setup();
    let client = registry.subscribe(view).unwrap();
    open_feed(&mut reader, &mut registry);
    reader.on_event(ReaderEvent::Chunk(b"{\"sequence_number\":1,".to_vec()), &mut registry);
    reader.on_event(ReaderEvent::TransportError("reset".to_string()), &mut registry);
    reader.on_event(ReaderEvent::Woke, &mut registry);
    open_feed(&mut reader, &mut registry);
    let handled = reader.on_event(
        ReaderEvent::Chunk(feed_line("{\"sequence_number\":2,\"json_data\":[{\"insert\":2}]}")),
        &mut registry,
    );
    assert!(handled.skipped.is_empty());
    assert_eq!(
        registry.receive(view, &client),
        Delivery::Item(Err(PulseError::Transport("reset".to_string())))
    );
    assert_eq!(registry.receive(view, &client), Delivery::Item(Ok("2\n".to_string())));
}
