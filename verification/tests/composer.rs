use pulse_relay::composer::{
    assemble_error, error_body, Composer, Progress, ResponseStream, StreamStep, REJECT_STATUS,
};
use pulse_relay::error::PulseError;
use pulse_relay::reader::ReaderEvent;
use pulse_relay::registry::Registry;

fn registry() -> (Registry, usize, usize) {
    let mut registry = Registry::new();
    let nodes = registry.declare("graph_nodes", 4).unwrap();
    let rels = registry.declare("graph_relationships", 4).unwrap();
    (registry, nodes, rels)
}

fn chunk(s: &str) -> StreamStep {
    StreamStep::Chunk(s.to_string())
}

fn stream_of(progress: Progress) -> ResponseStream {
    match progress {
        Progress::Streaming(stream) => stream,
        Progress::Fetch { view, .. } => panic!("still wants view {}", view),
        Progress::Rejected { status, body } => panic!("rejected {} {}", status, body),
    }
}

fn composer_of(progress: Progress, wanted: usize) -> Composer {
    match progress {
        Progress::Fetch { view, composer } => {
            assert_eq!(view, wanted);
            assert_eq!(composer.wanted(), wanted);
            composer
        }
        Progress::Streaming(_) => panic!("streaming already"),
        Progress::Rejected { status, body } => panic!("rejected {} {}", status, body),
    }
}

fn open_single(registry: &mut Registry, view: usize, snapshot: &str) -> ResponseStream {
    let composer = composer_of(Composer::start(vec![view], registry), view);
    stream_of(composer.supply(Ok(snapshot.to_string()), registry))
}

#[test]
fn error_body_is_a_small_json_object() {
    assert_eq!(error_body("internal error"), "{\"error\": \"internal error\"}");
    assert_eq!(error_body("  spaced out \n"), "{\"error\": \"spaced out\"}");
    assert_eq!(error_body(""), "{\"error\": \"\"}");
    assert_eq!(REJECT_STATUS, 500);
}

fn error_of(body: &str) -> String {
    match serde_json::from_str::<serde_json::Value>(body).unwrap() {
        serde_json::Value::Object(members) => {
            assert_eq!(members.len(), 1);
            match members.get("error") {
                Some(serde_json::Value::String(message)) => message.clone(),
                other => panic!("unexpected {:?}", other),
            }
        }
        other => panic!("unexpected {:?}", other),
    }
}

#[test]
fn error_body_is_json_whatever_the_message_holds() {
    assert_eq!(error_body("a\"b"), "{\"error\": \"a\\\"b\"}");
    assert_eq!(error_body("back\\slash"), "{\"error\": \"back\\\\slash\"}");
    for message in [
        "a\"b",
        "back\\slash",
        "{\"message\": \"no such table\", \"code\": 42}",
        "line one\nline two\ttabbed",
        "control \u{1} and \u{7f}",
        "caf\u{e9} \u{1F600}",
        "",
        "internal error",
    ] {
        assert_eq!(error_of(&error_body(message)), message);
    }
    assert_eq!(error_of(&error_body("  \"quoted\" and padded \n")), "\"quoted\" and padded");
}

#[test]
fn assemble_error_puts_the_written_message_in_its_place() {
    assert_eq!(assemble_error("\"m\""), "{\"error\": \"m\"}");
    assert_eq!(assemble_error("\"a\\\"b\""), "{\"error\": \"a\\\"b\"}");
}

#[test]
fn rejection_with_a_json_message_is_still_json() {
    let (mut registry, nodes, rels) = registry();
    let composer = composer_of(Composer::start(vec![nodes, rels], &mut registry), nodes);
    let composer = composer_of(composer.supply(Ok("NODES".to_string()), &mut registry), rels);
    let engine_body = "{\"error\": \"no view \\\"graph_relationships\\\"\"}";
    let failure = PulseError::UpstreamStatus { status: 400, body: engine_body.to_string() };
    match composer.supply(Err(failure), &mut registry) {
        Progress::Rejected { status, body } => {
            assert_eq!(status, 500);
            assert_eq!(error_of(&body), engine_body);
        }
        _ => panic!("the request was not rejected"),
    }
    assert_eq!(registry.subscriber_count(nodes), 0);
    assert_eq!(registry.subscriber_count(rels), 0);
}

#[test]
fn snapshot_comes_first_then_the_live_item() {
    let (mut registry, nodes, _rels) = registry();
    let mut reader = registry.claim_reader(nodes).unwrap();
    reader.on_event(ReaderEvent::Answered(200), &mut registry);
    let composer = composer_of(Composer::start(vec![nodes], &mut registry), nodes);
    let line = "{\"sequence_number\": 1, \"json_data\": [{\"insert\": {\"id\": 2}}]}";
    let mut bytes = line.as_bytes().to_vec();
    bytes.push(b'\n');
    reader.on_event(ReaderEvent::Chunk(bytes), &mut registry);
    let mut stream = stream_of(composer.supply(Ok("[{\"id\":1}]".to_string()), &mut registry));
    assert_eq!(stream.next(&mut registry), chunk("[{\"id\":1}]"));
    assert_eq!(stream.next(&mut registry), chunk("{\"id\":2}\n"));
    assert_eq!(stream.next(&mut registry), StreamStep::Idle);
    stream.close(&mut registry);
    assert_eq!(registry.subscriber_count(nodes), 0);
}

#[test]
fn what_is_published_after_the_snapshot_follows_it_too() {
    let (mut registry, nodes, _rels) = registry();
    let mut stream = open_single(&mut registry, nodes, "[{\"id\":1}]");
    registry.publish(nodes, Ok("{\"id\":2}\n".to_string()));
    assert_eq!(stream.next(&mut registry), chunk("[{\"id\":1}]"));
    registry.publish(nodes, Ok("{\"id\":3}\n".to_string()));
    assert_eq!(stream.next(&mut registry), chunk("{\"id\":2}\n"));
    assert_eq!(stream.next(&mut registry), chunk("{\"id\":3}\n"));
    assert_eq!(stream.next(&mut registry), StreamStep::Idle);
    stream.close(&mut registry);
}

#[test]
fn what_was_published_before_the_request_is_not_in_the_tail() {
    let (mut registry, nodes, _rels) = registry();
    registry.publish(nodes, Ok("old\n".to_string()));
    let mut stream = open_single(&mut registry, nodes, "S");
    assert_eq!(stream.next(&mut registry), chunk("S"));
    assert_eq!(stream.next(&mut registry), StreamStep::Idle);
    stream.close(&mut registry);
}

#[test]
fn failed_snapshot_is_answered_with_500_and_no_subscriber_stays() {
    let (mut registry, nodes, _rels) = registry();
    let composer = composer_of(Composer::start(vec![nodes], &mut registry), nodes);
    assert_eq!(registry.subscriber_count(nodes), 1);
    let failure = PulseError::UpstreamStatus { status: 500, body: "internal error".to_string() };
    match composer.supply(Err(failure), &mut registry) {
        Progress::Rejected { status, body } => {
            assert_eq!(status, 500);
            assert_eq!(body, "{\"error\": \"internal error\"}");
        }
        _ => panic!("the request was not rejected"),
    }
    assert_eq!(registry.subscriber_count(nodes), 0);
}

#[test]
fn abandoned_request_leaves_no_subscriber() {
    let (mut registry, nodes, rels) = registry();
    let composer = composer_of(Composer::start(vec![nodes, rels], &mut registry), nodes);
    let composer = composer_of(composer.supply(Ok("N".to_string()), &mut registry), rels);
    assert_eq!(registry.subscriber_count(nodes), 1);
    assert_eq!(registry.subscriber_count(rels), 1);
    composer.abandon(&mut registry);
    assert_eq!(registry.subscriber_count(nodes), 0);
    assert_eq!(registry.subscriber_count(rels), 0);
}

#[test]
fn failed_connection_to_the_snapshot_source_is_rejected_too() {
    let (mut registry, nodes, _rels) = registry();
    let composer = composer_of(Composer::start(vec![nodes], &mut registry), nodes);
    match composer.supply(Err(PulseError::Transport(" refused \n".to_string())), &mut registry) {
        Progress::Rejected { status, body } => {
            assert_eq!(status, 500);
            assert_eq!(body, "{\"error\": \"refused\"}");
        }
        _ => panic!("the request was not rejected"),
    }
}

#[test]
fn both_snapshots_come_before_any_live_item_whoever_publishes_first() {
    for relationships_first in [false, true] {
        let (mut registry, nodes, rels) = registry();
        let composer = composer_of(Composer::start(vec![nodes, rels], &mut registry), nodes);
        let composer = composer_of(composer.supply(Ok("NODES".to_string()), &mut registry), rels);
        let mut stream = stream_of(composer.supply(Ok("RELS".to_string()), &mut registry));
        assert_eq!(registry.subscriber_count(nodes), 1);
        assert_eq!(registry.subscriber_count(rels), 1);
        if relationships_first {
            registry.publish(rels, Ok("r1\n".to_string()));
            registry.publish(nodes, Ok("n1\n".to_string()));
        } else {
            registry.publish(nodes, Ok("n1\n".to_string()));
            registry.publish(rels, Ok("r1\n".to_string()));
        }
        assert_eq!(stream.next(&mut registry), chunk("NODES"));
        registry.publish(rels, Ok("r2\n".to_string()));
        assert_eq!(stream.next(&mut registry), chunk("RELS"));
        let mut live = Vec::new();
        for _ in 0..3 {
            match stream.next(&mut registry) {
                StreamStep::Chunk(text) => live.push(text),
                other => panic!("unexpected {:?}", other),
            }
        }
        if relationships_first {
            assert_eq!(live, vec!["r1\n", "n1\n", "r2\n"]);
        } else {
            assert_eq!(live, vec!["n1\n", "r1\n", "r2\n"]);
        }
        assert_eq!(stream.next(&mut registry), StreamStep::Idle);
        stream.close(&mut registry);
    }
}

#[test]
fn second_snapshot_failure_rejects_the_combined_request() {
    let (mut registry, nodes, rels) = registry();
    let composer = composer_of(Composer::start(vec![nodes, rels], &mut registry), nodes);
    let composer = composer_of(composer.supply(Ok("NODES".to_string()), &mut registry), rels);
    let failure = PulseError::UpstreamStatus { status: 503, body: "busy".to_string() };
    match composer.supply(Err(failure), &mut registry) {
        Progress::Rejected { status, body } => {
            assert_eq!(status, 500);
            assert_eq!(body, "{\"error\": \"busy\"}");
        }
        _ => panic!("the request was not rejected"),
    }
    assert_eq!(registry.subscriber_count(nodes), 0);
    assert_eq!(registry.subscriber_count(rels), 0);
}

#[test]
fn first_snapshot_failure_asks_for_no_second_snapshot() {
    let (mut registry, nodes, rels) = registry();
    let composer = composer_of(Composer::start(vec![nodes, rels], &mut registry), nodes);
    assert!(matches!(
        composer.supply(Err(PulseError::Transport("down".to_string())), &mut registry),
        Progress::Rejected { status: 500, .. }
    ));
    assert_eq!(registry.subscriber_count(nodes), 0);
    assert_eq!(registry.subscriber_count(rels), 0);
}

#[test]
fn unknown_view_rejects_at_once_and_attaches_nothing() {
    let (mut registry, nodes, _rels) = registry();
    match Composer::start(vec![nodes, 9], &mut registry) {
        Progress::Rejected { status, body } => {
            assert_eq!(status, 500);
            assert_eq!(body, "{\"error\": \"unknown view\"}");
        }
        _ => panic!("the request was not rejected"),
    }
    assert_eq!(registry.subscriber_count(nodes), 0);
}

#[test]
fn request_for_no_view_is_an_empty_open_body() {
    let (mut registry, _nodes, _rels) = registry();
    let mut stream = stream_of(Composer::start(vec![], &mut registry));
    assert_eq!(stream.next(&mut registry), StreamStep::Idle);
    assert_eq!(stream.next(&mut registry), StreamStep::Idle);
    stream.close(&mut registry);
}

#[test]
fn tails_are_merged_in_the_order_of_arrival() {
    let (mut registry, nodes, rels) = registry();
    let composer = composer_of(Composer::start(vec![nodes, rels], &mut registry), nodes);
    let composer = composer_of(composer.supply(Ok("N".to_string()), &mut registry), rels);
    let mut stream = stream_of(composer.supply(Ok("R".to_string()), &mut registry));
    registry.publish(rels, Ok("r1".to_string()));
    registry.publish(nodes, Ok("n1".to_string()));
    registry.publish(nodes, Ok("n2".to_string()));
    registry.publish(rels, Ok("r2".to_string()));
    registry.publish(rels, Ok("r3".to_string()));
    registry.publish(nodes, Ok("n3".to_string()));
    let mut out = Vec::new();
    loop {
        match stream.next(&mut registry) {
            StreamStep::Chunk(text) => out.push(text),
            StreamStep::Idle => break,
            other => panic!("unexpected {:?}", other),
        }
    }
    assert_eq!(out, vec!["N", "R", "r1", "n1", "n2", "r2", "r3", "n3"]);
    stream.close(&mut registry);
}

#[test]
fn overflow_on_one_tail_is_told_before_older_items_of_another() {
    let (mut registry, nodes, rels) = registry();
    let composer = composer_of(Composer::start(vec![nodes, rels], &mut registry), nodes);
    let composer = composer_of(composer.supply(Ok("N".to_string()), &mut registry), rels);
    let mut stream = stream_of(composer.supply(Ok("R".to_string()), &mut registry));
    registry.publish(nodes, Ok("n1".to_string()));
    for i in 0..5 {
        registry.publish(rels, Ok(format!("r{}", i)));
    }
    assert_eq!(stream.next(&mut registry), chunk("N"));
    assert_eq!(stream.next(&mut registry), chunk("R"));
    assert_eq!(stream.next(&mut registry), StreamStep::Failed(PulseError::BusOverflow(1)));
    assert_eq!(stream.next(&mut registry), StreamStep::Finished);
    stream.close(&mut registry);
}

#[test]
fn error_marker_ends_the_body() {
    let (mut registry, nodes, _rels) = registry();
    let mut stream = open_single(&mut registry, nodes, "S");
    registry.publish(nodes, Ok("a\n".to_string()));
    registry.publish(nodes, Err(PulseError::Transport("upstream lost".to_string())));
    registry.publish(nodes, Ok("b\n".to_string()));
    assert_eq!(stream.next(&mut registry), chunk("S"));
    assert_eq!(stream.next(&mut registry), chunk("a\n"));
    assert_eq!(
        stream.next(&mut registry),
        StreamStep::Failed(PulseError::Transport("upstream lost".to_string()))
    );
    assert_eq!(stream.next(&mut registry), StreamStep::Finished);
    assert_eq!(stream.next(&mut registry), StreamStep::Finished);
    stream.close(&mut registry);
    assert_eq!(registry.subscriber_count(nodes), 0);
}

#[test]
fn overflow_ends_the_body_with_the_count() {
    let (mut registry, nodes, _rels) = registry();
    let mut stream = open_single(&mut registry, nodes, "S");
    assert_eq!(stream.next(&mut registry), chunk("S"));
    for i in 0..7 {
        registry.publish(nodes, Ok(format!("{}\n", i)));
    }
    assert_eq!(stream.next(&mut registry), StreamStep::Failed(PulseError::BusOverflow(3)));
    assert_eq!(stream.next(&mut registry), StreamStep::Finished);
    stream.close(&mut registry);
}

#[test]
fn overflow_of_one_client_leaves_the_other_alone() {
    let (mut registry, nodes, _rels) = registry();
    let mut slow = open_single(&mut registry, nodes, "S");
    let mut fast = open_single(&mut registry, nodes, "S");
    assert_eq!(fast.next(&mut registry), chunk("S"));
    for i in 0..6 {
        registry.publish(nodes, Ok(format!("{}", i)));
        assert_eq!(fast.next(&mut registry), chunk(&format!("{}", i)));
    }
    assert_eq!(slow.next(&mut registry), chunk("S"));
    assert_eq!(slow.next(&mut registry), StreamStep::Failed(PulseError::BusOverflow(2)));
    assert_eq!(fast.next(&mut registry), StreamStep::Idle);
    slow.close(&mut registry);
    registry.publish(nodes, Ok("late".to_string()));
    assert_eq!(fast.next(&mut registry), chunk("late"));
    fast.close(&mut registry);
}

#[test]
fn closing_detaches_every_tail() {
    let (mut registry, nodes, rels) = registry();
    let composer = composer_of(Composer::start(vec![nodes, rels, nodes], &mut registry), nodes);
    let composer = composer_of(composer.supply(Ok("1".to_string()), &mut registry), rels);
    let composer = composer_of(composer.supply(Ok("2".to_string()), &mut registry), nodes);
    let stream = stream_of(composer.supply(Ok("3".to_string()), &mut registry));
    assert_eq!(registry.subscriber_count(nodes), 2);
    assert_eq!(registry.subscriber_count(rels), 1);
    stream.close(&mut registry);
    assert_eq!(registry.subscriber_count(nodes), 0);
    assert_eq!(registry.subscriber_count(rels), 0);
}
