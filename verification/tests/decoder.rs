use pulse_relay::decoder::{
    decode_line, entries_from_elements, entries_from_member, entry_from_outline, find_member,
    insert_payloads, read_elements, read_member, read_text, record_from_parts,
    sequence_from_member, ChangeRecord, DecodeError, Entry, Member,
};
use pulse_relay::error::PulseError;
use pulse_relay::json::JsonOutline;

fn text(s: &str) -> String {
    s.to_string()
}

#[test]
fn record_without_entries_yields_no_payloads() {
    let record = decode_line("{\"sequence_number\": 7, \"json_data\": []}").unwrap();
    assert_eq!(record.sequence_number, 7);
    assert!(record.entries.is_empty());
    assert!(insert_payloads(&record).is_empty());
}

#[test]
fn empty_record_built_by_hand_yields_no_payloads() {
    let record = ChangeRecord { sequence_number: 0, entries: vec![] };
    assert_eq!(insert_payloads(&record), Vec::<String>::new());
}

#[test]
fn inserts_come_out_in_reverse_and_deletes_are_skipped() {
    let line = "{\"sequence_number\": 3, \"json_data\": [{\"insert\": {\"id\": \"A\"}}, {\"delete\": {\"id\": \"B\"}}, {\"insert\": {\"id\": \"C\"}}]}";
    let record = decode_line(line).unwrap();
    assert_eq!(
        record.entries,
        vec![
            Entry::Insert(text("{\"id\":\"A\"}")),
            Entry::Delete(text("{\"id\":\"B\"}")),
            Entry::Insert(text("{\"id\":\"C\"}")),
        ]
    );
    assert_eq!(insert_payloads(&record), vec![text("{\"id\":\"C\"}"), text("{\"id\":\"A\"}")]);
}

#[test]
fn selection_on_a_record_built_by_hand() {
    let record = ChangeRecord {
        sequence_number: 1,
        entries: vec![
            Entry::Insert(text("A")),
            Entry::Delete(text("B")),
            Entry::Insert(text("C")),
        ],
    };
    assert_eq!(insert_payloads(&record), vec![text("C"), text("A")]);
}

#[test]
fn only_deletes_yield_nothing() {
    let record = ChangeRecord {
        sequence_number: 1,
        entries: vec![Entry::Delete(text("{}")), Entry::Delete(text("{}"))],
    };
    assert!(insert_payloads(&record).is_empty());
}

#[test]
fn equal_inserts_are_all_kept() {
    let record = ChangeRecord {
        sequence_number: 1,
        entries: vec![Entry::Insert(text("x")), Entry::Insert(text("x"))],
    };
    assert_eq!(insert_payloads(&record), vec![text("x"), text("x")]);
}

#[test]
fn absent_entries_count_as_none() {
    let record = decode_line("{\"sequence_number\": 12}").unwrap();
    assert_eq!(record, ChangeRecord { sequence_number: 12, entries: vec![] });
}

#[test]
fn null_entries_count_as_none() {
    let record = decode_line("{\"sequence_number\": -4, \"json_data\": null}").unwrap();
    assert_eq!(record, ChangeRecord { sequence_number: -4, entries: vec![] });
}

#[test]
fn payload_is_written_back_in_compact_form() {
    let line = "{ \"sequence_number\" : 1 , \"json_data\" : [ { \"insert\" : { \"id\" : 2 } } ] }";
    let record = decode_line(line).unwrap();
    assert_eq!(record.entries, vec![Entry::Insert(text("{\"id\":2}"))]);
}

#[test]
fn payload_need_not_be_an_object() {
    let record = decode_line("{\"sequence_number\":1,\"json_data\":[{\"insert\":[1, 2]},{\"delete\":\"x\"}]}").unwrap();
    assert_eq!(record.entries, vec![Entry::Insert(text("[1,2]")), Entry::Delete(text("\"x\""))]);
}

#[test]
fn other_members_are_ignored() {
    let record = decode_line("{\"extra\": true, \"sequence_number\": 5, \"json_data\": []}").unwrap();
    assert_eq!(record.sequence_number, 5);
}

#[test]
fn extreme_sequence_numbers_decode() {
    let low = decode_line("{\"sequence_number\": -9223372036854775808}").unwrap();
    assert_eq!(low.sequence_number, i64::MIN);
    let high = decode_line("{\"sequence_number\": 9223372036854775807}").unwrap();
    assert_eq!(high.sequence_number, i64::MAX);
}

#[test]
fn text_that_is_not_json_is_malformed() {
    match decode_line("{\"sequence_number\": 1,") {
        Err(DecodeError::Malformed(message)) => assert!(!message.is_empty()),
        other => panic!("unexpected {:?}", other),
    }
    assert!(matches!(decode_line(""), Err(DecodeError::Malformed(_))));
    assert!(matches!(decode_line("not json"), Err(DecodeError::Malformed(_))));
}

#[test]
fn json_that_is_not_an_object_is_not_a_record() {
    assert_eq!(decode_line("[1, 2]"), Err(DecodeError::NotARecord));
    assert_eq!(decode_line("42"), Err(DecodeError::NotARecord));
    assert_eq!(decode_line("null"), Err(DecodeError::NotARecord));
    assert_eq!(decode_line("\"text\""), Err(DecodeError::NotARecord));
    assert_eq!(decode_line("true"), Err(DecodeError::NotARecord));
}

#[test]
fn missing_sequence_number_is_an_error() {
    assert_eq!(decode_line("{\"json_data\": []}"), Err(DecodeError::MissingSequenceNumber));
    assert_eq!(decode_line("{}"), Err(DecodeError::MissingSequenceNumber));
}

#[test]
fn sequence_number_must_be_a_64_bit_integer() {
    assert_eq!(decode_line("{\"sequence_number\": 1.5}"), Err(DecodeError::InvalidSequenceNumber));
    assert_eq!(decode_line("{\"sequence_number\": \"1\"}"), Err(DecodeError::InvalidSequenceNumber));
    assert_eq!(
        decode_line("{\"sequence_number\": 9223372036854775808}"),
        Err(DecodeError::InvalidSequenceNumber)
    );
    assert_eq!(decode_line("{\"sequence_number\": null}"), Err(DecodeError::InvalidSequenceNumber));
}

#[test]
fn entries_must_be_an_array() {
    assert_eq!(
        decode_line("{\"sequence_number\": 1, \"json_data\": 5}"),
        Err(DecodeError::InvalidEntries)
    );
    assert_eq!(
        decode_line("{\"sequence_number\": 1, \"json_data\": {\"insert\": {}}}"),
        Err(DecodeError::InvalidEntries)
    );
}

#[test]
fn first_bad_entry_is_reported_by_position() {
    assert_eq!(
        decode_line("{\"sequence_number\": 1, \"json_data\": [{\"insert\": 1}, {\"upsert\": 2}, 7]}"),
        Err(DecodeError::InvalidEntry(1))
    );
    assert_eq!(
        decode_line("{\"sequence_number\": 1, \"json_data\": [{\"insert\": 1, \"delete\": 2}]}"),
        Err(DecodeError::InvalidEntry(0))
    );
    assert_eq!(
        decode_line("{\"sequence_number\": 1, \"json_data\": [{\"insert\": 1}, {}]}"),
        Err(DecodeError::InvalidEntry(1))
    );
    assert_eq!(
        decode_line("{\"sequence_number\": 1, \"json_data\": [\"insert\"]}"),
        Err(DecodeError::InvalidEntry(0))
    );
}

#[test]
fn entry_from_outline_reads_the_tag() {
    let insert = JsonOutline::Object(vec![(text("insert"), text("{\"a\":1}"))]);
    assert_eq!(entry_from_outline(&insert), Some(Entry::Insert(text("{\"a\":1}"))));
    let delete = JsonOutline::Object(vec![(text("delete"), text("0"))]);
    assert_eq!(entry_from_outline(&delete), Some(Entry::Delete(text("0"))));
    let other = JsonOutline::Object(vec![(text("update"), text("0"))]);
    assert_eq!(entry_from_outline(&other), None);
    let two = JsonOutline::Object(vec![(text("insert"), text("0")), (text("delete"), text("0"))]);
    assert_eq!(entry_from_outline(&two), None);
    assert_eq!(entry_from_outline(&JsonOutline::Object(vec![])), None);
    assert_eq!(entry_from_outline(&JsonOutline::Null), None);
    assert_eq!(entry_from_outline(&JsonOutline::Array(vec![text("1")])), None);
    assert_eq!(entry_from_outline(&JsonOutline::Text(text("insert"))), None);
    assert_eq!(entry_from_outline(&JsonOutline::Number(Some(1))), None);
    assert_eq!(entry_from_outline(&JsonOutline::Bool(true)), None);
}

fn insert_of(payload: &str) -> Member {
    Member::Present(JsonOutline::Object(vec![(text("insert"), text(payload))]))
}

fn delete_of(payload: &str) -> Member {
    Member::Present(JsonOutline::Object(vec![(text("delete"), text(payload))]))
}

#[test]
fn record_from_parts_puts_number_and_entries_together() {
    let sequence = Member::Present(JsonOutline::Number(Some(9)));
    let data = Member::Present(JsonOutline::Array(vec![text("{\"insert\":{\"k\":1}}")]));
    let elements = vec![insert_of("{\"k\":1}")];
    assert_eq!(
        record_from_parts(&sequence, &data, &elements),
        Ok(ChangeRecord { sequence_number: 9, entries: vec![Entry::Insert(text("{\"k\":1}"))] })
    );
    assert_eq!(
        record_from_parts(&sequence, &Member::Absent, &vec![]),
        Ok(ChangeRecord { sequence_number: 9, entries: vec![] })
    );
}

#[test]
fn record_from_parts_looks_at_the_sequence_number_first() {
    let bad_data = Member::Present(JsonOutline::Bool(true));
    assert_eq!(
        record_from_parts(&Member::Absent, &bad_data, &vec![]),
        Err(DecodeError::MissingSequenceNumber)
    );
    assert_eq!(
        record_from_parts(&Member::Present(JsonOutline::Number(None)), &bad_data, &vec![]),
        Err(DecodeError::InvalidSequenceNumber)
    );
    assert_eq!(
        record_from_parts(&Member::Present(JsonOutline::Number(Some(1))), &bad_data, &vec![]),
        Err(DecodeError::InvalidEntries)
    );
}

#[test]
fn sequence_from_member_wants_an_integer() {
    assert_eq!(sequence_from_member(&Member::Present(JsonOutline::Number(Some(-3)))), Ok(-3));
    assert_eq!(
        sequence_from_member(&Member::Present(JsonOutline::Number(None))),
        Err(DecodeError::InvalidSequenceNumber)
    );
    assert_eq!(
        sequence_from_member(&Member::Present(JsonOutline::Text(text("1")))),
        Err(DecodeError::InvalidSequenceNumber)
    );
    assert_eq!(
        sequence_from_member(&Member::Present(JsonOutline::Null)),
        Err(DecodeError::InvalidSequenceNumber)
    );
    assert_eq!(sequence_from_member(&Member::Unreadable), Err(DecodeError::InvalidSequenceNumber));
    assert_eq!(sequence_from_member(&Member::Absent), Err(DecodeError::MissingSequenceNumber));
}

#[test]
fn entries_from_member_takes_absent_and_null_as_none() {
    assert_eq!(entries_from_member(&Member::Absent, &vec![]), Ok(vec![]));
    assert_eq!(entries_from_member(&Member::Present(JsonOutline::Null), &vec![]), Ok(vec![]));
    assert_eq!(
        entries_from_member(&Member::Unreadable, &vec![]),
        Err(DecodeError::InvalidEntries)
    );
    assert_eq!(
        entries_from_member(&Member::Present(JsonOutline::Object(vec![])), &vec![]),
        Err(DecodeError::InvalidEntries)
    );
    let array = Member::Present(JsonOutline::Array(vec![text("x"), text("y")]));
    assert_eq!(
        entries_from_member(&array, &vec![insert_of("1"), delete_of("2")]),
        Ok(vec![Entry::Insert(text("1")), Entry::Delete(text("2"))])
    );
    assert_eq!(
        entries_from_member(&array, &vec![insert_of("1"), Member::Unreadable]),
        Err(DecodeError::InvalidEntry(1))
    );
}

#[test]
fn entries_from_elements_stops_at_the_first_element_that_is_no_entry() {
    assert_eq!(
        entries_from_elements(&vec![insert_of("1"), delete_of("2")]),
        Ok(vec![Entry::Insert(text("1")), Entry::Delete(text("2"))])
    );
    let bad = vec![insert_of("1"), Member::Present(JsonOutline::Null), Member::Absent];
    assert_eq!(entries_from_elements(&bad), Err(1));
    assert_eq!(entries_from_elements(&vec![Member::Absent]), Err(0));
    assert_eq!(entries_from_elements(&vec![]), Ok(vec![]));
}

#[test]
fn reading_texts_and_members() {
    assert_eq!(read_text("null"), Member::Present(JsonOutline::Null));
    assert_eq!(read_text(" true "), Member::Present(JsonOutline::Bool(true)));
    assert_eq!(read_text("12"), Member::Present(JsonOutline::Number(Some(12))));
    assert_eq!(read_text("1e3"), Member::Present(JsonOutline::Number(None)));
    assert_eq!(read_text("\"a\\nb\""), Member::Present(JsonOutline::Text(text("a\nb"))));
    assert_eq!(
        read_text("[1, {\"a\": [ ]}]"),
        Member::Present(JsonOutline::Array(vec![text("1"), text("{\"a\":[]}")]))
    );
    assert_eq!(
        read_text("{\"k\": [1, 2]}"),
        Member::Present(JsonOutline::Object(vec![(text("k"), text("[1,2]"))]))
    );
    assert_eq!(read_text("{"), Member::Unreadable);
    let members = vec![(text("a"), text("1")), (text("b"), text("oops"))];
    assert_eq!(read_member(&members, "a"), Member::Present(JsonOutline::Number(Some(1))));
    assert_eq!(read_member(&members, "b"), Member::Unreadable);
    assert_eq!(read_member(&members, "c"), Member::Absent);
}

#[test]
fn reading_the_elements_of_an_array() {
    let array = Member::Present(JsonOutline::Array(vec![text("{\"insert\": 1}"), text("7")]));
    assert_eq!(
        read_elements(&array),
        vec![insert_of("1"), Member::Present(JsonOutline::Number(Some(7)))]
    );
    assert_eq!(read_elements(&Member::Present(JsonOutline::Null)), vec![]);
    assert_eq!(read_elements(&Member::Absent), vec![]);
    assert_eq!(read_elements(&Member::Present(JsonOutline::Array(vec![]))), vec![]);
}

#[test]
fn find_member_takes_the_first_match() {
    let members = vec![(text("a"), text("1")), (text("b"), text("2")), (text("a"), text("3"))];
    assert_eq!(find_member(&members, "a"), Some(text("1")));
    assert_eq!(find_member(&members, "b"), Some(text("2")));
    assert_eq!(find_member(&members, "c"), None);
    assert_eq!(find_member(&vec![], "a"), None);
}

#[test]
fn decode_errors_become_decode_pulse_errors() {
    assert_eq!(
        DecodeError::NotARecord.into_pulse_error(),
        PulseError::Decode(text("change record is not a JSON object"))
    );
    assert_eq!(
        DecodeError::MissingSequenceNumber.into_pulse_error(),
        PulseError::Decode(text("missing field `sequence_number`"))
    );
    assert_eq!(
        DecodeError::InvalidSequenceNumber.into_pulse_error(),
        PulseError::Decode(text("`sequence_number` is not a 64-bit integer"))
    );
    assert_eq!(
        DecodeError::InvalidEntries.into_pulse_error(),
        PulseError::Decode(text("`json_data` is neither null nor an array"))
    );
    assert_eq!(
        DecodeError::InvalidEntry(3).into_pulse_error(),
        PulseError::Decode(text("entry is neither an insert nor a delete"))
    );
    assert_eq!(
        DecodeError::Malformed(text("bad")).into_pulse_error(),
        PulseError::Decode(text("bad"))
    );
}
