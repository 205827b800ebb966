use crate::error::{PulseError, PulseErrorView};
use crate::text::same_text;
use crate::json::{json_outline, members_view, outline, texts_view, JsonOutline, JsonOutlineView};
use vstd::prelude::*;
use vstd::string::*;

verus! {

/// One change inside a record. The payload is kept as compact JSON text.
#[derive(Debug, PartialEq, Eq)]
pub enum Entry {
    Insert(String),
    Delete(String),
}

/// Mathematical value of an [`Entry`].
pub enum EntryView {
    Insert(Seq<char>),
    Delete(Seq<char>),
}

impl View for Entry {
    type V = EntryView;

    open spec fn view(&self) -> EntryView {
        match self {
            Entry::Insert(payload) => EntryView::Insert(payload@),
            Entry::Delete(payload) => EntryView::Delete(payload@),
        }
    }
}

/// One line of the change feed.
#[derive(Debug, PartialEq, Eq)]
pub struct ChangeRecord {
    pub sequence_number: i64,
    pub entries: Vec<Entry>,
}

/// Mathematical value of a [`ChangeRecord`].
pub struct ChangeRecordView {
    pub sequence_number: i64,
    pub entries: Seq<EntryView>,
}

/// Views of a list of entries.
pub open spec fn entries_view(entries: Seq<Entry>) -> Seq<EntryView> {
    Seq::new(entries.len(), |i: int| entries[i]@)
}

impl View for ChangeRecord {
    type V = ChangeRecordView;

    open spec fn view(&self) -> ChangeRecordView {
        ChangeRecordView {
            sequence_number: self.sequence_number,
            entries: entries_view(self.entries@),
        }
    }
}

/// Why a line is not a change record.
#[derive(Debug, PartialEq, Eq)]
pub enum DecodeError {
    /// The line is not JSON; the text is the parser's message.
    Malformed(String),
    /// The line is JSON but not an object.
    NotARecord,
    /// The object has no `sequence_number`.
    MissingSequenceNumber,
    /// `sequence_number` is not an integer of 64 signed bits.
    InvalidSequenceNumber,
    /// `json_data` is neither null nor an array.
    InvalidEntries,
    /// The entry at this position is not an object with the single key
    /// `insert` or `delete`.
    InvalidEntry(usize),
}

/// Mathematical value of a [`DecodeError`].
pub enum DecodeErrorView {
    Malformed(Seq<char>),
    NotARecord,
    MissingSequenceNumber,
    InvalidSequenceNumber,
    InvalidEntries,
    InvalidEntry(int),
}

impl View for DecodeError {
    type V = DecodeErrorView;

    open spec fn view(&self) -> DecodeErrorView {
        match self {
            DecodeError::Malformed(text) => DecodeErrorView::Malformed(text@),
            DecodeError::NotARecord => DecodeErrorView::NotARecord,
            DecodeError::MissingSequenceNumber => DecodeErrorView::MissingSequenceNumber,
            DecodeError::InvalidSequenceNumber => DecodeErrorView::InvalidSequenceNumber,
            DecodeError::InvalidEntries => DecodeErrorView::InvalidEntries,
            DecodeError::InvalidEntry(index) => DecodeErrorView::InvalidEntry(*index as int),
        }
    }
}

impl DecodeErrorView {
    /// The text that describes this error.
    pub open spec fn message(self) -> Seq<char> {
        match self {
            DecodeErrorView::Malformed(text) => text,
            DecodeErrorView::NotARecord => "change record is not a JSON object"@,
            DecodeErrorView::MissingSequenceNumber => "missing field `sequence_number`"@,
            DecodeErrorView::InvalidSequenceNumber => "`sequence_number` is not a 64-bit integer"@,
            DecodeErrorView::InvalidEntries => "`json_data` is neither null nor an array"@,
            DecodeErrorView::InvalidEntry(index) => "entry is neither an insert nor a delete"@,
        }
    }
}

impl DecodeError {
    /// The error as the relay reports it: a decode error with this error's
    /// description.
    pub fn into_pulse_error(self) -> (error: PulseError)
        ensures
            error@ == PulseErrorView::Decode(self@.message()),
    {
        match self {
            DecodeError::Malformed(text) => PulseError::Decode(text),
            DecodeError::NotARecord => PulseError::Decode(
                String::from_str("change record is not a JSON object"),
            ),
            DecodeError::MissingSequenceNumber => PulseError::Decode(
                String::from_str("missing field `sequence_number`"),
            ),
            DecodeError::InvalidSequenceNumber => PulseError::Decode(
                String::from_str("`sequence_number` is not a 64-bit integer"),
            ),
            DecodeError::InvalidEntries => PulseError::Decode(
                String::from_str("`json_data` is neither null nor an array"),
            ),
            DecodeError::InvalidEntry(index) => PulseError::Decode(
                String::from_str("entry is neither an insert nor a delete"),
            ),
        }
    }
}

/// Value of the first member with the given key, if there is one.
pub open spec fn member_value(members: Seq<(Seq<char>, Seq<char>)>, key: Seq<char>) -> Option<
    Seq<char>,
>
    decreases members.len(),
{
    if members.len() == 0 {
        None
    } else if members[0].0 == key {
        Some(members[0].1)
    } else {
        member_value(members.drop_first(), key)
    }
}

/// The entry that an outline stands for: an object with exactly one member,
/// whose key is `insert` or `delete`.
pub open spec fn entry_of(shape: JsonOutlineView) -> Option<EntryView> {
    match shape {
        JsonOutlineView::Object(members) => {
            if members.len() != 1 {
                None
            } else if members[0].0 == "insert"@ {
                Some(EntryView::Insert(members[0].1))
            } else if members[0].0 == "delete"@ {
                Some(EntryView::Delete(members[0].1))
            } else {
                None
            }
        },
        _ => None,
    }
}

/// What is found of a member of an object, or of an element of an array:
/// nothing, something that is not JSON, or the outline of its value.
#[derive(Debug, PartialEq, Eq)]
pub enum Member {
    Absent,
    Unreadable,
    Present(JsonOutline),
}

/// Mathematical value of a [`Member`].
pub enum MemberView {
    Absent,
    Unreadable,
    Present(JsonOutlineView),
}

impl View for Member {
    type V = MemberView;

    open spec fn view(&self) -> MemberView {
        match self {
            Member::Absent => MemberView::Absent,
            Member::Unreadable => MemberView::Unreadable,
            Member::Present(shape) => MemberView::Present(shape@),
        }
    }
}

/// Views of a list of members.
pub open spec fn parts_view(parts: Seq<Member>) -> Seq<MemberView> {
    Seq::new(parts.len(), |i: int| parts[i]@)
}

/// The entry that an element of `json_data` stands for.
pub open spec fn entry_at(element: MemberView) -> Option<EntryView> {
    match element {
        MemberView::Present(shape) => entry_of(shape),
        _ => None,
    }
}

/// The entries that the first `n` elements stand for, or the position of
/// the first element among them that is no entry.
pub open spec fn entries_upto(elements: Seq<MemberView>, n: nat) -> Result<Seq<EntryView>, int>
    decreases n,
{
    if n == 0 {
        Ok(Seq::empty())
    } else {
        match entries_upto(elements, (n - 1) as nat) {
            Err(position) => Err(position),
            Ok(entries) => match entry_at(elements[n - 1]) {
                Some(entry) => Ok(entries.push(entry)),
                None => Err(n - 1),
            },
        }
    }
}

/// The sequence number that the member `sequence_number` stands for: it
/// must be there and be an integer of 64 signed bits.
pub open spec fn sequence_of(sequence: MemberView) -> Result<i64, DecodeErrorView> {
    match sequence {
        MemberView::Absent => Err(DecodeErrorView::MissingSequenceNumber),
        MemberView::Present(JsonOutlineView::Number(Some(n))) => Ok(n),
        _ => Err(DecodeErrorView::InvalidSequenceNumber),
    }
}

/// The entries that the member `json_data` stands for, given the elements
/// of its array. A member that is absent or null counts as no entries.
pub open spec fn entries_of(data: MemberView, elements: Seq<MemberView>) -> Result<
    Seq<EntryView>,
    DecodeErrorView,
> {
    match data {
        MemberView::Absent => Ok(Seq::empty()),
        MemberView::Present(JsonOutlineView::Null) => Ok(Seq::empty()),
        MemberView::Present(JsonOutlineView::Array(_)) => match entries_upto(
            elements,
            elements.len(),
        ) {
            Ok(entries) => Ok(entries),
            Err(position) => Err(DecodeErrorView::InvalidEntry(position)),
        },
        _ => Err(DecodeErrorView::InvalidEntries),
    }
}

/// The record that the two members of the top-level object stand for. The
/// sequence number is looked at first.
pub open spec fn record_of(sequence: MemberView, data: MemberView, elements: Seq<MemberView>) -> Result<
    ChangeRecordView,
    DecodeErrorView,
> {
    match sequence_of(sequence) {
        Err(error) => Err(error),
        Ok(n) => match entries_of(data, elements) {
            Err(error) => Err(error),
            Ok(entries) => Ok(ChangeRecordView { sequence_number: n, entries }),
        },
    }
}

/// What a text holds, as a member.
pub open spec fn parsed(text: Seq<char>) -> MemberView {
    match json_outline(text) {
        Ok(shape) => MemberView::Present(shape),
        Err(_) => MemberView::Unreadable,
    }
}

/// What the members of an object hold under a key.
pub open spec fn member_of(members: Seq<(Seq<char>, Seq<char>)>, key: Seq<char>) -> MemberView {
    match member_value(members, key) {
        None => MemberView::Absent,
        Some(text) => parsed(text),
    }
}

/// The elements of a member that is an array; none for any other member.
pub open spec fn elements_of(data: MemberView) -> Seq<MemberView> {
    match data {
        MemberView::Present(JsonOutlineView::Array(texts)) => Seq::new(
            texts.len(),
            |i: int| parsed(texts[i]),
        ),
        _ => Seq::empty(),
    }
}

/// What a line of the feed decodes to.
pub open spec fn decoded(line: Seq<char>) -> Result<ChangeRecordView, DecodeErrorView> {
    match json_outline(line) {
        Err(message) => Err(DecodeErrorView::Malformed(message)),
        Ok(JsonOutlineView::Object(members)) => {
            let data = member_of(members, "json_data"@);
            record_of(member_of(members, "sequence_number"@), data, elements_of(data))
        },
        Ok(_) => Err(DecodeErrorView::NotARecord),
    }
}

/// Mathematical value of a decoding result.
pub open spec fn decoding_view(result: Result<ChangeRecord, DecodeError>) -> Result<
    ChangeRecordView,
    DecodeErrorView,
> {
    match result {
        Ok(record) => Ok(record@),
        Err(error) => Err(error@),
    }
}

/// Looks up the first member with the given key.
pub fn find_member(members: &Vec<(String, String)>, key: &str) -> (found: Option<String>)
    ensures
        match found {
            Some(text) => member_value(members_view(members@), key@) == Some(text@),
            None => member_value(members_view(members@), key@) is None,
        },
{
    let ghost all = members_view(members@);
    let mut i: usize = 0;
    assert(all.subrange(0, all.len() as int) =~= all);
    while i < members.len()
        invariant
            i <= members.len(),
            all == members_view(members@),
            member_value(all, key@) == member_value(all.subrange(i as int, all.len() as int), key@),
        decreases members.len() - i,
    {
        let ghost rest = all.subrange(i as int, all.len() as int);
        assert(rest[0] == all[i as int]);
        assert(rest.drop_first() =~= all.subrange(i + 1, all.len() as int));
        if same_text(&members[i].0, key) {
            return Some(members[i].1.clone());
        }
        i += 1;
    }
    assert(all.subrange(i as int, all.len() as int).len() == 0);
    None
}

/// Reads an entry off the outline of its JSON text.
pub fn entry_from_outline(shape: &JsonOutline) -> (entry: Option<Entry>)
    ensures
        match entry {
            Some(e) => entry_of(shape@) == Some(e@),
            None => entry_of(shape@) is None,
        },
{
    match shape {
        JsonOutline::Object(members) => {
            if members.len() != 1 {
                None
            } else if same_text(&members[0].0, "insert") {
                Some(Entry::Insert(members[0].1.clone()))
            } else if same_text(&members[0].0, "delete") {
                Some(Entry::Delete(members[0].1.clone()))
            } else {
                None
            }
        },
        _ => None,
    }
}

proof fn lemma_entries_upto_stays_failed(elements: Seq<MemberView>, n: nat, m: nat)
    requires
        n <= m,
        entries_upto(elements, n) is Err,
    ensures
        entries_upto(elements, m) == entries_upto(elements, n),
    decreases m,
{
    if n < m {
        lemma_entries_upto_stays_failed(elements, n, (m - 1) as nat);
    }
}

/// Reads the entries off the elements of `json_data`, in order, up to the
/// first element that is no entry.
pub fn entries_from_elements(elements: &Vec<Member>) -> (result: Result<Vec<Entry>, usize>)
    ensures
        match result {
            Ok(entries) => entries_upto(parts_view(elements@), elements@.len()) == Ok::<
                Seq<EntryView>,
                int,
            >(entries_view(entries@)),
            Err(position) => entries_upto(parts_view(elements@), elements@.len()) == Err::<
                Seq<EntryView>,
                int,
            >(position as int),
        },
{
    let ghost all = parts_view(elements@);
    let mut entries: Vec<Entry> = Vec::new();
    let mut i: usize = 0;
    assert(entries_view(entries@) =~= Seq::<EntryView>::empty());
    while i < elements.len()
        invariant
            i <= elements.len(),
            all == parts_view(elements@),
            entries_upto(all, i as nat) == Ok::<Seq<EntryView>, int>(entries_view(entries@)),
        decreases elements.len() - i,
    {
        let ghost before = entries_view(entries@);
        let entry = match &elements[i] {
            Member::Present(shape) => entry_from_outline(shape),
            _ => None,
        };
        assert(all[i as int] == elements@[i as int]@);
        match entry {
            Some(e) => {
                entries.push(e);
                assert(entries_view(entries@) =~= before.push(e@));
            },
            None => {
                proof {
                    lemma_entries_upto_stays_failed(all, (i + 1) as nat, elements@.len());
                }
                return Err(i);
            },
        }
        i += 1;
    }
    Ok(entries)
}

/// Mathematical value of a sequence number or the error in its place.
pub open spec fn sequence_view(result: Result<i64, DecodeError>) -> Result<i64, DecodeErrorView> {
    match result {
        Ok(n) => Ok(n),
        Err(error) => Err(error@),
    }
}

/// Reads the sequence number off the member `sequence_number`.
pub fn sequence_from_member(sequence: &Member) -> (result: Result<i64, DecodeError>)
    ensures
        sequence_view(result) == sequence_of(sequence@),
{
    match sequence {
        Member::Absent => Err(DecodeError::MissingSequenceNumber),
        Member::Present(JsonOutline::Number(Some(n))) => Ok(*n),
        _ => Err(DecodeError::InvalidSequenceNumber),
    }
}

/// Mathematical value of the entries read off `json_data`.
pub open spec fn entries_result_view(result: Result<Vec<Entry>, DecodeError>) -> Result<
    Seq<EntryView>,
    DecodeErrorView,
> {
    match result {
        Ok(entries) => Ok(entries_view(entries@)),
        Err(error) => Err(error@),
    }
}

/// Reads the entries off the member `json_data` and the elements of its
/// array.
pub fn entries_from_member(data: &Member, elements: &Vec<Member>) -> (result: Result<
    Vec<Entry>,
    DecodeError,
>)
    ensures
        entries_result_view(result) == entries_of(data@, parts_view(elements@)),
{
    match data {
        Member::Absent | Member::Present(JsonOutline::Null) => {
            let entries: Vec<Entry> = Vec::new();
            assert(entries_view(entries@) =~= Seq::<EntryView>::empty());
            Ok(entries)
        },
        Member::Present(JsonOutline::Array(_)) => match entries_from_elements(elements) {
            Ok(entries) => Ok(entries),
            Err(position) => Err(DecodeError::InvalidEntry(position)),
        },
        _ => Err(DecodeError::InvalidEntries),
    }
}

/// Puts a record together from what the top-level object holds under
/// `sequence_number` and under `json_data`, and from the elements of the
/// latter.
pub fn record_from_parts(sequence: &Member, data: &Member, elements: &Vec<Member>) -> (result:
    Result<ChangeRecord, DecodeError>)
    ensures
        decoding_view(result) == record_of(sequence@, data@, parts_view(elements@)),
{
    let sequence_number = match sequence_from_member(sequence) {
        Err(error) => {
            return Err(error);
        },
        Ok(n) => n,
    };
    match entries_from_member(data, elements) {
        Err(error) => Err(error),
        Ok(entries) => Ok(ChangeRecord { sequence_number, entries }),
    }
}

/// Reads a text as JSON.
pub fn read_text(text: &str) -> (part: Member)
    ensures
        part@ == parsed(text@),
{
    match outline(text) {
        Ok(shape) => Member::Present(shape),
        Err(_) => Member::Unreadable,
    }
}

/// Reads what the members of an object hold under a key.
pub fn read_member(members: &Vec<(String, String)>, key: &str) -> (part: Member)
    ensures
        part@ == member_of(members_view(members@), key@),
{
    match find_member(members, key) {
        None => Member::Absent,
        Some(text) => read_text(text.as_str()),
    }
}

/// Reads the elements of a member that is an array.
pub fn read_elements(data: &Member) -> (elements: Vec<Member>)
    ensures
        parts_view(elements@) == elements_of(data@),
{
    let mut elements: Vec<Member> = Vec::new();
    match data {
        Member::Present(JsonOutline::Array(texts)) => {
            let mut i: usize = 0;
            while i < texts.len()
                invariant
                    i <= texts.len(),
                    elements@.len() == i,
                    forall|j: int|
                        0 <= j < i ==> (#[trigger] elements@[j])@ == parsed(texts@[j]@),
                decreases texts.len() - i,
            {
                elements.push(read_text(texts[i].as_str()));
                i += 1;
            }
            assert(parts_view(elements@) =~= elements_of(data@));
        },
        _ => {
            assert(parts_view(elements@) =~= elements_of(data@));
        },
    }
    elements
}

/// Decodes one line of the change feed. The line must be a JSON object with
/// an integer `sequence_number`; `json_data`, when present and not null, must
/// be an array of objects that each hold the single key `insert` or
/// `delete`. Other members are ignored.
pub fn decode_line(line: &str) -> (result: Result<ChangeRecord, DecodeError>)
    ensures
        decoding_view(result) == decoded(line@),
{
    match outline(line) {
        Err(message) => Err(DecodeError::Malformed(message)),
        Ok(JsonOutline::Object(members)) => {
            let sequence = read_member(&members, "sequence_number");
            let data = read_member(&members, "json_data");
            let elements = read_elements(&data);
            record_from_parts(&sequence, &data, &elements)
        },
        Ok(_) => Err(DecodeError::NotARecord),
    }
}

/// Payloads of the inserts among `entries`, the last entry first.
pub open spec fn inserts_newest_first(entries: Seq<EntryView>) -> Seq<Seq<char>>
    decreases entries.len(),
{
    if entries.len() == 0 {
        Seq::empty()
    } else {
        inserts_newest_first(entries.drop_first()) + insert_payload(entries[0])
    }
}

/// The payload of an insert as a list of one; nothing for a delete.
pub open spec fn insert_payload(entry: EntryView) -> Seq<Seq<char>> {
    match entry {
        EntryView::Insert(payload) => seq![payload],
        EntryView::Delete(_) => Seq::empty(),
    }
}

/// Selects what a record publishes: the payloads of its inserts, scanned
/// from the last entry to the first. Deletes are skipped.
pub fn insert_payloads(record: &ChangeRecord) -> (payloads: Vec<String>)
    ensures
        texts_view(payloads@) == inserts_newest_first(record@.entries),
{
    let ghost all = record@.entries;
    let mut payloads: Vec<String> = Vec::new();
    let mut i: usize = record.entries.len();
    assert(all.subrange(i as int, all.len() as int) =~= Seq::<EntryView>::empty());
    assert(texts_view(payloads@) =~= Seq::<Seq<char>>::empty());
    while i > 0
        invariant
            i <= record.entries.len(),
            all == record@.entries,
            all.len() == record.entries.len(),
            texts_view(payloads@) == inserts_newest_first(
                all.subrange(i as int, all.len() as int),
            ),
        decreases i,
    {
        let ghost before = texts_view(payloads@);
        let ghost tail = all.subrange(i as int, all.len() as int);
        i -= 1;
        let ghost longer = all.subrange(i as int, all.len() as int);
        assert(longer.drop_first() =~= tail);
        assert(longer[0] == record.entries@[i as int]@);
        match &record.entries[i] {
            Entry::Insert(payload) => {
                payloads.push(payload.clone());
                assert(texts_view(payloads@) =~= before + seq![payload@]);
            },
            Entry::Delete(_) => {
                assert(before + Seq::<Seq<char>>::empty() =~= before);
            },
        }
    }
    assert(all.subrange(0, all.len() as int) =~= all);
    payloads
}

/// A record without entries publishes nothing.
pub proof fn law_no_entries_no_payloads(record: ChangeRecordView)
    requires
        record.entries.len() == 0,
    ensures
        inserts_newest_first(record.entries).len() == 0,
{
}

/// Selection over two lists of entries written one after the other gives the
/// selection of the second followed by the selection of the first.
pub proof fn law_selection_reverses(first: Seq<EntryView>, second: Seq<EntryView>)
    ensures
        inserts_newest_first(first + second) == inserts_newest_first(second)
            + inserts_newest_first(first),
    decreases first.len(),
{
    if first.len() == 0 {
        assert(first + second =~= second);
        assert(inserts_newest_first(second) + Seq::<Seq<char>>::empty() =~= inserts_newest_first(
            second,
        ));
    } else {
        assert((first + second).drop_first() =~= first.drop_first() + second);
        law_selection_reverses(first.drop_first(), second);
        assert((inserts_newest_first(second) + inserts_newest_first(first.drop_first()))
            + insert_payload(first[0]) =~= inserts_newest_first(second) + (inserts_newest_first(
            first.drop_first(),
        ) + insert_payload(first[0])));
    }
}

/// Selection yields exactly the payloads of the inserts, none of a delete:
/// a text is selected if and only if some entry is an insert of it.
pub proof fn law_selection_is_the_inserts(entries: Seq<EntryView>, payload: Seq<char>)
    ensures
        inserts_newest_first(entries).contains(payload) <==> entries.contains(
            EntryView::Insert(payload),
        ),
    decreases entries.len(),
{
    let picked = inserts_newest_first(entries);
    if entries.len() > 0 {
        let rest = entries.drop_first();
        let rest_picked = inserts_newest_first(rest);
        law_selection_is_the_inserts(rest, payload);
        if picked.contains(payload) {
            let i = choose|i: int| 0 <= i < picked.len() && picked[i] == payload;
            if i < rest_picked.len() {
                assert(rest_picked[i] == payload);
                let j = choose|j: int| 0 <= j < rest.len() && rest[j] == EntryView::Insert(payload);
                assert(entries[j + 1] == EntryView::Insert(payload));
            } else {
                assert(entries[0] == EntryView::Insert(payload));
            }
        }
        if entries.contains(EntryView::Insert(payload)) {
            let j = choose|j: int| 0 <= j < entries.len() && entries[j] == EntryView::Insert(payload);
            if j == 0 {
                assert(picked[rest_picked.len() as int] == payload);
            } else {
                assert(rest[j - 1] == EntryView::Insert(payload));
                let i = choose|i: int| 0 <= i < rest_picked.len() && rest_picked[i] == payload;
                assert(picked[i] == payload);
            }
        }
    }
}

} // verus!
