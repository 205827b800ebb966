use vstd::prelude::*;
use vstd::utf8::{decode_utf8, valid_utf8};

verus! {

/// The byte that ends a line.
pub const LINE_FEED: u8 = 10;

/// The byte that may stand before the line feed and is not part of the
/// line.
pub const CARRIAGE_RETURN: u8 = 13;

/// A line without the carriage return at its end, if it has one.
pub open spec fn without_carriage_return(line: Seq<u8>) -> Seq<u8> {
    if line.len() > 0 && line.last() == CARRIAGE_RETURN {
        line.drop_last()
    } else {
        line
    }
}

/// The lines that a run of bytes completes, and the bytes after the last
/// line feed. A line is what stands between two line feeds, less a carriage
/// return at its end.
pub open spec fn scan(bytes: Seq<u8>) -> (Seq<Seq<u8>>, Seq<u8>)
    decreases bytes.len(),
{
    if bytes.len() == 0 {
        (Seq::empty(), Seq::empty())
    } else {
        let (lines, rest) = scan(bytes.drop_last());
        if bytes.last() == LINE_FEED {
            (lines.push(without_carriage_return(rest)), Seq::empty())
        } else {
            (lines, rest.push(bytes.last()))
        }
    }
}

/// The line that a stream leaves behind when it ends without a line feed:
/// the bytes that are left, unless there are none or only a carriage
/// return.
pub open spec fn last_line(rest: Seq<u8>) -> Option<Seq<u8>> {
    if rest.len() == 0 || rest == seq![CARRIAGE_RETURN] {
        None
    } else {
        Some(without_carriage_return(rest))
    }
}

/// Views of a list of lines.
pub open spec fn lines_view(lines: Seq<Vec<u8>>) -> Seq<Seq<u8>> {
    Seq::new(lines.len(), |i: int| lines[i]@)
}

/// Cuts a stream of bytes into lines, however the bytes arrive.
pub struct LineFramer {
    rest: Vec<u8>,
}

impl View for LineFramer {
    type V = Seq<u8>;

    /// The bytes after the last line feed.
    closed spec fn view(&self) -> Seq<u8> {
        self.rest@
    }
}

/// Bytes without a line feed complete no line.
pub proof fn lemma_scan_without_line_feed(bytes: Seq<u8>)
    requires
        forall|i: int| 0 <= i < bytes.len() ==> bytes[i] != LINE_FEED,
    ensures
        scan(bytes) == (Seq::<Seq<u8>>::empty(), bytes),
    decreases bytes.len(),
{
    if bytes.len() > 0 {
        lemma_scan_without_line_feed(bytes.drop_last());
        assert(bytes.drop_last().push(bytes.last()) =~= bytes);
    }
}

/// What is left after the last line feed holds no line feed.
pub proof fn lemma_rest_has_no_line_feed(bytes: Seq<u8>)
    ensures
        forall|i: int| 0 <= i < scan(bytes).1.len() ==> scan(bytes).1[i] != LINE_FEED,
    decreases bytes.len(),
{
    if bytes.len() > 0 {
        lemma_rest_has_no_line_feed(bytes.drop_last());
        let shorter = scan(bytes.drop_last()).1;
        assert forall|i: int| 0 <= i < scan(bytes).1.len() implies scan(bytes).1[i]
            != LINE_FEED by {
            if bytes.last() != LINE_FEED && i < shorter.len() {
                assert(scan(bytes).1[i] == shorter[i]);
            }
        }
    }
}

/// It does not matter how a stream is cut into chunks: the lines of two
/// runs of bytes, one after the other, are the lines of the first, then the
/// lines of what the first left over followed by the second.
pub proof fn law_chunking_does_not_matter(first: Seq<u8>, second: Seq<u8>)
    ensures
        scan(first + second).0 == scan(first).0 + scan(scan(first).1 + second).0,
        scan(first + second).1 == scan(scan(first).1 + second).1,
    decreases second.len(),
{
    let left = scan(first).1;
    if second.len() == 0 {
        assert(first + second =~= first);
        assert(left + second =~= left);
        lemma_rest_has_no_line_feed(first);
        lemma_scan_without_line_feed(left);
        assert(scan(first).0 + Seq::<Seq<u8>>::empty() =~= scan(first).0);
    } else {
        law_chunking_does_not_matter(first, second.drop_last());
        assert((first + second).drop_last() =~= first + second.drop_last());
        assert((left + second).drop_last() =~= left + second.drop_last());
        let inner = scan(left + second.drop_last());
        if second.last() == LINE_FEED {
            assert((scan(first).0 + inner.0).push(without_carriage_return(inner.1)) =~= scan(
                first,
            ).0 + inner.0.push(without_carriage_return(inner.1)));
        }
    }
}

impl LineFramer {
    #[verifier::type_invariant]
    spec fn sound(self) -> bool {
        forall|i: int| 0 <= i < self.rest@.len() ==> self.rest@[i] != LINE_FEED
    }

    /// A framer that has seen no bytes.
    pub fn new() -> (framer: LineFramer)
        ensures
            framer@.len() == 0,
    {
        LineFramer { rest: Vec::new() }
    }

    /// The bytes held back hold no line feed, at any time.
    pub fn holds_no_line(&self)
        ensures
            scan(self@) == (Seq::<Seq<u8>>::empty(), self@),
    {
        proof {
            use_type_invariant(self);
            lemma_scan_without_line_feed(self.rest@);
        }
    }

    /// Takes the next bytes of the stream and returns the lines that they
    /// complete, in order. What follows the last line feed is held back.
    pub fn push(&mut self, chunk: &[u8]) -> (lines: Vec<Vec<u8>>)
        ensures
            lines_view(lines@) == scan(old(self)@ + chunk@).0,
            final(self)@ == scan(old(self)@ + chunk@).1,
    {
        self.holds_no_line();
        let ghost held = self@;
        let mut rest: Vec<u8> = Vec::new();
        core::mem::swap(&mut self.rest, &mut rest);
        let mut lines: Vec<Vec<u8>> = Vec::new();
        let mut i: usize = 0;
        assert(held + chunk@.take(0) =~= held);
        assert(lines_view(lines@) =~= Seq::<Seq<u8>>::empty());
        while i < chunk.len()
            invariant
                i <= chunk.len(),
                (lines_view(lines@), rest@) == scan(held + chunk@.take(i as int)),
            decreases chunk.len() - i,
        {
            let ghost before = lines_view(lines@);
            let ghost seen = held + chunk@.take(i as int);
            assert((held + chunk@.take(i + 1)).drop_last() =~= seen);
            assert((held + chunk@.take(i + 1)).last() == chunk@[i as int]);
            let byte = chunk[i];
            if byte == LINE_FEED {
                let mut line: Vec<u8> = Vec::new();
                core::mem::swap(&mut rest, &mut line);
                if line.len() > 0 && line[line.len() - 1] == CARRIAGE_RETURN {
                    let ghost whole = line@;
                    line.pop();
                    assert(line@ =~= whole.drop_last());
                }
                lines.push(line);
                assert(lines_view(lines@) =~= before.push(line@));
            } else {
                rest.push(byte);
            }
            i += 1;
        }
        assert(chunk@.take(i as int) =~= chunk@);
        proof {
            lemma_rest_has_no_line_feed(held + chunk@);
            assert(rest@ == scan(held + chunk@).1);
            assert forall|k: int| 0 <= k < rest@.len() implies rest@[k] != LINE_FEED by {
                assert(scan(held + chunk@).1[k] != LINE_FEED);
            }
        }
        core::mem::swap(&mut self.rest, &mut rest);
        lines
    }

    /// Ends the stream: returns the line that is left without a line feed,
    /// if there is one, and holds nothing back any more.
    pub fn finish(&mut self) -> (line: Option<Vec<u8>>)
        ensures
            final(self)@.len() == 0,
            match line {
                Some(bytes) => last_line(old(self)@) == Some(bytes@),
                None => last_line(old(self)@) is None,
            },
    {
        let mut line: Vec<u8> = Vec::new();
        core::mem::swap(&mut self.rest, &mut line);
        if line.len() == 0 {
            return None;
        }
        if line[line.len() - 1] == CARRIAGE_RETURN {
            if line.len() == 1 {
                assert(line@ =~= seq![CARRIAGE_RETURN]);
                return None;
            }
            let ghost whole = line@;
            line.pop();
            assert(line@ =~= whole.drop_last());
        }
        Some(line)
    }

    /// Forgets what was held back.
    pub fn clear(&mut self)
        ensures
            final(self)@.len() == 0,
    {
        let mut rest: Vec<u8> = Vec::new();
        core::mem::swap(&mut self.rest, &mut rest);
    }
}

/// The text of a line: what its bytes say in UTF-8, if they are UTF-8.
pub open spec fn text_of(line: Seq<u8>) -> Option<Seq<char>> {
    if valid_utf8(line) {
        Some(decode_utf8(line))
    } else {
        None
    }
}

/// Reads bytes as text with `std::str::from_utf8`, which accepts exactly
/// the byte sequences that are UTF-8 and then gives a string slice over
/// those very bytes.
#[verifier::external_body]
pub(crate) fn utf8_text(bytes: &[u8]) -> (text: Option<&str>)
    ensures
        match text {
            Some(s) => text_of(bytes@) == Some(s@),
            None => text_of(bytes@) is None,
        },
{
    match std::str::from_utf8(bytes) {
        Ok(s) => Some(s),
        Err(_) => None,
    }
}

} // verus!
