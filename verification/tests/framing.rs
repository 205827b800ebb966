use pulse_relay::framing::LineFramer;
use tokio_util::codec::Decoder;

fn lines(texts: &[&str]) -> Vec<Vec<u8>> {
    texts.iter().map(|t| t.as_bytes().to_vec()).collect()
}

#[test]
fn complete_lines_come_out_and_the_rest_is_held_back() {
    let mut framer = LineFramer::new();
    assert_eq!(framer.push(b"one\ntwo\nthr"), lines(&["one", "two"]));
    assert_eq!(framer.push(b"ee\n"), lines(&["three"]));
    assert_eq!(framer.push(b""), lines(&[]));
    assert_eq!(framer.finish(), None);
}

#[test]
fn carriage_return_before_the_line_feed_is_dropped() {
    let mut framer = LineFramer::new();
    assert_eq!(framer.push(b"a\r\nb\r\r\n\r\n\n"), lines(&["a", "b\r", "", ""]));
    assert_eq!(framer.push(b"c\r"), lines(&[]));
    assert_eq!(framer.push(b"\n"), lines(&["c"]));
}

#[test]
fn carriage_return_inside_a_line_stays() {
    let mut framer = LineFramer::new();
    assert_eq!(framer.push(b"a\rb\n"), lines(&["a\rb"]));
}

#[test]
fn chunking_does_not_change_the_lines() {
    let whole = b"alpha\r\nbeta\n\ngamma\ndel";
    let mut at_once = LineFramer::new();
    let expected = at_once.push(whole);
    for cut in 0..=whole.len() {
        let mut framer = LineFramer::new();
        let mut got = framer.push(&whole[..cut]);
        got.extend(framer.push(&whole[cut..]));
        assert_eq!(got, expected);
        assert_eq!(framer.finish(), Some(b"del".to_vec()));
    }
    let mut byte_by_byte = LineFramer::new();
    let mut got = Vec::new();
    for byte in whole.iter() {
        got.extend(byte_by_byte.push(&[*byte]));
    }
    assert_eq!(got, expected);
}

#[test]
fn finish_yields_the_unfinished_line() {
    let mut framer = LineFramer::new();
    framer.push(b"done\nleft over\r");
    assert_eq!(framer.finish(), Some(b"left over".to_vec()));
    assert_eq!(framer.finish(), None);
}

#[test]
fn finish_on_nothing_or_a_lone_carriage_return_yields_nothing() {
    let mut framer = LineFramer::new();
    assert_eq!(framer.finish(), None);
    framer.push(b"\r");
    assert_eq!(framer.finish(), None);
    framer.push(b"x\n\r");
    assert_eq!(framer.finish(), None);
    framer.push(b"\r\r");
    assert_eq!(framer.finish(), Some(b"\r".to_vec()));
}

#[test]
fn clear_forgets_what_was_held_back() {
    let mut framer = LineFramer::new();
    framer.push(b"partial");
    framer.clear();
    assert_eq!(framer.push(b"line\n"), lines(&["line"]));
}

#[test]
fn bytes_that_are_not_text_are_framed_all_the_same() {
    let mut framer = LineFramer::new();
    assert_eq!(framer.push(&[0xff, 0x00, b'\n', 0xc3]), vec![vec![0xff, 0x00]]);
    assert_eq!(framer.finish(), Some(vec![0xc3]));
}

fn framed_by_codec(chunks: &[&[u8]]) -> (Vec<Result<String, ()>>, Option<Result<String, ()>>) {
    let mut codec = tokio_util::codec::LinesCodec::new();
    let mut buffer = tokio_util::bytes::BytesMut::new();
    let mut lines = Vec::new();
    for chunk in chunks {
        buffer.extend_from_slice(chunk);
        loop {
            match codec.decode(&mut buffer) {
                Ok(Some(line)) => lines.push(Ok(line)),
                Ok(None) => break,
                Err(_) => lines.push(Err(())),
            }
        }
    }
    let last = match codec.decode_eof(&mut buffer) {
        Ok(Some(line)) => Some(Ok(line)),
        Ok(None) => None,
        Err(_) => Some(Err(())),
    };
    (lines, last)
}

fn framed_by_library(chunks: &[&[u8]]) -> (Vec<Result<String, ()>>, Option<Result<String, ()>>) {
    let mut framer = LineFramer::new();
    let mut lines = Vec::new();
    for chunk in chunks {
        for line in framer.push(chunk) {
            lines.push(String::from_utf8(line).map_err(|_| ()));
        }
    }
    let last = framer.finish().map(|line| String::from_utf8(line).map_err(|_| ()));
    (lines, last)
}

#[test]
fn framing_agrees_with_the_lines_codec() {
    let samples: Vec<Vec<&[u8]>> = vec![
        vec![b"one\ntwo\r\nthree"],
        vec![b"on", b"e\ntw", b"o\r", b"\nthree\r"],
        vec![b"\r"],
        vec![b""],
        vec![b"\n\n\r\n"],
        vec![b"a\rb\n", b"\r\r\n"],
        vec![b"caf\xc3", b"\xa9\nna\xc3\xafve"],
        vec![b"\xff\xfe\nok\n"],
        vec![b"tail\r\r"],
    ];
    for sample in samples {
        assert_eq!(framed_by_library(&sample), framed_by_codec(&sample));
    }
}
