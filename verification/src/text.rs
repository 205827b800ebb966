use vstd::prelude::*;
use vstd::string::*;

verus! {

/// White space in the sense of Unicode's `White_Space` property.
pub open spec fn is_whitespace(c: char) -> bool {
    let code = c as u32;
    ||| 0x09 <= code <= 0x0D
    ||| code == 0x20
    ||| code == 0x85
    ||| code == 0xA0
    ||| code == 0x1680
    ||| 0x2000 <= code <= 0x200A
    ||| code == 0x2028
    ||| code == 0x2029
    ||| code == 0x202F
    ||| code == 0x205F
    ||| code == 0x3000
}

/// Number of white-space characters at the start of a text.
pub open spec fn leading_whitespace(text: Seq<char>) -> nat
    decreases text.len(),
{
    if text.len() > 0 && is_whitespace(text[0]) {
        1 + leading_whitespace(text.drop_first())
    } else {
        0
    }
}

/// Number of white-space characters at the end of a text.
pub open spec fn trailing_whitespace(text: Seq<char>) -> nat
    decreases text.len(),
{
    if text.len() > 0 && is_whitespace(text.last()) {
        1 + trailing_whitespace(text.drop_last())
    } else {
        0
    }
}

/// The text without the white space at its start and at its end.
pub open spec fn trimmed(text: Seq<char>) -> Seq<char> {
    let rest = text.skip(leading_whitespace(text) as int);
    rest.take(rest.len() - trailing_whitespace(rest))
}

/// Tells whether a character is white space.
pub fn whitespace(c: char) -> (yes: bool)
    ensures
        yes == is_whitespace(c),
{
    let code = c as u32;
    (0x09 <= code && code <= 0x0D) || code == 0x20 || code == 0x85 || code == 0xA0 || code
        == 0x1680 || (0x2000 <= code && code <= 0x200A) || code == 0x2028 || code == 0x2029 || code
        == 0x202F || code == 0x205F || code == 0x3000
}

/// Removes the white space at the start and at the end of a text.
pub fn trim(text: &str) -> (result: String)
    ensures
        result@ == trimmed(text@),
{
    let length = text.unicode_len();
    let mut start: usize = 0;
    assert(text@.skip(0) =~= text@);
    while start < length && whitespace(text.get_char(start))
        invariant
            start <= length,
            length == text@.len(),
            leading_whitespace(text@) == start + leading_whitespace(text@.skip(start as int)),
        decreases length - start,
    {
        assert(text@.skip(start as int).drop_first() =~= text@.skip(start + 1));
        start += 1;
    }
    let ghost rest = text@.skip(start as int);
    assert(leading_whitespace(rest) == 0) by {
        if start < length {
            assert(rest[0] == text@[start as int]);
        }
    }
    let mut end: usize = length;
    assert(rest.take(rest.len() as int) =~= rest);
    while end > start && whitespace(text.get_char(end - 1))
        invariant
            start <= end <= length,
            length == text@.len(),
            rest == text@.skip(start as int),
            trailing_whitespace(rest) == (length - end) + trailing_whitespace(
                rest.take(end - start),
            ),
        decreases end,
    {
        assert(rest.take(end - start).last() == text@[end - 1]);
        assert(rest.take(end - start).drop_last() =~= rest.take(end - 1 - start));
        end -= 1;
    }
    assert(trailing_whitespace(rest.take(end - start)) == 0) by {
        if end > start {
            assert(rest.take(end - start).last() == text@[end - 1]);
        }
    }
    assert(text@.subrange(start as int, end as int) =~= rest.take(rest.len() - (length - end)));
    String::from_str(text.substring_char(start, end))
}

/// Tells whether two texts are the same.
pub fn same_text(text: &String, other: &str) -> (same: bool)
    ensures
        same == (text@ == other@),
{
    let owned = String::from_str(other);
    *text == owned
}

/// The texts one after the other.
pub fn join3(first: &str, second: &str, third: &str) -> (result: String)
    ensures
        result@ == first@ + second@ + third@,
{
    let mut result = String::from_str(first);
    result.append(second);
    result.append(third);
    result
}

} // verus!
