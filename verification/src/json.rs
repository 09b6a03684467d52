//! Strings of JSON.
use vstd::prelude::*;

verus! {

/// The hexadecimal digit `d`, in lower case.
pub open spec fn hex_digit(d: int) -> char {
    if d < 10 {
        ('0' as int + d) as char
    } else {
        ('a' as int + d - 10) as char
    }
}

/// How a character is written inside a string of JSON.
pub open spec fn escape(c: char) -> Seq<char> {
    if c == '"' || c == '\\' {
        seq!['\\', c]
    } else if c == '\u{8}' {
        seq!['\\', 'b']
    } else if c == '\t' {
        seq!['\\', 't']
    } else if c == '\n' {
        seq!['\\', 'n']
    } else if c == '\u{c}' {
        seq!['\\', 'f']
    } else if c == '\r' {
        seq!['\\', 'r']
    } else if ' ' > c {
        seq!['\\', 'u', '0', '0', hex_digit(c as int / 16), hex_digit(c as int % 16)]
    } else {
        seq![c]
    }
}

/// A text as it is written inside a string of JSON.
pub open spec fn escaped(text: Seq<char>) -> Seq<char>
    decreases text.len(),
{
    if text.len() == 0 {
        Seq::empty()
    } else {
        escaped(text.drop_last()) + escape(text.last())
    }
}

/// A text as a string of JSON.
pub open spec fn quoted(text: Seq<char>) -> Seq<char> {
    seq!['"'] + escaped(text) + seq!['"']
}

/// `serde_json::to_string`, for a string: the string in quotation marks, with quotation
/// marks, backslashes and control characters escaped, and everything else as it is. For a
/// string it does not fail.
#[verifier::external_body]
pub(crate) fn json_string(text: &str) -> (json: String)
    ensures
        json@ == quoted(text@),
{
    serde_json::to_string(text).unwrap()
}

/// A character that a string of JSON holds as it is.
pub open spec fn is_plain(c: char) -> bool {
    c >= ' ' && c != '"' && c != '\\'
}

/// A text of plain characters is held as it is.
pub proof fn lemma_plain_text(text: Seq<char>)
    requires
        forall|i: int| 0 <= i < text.len() ==> is_plain(#[trigger] text[i]),
    ensures
        escaped(text) == text,
    decreases text.len(),
{
    if text.len() > 0 {
        let shorter = text.drop_last();
        assert forall|i: int| 0 <= i < shorter.len() implies is_plain(#[trigger] shorter[i]) by {
            assert(shorter[i] == text[i]);
        }
        lemma_plain_text(shorter);
        assert(is_plain(text[text.len() - 1]));
        assert(escaped(text) =~= text);
    }
}

/// The value of a hexadecimal digit.
pub open spec fn hex_value(c: char) -> int {
    if '0' <= c <= '9' {
        c as int - '0' as int
    } else {
        c as int - 'a' as int + 10
    }
}

/// The character that a backslash and `c` stand for.
pub open spec fn unescaped(c: char) -> char {
    if c == 'b' {
        '\u{8}'
    } else if c == 't' {
        '\t'
    } else if c == 'n' {
        '\n'
    } else if c == 'f' {
        '\u{c}'
    } else if c == 'r' {
        '\r'
    } else {
        c
    }
}

/// What a reader of JSON makes of a text that begins inside a string: the rest of the
/// string, and what follows on its closing quotation mark; `None` if it is not closed.
pub open spec fn read_string(json: Seq<char>) -> Option<(Seq<char>, Seq<char>)>
    decreases json.len(),
{
    if json.len() == 0 {
        None
    } else if json[0] == '"' {
        Some((Seq::empty(), json.skip(1)))
    } else if json[0] != '\\' {
        with_front(json[0], read_string(json.skip(1)))
    } else if json.len() >= 6 && json[1] == 'u' {
        with_front(
            (hex_value(json[4]) * 16 + hex_value(json[5])) as char,
            read_string(json.skip(6)),
        )
    } else if json.len() >= 2 {
        with_front(unescaped(json[1]), read_string(json.skip(2)))
    } else {
        None
    }
}

/// What was read, with one more character in front.
pub open spec fn with_front(
    c: char,
    read: Option<(Seq<char>, Seq<char>)>,
) -> Option<(Seq<char>, Seq<char>)> {
    match read {
        Some((text, rest)) => Some((seq![c] + text, rest)),
        None => None,
    }
}

/// A text that was written as a string of JSON is read back as it was, whatever follows on
/// it.
pub proof fn law_string_reads_back(text: Seq<char>, rest: Seq<char>)
    ensures
        quoted(text).len() > 0,
        quoted(text)[0] == '"',
        read_string((quoted(text) + rest).skip(1)) == Some((text, rest)),
    decreases text.len(),
{
    let json = escaped(text) + seq!['"'] + rest;
    assert((quoted(text) + rest).skip(1) =~= json);
    if text.len() == 0 {
        assert(json =~= seq!['"'] + rest);
        assert(json.skip(1) =~= rest);
    } else {
        let c = text[0];
        let others = text.skip(1);
        law_string_reads_back(others, rest);
        let tail = escaped(others) + seq!['"'] + rest;
        assert((quoted(others) + rest).skip(1) =~= tail);
        lemma_escaped_from_front(text);
        assert(json =~= escape(c) + tail);
        lemma_reads_escape(c, tail);
        assert(seq![c] + others =~= text);
    }
}

proof fn lemma_escaped_from_front(text: Seq<char>)
    requires
        text.len() > 0,
    ensures
        escaped(text) == escape(text[0]) + escaped(text.skip(1)),
    decreases text.len(),
{
    let others = text.skip(1);
    if text.len() == 1 {
        assert(text.drop_last() =~= Seq::<char>::empty());
        assert(others =~= Seq::<char>::empty());
        assert(escaped(text.drop_last()) =~= Seq::<char>::empty());
        assert(escaped(text) =~= escape(text[0]) + escaped(others));
    } else {
        lemma_escaped_from_front(text.drop_last());
        assert(text.drop_last().skip(1) =~= others.drop_last());
        assert(escaped(text) =~= escape(text[0]) + escaped(others));
    }
}

proof fn lemma_reads_escape(c: char, tail: Seq<char>)
    requires
        read_string(tail) is Some,
    ensures
        read_string(escape(c) + tail) == with_front(c, read_string(tail)),
{
    let json = escape(c) + tail;
    if c == '"' || c == '\\' || c == '\u{8}' || c == '\t' || c == '\n' || c == '\u{c}' || c
        == '\r' {
        assert(json.skip(2) =~= tail);
        assert(json[0] == '\\');
        assert(json[1] == escape(c)[1]);
    } else if ' ' > c {
        assert(json.skip(6) =~= tail);
        assert(json[1] == 'u');
        assert(json[4] == hex_digit(c as int / 16));
        assert(json[5] == hex_digit(c as int % 16));
        assert(hex_value(hex_digit(c as int / 16)) == c as int / 16);
        assert(hex_value(hex_digit(c as int % 16)) == c as int % 16);
    } else {
        assert(json.skip(1) =~= tail);
        assert(json[0] == c);
    }
}

} // verus!
