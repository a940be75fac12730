//! The lines that a client types.

use vstd::prelude::*;
#[allow(unused_imports)]
use vstd::utf8::{decode_utf8, encode_utf8, is_char_boundary, valid_utf8};

verus! {

/// Whether a character is white space.
pub open spec fn is_white(c: char) -> bool {
    let code = c as u32;
    ||| 0x9 <= code <= 0xd
    ||| code == 0x20
    ||| code == 0x85
    ||| code == 0xa0
    ||| code == 0x1680
    ||| 0x2000 <= code <= 0x200a
    ||| 0x2028 <= code <= 0x2029
    ||| code == 0x202f
    ||| code == 0x205f
    ||| code == 0x3000
}

/// Whether a text holds nothing but white space.
pub open spec fn is_blank(text: Seq<char>) -> bool {
    forall|i: int| 0 <= i < text.len() ==> is_white(#[trigger] text[i])
}

/// A text without the white space that it starts with.
pub open spec fn without_leading_white(text: Seq<char>) -> Seq<char>
    decreases text.len(),
{
    if text.len() > 0 && is_white(text[0]) {
        without_leading_white(text.subrange(1, text.len() as int))
    } else {
        text
    }
}

/// Whether a character is white space.
fn white(c: char) -> (result: bool)
    ensures
        result == is_white(c),
{
    let code: u32 = c as u32;
    (0x9 <= code && code <= 0xd) || code == 0x20 || code == 0x85 || code == 0xa0 || code == 0x1680
        || (0x2000 <= code && code <= 0x200a) || code == 0x2028 || code == 0x2029 || code == 0x202f
        || code == 0x205f || code == 0x3000
}

/// Whether a text holds nothing but white space.
fn blank(text: &str) -> (result: bool)
    ensures
        result == is_blank(text@),
{
    let len: usize = text.unicode_len();
    for i in 0..len
        invariant
            len == text@.len(),
            forall|j: int| 0 <= j < i ==> is_white(#[trigger] text@[j]),
    {
        if !white(text.get_char(i)) {
            assert(!is_white(text@[i as int]));
            return false;
        }
    }
    true
}

/// A text without the white space that it starts with.
fn trim_start<'a>(text: &'a str) -> (rest: &'a str)
    ensures
        rest@ == without_leading_white(text@),
{
    let len: usize = text.unicode_len();
    let mut i: usize = 0;
    assert(text@.subrange(0, len as int) =~= text@);
    while i < len
        invariant
            i <= len,
            len == text@.len(),
            without_leading_white(text@) == without_leading_white(
                text@.subrange(i as int, len as int),
            ),
        decreases len - i,
    {
        let ghost rest = text@.subrange(i as int, len as int);
        assert(rest[0] == text@[i as int]);
        if !white(text.get_char(i)) {
            return text.substring_char(i, len);
        }
        assert(rest.subrange(1, rest.len() as int) =~= text@.subrange(i + 1, len as int));
        i = i + 1;
    }
    text.substring_char(len, len)
}

/// What came of waiting for a line.
#[derive(Debug)]
pub enum LineInput {
    /// A line.
    Line(String),
    /// The client interrupted the line.
    Interrupted,
    /// There are no more lines.
    Eof,
    /// The line could not be read.
    Failed,
}

/// What to do next.
#[derive(Debug)]
pub enum ShellStep<'a> {
    /// Wait for another line.
    Again,
    /// Carry out a command.
    Command(&'a str),
    /// Run queries.
    Query(&'a str),
    /// Stop.
    Stop,
    /// Stop, with the error.
    Fail,
}

/// What is to be done with a line.
pub open spec fn step_of(input: LineInput, step: ShellStep) -> bool {
    match input {
        LineInput::Line(line) => {
            let text = without_leading_white(line@);
            if text.len() == 0 {
                step is Again
            } else if text[0] == ':' {
                step matches ShellStep::Command(command) && command@ == text
            } else {
                step matches ShellStep::Query(query) && query@ == text
            }
        },
        LineInput::Interrupted => step is Again,
        LineInput::Eof => step is Stop,
        LineInput::Failed => step is Fail,
    }
}

/// What to do with a line: a blank one is passed over, one that starts with a colon is a command,
/// and all others are queries.
pub fn next_step<'a>(input: &'a LineInput) -> (step: ShellStep<'a>)
    ensures
        step_of(*input, step),
{
    match input {
        LineInput::Line(line) => {
            let text = trim_start(line.as_str());
            if text.unicode_len() == 0 {
                ShellStep::Again
            } else if text.get_char(0) == ':' {
                ShellStep::Command(text)
            } else {
                ShellStep::Query(text)
            }
        },
        LineInput::Interrupted => ShellStep::Again,
        LineInput::Eof => ShellStep::Stop,
        LineInput::Failed => ShellStep::Fail,
    }
}

/// A token of a line: where it is, in bytes, and whether it is a semicolon.
#[derive(Debug, Clone, Copy, PartialEq, Eq, Structural)]
pub struct Token {
    /// Whether it is a semicolon.
    pub is_semicolon: bool,
    /// Where it starts.
    pub start: usize,
    /// Where it ends.
    pub end: usize,
}

/// Whether tokens are those of a line: one behind the other, between characters, and with a
/// semicolon at the end.
pub open spec fn are_tokens(tokens: Seq<Token>, bytes: Seq<u8>) -> bool {
    &&& tokens.len() > 0
    &&& tokens.last().is_semicolon
    &&& forall|i: int|
        0 <= i < tokens.len() ==> {
            &&& (#[trigger] tokens[i]).start <= tokens[i].end
            &&& is_char_boundary(bytes, tokens[i].start as int)
            &&& is_char_boundary(bytes, tokens[i].end as int)
        }
    &&& forall|i: int, j: int|
        0 <= i < j < tokens.len() ==> (#[trigger] tokens[i]).end <= (#[trigger] tokens[j]).start
}

/// The text between two positions of a line.
pub open spec fn text_between(bytes: Seq<u8>, from: int, to: int) -> Seq<char> {
    decode_utf8(bytes.subrange(from, to))
}

/// The segments of a line that end at a semicolon, from the `i`th token on, where the first segment
/// starts at an offset. Blank segments are left out.
pub open spec fn segments(bytes: Seq<u8>, tokens: Seq<Token>, i: int, offset: int) -> Seq<Seq<char>>
    decreases tokens.len() - i,
{
    if i < 0 || i >= tokens.len() {
        Seq::empty()
    } else if tokens[i].is_semicolon {
        let text = text_between(bytes, offset, tokens[i].start as int);
        let rest = segments(bytes, tokens, i + 1, tokens[i].end as int);
        if is_blank(text) {
            rest
        } else {
            seq![text] + rest
        }
    } else {
        segments(bytes, tokens, i + 1, offset)
    }
}

/// Whether no text of a list is blank.
pub open spec fn none_blank(list: Seq<Seq<char>>) -> bool {
    forall|j: int| 0 <= j < list.len() ==> !is_blank(#[trigger] list[j])
}

/// No segment of a line is blank.
pub proof fn law_no_blank_segment(bytes: Seq<u8>, tokens: Seq<Token>, i: int, offset: int)
    ensures
        none_blank(segments(bytes, tokens, i, offset)),
    decreases tokens.len() - i,
{
    if 0 <= i < tokens.len() {
        if tokens[i].is_semicolon {
            law_no_blank_segment(bytes, tokens, i + 1, tokens[i].end as int);
            let rest = segments(bytes, tokens, i + 1, tokens[i].end as int);
            let all = segments(bytes, tokens, i, offset);
            assert forall|j: int| 0 <= j < all.len() implies !is_blank(#[trigger] all[j]) by {
                if all.len() > rest.len() && j > 0 {
                    assert(all[j] == rest[j - 1]);
                } else if all.len() == rest.len() {
                    assert(all[j] == rest[j]);
                }
            }
        } else {
            law_no_blank_segment(bytes, tokens, i + 1, offset);
        }
    }
}

proof fn lemma_prefix_boundary(bytes: Seq<u8>, from: int, to: int)
    requires
        valid_utf8(bytes),
        is_char_boundary(bytes, from),
        is_char_boundary(bytes, to),
        0 <= from <= to <= bytes.len(),
    ensures
        valid_utf8(bytes.subrange(0, to)),
        is_char_boundary(bytes.subrange(0, to), from),
{
    vstd::utf8::valid_utf8_split(bytes, to);
    let prefix = bytes.subrange(0, to);
    if from == to {
        vstd::utf8::is_char_boundary_start_end_of_seq(prefix);
    } else {
        vstd::utf8::is_char_boundary_iff_not_is_continuation_byte(bytes, from);
        vstd::utf8::is_char_boundary_iff_not_is_continuation_byte(prefix, from);
        assert(prefix[from] == bytes[from]);
    }
}

proof fn lemma_boundary_within(bytes: Seq<u8>, index: int)
    requires
        valid_utf8(bytes),
        is_char_boundary(bytes, index),
    ensures
        0 <= index <= bytes.len(),
    decreases bytes.len(),
{
    reveal_with_fuel(is_char_boundary, 2);
}

/// The part of a line between two positions.
fn slice<'a>(input: &'a str, from: usize, to: usize) -> (part: &'a str)
    requires
        from <= to,
        is_char_boundary(encode_utf8(input@), from as int),
        is_char_boundary(encode_utf8(input@), to as int),
    ensures
        part@ == text_between(encode_utf8(input@), from as int, to as int),
{
    proof {
        vstd::utf8::encode_utf8_valid_utf8(input@);
        lemma_boundary_within(encode_utf8(input@), to as int);
        lemma_prefix_boundary(encode_utf8(input@), from as int, to as int);
    }
    let (head, _) = input.split_at(to);
    let (_, part) = head.split_at(from);
    proof {
        assert(encode_utf8(part@) =~= encode_utf8(input@).subrange(from as int, to as int));
        vstd::utf8::encode_utf8_decode_utf8(part@);
    }
    part
}

/// What segments are.
pub open spec fn segment_texts(list: Seq<&str>) -> Seq<Seq<char>> {
    list.map_values(|segment: &str| segment@)
}

/// Splits a line into its queries. They are what stands before the semicolons among its tokens,
/// without those that are blank. The last token must be a semicolon.
pub fn split_query<'a>(input: &'a str, tokens: &Vec<Token>) -> (list: Vec<&'a str>)
    requires
        are_tokens(tokens@, encode_utf8(input@)),
    ensures
        segment_texts(list@) == segments(encode_utf8(input@), tokens@, 0, 0),
{
    let ghost bytes = encode_utf8(input@);
    let mut offset: usize = 0;
    let mut list: Vec<&'a str> = Vec::new();
    proof {
        assert(is_char_boundary(bytes, 0)) by {
            vstd::utf8::encode_utf8_valid_utf8(input@);
            vstd::utf8::is_char_boundary_start_end_of_seq(bytes);
        }
        assert(segment_texts(list@) + segments(bytes, tokens@, 0, 0) =~= segments(
            bytes,
            tokens@,
            0,
            0,
        ));
    }
    for i in 0..tokens.len()
        invariant
            bytes == encode_utf8(input@),
            are_tokens(tokens@, bytes),
            is_char_boundary(bytes, offset as int),
            forall|j: int| i <= j < tokens@.len() ==> offset <= (#[trigger] tokens@[j]).start,
            segments(bytes, tokens@, 0, 0) == segment_texts(list@) + segments(
                bytes,
                tokens@,
                i as int,
                offset as int,
            ),
    {
        let token = tokens[i];
        if token.is_semicolon {
            let segment = slice(input, offset, token.start);
            let ghost before = segment_texts(list@);
            let ghost rest = segments(bytes, tokens@, i + 1, token.end as int);
            if !blank(segment) {
                list.push(segment);
                proof {
                    assert(segment_texts(list@) =~= before.push(segment@));
                    assert(before.push(segment@) + rest =~= before + (seq![segment@] + rest));
                }
            }
            offset = token.end;
        }
    }
    assert(segment_texts(list@) + Seq::<Seq<char>>::empty() =~= segment_texts(list@));
    list
}

} // verus!
