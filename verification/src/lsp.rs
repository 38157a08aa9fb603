//! The language server that the editor talks to on standard input and output.
//!
//! A message is a JSON document behind a header that tells its length.
use crate::json::{
    as_string, copy_of, from_bytes, json_from_bytes, json_member, json_string, json_text, member,
};
use crate::number::{
    decimal, is_digit, law_parse_inverts_decimal, lemma_decimal, parse_unsigned, to_decimal, unsigned,
};
use crate::text::{
    after_prefix, chars_of, law_ends_come_off, law_trimming_takes_off_white_space, same_text,
    strip_prefix, trim_end, trim_start, trimmed_end, trimmed_start, white_space,
};
use vstd::prelude::*;
use vstd::string::{StrSliceExecFns, StringExecFns, StringSliceAdditionalSpecFns};
use vstd::utf8::{
    decode_utf8, encode_utf8, encode_utf8_decode_utf8, encode_utf8_valid_utf8, valid_utf8,
};

verus! {

/// The name by which the server introduces itself.
pub const SERVER_NAME: &'static str = "zed-proxy";

/// The version by which the server introduces itself.
pub const SERVER_VERSION: &'static str = "0.1.0";

/// What is to be read after a line of a header.
#[derive(Debug, Clone, Copy, PartialEq, Eq, Structural)]
pub enum HeaderStep {
    /// Another line, with the length that is known so far.
    More(Option<usize>),
    /// A body of the given length.
    Body(usize),
}

/// A line without the line breaks at its end.
pub open spec fn without_line_end(line: Seq<char>) -> Seq<char>
    decreases line.len(),
{
    if line.len() > 0 && (line.last() == '\r' || line.last() == '\n') {
        without_line_end(line.drop_last())
    } else {
        line
    }
}

/// The text of a line of a header; nothing where the line is not valid UTF-8.
pub open spec fn line_text(line: Seq<u8>) -> Seq<char> {
    if valid_utf8(line) {
        without_line_end(decode_utf8(line))
    } else {
        Seq::empty()
    }
}

/// The length that a line of a header tells, if it tells one.
pub open spec fn length_in(line: Seq<char>) -> Option<int> {
    let value = match after_prefix(line, "Content-Length:"@) {
        Some(value) => Some(value),
        None => after_prefix(line, "content-length:"@),
    };
    match value {
        Some(value) => unsigned(trimmed_end(trimmed_start(value)), usize::MAX as int),
        None => None,
    }
}

/// What is to be read after a line of a header: an empty line ends the header
/// once a length is known, and a line that tells a length replaces the one
/// that was known.
pub open spec fn step_after_line(length: Option<usize>, line: Seq<u8>) -> HeaderStep {
    let text = line_text(line);
    if text.len() == 0 {
        match length {
            Some(length) => HeaderStep::Body(length),
            None => HeaderStep::More(None),
        }
    } else {
        match length_in(text) {
            Some(told) => HeaderStep::More(Some(told as usize)),
            None => HeaderStep::More(length),
        }
    }
}

/// Calls `std::str::from_utf8`, which gives the text that some bytes encode.
/// The contract claims that it does so for valid UTF-8 and for nothing else.
#[verifier::external_body]
fn text_of_bytes(bytes: &[u8]) -> (text: Option<&str>)
    ensures
        match text {
            Some(text) => valid_utf8(bytes@) && text@ == decode_utf8(bytes@),
            None => !valid_utf8(bytes@),
        },
{
    match std::str::from_utf8(bytes) {
        Ok(text) => Some(text),
        Err(_) => None,
    }
}

fn trim_line_end(line: &str) -> (text: &str)
    ensures
        text@ == without_line_end(line@),
{
    let chars = chars_of(line);
    let mut end: usize = chars.len();
    assert(line@.take(end as int) =~= line@);
    while end > 0 && (chars[end - 1] == '\r' || chars[end - 1] == '\n')
        invariant
            chars@ == line@,
            end <= chars@.len(),
            without_line_end(line@.take(end as int)) == without_line_end(line@),
        decreases end,
    {
        assert(line@.take(end as int).drop_last() =~= line@.take(end - 1));
        end -= 1;
    }
    line.substring_char(0, end)
}

fn told_length(line: &str) -> (length: Option<usize>)
    ensures
        match length {
            Some(n) => length_in(line@) == Some(n as int),
            None => length_in(line@) is None,
        },
{
    let value = match strip_prefix(line, "Content-Length:") {
        Some(value) => value,
        None => match strip_prefix(line, "content-length:") {
            Some(value) => value,
            None => return None,
        },
    };
    match parse_unsigned(trim_end(trim_start(value)), usize::MAX as u64) {
        Some(n) => Some(n as usize),
        None => None,
    }
}

/// Takes in a line of a header, with the length that is known so far.
pub fn read_header_line(length: Option<usize>, line: &[u8]) -> (step: HeaderStep)
    ensures
        step == step_after_line(length, line@),
{
    let text = match text_of_bytes(line) {
        Some(text) => trim_line_end(text),
        None => "",
    };
    proof {
        reveal_strlit("");
        assert(!valid_utf8(line@) ==> text@ =~= Seq::<char>::empty());
    }
    if text.is_empty() {
        match length {
            Some(length) => HeaderStep::Body(length),
            None => HeaderStep::More(None),
        }
    } else {
        match told_length(text) {
            Some(told) => HeaderStep::More(Some(told)),
            None => HeaderStep::More(length),
        }
    }
}

/// What a message is answered with.
#[derive(Debug, Clone, Copy, PartialEq, Eq, Structural)]
pub enum LspResult {
    /// The server can do nothing in particular; its name and its version.
    Initialized,
    /// Nothing.
    ShutDown,
}

/// The answer to a message, under the message's own identifier.
#[derive(Debug)]
pub struct LspReply {
    pub id: serde_json::Value,
    pub result: LspResult,
}

/// The method that a message calls.
pub open spec fn method_in(message: Seq<char>) -> Option<Seq<char>> {
    match json_member(message, "method"@) {
        Some(method) => json_string(method),
        None => None,
    }
}

/// What a method is answered with.
pub open spec fn result_of(method: Seq<char>) -> Option<LspResult> {
    if method == "initialize"@ {
        Some(LspResult::Initialized)
    } else if method == "shutdown"@ {
        Some(LspResult::ShutDown)
    } else {
        None
    }
}

/// The identifier and the result that a message is answered with: only the
/// methods `initialize` and `shutdown` are, and only under an identifier.
pub open spec fn reply_to(message: Seq<char>) -> Option<(Seq<char>, LspResult)> {
    match (method_in(message), json_member(message, "id"@)) {
        (Some(method), Some(id)) => match result_of(method) {
            Some(result) => Some((id, result)),
            None => None,
        },
        _ => None,
    }
}

/// The identifier and the result of an answer.
pub open spec fn reply_view(reply: Option<LspReply>) -> Option<(Seq<char>, LspResult)> {
    match reply {
        Some(reply) => Some((json_text(reply.id), reply.result)),
        None => None,
    }
}

/// What a method is answered with.
pub fn lsp_result(method: &str) -> (result: Option<LspResult>)
    ensures
        result == result_of(method@),
{
    if same_text(method, "initialize") {
        Some(LspResult::Initialized)
    } else if same_text(method, "shutdown") {
        Some(LspResult::ShutDown)
    } else {
        None
    }
}

/// Answers a message.
pub fn handle_lsp_message(message: &serde_json::Value) -> (reply: Option<LspReply>)
    ensures
        reply_view(reply) == reply_to(json_text(*message)),
{
    let method = match member(message, "method") {
        Some(method) => match as_string(method) {
            Some(method) => method,
            None => return None,
        },
        None => return None,
    };
    let id = match member(message, "id") {
        Some(id) => copy_of(id),
        None => return None,
    };
    match lsp_result(method) {
        Some(result) => Some(LspReply { id, result }),
        None => None,
    }
}

/// Answers the message that a body holds; a body that holds none is not answered.
pub fn handle_lsp_body(body: &[u8]) -> (reply: Option<LspReply>)
    ensures
        reply_view(reply) == (match json_from_bytes(body@) {
            Ok(message) => reply_to(message),
            Err(_) => None,
        }),
{
    match from_bytes(body) {
        Ok(message) => handle_lsp_message(&message),
        Err(_) => None,
    }
}

/// The header line that tells the length of a body.
pub open spec fn length_line(length: nat) -> Seq<char> {
    "Content-Length: "@ + decimal(length) + "\r\n"@
}

/// The header of a message with the given body.
pub fn frame_header(body: &str) -> (header: String)
    ensures
        header@ == length_line(body.spec_bytes().len()) + "\r\n"@,
        header@ == "Content-Length: "@ + decimal(body.spec_bytes().len()) + "\r\n"@ + "\r\n"@,
{
    let mut header = "Content-Length: ".to_owned();
    header.append(to_decimal(body.as_bytes().len() as u64).as_str());
    header.append("\r\n");
    header.append("\r\n");
    header
}

/// A header that was written is read back: its first line tells the length
/// of the body, and its second line ends it.
pub proof fn law_header_is_read_back(length: usize, known: Option<usize>)
    ensures
        step_after_line(known, encode_utf8(length_line(length as nat))) == HeaderStep::More(
            Some(length),
        ),
        step_after_line(Some(length), encode_utf8("\r\n"@)) == HeaderStep::Body(length),
{
    reveal_strlit("\r\n");
    reveal_strlit("Content-Length: ");
    reveal_strlit("Content-Length:");
    reveal_with_fuel(without_line_end, 3);
    let digits = decimal(length as nat);
    let line = length_line(length as nat);
    let text = "Content-Length: "@ + digits;
    encode_utf8_valid_utf8(line);
    encode_utf8_decode_utf8(line);
    encode_utf8_valid_utf8("\r\n"@);
    encode_utf8_decode_utf8("\r\n"@);
    assert("\r\n"@.drop_last().drop_last() =~= Seq::<char>::empty());
    law_parse_inverts_decimal(length as nat, usize::MAX as int);
    lemma_decimal(length as nat);
    assert(is_digit(digits.last())) by {
        assert(digits.last() == digits[digits.len() - 1]);
    }
    assert(line.drop_last().drop_last() =~= text);
    assert(text.last() == digits.last());
    assert(without_line_end(line) == text);
    assert(text.subrange(0, 15) =~= "Content-Length:"@);
    let value = text.skip(15);
    assert(value =~= " "@ + digits) by {
        reveal_strlit(" ");
    }
    reveal_with_fuel(trimmed_start, 2);
    assert(value.drop_first() =~= digits);
    assert(is_digit(digits[0]));
    assert(trimmed_start(value) == digits);
    assert(trimmed_end(digits) == digits);
}

/// The line breaks at the end of a line come off, as many as there are, and
/// nothing else does.
pub proof fn law_line_breaks_come_off(text: Seq<char>, breaks: Seq<char>)
    requires
        text.len() == 0 || (text.last() != '\r' && text.last() != '\n'),
        forall|k: int| 0 <= k < breaks.len() ==> #[trigger] breaks[k] == '\r' || breaks[k] == '\n',
    ensures
        without_line_end(text + breaks) == text,
    decreases breaks.len(),
{
    let line = text + breaks;
    if breaks.len() > 0 {
        let fewer = breaks.drop_last();
        assert(line.drop_last() =~= text + fewer);
        assert(line.last() == breaks[breaks.len() - 1]);
        law_line_breaks_come_off(text, fewer);
    } else {
        assert(line =~= text);
    }
}

/// A line that tells a length, with either spelling of its name and any space
/// around the number, gives that length, whatever was known before.
pub proof fn law_told_length_counts(
    length: usize,
    known: Option<usize>,
    space: Seq<char>,
    more_space: Seq<char>,
    breaks: Seq<char>,
)
    requires
        forall|k: int| 0 <= k < space.len() ==> white_space(#[trigger] space[k]),
        forall|k: int|
            0 <= k < more_space.len() ==> white_space(#[trigger] more_space[k]) && more_space[k]
                != '\r' && more_space[k] != '\n',
        forall|k: int| 0 <= k < breaks.len() ==> #[trigger] breaks[k] == '\r' || breaks[k] == '\n',
    ensures
        ({
            let value = space + decimal(length as nat) + more_space;
            &&& step_after_line(known, encode_utf8("Content-Length:"@ + value + breaks))
                == HeaderStep::More(Some(length))
            &&& step_after_line(known, encode_utf8("content-length:"@ + value + breaks))
                == HeaderStep::More(Some(length))
        }),
{
    reveal_strlit("Content-Length:");
    reveal_strlit("content-length:");
    let digits = decimal(length as nat);
    let value = space + digits + more_space;
    lemma_decimal(length as nat);
    law_parse_inverts_decimal(length as nat, usize::MAX as int);
    assert(is_digit(digits[0]) && is_digit(digits[digits.len() - 1]));
    assert(value =~= space + (digits + more_space));
    law_trimming_takes_off_white_space(digits + more_space, space);
    assert((digits + more_space)[0] == digits[0]);
    law_trimming_takes_off_white_space(digits, more_space);
    assert(trimmed_end(trimmed_start(value)) == digits);
    lemma_line_of("Content-Length:"@, value, breaks);
    lemma_line_of("content-length:"@, value, breaks);
    let upper = "Content-Length:"@ + value;
    assert(upper.subrange(0, 15) =~= "Content-Length:"@);
    assert(upper.skip(15) =~= value);
    let lower = "content-length:"@ + value;
    assert(lower.subrange(0, 15) =~= "content-length:"@);
    assert(lower.subrange(0, 15)[0] == 'c');
    assert(lower.skip(15) =~= value);
}

proof fn lemma_line_of(name: Seq<char>, value: Seq<char>, breaks: Seq<char>)
    requires
        value.len() > 0,
        value.last() != '\r' && value.last() != '\n',
        forall|k: int| 0 <= k < breaks.len() ==> #[trigger] breaks[k] == '\r' || breaks[k] == '\n',
    ensures
        line_text(encode_utf8(name + value + breaks)) == name + value,
{
    let line = name + value + breaks;
    encode_utf8_valid_utf8(line);
    encode_utf8_decode_utf8(line);
    assert((name + value).last() == value.last());
    law_line_breaks_come_off(name + value, breaks);
}

/// A line that tells no length leaves what was known: one that starts with
/// neither spelling of the name, or behind it holds no number.
pub proof fn law_other_lines_change_nothing(
    text: Seq<char>,
    known: Option<usize>,
    breaks: Seq<char>,
)
    requires
        text.len() > 0,
        text.last() != '\r' && text.last() != '\n',
        forall|k: int| 0 <= k < breaks.len() ==> #[trigger] breaks[k] == '\r' || breaks[k] == '\n',
        forall|value: Seq<char>|
            text == "Content-Length:"@ + value || text == "content-length:"@ + value ==> unsigned(
                trimmed_end(#[trigger] trimmed_start(value)),
                usize::MAX as int,
            ) is None,
    ensures
        step_after_line(known, encode_utf8(text + breaks)) == HeaderStep::More(known),
{
    encode_utf8_valid_utf8(text + breaks);
    encode_utf8_decode_utf8(text + breaks);
    law_line_breaks_come_off(text, breaks);
    let upper = text.skip("Content-Length:"@.len() as int);
    let lower = text.skip("content-length:"@.len() as int);
    law_ends_come_off(text, "Content-Length:"@, upper);
    law_ends_come_off(text, "content-length:"@, lower);
    assert(after_prefix(text, "Content-Length:"@) is Some ==> text == "Content-Length:"@ + upper);
    assert(after_prefix(text, "content-length:"@) is Some ==> text == "content-length:"@ + lower);
}

/// A line of line breaks alone, and one that is not valid UTF-8, end a header
/// once its length is known, and are passed over before.
pub proof fn law_blank_line_ends_a_header(known: Option<usize>, line: Seq<u8>, breaks: Seq<char>)
    requires
        !valid_utf8(line) || line == encode_utf8(breaks),
        forall|k: int| 0 <= k < breaks.len() ==> #[trigger] breaks[k] == '\r' || breaks[k] == '\n',
    ensures
        known matches Some(length) ==> step_after_line(known, line) == HeaderStep::Body(length),
        known is None ==> step_after_line(known, line) == HeaderStep::More(None),
{
    encode_utf8_valid_utf8(breaks);
    encode_utf8_decode_utf8(breaks);
    law_line_breaks_come_off(Seq::empty(), breaks);
    assert(Seq::<char>::empty() + breaks =~= breaks);
}

/// The methods `initialize` and `shutdown` are answered under the message's own
/// identifier; no other method is, nor a message without an identifier or
/// without a method.
pub proof fn law_only_two_methods_are_answered(message: Seq<char>)
    ensures
        match (json_member(message, "method"@), json_member(message, "id"@)) {
            (Some(method), Some(id)) => {
                &&& json_string(method) == Some("initialize"@) ==> reply_to(message) == Some(
                    (id, LspResult::Initialized),
                )
                &&& json_string(method) == Some("shutdown"@) ==> reply_to(message) == Some(
                    (id, LspResult::ShutDown),
                )
                &&& json_string(method) != Some("initialize"@) && json_string(method) != Some(
                    "shutdown"@,
                ) ==> reply_to(message) is None
            },
            _ => reply_to(message) is None,
        },
        result_of("initialize"@) == Some(LspResult::Initialized),
        result_of("shutdown"@) == Some(LspResult::ShutDown),
        forall|method: Seq<char>|
            method != "initialize"@ && method != "shutdown"@ ==> #[trigger] result_of(method) is None,
        forall|reply: LspReply| #[trigger]
            reply_view(Some(reply)) == Some((json_text(reply.id), reply.result)),
{
    reveal_strlit("initialize");
    reveal_strlit("shutdown");
    assert("initialize"@.len() == 10 && "shutdown"@.len() == 8);
}

} // verus!
