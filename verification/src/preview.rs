//! Shortened texts for the log.
//!
//! Lengths are counted in the bytes of the UTF-8 encoding, and a text is only
//! ever cut between two characters.
use crate::config::Config;
use crate::number::{decimal, to_decimal};
use vstd::prelude::*;
use vstd::string::{StringExecFns, StringSliceAdditionalSpecFns};
use vstd::utf8::{
    decode_utf8, decode_utf8_encode_utf8, decode_utf8_split, encode_scalar, encode_utf8,
    encode_utf8_decode_utf8, encode_utf8_first_scalar, encode_utf8_valid_utf8, is_char_boundary,
    is_char_boundary_start_end_of_seq, pop_first_scalar, valid_utf8_split,
};

verus! {

/// The first place from `at` on where an encoded text can be cut.
pub open spec fn boundary_from(bytes: Seq<u8>, at: int) -> int
    decreases bytes.len() - at,
{
    if at >= bytes.len() {
        bytes.len() as int
    } else if is_char_boundary(bytes, at) {
        at
    } else {
        boundary_from(bytes, at + 1)
    }
}

/// The last place up to `at` where an encoded text can be cut.
pub open spec fn boundary_up_to(bytes: Seq<u8>, at: int) -> int
    decreases at,
{
    if at <= 0 {
        0
    } else if is_char_boundary(bytes, at) {
        at
    } else {
        boundary_up_to(bytes, at - 1)
    }
}

/// The end of the first `max` bytes, moved on to the next character.
pub open spec fn head_end(bytes: Seq<u8>, max: int) -> int {
    boundary_from(
        bytes,
        if max < bytes.len() {
            max
        } else {
            bytes.len() as int
        },
    )
}

/// The start of the last `max` bytes, moved on to the next character.
pub open spec fn tail_start(bytes: Seq<u8>, max: int) -> int {
    boundary_from(
        bytes,
        if max < bytes.len() {
            bytes.len() - max
        } else {
            0
        },
    )
}

fn byte_len(value: &str) -> (len: usize)
    ensures
        len == value.spec_bytes().len(),
{
    value.as_bytes().len()
}

fn next_boundary(value: &str, at: usize) -> (boundary: usize)
    requires
        at <= value.spec_bytes().len(),
    ensures
        boundary == boundary_from(value.spec_bytes(), at as int),
        at <= boundary <= value.spec_bytes().len(),
        is_char_boundary(value.spec_bytes(), boundary as int),
{
    let len: usize = byte_len(value);
    let mut boundary: usize = at;
    while boundary < len && !value.is_char_boundary(boundary)
        invariant
            at <= boundary <= len,
            len == value.spec_bytes().len(),
            boundary_from(value.spec_bytes(), at as int) == boundary_from(
                value.spec_bytes(),
                boundary as int,
            ),
        decreases len - boundary,
    {
        boundary += 1;
    }
    proof {
        encode_utf8_valid_utf8(value@);
        is_char_boundary_start_end_of_seq(value.spec_bytes());
    }
    boundary
}

/// The end of the first `max_chars` bytes, moved on to the next character.
pub fn char_boundary_at(value: &str, max_chars: usize) -> (end: usize)
    ensures
        end == head_end(value.spec_bytes(), max_chars as int),
        end <= value.spec_bytes().len(),
        is_char_boundary(value.spec_bytes(), end as int),
{
    let len: usize = byte_len(value);
    next_boundary(
        value,
        if max_chars < len {
            max_chars
        } else {
            len
        },
    )
}

/// The start of the last `max_chars` bytes, moved on to the next character.
pub fn char_boundary_from_end(value: &str, max_chars: usize) -> (start: usize)
    ensures
        start == tail_start(value.spec_bytes(), max_chars as int),
        start <= value.spec_bytes().len(),
        is_char_boundary(value.spec_bytes(), start as int),
{
    let len: usize = byte_len(value);
    next_boundary(value, len.saturating_sub(max_chars))
}

/// The text of the first `end` bytes of an encoded text.
pub open spec fn text_to(bytes: Seq<u8>, end: int) -> Seq<char> {
    decode_utf8(bytes.subrange(0, end))
}

/// The text of an encoded text from byte `start` on.
pub open spec fn text_from(bytes: Seq<u8>, start: int) -> Seq<char> {
    decode_utf8(bytes.subrange(start, bytes.len() as int))
}

fn split(value: &str, at: usize) -> (parts: (&str, &str))
    requires
        is_char_boundary(value.spec_bytes(), at as int),
    ensures
        parts.0@ == text_to(value.spec_bytes(), at as int),
        parts.1@ == text_from(value.spec_bytes(), at as int),
{
    let parts = value.split_at(at);
    proof {
        encode_utf8_decode_utf8(parts.0@);
        encode_utf8_decode_utf8(parts.1@);
    }
    parts
}

/// A text, or its front of at most `max` bytes and a note of what is missing.
pub open spec fn preview_of(text: Seq<char>, max: int) -> Seq<char> {
    let bytes = encode_utf8(text);
    let end = boundary_up_to(bytes, max);
    if bytes.len() <= max {
        text
    } else {
        text_to(bytes, end) + "\n...[truncated "@ + decimal((bytes.len() - end) as nat)
            + " chars]"@
    }
}

/// Shortens a text to its front.
pub fn preview(value: &str, max_length: usize) -> (shown: String)
    ensures
        shown@ == preview_of(value@, max_length as int),
{
    let len: usize = byte_len(value);
    if len <= max_length {
        return value.to_owned();
    }
    proof {
        encode_utf8_valid_utf8(value@);
        is_char_boundary_start_end_of_seq(value.spec_bytes());
    }
    let mut end: usize = max_length;
    while !value.is_char_boundary(end)
        invariant
            end <= max_length < len,
            is_char_boundary(value.spec_bytes(), 0),
            boundary_up_to(value.spec_bytes(), max_length as int) == boundary_up_to(
                value.spec_bytes(),
                end as int,
            ),
        decreases end,
    {
        end -= 1;
    }
    let mut shown = split(value, end).0.to_owned();
    shown.append("\n...[truncated ");
    shown.append(to_decimal((len - end) as u64).as_str());
    shown.append(" chars]");
    shown
}

/// The front of a text, a note of what is missing, and its end; the whole
/// text where it is no longer than the configured threshold.
pub open spec fn large_preview_of<N>(text: Seq<char>, config: &Config<N>) -> Seq<char> {
    let bytes = encode_utf8(text);
    let front = head_end(bytes, config.large_log_head as int);
    let back = tail_start(bytes, config.large_log_tail as int);
    if bytes.len() <= config.large_log_threshold {
        text
    } else {
        text_to(bytes, front) + "\n...[truncated "@ + decimal((back - front) as nat)
            + " chars of "@ + decimal(bytes.len()) + " total]...\n"@ + text_from(bytes, back)
    }
}

/// Shortens a text to its front and its end. The two may not overlap.
pub fn preview_large<N>(value: &str, config: &Config<N>) -> (shown: String)
    requires
        value.spec_bytes().len() <= config.large_log_threshold || head_end(
            value.spec_bytes(),
            config.large_log_head as int,
        ) <= tail_start(value.spec_bytes(), config.large_log_tail as int),
    ensures
        shown@ == large_preview_of(value@, config),
{
    let len: usize = byte_len(value);
    if len <= config.large_log_threshold {
        return value.to_owned();
    }
    let head_end: usize = char_boundary_at(value, config.large_log_head);
    let tail_start: usize = char_boundary_from_end(value, config.large_log_tail);
    let mut shown = split(value, head_end).0.to_owned();
    shown.append("\n...[truncated ");
    shown.append(to_decimal((len - head_end - (len - tail_start)) as u64).as_str());
    shown.append(" chars of ");
    shown.append(to_decimal(len as u64).as_str());
    shown.append(" total]...\n");
    shown.append(split(value, tail_start).1);
    shown
}

/// Whether the front and the end of a text that is to be shortened lie apart.
pub fn large_preview_fits<N>(value: &str, config: &Config<N>) -> (fits: bool)
    ensures
        fits == (value.spec_bytes().len() <= config.large_log_threshold || head_end(
            value.spec_bytes(),
            config.large_log_head as int,
        ) <= tail_start(value.spec_bytes(), config.large_log_tail as int)),
{
    byte_len(value) <= config.large_log_threshold || char_boundary_at(value, config.large_log_head)
        <= char_boundary_from_end(value, config.large_log_tail)
}

/// What a shortened text shows is the front of the text, whole characters
/// only, and as many bytes are shown as are not counted as missing.
pub proof fn law_preview_shows_the_front(text: Seq<char>, max: int)
    requires
        0 <= max < encode_utf8(text).len(),
    ensures
        ({
            let bytes = encode_utf8(text);
            let end = boundary_up_to(bytes, max);
            &&& text_to(bytes, end).is_prefix_of(text)
            &&& encode_utf8(text_to(bytes, end)).len() == end
            &&& 0 <= end <= max
        }),
{
    let bytes = encode_utf8(text);
    encode_utf8_valid_utf8(text);
    encode_utf8_decode_utf8(text);
    is_char_boundary_start_end_of_seq(bytes);
    lemma_boundary_up_to(bytes, max);
    let end = boundary_up_to(bytes, max);
    decode_utf8_split(bytes, end);
    valid_utf8_split(bytes, end);
    decode_utf8_encode_utf8(bytes.subrange(0, end));
    assert(text_to(bytes, end) =~= text.subrange(0, text_to(bytes, end).len() as int));
}

proof fn lemma_boundary_up_to(bytes: Seq<u8>, at: int)
    requires
        0 <= at <= bytes.len(),
        is_char_boundary(bytes, 0),
    ensures
        0 <= boundary_up_to(bytes, at) <= at,
        is_char_boundary(bytes, boundary_up_to(bytes, at)),
    decreases at,
{
    if at > 0 && !is_char_boundary(bytes, at) {
        lemma_boundary_up_to(bytes, at - 1);
    }
}

/// The encoding of a text is that of its front and that of its back, and what
/// can be cut behind the front can be cut in the back.
proof fn lemma_cut_behind(front: Seq<char>, back: Seq<char>, at: int)
    requires
        at >= 0,
    ensures
        encode_utf8(front + back) == encode_utf8(front) + encode_utf8(back),
        is_char_boundary(encode_utf8(front + back), encode_utf8(front).len() + at)
            == is_char_boundary(encode_utf8(back), at),
    decreases front.len(),
{
    let text = front + back;
    let bytes = encode_utf8(text);
    encode_utf8_valid_utf8(text);
    encode_utf8_valid_utf8(back);
    if front.len() == 0 {
        assert(text =~= back);
        assert(encode_utf8(front) + encode_utf8(back) =~= encode_utf8(back));
    } else {
        let rest = front.drop_first();
        lemma_cut_behind(rest, back, at);
        assert(text.drop_first() =~= rest + back);
        assert(text[0] == front[0]);
        let first = encode_scalar(front[0] as u32);
        encode_utf8_first_scalar(text);
        assert(bytes =~= encode_utf8(front) + encode_utf8(back));
        assert(pop_first_scalar(bytes) =~= encode_utf8(rest + back));
        assert(first.len() > 0);
    }
}

/// Within the encoding of a character a text cannot be cut.
proof fn lemma_no_cut_within(front: Seq<char>, back: Seq<char>, at: int)
    requires
        back.len() > 0,
        encode_utf8(front).len() < at < encode_utf8(front + back.take(1)).len(),
    ensures
        !is_char_boundary(encode_utf8(front + back), at),
{
    let within = at - encode_utf8(front).len();
    lemma_cut_behind(front, back, within);
    lemma_cut_behind(front, back.take(1), 0);
    encode_utf8_valid_utf8(back);
    encode_utf8_first_scalar(back);
    let one = back.take(1);
    assert(one[0] == back[0]);
    assert(one.drop_first() =~= Seq::<char>::empty());
    assert(encode_utf8(one) =~= encode_scalar(back[0] as u32) + encode_utf8(one.drop_first()));
    encode_utf8_valid_utf8(back.drop_first());
    assert(pop_first_scalar(encode_utf8(back)) =~= encode_utf8(back.drop_first()));
    let width = encode_scalar(back[0] as u32).len() as int;
    assert(encode_utf8(one.drop_first()).len() == 0);
    assert(0 < within < width);
    assert(!is_char_boundary(encode_utf8(back.drop_first()), within - width));
}

proof fn lemma_boundary_up_to_is(bytes: Seq<u8>, at: int, end: int)
    requires
        0 <= end <= at,
        end == 0 || is_char_boundary(bytes, end),
        forall|k: int| end < k <= at ==> !is_char_boundary(bytes, k),
    ensures
        boundary_up_to(bytes, at) == end,
    decreases at,
{
    if at > end {
        lemma_boundary_up_to_is(bytes, at - 1, end);
    }
}

proof fn lemma_boundary_from_is(bytes: Seq<u8>, at: int, start: int)
    requires
        0 <= at <= start <= bytes.len(),
        start == bytes.len() || is_char_boundary(bytes, start),
        forall|k: int| at <= k < start ==> !is_char_boundary(bytes, k),
    ensures
        boundary_from(bytes, at) == start,
    decreases start - at,
{
    if at < start {
        lemma_boundary_from_is(bytes, at + 1, start);
    }
}

/// A text that fits is shown whole. Of another the longest front is shown that
/// fits, whole characters only, with a note of how many bytes are missing.
pub proof fn law_preview_shows_the_longest_front(front: Seq<char>, back: Seq<char>, max: int)
    requires
        encode_utf8(front).len() <= max,
        back.len() > 0 ==> encode_utf8(front + back.take(1)).len() > max,
    ensures
        back.len() == 0 ==> preview_of(front + back, max) == front,
        back.len() > 0 ==> preview_of(front + back, max) == front + "\n...[truncated "@ + decimal(
            encode_utf8(back).len(),
        ) + " chars]"@,
{
    let text = front + back;
    let bytes = encode_utf8(text);
    let end = encode_utf8(front).len() as int;
    lemma_cut_behind(front, back, 0);
    encode_utf8_decode_utf8(front);
    if back.len() == 0 {
        assert(text =~= front);
    } else {
        lemma_cut_behind(front + back.take(1), back.skip(1), 0);
        assert(front + back.take(1) + back.skip(1) =~= text);
        encode_utf8_valid_utf8(back);
        assert forall|k: int| end < k <= max implies !is_char_boundary(bytes, k) by {
            lemma_no_cut_within(front, back, k);
        }
        lemma_boundary_up_to_is(bytes, max, end);
        assert(bytes.subrange(0, end) =~= encode_utf8(front));
    }
}

/// `front` is what a limit of `max` bytes shows of the front of a text that
/// goes on with `back`: the character in which the limit is reached is shown
/// whole.
pub open spec fn reaches(front: Seq<char>, back: Seq<char>, max: int) -> bool {
    ||| front.len() == 0 && max == 0
    ||| front.len() > 0 && encode_utf8(front.drop_last()).len() < max <= encode_utf8(front).len()
    ||| back.len() == 0 && encode_utf8(front).len() <= max
}

/// `back` is what a limit of `max` bytes shows of the end of a text that starts
/// with `front`: as many whole characters as fit.
pub open spec fn ends_within(front: Seq<char>, back: Seq<char>, max: int) -> bool {
    &&& encode_utf8(back).len() <= max
    &&& front.len() > 0 ==> encode_utf8(seq![front.last()] + back).len() > max
}

/// The first bytes of a text end behind the character in which they are
/// counted up, and its last bytes start at the first character that fits.
pub proof fn law_ends_are_whole_characters(front: Seq<char>, back: Seq<char>, max: int)
    ensures
        reaches(front, back, max) ==> head_end(encode_utf8(front + back), max) == encode_utf8(
            front,
        ).len(),
        ends_within(front, back, max) ==> tail_start(encode_utf8(front + back), max)
            == encode_utf8(front).len(),
{
    let text = front + back;
    let bytes = encode_utf8(text);
    let cut = encode_utf8(front).len() as int;
    lemma_cut_behind(front, back, 0);
    encode_utf8_valid_utf8(text);
    encode_utf8_valid_utf8(back);
    is_char_boundary_start_end_of_seq(bytes);
    assert(is_char_boundary(bytes, cut));
    let at_head = if max < bytes.len() {
        max
    } else {
        bytes.len() as int
    };
    let at_tail = if max < bytes.len() {
        bytes.len() - max
    } else {
        0
    };
    if front.len() > 0 {
        let shorter = front.drop_last();
        let last = seq![front.last()];
        assert(shorter + last =~= front);
        assert(shorter + (last + back) =~= text);
        assert((last + back).take(1) =~= last);
        lemma_cut_behind(shorter, last, 0);
        lemma_cut_behind(last, back, 0);
        assert forall|k: int| encode_utf8(shorter).len() < k < cut implies !is_char_boundary(
            bytes,
            k,
        ) by {
            lemma_no_cut_within(shorter, last + back, k);
        }
    }
    if reaches(front, back, max) {
        if back.len() == 0 {
            assert(encode_utf8(back).len() == 0);
        }
        lemma_boundary_from_is(bytes, at_head, cut);
    }
    if ends_within(front, back, max) {
        lemma_boundary_from_is(bytes, at_tail, cut);
    }
}

/// A text up to the threshold is shown whole. Of a longer one its front and
/// its end are shown, each up to its limit in whole characters, with a note
/// between them of how many bytes are missing of how many in all.
pub proof fn law_large_preview_shows_both_ends<N>(
    front: Seq<char>,
    middle: Seq<char>,
    back: Seq<char>,
    config: &Config<N>,
)
    requires
        reaches(front, middle + back, config.large_log_head as int),
        ends_within(front + middle, back, config.large_log_tail as int),
    ensures
        ({
            let text = front + middle + back;
            let total = encode_utf8(text).len();
            &&& total <= config.large_log_threshold ==> large_preview_of(text, config) == text
            &&& total > config.large_log_threshold ==> large_preview_of(text, config) == front
                + "\n...[truncated "@ + decimal(encode_utf8(middle).len()) + " chars of "@ + decimal(
                total,
            ) + " total]...\n"@ + back
        }),
{
    let text = front + middle + back;
    let bytes = encode_utf8(text);
    assert(front + (middle + back) =~= text);
    law_ends_are_whole_characters(front, middle + back, config.large_log_head as int);
    law_ends_are_whole_characters(front + middle, back, config.large_log_tail as int);
    lemma_cut_behind(front, middle + back, 0);
    lemma_cut_behind(front + middle, back, 0);
    lemma_cut_behind(front, middle, 0);
    encode_utf8_decode_utf8(front);
    encode_utf8_decode_utf8(back);
    assert(bytes.subrange(0, encode_utf8(front).len() as int) =~= encode_utf8(front));
    assert(bytes.subrange(encode_utf8(front + middle).len() as int, bytes.len() as int)
        =~= encode_utf8(back));
}

} // verus!
