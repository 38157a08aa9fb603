//! Cleaning what the model returns.
use crate::fim::{fim_parts, is_tag, parse_qwen_fim_prompt};
use crate::text::{
    after_prefix, before_first, before_suffix, chars_of, cut_before, find,
    first_occurrence, lemma_first_at, lemma_first_occurrence, occurs, occurs_at, remove_all,
    strip_prefix, strip_suffix, trim_end, trimmed_end, white_space, without,
};
use vstd::prelude::*;
use vstd::string::StrSliceExecFns;

verus! {

/// The stop sequences of a request.
#[derive(Debug, Clone)]
pub enum StopSequences {
    One(String),
    Many(Vec<String>),
}

/// The texts of some strings.
pub open spec fn texts(strings: Seq<&str>) -> Seq<Seq<char>> {
    strings.map_values(|s: &str| s@)
}

/// The stop sequences that a request names, in their order.
pub open spec fn stop_texts(stop: Option<&StopSequences>) -> Seq<Seq<char>> {
    match stop {
        Some(StopSequences::One(value)) => seq![value@],
        Some(StopSequences::Many(values)) => values@.map_values(|s: String| s@),
        None => Seq::empty(),
    }
}

/// The stop sequences that hold for every request.
pub open spec fn default_stops() -> Seq<Seq<char>> {
    seq![
        "\n\n"@,
        "<|fim_"@,
        "<|endoftext|>"@,
        "<|im_end|>"@,
        "</context>"@,
        "<contextAfterCursor>"@,
    ]
}

/// The texts behind which nothing belongs to a completion.
pub open spec fn boundaries() -> Seq<Seq<char>> {
    seq![
        "```"@,
        "<|fim_prefix|>"@,
        "<|fim_suffix|>"@,
        "<|fim_middle|>"@,
        "<contextBeforeCursor>"@,
        "<contextAfterCursor>"@,
        "<cursorPosition>"@,
        "</context>"@,
    ]
}

/// The parts of a prompt that a completion may echo.
pub open spec fn artifacts() -> Seq<Seq<char>> {
    seq![
        "<|fim_prefix|>"@,
        "<|fim_suffix|>"@,
        "<|fim_middle|>"@,
        "<contextBeforeCursor>"@,
        "<contextAfterCursor>"@,
        "<cursorPosition>"@,
        "<cursor>"@,
        "</cursor>"@,
    ]
}

/// `text` up to the first occurrence of `stop`; an empty stop cuts nothing.
pub open spec fn cut_at(text: Seq<char>, stop: Seq<char>) -> Seq<char> {
    if stop.len() == 0 {
        text
    } else {
        before_first(text, stop)
    }
}

/// `text` cut at each of the stops, one after the other.
pub open spec fn cut_at_each(text: Seq<char>, stops: Seq<Seq<char>>) -> Seq<char>
    decreases stops.len(),
{
    if stops.len() == 0 {
        text
    } else {
        cut_at(cut_at_each(text, stops.drop_last()), stops.last())
    }
}

/// Where a text is to be cut because of a stop; an empty stop cuts nothing.
pub open spec fn stop_position(text: Seq<char>, stop: Seq<char>) -> Option<int> {
    if stop.len() == 0 {
        None
    } else {
        first_occurrence(text, stop)
    }
}

/// The first position in `text` at which one of the stops stands; its end
/// where none does.
pub open spec fn earliest_stop(text: Seq<char>, stops: Seq<Seq<char>>) -> int
    decreases stops.len(),
{
    if stops.len() == 0 {
        text.len() as int
    } else {
        let earlier = earliest_stop(text, stops.drop_last());
        match stop_position(text, stops.last()) {
            Some(at) => if at < earlier {
                at
            } else {
                earlier
            },
            None => earlier,
        }
    }
}

/// `text` up to the first position at which one of the stops stands.
pub open spec fn stopped(text: Seq<char>, stops: Seq<Seq<char>>) -> Seq<char> {
    text.take(earliest_stop(text, stops))
}

/// Where a completion ends: where it is cut at the request's own stops, one
/// after the other, or at the first default stop in it, whichever comes first.
pub open spec fn completion_end(text: Seq<char>, own_stops: Seq<Seq<char>>) -> int {
    let own_end = cut_at_each(text, own_stops).len() as int;
    let default_end = earliest_stop(text, default_stops());
    if own_end < default_end {
        own_end
    } else {
        default_end
    }
}

/// `text` up to where a completion ends in it.
pub open spec fn cut_at_stops(text: Seq<char>, own_stops: Seq<Seq<char>>) -> Seq<char> {
    text.take(completion_end(text, own_stops))
}

/// `text` without each of the patterns, taken out one after the other.
pub open spec fn without_each(text: Seq<char>, patterns: Seq<Seq<char>>) -> Seq<char>
    decreases patterns.len(),
{
    if patterns.len() == 0 {
        text
    } else {
        without(without_each(text, patterns.drop_last()), patterns.last())
    }
}

fn cut_at_all<'a>(text: &'a str, stops: &Vec<&str>) -> (kept: &'a str)
    ensures
        kept@ == cut_at_each(text@, texts(stops@)),
{
    let mut kept = text;
    let mut i: usize = 0;
    while i < stops.len()
        invariant
            i <= stops@.len(),
            kept@ == cut_at_each(text@, texts(stops@).take(i as int)),
        decreases stops@.len() - i,
    {
        let stop = stops[i];
        assert(texts(stops@).take(i + 1).drop_last() =~= texts(stops@).take(i as int));
        if !stop.is_empty() {
            kept = cut_before(kept, stop);
        }
        i += 1;
    }
    assert(texts(stops@).take(i as int) =~= texts(stops@));
    kept
}

/// What is left of a completion once the prompt that it repeats is taken off.
pub open spec fn unrepeated(completion: Seq<char>, prompt: Seq<char>) -> Seq<char> {
    match after_prefix(completion, prompt) {
        Some(rest) => rest,
        None => match after_prefix(completion, trimmed_end(prompt)) {
            Some(rest) => rest,
            None => match fim_parts(prompt) {
                Some((before, _)) => match after_prefix(completion, before) {
                    Some(rest) => rest,
                    None => completion,
                },
                None => completion,
            },
        },
    }
}

/// Takes the prompt off the front of a completion that repeats it: the whole
/// prompt, the prompt without the white space at its end, or the text before
/// the cursor.
pub fn strip_repeated_prompt(completion: &str, original_prompt: &str) -> (stripped: String)
    ensures
        stripped@ == unrepeated(completion@, original_prompt@),
{
    if let Some(stripped) = strip_prefix(completion, original_prompt) {
        return stripped.to_owned();
    }
    let trimmed_prompt = trim_end(original_prompt);
    if let Some(stripped) = strip_prefix(completion, trimmed_prompt) {
        return stripped.to_owned();
    }
    if let Some((prefix, _)) = parse_qwen_fim_prompt(original_prompt) {
        if let Some(stripped) = strip_prefix(completion, prefix) {
            return stripped.to_owned();
        }
    }
    completion.to_owned()
}

/// A character of the label behind an opening fence.
pub open spec fn label_char(c: char) -> bool {
    ||| 'a' <= c <= 'z'
    ||| 'A' <= c <= 'Z'
    ||| '0' <= c <= '9'
    ||| c == '_'
    ||| c == '-'
}

/// A text that can stand behind an opening fence as its label.
pub open spec fn is_label(text: Seq<char>) -> bool {
    forall|k: int| 0 <= k < text.len() ==> label_char(#[trigger] text[k])
}

fn is_fence_label(text: &str) -> (yes: bool)
    ensures
        yes == is_label(text@),
{
    let chars = chars_of(text);
    let mut k: usize = 0;
    while k < chars.len()
        invariant
            chars@ == text@,
            k <= chars@.len(),
            forall|j: int| 0 <= j < k ==> label_char(#[trigger] text@[j]),
        decreases chars@.len() - k,
    {
        let c = chars[k];
        let letter = ('a' <= c && c <= 'z') || ('A' <= c && c <= 'Z') || ('0' <= c && c <= '9');
        if !(letter || c == '_' || c == '-') {
            assert(!label_char(text@[k as int]));
            return false;
        }
        k += 1;
    }
    true
}

/// `text` without an opening fence, and without the line of its label.
pub open spec fn without_opening_fence(text: Seq<char>) -> Seq<char> {
    match after_prefix(text, "```"@) {
        Some(rest) => match first_occurrence(rest, "\n"@) {
            Some(at) => if is_label(rest.take(at)) {
                rest.skip(at + 1)
            } else {
                rest
            },
            None => rest,
        },
        None => text,
    }
}

/// `text` without a closing fence, and without the line break before it.
pub open spec fn without_closing_fence(text: Seq<char>) -> Seq<char> {
    match before_suffix(text, "```"@) {
        Some(rest) => match before_suffix(rest, "\n"@) {
            Some(inner) => inner,
            None => rest,
        },
        None => text,
    }
}

/// Takes off the Markdown fences around a completion.
pub fn remove_markdown_fences(text: &str) -> (inner: String)
    ensures
        inner@ == without_closing_fence(without_opening_fence(text@)),
{
    proof {
        reveal_strlit("\n");
    }
    let without_start = match strip_prefix(text, "```") {
        Some(rest) => {
            proof {
                lemma_first_occurrence(rest@, "\n"@);
            }
            match find(rest, "\n") {
                Some(index) => {
                    if is_fence_label(rest.substring_char(0, index)) {
                        let end: usize = rest.unicode_len();
                        let body = rest.substring_char(index + 1, end);
                        assert(body@ =~= rest@.skip(index + 1));
                        body
                    } else {
                        rest
                    }
                },
                None => rest,
            }
        },
        None => text,
    };
    match strip_suffix(without_start, "```") {
        Some(value) => match strip_suffix(value, "\n") {
            Some(inner) => inner.to_owned(),
            None => value.to_owned(),
        },
        None => without_start.to_owned(),
    }
}

/// Takes out the parts of a prompt that a completion echoes.
pub fn remove_prompt_artifacts(text: &str) -> (left: String)
    ensures
        left@ == without_each(text@, artifacts()),
{
    proof {
        reveal_strlit("<|fim_prefix|>");
        reveal_strlit("<|fim_suffix|>");
        reveal_strlit("<|fim_middle|>");
        reveal_strlit("<contextBeforeCursor>");
        reveal_strlit("<contextAfterCursor>");
        reveal_strlit("<cursorPosition>");
        reveal_strlit("<cursor>");
        reveal_strlit("</cursor>");
        reveal_with_fuel(without_each, 9);
    }
    let left = remove_all(text, "<|fim_prefix|>");
    let left = remove_all(left.as_str(), "<|fim_suffix|>");
    let left = remove_all(left.as_str(), "<|fim_middle|>");
    let left = remove_all(left.as_str(), "<contextBeforeCursor>");
    let left = remove_all(left.as_str(), "<contextAfterCursor>");
    let left = remove_all(left.as_str(), "<cursorPosition>");
    let left = remove_all(left.as_str(), "<cursor>");
    remove_all(left.as_str(), "</cursor>")
}

fn user_stop_sequences(stop: Option<&StopSequences>) -> (stops: Vec<&str>)
    ensures
        texts(stops@) == stop_texts(stop),
{
    let mut stops: Vec<&str> = Vec::new();
    match stop {
        Some(StopSequences::One(value)) => {
            stops.push(value.as_str());
        },
        Some(StopSequences::Many(values)) => {
            let mut i: usize = 0;
            while i < values.len()
                invariant
                    i <= values@.len(),
                    stops@.len() == i,
                    forall|k: int| 0 <= k < i ==> (#[trigger] stops@[k])@ == values@[k]@,
                decreases values@.len() - i,
            {
                stops.push(values[i].as_str());
                i += 1;
            }
        },
        None => {},
    }
    assert(texts(stops@) =~= stop_texts(stop));
    stops
}

fn default_stop_sequences() -> (stops: Vec<&'static str>)
    ensures
        texts(stops@) == default_stops(),
{
    let stops = vec![
        "\n\n",
        "<|fim_",
        "<|endoftext|>",
        "<|im_end|>",
        "</context>",
        "<contextAfterCursor>",
    ];
    assert(texts(stops@) =~= default_stops());
    stops
}

/// The first position in a text at which one of the stops stands.
fn find_earliest_stop(text: &str, stops: &Vec<&str>) -> (end: usize)
    ensures
        end == earliest_stop(text@, texts(stops@)),
        end <= text@.len(),
{
    let ghost all = texts(stops@);
    let len: usize = text.unicode_len();
    let mut end: usize = len;
    let mut i: usize = 0;
    assert(all.take(0) =~= Seq::<Seq<char>>::empty());
    while i < stops.len()
        invariant
            i <= stops@.len(),
            texts(stops@) == all,
            end <= len == text@.len(),
            end == earliest_stop(text@, all.take(i as int)),
        decreases stops@.len() - i,
    {
        let sequence = stops[i];
        assert(all.take(i + 1).drop_last() =~= all.take(i as int));
        assert(all.take(i + 1).last() == sequence@);
        if !sequence.is_empty() {
            if let Some(at) = find(text, sequence) {
                if at < end {
                    end = at;
                }
            }
        }
        i += 1;
    }
    assert(all.take(i as int) =~= all);
    end
}

/// Cuts a completion at the stop sequences of the request, one after the
/// other, and at the first of the default ones. A cut at a stop sequence of
/// the request does not hide a default one that starts before it.
pub fn apply_stop_sequences(text: &str, stop: Option<&StopSequences>) -> (kept: String)
    ensures
        kept@ == cut_at_stops(text@, stop_texts(stop)),
{
    let own_stops = user_stop_sequences(stop);
    let own_end: usize = cut_at_all(text, &own_stops).unicode_len();
    let default_end: usize = find_earliest_stop(text, &default_stop_sequences());
    let end: usize = if own_end < default_end {
        own_end
    } else {
        default_end
    };
    text.substring_char(0, end).to_owned()
}

/// Cuts a completion at each text behind which nothing belongs to it.
pub fn cut_obvious_over_generation(text: &str) -> (kept: String)
    ensures
        kept@ == cut_at_each(text@, boundaries()),
{
    let bad_boundaries = vec![
        "```",
        "<|fim_prefix|>",
        "<|fim_suffix|>",
        "<|fim_middle|>",
        "<contextBeforeCursor>",
        "<contextAfterCursor>",
        "<cursorPosition>",
        "</context>",
    ];
    assert(texts(bad_boundaries@) =~= boundaries());
    cut_at_all(text, &bad_boundaries).to_owned()
}

/// What a completion is once the prompt that it repeats, its fences and the
/// echoed parts of the prompt are gone.
pub open spec fn stripped(raw: Seq<char>, prompt: Seq<char>) -> Seq<char> {
    without_each(
        without_closing_fence(without_opening_fence(unrepeated(raw, prompt))),
        artifacts(),
    )
}

/// The completion that an editor is handed.
pub open spec fn cleaned(
    raw: Seq<char>,
    prompt: Seq<char>,
    stops: Seq<Seq<char>>,
) -> Seq<char> {
    trimmed_end(
        cut_at_each(cut_at_stops(stripped(raw, prompt), stops), boundaries()),
    )
}

/// Cleans what the model returned.
pub fn clean_completion(
    raw_completion: &str,
    original_prompt: &str,
    stop: Option<&StopSequences>,
) -> (completion: String)
    ensures
        completion@ == cleaned(raw_completion@, original_prompt@, stop_texts(stop)),
{
    let completion = strip_repeated_prompt(raw_completion, original_prompt);
    let completion = remove_markdown_fences(completion.as_str());
    let completion = remove_prompt_artifacts(completion.as_str());
    let completion = apply_stop_sequences(completion.as_str(), stop);
    let completion = cut_obvious_over_generation(completion.as_str());
    trim_end(completion.as_str()).to_owned()
}

/// A text does not hold what a longer text, of which it is the front, does not hold.
proof fn lemma_front_holds_less(text: Seq<char>, len: int, pattern: Seq<char>)
    requires
        0 <= len <= text.len(),
        !occurs(text, pattern),
    ensures
        !occurs(text.take(len), pattern),
{
    if occurs(text.take(len), pattern) {
        let at = choose|at: int| occurs_at(text.take(len), pattern, at);
        assert(text.take(len).subrange(at, at + pattern.len()) =~= text.subrange(
            at,
            at + pattern.len(),
        ));
        assert(occurs_at(text, pattern, at));
    }
}

/// A text cut at a stop does not hold it.
proof fn lemma_cut_at(text: Seq<char>, stop: Seq<char>)
    ensures
        cut_at(text, stop).len() <= text.len(),
        cut_at(text, stop) == text.take(cut_at(text, stop).len() as int),
        stop.len() > 0 ==> !occurs(cut_at(text, stop), stop),
        !occurs(text, stop) ==> cut_at(text, stop) == text,
{
    lemma_first_occurrence(text, stop);
    assert(text.take(text.len() as int) =~= text);
    let kept = cut_at(text, stop);
    if stop.len() > 0 && occurs(kept, stop) {
        let at = choose|at: int| occurs_at(kept, stop, at);
        assert(kept.subrange(at, at + stop.len()) =~= text.subrange(at, at + stop.len()));
        assert(occurs_at(text, stop, at));
    }
}

/// Cutting keeps the front of a text, a cut text holds none of the stops that
/// it was cut at, and nothing is cut off but from a stop on.
pub proof fn law_cut_text_holds_no_stop(text: Seq<char>, stops: Seq<Seq<char>>)
    ensures
        cut_at_each(text, stops).is_prefix_of(text),
        forall|k: int|
            0 <= k < stops.len() && stops[k].len() > 0 ==> !occurs(
                cut_at_each(text, stops),
                #[trigger] stops[k],
            ),
        cut_at_each(text, stops) == text || exists|k: int|
            0 <= k < stops.len() && stops[k].len() > 0 && occurs_at(
                text,
                #[trigger] stops[k],
                cut_at_each(text, stops).len() as int,
            ),
    decreases stops.len(),
{
    if stops.len() > 0 {
        let front = stops.drop_last();
        let once = cut_at_each(text, front);
        law_cut_text_holds_no_stop(text, front);
        lemma_cut_at(once, stops.last());
        assert forall|k: int| 0 <= k < stops.len() && stops[k].len() > 0 implies !occurs(
            cut_at_each(text, stops),
            #[trigger] stops[k],
        ) by {
            if k < front.len() {
                assert(front[k] == stops[k]);
                lemma_front_holds_less(once, cut_at_each(text, stops).len() as int, stops[k]);
            }
        }
        let kept = cut_at_each(text, stops);
        assert(kept =~= text.take(kept.len() as int));
        if kept == once {
            if kept != text {
                let k = choose|k: int|
                    0 <= k < front.len() && front[k].len() > 0 && occurs_at(
                        text,
                        #[trigger] front[k],
                        kept.len() as int,
                    );
                assert(stops[k] == front[k]);
            }
        } else {
            let at = kept.len() as int;
            let last = stops.len() - 1;
            lemma_first_occurrence(once, stops[last]);
            assert(occurs_at(once, stops[last], at));
            assert(once.subrange(at, at + stops[last].len()) =~= text.subrange(
                at,
                at + stops[last].len(),
            ));
            assert(occurs_at(text, stops[last], at));
        }
    }
}

/// A stopped text is the front of the text up to the first position at which
/// a stop stands: it holds no stop, it does not go beyond the place where any
/// one of them stands, and nothing is cut off but from a stop on.
pub proof fn law_text_is_stopped_at_the_earliest_stop(text: Seq<char>, stops: Seq<Seq<char>>)
    ensures
        stopped(text, stops).is_prefix_of(text),
        forall|k: int|
            0 <= k < stops.len() && stops[k].len() > 0 ==> !occurs(
                stopped(text, stops),
                #[trigger] stops[k],
            ),
        forall|k: int|
            0 <= k < stops.len() ==> stopped(text, stops).is_prefix_of(
                cut_at(text, #[trigger] stops[k]),
            ),
        stopped(text, stops) == text || exists|k: int|
            0 <= k < stops.len() && stops[k].len() > 0 && occurs_at(
                text,
                #[trigger] stops[k],
                stopped(text, stops).len() as int,
            ),
{
    lemma_earliest_stop(text, stops);
    let end = earliest_stop(text, stops);
    assert(text.take(end) =~= text.subrange(0, end));
    if end == text.len() {
        assert(text.take(end) =~= text);
    }
    assert forall|k: int| 0 <= k < stops.len() && stops[k].len() > 0 implies !occurs(
        text.take(end),
        #[trigger] stops[k],
    ) by {
        let stop = stops[k];
        if occurs(text.take(end), stop) {
            let at = choose|at: int| occurs_at(text.take(end), stop, at);
            assert(text.take(end).subrange(at, at + stop.len()) =~= text.subrange(
                at,
                at + stop.len(),
            ));
            assert(occurs_at(text, stop, at));
        }
    }
    assert forall|k: int| 0 <= k < stops.len() implies text.take(end).is_prefix_of(
        cut_at(text, #[trigger] stops[k]),
    ) by {
        lemma_first_occurrence(text, stops[k]);
        if stops[k].len() > 0 && occurs(text, stops[k]) {
            let at = first_occurrence(text, stops[k])->0;
            assert(occurs_at(text, stops[k], at));
            assert(text.take(end) =~= text.take(at).subrange(0, end));
        }
    }
}

proof fn lemma_earliest_stop(text: Seq<char>, stops: Seq<Seq<char>>)
    ensures
        0 <= earliest_stop(text, stops) <= text.len(),
        forall|k: int, at: int|
            0 <= k < stops.len() && stops[k].len() > 0 && #[trigger] occurs_at(text, stops[k], at)
                ==> earliest_stop(text, stops) <= at,
        earliest_stop(text, stops) < text.len() ==> exists|k: int|
            0 <= k < stops.len() && stops[k].len() > 0 && occurs_at(
                text,
                #[trigger] stops[k],
                earliest_stop(text, stops),
            ),
    decreases stops.len(),
{
    if stops.len() > 0 {
        let front = stops.drop_last();
        let last = stops.len() - 1;
        lemma_earliest_stop(text, front);
        lemma_first_occurrence(text, stops.last());
        let end = earliest_stop(text, stops);
        assert forall|k: int, at: int|
            0 <= k < stops.len() && stops[k].len() > 0 && #[trigger] occurs_at(
                text,
                stops[k],
                at,
            ) implies end <= at by {
            if k < last {
                assert(front[k] == stops[k]);
                assert(occurs_at(text, front[k], at));
            } else {
                assert(occurs(text, stops.last()));
            }
        }
        if end < text.len() {
            if end == earliest_stop(text, front) {
                let k = choose|k: int|
                    0 <= k < front.len() && front[k].len() > 0 && occurs_at(
                        text,
                        #[trigger] front[k],
                        end,
                    );
                assert(stops[k] == front[k]);
            } else {
                assert(occurs_at(text, stops[last], end));
            }
        }
    }
}

/// A text that holds none of the stops is not stopped.
pub proof fn law_text_without_stops_is_not_stopped(text: Seq<char>, stops: Seq<Seq<char>>)
    requires
        forall|k: int|
            0 <= k < stops.len() && stops[k].len() > 0 ==> !occurs(text, #[trigger] stops[k]),
    ensures
        stopped(text, stops) == text,
{
    law_text_is_stopped_at_the_earliest_stop(text, stops);
}

/// The request's own stops have their full effect beside the default ones: a
/// completion is the front of the text cut at the one and of the text stopped
/// at the other, and one of the two. It holds none of these stops, and nothing
/// is cut off but from one of them on.
pub proof fn law_own_and_default_stops_both_cut(text: Seq<char>, own_stops: Seq<Seq<char>>)
    ensures
        cut_at_stops(text, own_stops).is_prefix_of(text),
        cut_at_stops(text, own_stops).is_prefix_of(cut_at_each(text, own_stops)),
        cut_at_stops(text, own_stops).is_prefix_of(stopped(text, default_stops())),
        ({
            ||| cut_at_stops(text, own_stops) == cut_at_each(text, own_stops)
            ||| cut_at_stops(text, own_stops) == stopped(text, default_stops())
        }),
        forall|k: int|
            0 <= k < own_stops.len() && own_stops[k].len() > 0 ==> !occurs(
                cut_at_stops(text, own_stops),
                #[trigger] own_stops[k],
            ),
        forall|k: int|
            0 <= k < default_stops().len() ==> !occurs(
                cut_at_stops(text, own_stops),
                #[trigger] default_stops()[k],
            ),
        ({
            let end = cut_at_stops(text, own_stops).len() as int;
            ||| cut_at_stops(text, own_stops) == text
            ||| exists|k: int|
                0 <= k < own_stops.len() && own_stops[k].len() > 0 && occurs_at(
                    text,
                    #[trigger] own_stops[k],
                    end,
                )
            ||| exists|k: int|
                0 <= k < default_stops().len() && occurs_at(text, #[trigger] default_stops()[k], end)
        }),
{
    let kept = cut_at_stops(text, own_stops);
    let end = completion_end(text, own_stops);
    let cut = cut_at_each(text, own_stops);
    let front = stopped(text, default_stops());
    law_cut_text_holds_no_stop(text, own_stops);
    law_text_is_stopped_at_the_earliest_stop(text, default_stops());
    lemma_earliest_stop(text, default_stops());
    lemma_fixed_texts_are_not_empty();
    assert(cut =~= text.take(cut.len() as int));
    assert(kept =~= cut.take(end));
    assert(kept =~= front.take(end));
    assert(kept =~= text.subrange(0, end));
    assert forall|k: int| 0 <= k < own_stops.len() && own_stops[k].len() > 0 implies !occurs(
        kept,
        #[trigger] own_stops[k],
    ) by {
        lemma_front_holds_less(cut, end, own_stops[k]);
    }
    assert forall|k: int| 0 <= k < default_stops().len() implies !occurs(
        kept,
        #[trigger] default_stops()[k],
    ) by {
        lemma_front_holds_less(front, end, default_stops()[k]);
    }
}

/// A text that holds neither one of the request's own stops nor a default one
/// is not cut at all.
pub proof fn law_text_without_own_or_default_stops_is_kept(
    text: Seq<char>,
    own_stops: Seq<Seq<char>>,
)
    requires
        forall|k: int|
            0 <= k < own_stops.len() && own_stops[k].len() > 0 ==> !occurs(
                text,
                #[trigger] own_stops[k],
            ),
        forall|k: int|
            0 <= k < default_stops().len() ==> !occurs(text, #[trigger] default_stops()[k]),
    ensures
        cut_at_stops(text, own_stops) == text,
{
    law_own_and_default_stops_both_cut(text, own_stops);
}

/// A text that holds none of the stops is kept whole.
pub proof fn law_text_without_stops_is_kept(text: Seq<char>, stops: Seq<Seq<char>>)
    requires
        forall|k: int|
            0 <= k < stops.len() && stops[k].len() > 0 ==> !occurs(text, #[trigger] stops[k]),
    ensures
        cut_at_each(text, stops) == text,
    decreases stops.len(),
{
    if stops.len() > 0 {
        let front = stops.drop_last();
        assert forall|k: int| 0 <= k < front.len() && front[k].len() > 0 implies !occurs(
            text,
            #[trigger] front[k],
        ) by {
            assert(front[k] == stops[k]);
        }
        law_text_without_stops_is_kept(text, front);
        assert(stops[stops.len() - 1] == stops.last());
        lemma_cut_at(text, stops.last());
    }
}

/// Cutting at the stops one after the other is cutting at the first of them in
/// the text, where no stop holds, behind its own start, the start of an earlier
/// one: a cut then takes away a later stop whole or not at all.
proof fn lemma_cut_at_each_stops_at_the_earliest(text: Seq<char>, stops: Seq<Seq<char>>)
    requires
        forall|k: int| 0 <= k < stops.len() ==> (#[trigger] stops[k]).len() > 0,
        forall|i: int, j: int, k: int|
            0 <= i < j < stops.len() && 0 < k < stops[j].len() ==> #[trigger] stops[j][k]
                != #[trigger] stops[i][0],
    ensures
        cut_at_each(text, stops) == stopped(text, stops),
    decreases stops.len(),
{
    if stops.len() == 0 {
        assert(text.take(text.len() as int) =~= text);
    } else {
        let front = stops.drop_last();
        let last = stops.last();
        let end = earliest_stop(text, front);
        let once = text.take(end);
        assert forall|k: int| 0 <= k < front.len() implies (#[trigger] front[k]).len() > 0 by {
            assert(front[k] == stops[k]);
        }
        assert forall|i: int, j: int, k: int|
            0 <= i < j < front.len() && 0 < k < front[j].len() implies #[trigger] front[j][k]
            != #[trigger] front[i][0] by {
            assert(front[j] == stops[j] && front[i] == stops[i]);
        }
        lemma_cut_at_each_stops_at_the_earliest(text, front);
        lemma_earliest_stop(text, front);
        lemma_first_occurrence(text, last);
        lemma_first_occurrence(once, last);
        assert forall|at: int| #[trigger] occurs_at(once, last, at) implies occurs_at(
            text,
            last,
            at,
        ) by {
            assert(once.subrange(at, at + last.len()) =~= text.subrange(at, at + last.len()));
        }
        if occurs(text, last) && first_occurrence(text, last)->0 < end {
            let at = first_occurrence(text, last)->0;
            assert(occurs_at(text, last, at));
            if at + last.len() > end {
                let k = choose|k: int|
                    0 <= k < front.len() && front[k].len() > 0 && occurs_at(
                        text,
                        #[trigger] front[k],
                        end,
                    );
                assert(text.subrange(end, end + front[k].len())[0] == text[end]);
                assert(text.subrange(at, at + last.len())[end - at] == text[end]);
                assert(stops[stops.len() - 1][end - at] != stops[k][0]);
            }
            assert(once.subrange(at, at + last.len()) =~= text.subrange(at, at + last.len()));
            assert(occurs_at(once, last, at));
            lemma_first_at(once, last, at);
            assert(once.take(at) =~= text.take(at));
        }
    }
}

/// A completion is cut at the first boundary in it, whatever their order.
pub proof fn law_boundaries_cut_at_the_first(text: Seq<char>)
    ensures
        cut_at_each(text, boundaries()) == stopped(text, boundaries()),
{
    lemma_fixed_texts_are_not_empty();
    reveal_strlit("```");
    reveal_strlit("<|fim_prefix|>");
    reveal_strlit("<|fim_suffix|>");
    reveal_strlit("<|fim_middle|>");
    reveal_strlit("<contextBeforeCursor>");
    reveal_strlit("<contextAfterCursor>");
    reveal_strlit("<cursorPosition>");
    reveal_strlit("</context>");
    lemma_cut_at_each_stops_at_the_earliest(text, boundaries());
}

/// The order of the default stops does not matter either: cutting at one after
/// the other is cutting at the first of them in the text, and that is where a
/// completion ends whose request has no stops of its own.
pub proof fn law_default_stops_cut_at_the_first(text: Seq<char>)
    ensures
        cut_at_each(text, default_stops()) == stopped(text, default_stops()),
        cut_at_stops(text, Seq::empty()) == stopped(text, default_stops()),
{
    lemma_earliest_stop(text, default_stops());
    lemma_fixed_texts_are_not_empty();
    reveal_strlit("\n\n");
    reveal_strlit("<|fim_");
    reveal_strlit("<|endoftext|>");
    reveal_strlit("<|im_end|>");
    reveal_strlit("</context>");
    reveal_strlit("<contextAfterCursor>");
    lemma_cut_at_each_stops_at_the_earliest(text, default_stops());
}

proof fn lemma_trimmed_end(text: Seq<char>)
    ensures
        trimmed_end(text).len() <= text.len(),
        trimmed_end(text) == text.take(trimmed_end(text).len() as int),
        trimmed_end(text).len() > 0 ==> !white_space(trimmed_end(text).last()),
    decreases text.len(),
{
    if text.len() > 0 && white_space(text.last()) {
        lemma_trimmed_end(text.drop_last());
        assert(text.drop_last().take(trimmed_end(text).len() as int) =~= text.take(
            trimmed_end(text).len() as int,
        ));
    } else {
        assert(text.take(text.len() as int) =~= text);
    }
}

/// A cleaned completion holds none of the stop sequences of the request, none
/// of the default ones and none of the texts behind which nothing belongs to a
/// completion; it does not end in white space; and it is the front of what is
/// left of the raw completion without the prompt, the fences and the echoes.
pub proof fn law_cleaned_completion_is_clean(
    raw: Seq<char>,
    prompt: Seq<char>,
    stops: Seq<Seq<char>>,
)
    ensures
        forall|k: int|
            0 <= k < stops.len() && stops[k].len() > 0 ==> !occurs(
                cleaned(raw, prompt, stops),
                #[trigger] stops[k],
            ),
        forall|k: int|
            0 <= k < default_stops().len() ==> !occurs(
                cleaned(raw, prompt, stops),
                #[trigger] default_stops()[k],
            ),
        forall|k: int|
            0 <= k < boundaries().len() ==> !occurs(
                cleaned(raw, prompt, stops),
                #[trigger] boundaries()[k],
            ),
        cleaned(raw, prompt, stops).len() > 0 ==> !white_space(
            cleaned(raw, prompt, stops).last(),
        ),
        cleaned(raw, prompt, stops).is_prefix_of(stripped(raw, prompt)),
{
    let front = cut_at_stops(stripped(raw, prompt), stops);
    let bounded = cut_at_each(front, boundaries());
    let result = cleaned(raw, prompt, stops);
    law_own_and_default_stops_both_cut(stripped(raw, prompt), stops);
    law_cut_text_holds_no_stop(front, boundaries());
    lemma_trimmed_end(bounded);
    lemma_fixed_texts_are_not_empty();
    assert(bounded =~= front.take(bounded.len() as int));
    assert forall|k: int| 0 <= k < stops.len() && stops[k].len() > 0 implies !occurs(
        result,
        #[trigger] stops[k],
    ) by {
        lemma_front_holds_less(front, bounded.len() as int, stops[k]);
        lemma_front_holds_less(bounded, result.len() as int, stops[k]);
    }
    assert forall|k: int| 0 <= k < default_stops().len() implies !occurs(
        result,
        #[trigger] default_stops()[k],
    ) by {
        lemma_front_holds_less(front, bounded.len() as int, default_stops()[k]);
        lemma_front_holds_less(bounded, result.len() as int, default_stops()[k]);
    }
    assert forall|k: int| 0 <= k < boundaries().len() implies !occurs(
        result,
        #[trigger] boundaries()[k],
    ) by {
        lemma_front_holds_less(bounded, result.len() as int, boundaries()[k]);
    }
}

proof fn lemma_fixed_texts_are_not_empty()
    ensures
        forall|k: int|
            0 <= k < default_stops().len() ==> (#[trigger] default_stops()[k]).len() > 0,
        forall|k: int| 0 <= k < boundaries().len() ==> (#[trigger] boundaries()[k]).len() > 0,
        forall|k: int| 0 <= k < artifacts().len() ==> (#[trigger] artifacts()[k]).len() > 0,
{
    reveal_strlit("\n\n");
    reveal_strlit("<|fim_");
    reveal_strlit("<|endoftext|>");
    reveal_strlit("<|im_end|>");
    reveal_strlit("</context>");
    reveal_strlit("<contextAfterCursor>");
    reveal_strlit("```");
    reveal_strlit("<|fim_prefix|>");
    reveal_strlit("<|fim_suffix|>");
    reveal_strlit("<|fim_middle|>");
    reveal_strlit("<contextBeforeCursor>");
    reveal_strlit("<cursorPosition>");
    reveal_strlit("<cursor>");
    reveal_strlit("</cursor>");
}

/// A text that holds none of the patterns loses nothing.
pub proof fn law_text_without_patterns_is_kept(text: Seq<char>, patterns: Seq<Seq<char>>)
    requires
        forall|k: int| 0 <= k < patterns.len() ==> !occurs(text, #[trigger] patterns[k]),
    ensures
        without_each(text, patterns) == text,
    decreases patterns.len(),
{
    if patterns.len() > 0 {
        let front = patterns.drop_last();
        assert forall|k: int| 0 <= k < front.len() implies !occurs(text, #[trigger] front[k]) by {
            assert(front[k] == patterns[k]);
        }
        law_text_without_patterns_is_kept(text, front);
        assert(patterns[patterns.len() - 1] == patterns.last());
    }
}

/// A completion that starts with the prompt loses exactly the prompt.
pub proof fn law_repeated_prompt_is_stripped(prompt: Seq<char>, rest: Seq<char>)
    ensures
        unrepeated(prompt + rest, prompt) == rest,
{
    assert((prompt + rest).subrange(0, prompt.len() as int) =~= prompt);
    assert((prompt + rest).skip(prompt.len() as int) =~= rest);
}

/// A completion that starts with the text before the cursor loses exactly
/// that text, unless it starts with the prompt itself.
pub proof fn law_repeated_prefix_is_stripped(
    prompt: Seq<char>,
    before: Seq<char>,
    after: Seq<char>,
    rest: Seq<char>,
)
    requires
        fim_parts(prompt) == Some((before, after)),
        !occurs_at(before + rest, prompt, 0),
        !occurs_at(before + rest, trimmed_end(prompt), 0),
    ensures
        unrepeated(before + rest, prompt) == rest,
{
    assert((before + rest).subrange(0, before.len() as int) =~= before);
    assert((before + rest).skip(before.len() as int) =~= rest);
}

/// A fenced block gives its body, whatever its label is and whatever the body holds.
pub proof fn law_fenced_block_gives_its_body(label: Seq<char>, body: Seq<char>)
    requires
        is_label(label),
    ensures
        without_closing_fence(
            without_opening_fence("```"@ + label + "\n"@ + body + "\n```"@),
        ) == body,
{
    reveal_strlit("```");
    reveal_strlit("\n");
    reveal_strlit("\n```");
    let text = "```"@ + label + "\n"@ + body + "\n```"@;
    let rest = label + "\n"@ + body + "\n```"@;
    let inner = body + "\n```"@;
    assert(text.subrange(0, 3) =~= "```"@);
    assert(text.skip(3) =~= rest);
    let at = label.len() as int;
    assert(rest.subrange(at, at + 1) =~= "\n"@);
    assert forall|k: int| 0 <= k < at implies !occurs_at(rest, "\n"@, k) by {
        assert(rest[k] == label[k]);
        assert(label_char(label[k]));
        assert(rest.subrange(k, k + 1)[0] == rest[k]);
    }
    lemma_first_at(rest, "\n"@, at);
    assert(rest.take(at) =~= label);
    assert(rest.skip(at + 1) =~= inner);
    assert(inner.subrange(inner.len() - 3, inner.len() as int) =~= "```"@);
    let ended = inner.take(inner.len() - 3);
    assert(ended.subrange(ended.len() - 1, ended.len() as int) =~= "\n"@);
    assert(ended.take(ended.len() - 1) =~= body);
}

/// A completion that starts with none of what could be repeated is left as it
/// is: neither with the prompt, nor with the prompt without the white space at
/// its end, nor with the text before the cursor. What is empty is not repeated.
pub proof fn law_completion_that_repeats_nothing_is_kept(
    completion: Seq<char>,
    prompt: Seq<char>,
)
    requires
        prompt.len() > 0 ==> !occurs_at(completion, prompt, 0),
        trimmed_end(prompt).len() > 0 ==> !occurs_at(completion, trimmed_end(prompt), 0),
        fim_parts(prompt) matches Some((before, after)) ==> before.len() > 0 ==> !occurs_at(
            completion,
            before,
            0,
        ),
    ensures
        unrepeated(completion, prompt) == completion,
{
    assert(completion.skip(0) =~= completion);
}

/// A completion that starts with the prompt without the white space at its
/// end, and not with the prompt itself, loses exactly that.
pub proof fn law_repeated_trimmed_prompt_is_stripped(prompt: Seq<char>, rest: Seq<char>)
    requires
        !occurs_at(trimmed_end(prompt) + rest, prompt, 0),
    ensures
        unrepeated(trimmed_end(prompt) + rest, prompt) == rest,
{
    let front = trimmed_end(prompt);
    assert((front + rest).subrange(0, front.len() as int) =~= front);
    assert((front + rest).skip(front.len() as int) =~= rest);
}

/// A completion that repeats no prompt, holds no fence, no echo of the prompt
/// and no stop comes out as it is, up to the white space at its end.
pub proof fn law_clean_completion_is_kept(
    raw: Seq<char>,
    prompt: Seq<char>,
    stops: Seq<Seq<char>>,
)
    requires
        prompt.len() > 0 ==> !occurs_at(raw, prompt, 0),
        trimmed_end(prompt).len() > 0 ==> !occurs_at(raw, trimmed_end(prompt), 0),
        fim_parts(prompt) matches Some((before, after)) ==> before.len() > 0 ==> !occurs_at(
            raw,
            before,
            0,
        ),
        forall|k: int| 0 <= k < artifacts().len() ==> !occurs(raw, #[trigger] artifacts()[k]),
        forall|k: int|
            0 <= k < stops.len() && stops[k].len() > 0 ==> !occurs(raw, #[trigger] stops[k]),
        forall|k: int|
            0 <= k < default_stops().len() ==> !occurs(raw, #[trigger] default_stops()[k]),
        forall|k: int| 0 <= k < boundaries().len() ==> !occurs(raw, #[trigger] boundaries()[k]),
    ensures
        cleaned(raw, prompt, stops) == trimmed_end(raw),
        trimmed_end(raw) == raw ==> cleaned(raw, prompt, stops) == raw,
{
    law_completion_that_repeats_nothing_is_kept(raw, prompt);
    assert(!occurs(raw, boundaries()[0]));
    assert(!occurs_at(raw, "```"@, 0));
    assert(!occurs_at(raw, "```"@, raw.len() - "```"@.len()));
    law_text_without_patterns_is_kept(raw, artifacts());
    law_text_without_own_or_default_stops_is_kept(raw, stops);
    law_text_without_stops_is_kept(raw, boundaries());
}

/// The stop sequences of a request are those that it names, one or many, each
/// as it is and in their order.
pub proof fn law_stops_are_those_that_are_named(one: String, many: Vec<String>)
    ensures
        stop_texts(Some(&StopSequences::One(one))).len() == 1,
        stop_texts(Some(&StopSequences::One(one)))[0] == one@,
        stop_texts(Some(&StopSequences::Many(many))).len() == many@.len(),
        forall|k: int|
            0 <= k < many@.len() ==> (#[trigger] stop_texts(
                Some(&StopSequences::Many(many)),
            )[k]) == many@[k]@,
        stop_texts(None).len() == 0,
{
}

/// One more stop cuts what the others left, at its first place there; where it
/// does not stand there, or is empty, it changes nothing. Without stops
/// nothing is cut.
pub proof fn law_each_stop_cuts_what_the_others_left(
    text: Seq<char>,
    stops: Seq<Seq<char>>,
    stop: Seq<char>,
)
    ensures
        cut_at_each(text, Seq::empty()) == text,
        ({
            let left = cut_at_each(text, stops);
            let kept = cut_at_each(text, stops.push(stop));
            &&& stop.len() == 0 ==> kept == left
            &&& !occurs(left, stop) ==> kept == left
            &&& stop.len() > 0 && occurs(left, stop) ==> {
                &&& kept.is_prefix_of(left)
                &&& occurs_at(left, stop, kept.len() as int)
                &&& forall|at: int| #[trigger] occurs_at(left, stop, at) ==> kept.len() <= at
            }
        }),
{
    let left = cut_at_each(text, stops);
    assert(stops.push(stop).drop_last() =~= stops);
    lemma_first_occurrence(left, stop);
    if stop.len() > 0 && occurs(left, stop) {
        let at = first_occurrence(left, stop)->0;
        assert(left.take(at) =~= left.subrange(0, at));
    }
}

/// One of the texts that end every completion stands in `text` at `at`.
pub open spec fn default_stop_at(text: Seq<char>, at: int) -> bool {
    ||| occurs_at(text, "\n\n"@, at)
    ||| occurs_at(text, "<|fim_"@, at)
    ||| occurs_at(text, "<|endoftext|>"@, at)
    ||| occurs_at(text, "<|im_end|>"@, at)
    ||| occurs_at(text, "</context>"@, at)
    ||| occurs_at(text, "<contextAfterCursor>"@, at)
}

/// A completion goes on up to where its request's own stops cut it, or up to
/// the first blank line, special token or marker of the context: it ends at
/// the end of the text only where none of them stands, and no such place lies
/// within it. With a single stop of its own it goes on up to the first place
/// of that stop or of a default one.
pub proof fn law_completion_ends_where_a_stop_stands(
    text: Seq<char>,
    own_stops: Seq<Seq<char>>,
)
    ensures
        ({
            let kept = cut_at_stops(text, own_stops);
            let end = kept.len() as int;
            &&& kept.is_prefix_of(text)
            &&& forall|at: int| #[trigger] default_stop_at(text, at) ==> end <= at
            &&& end <= cut_at_each(text, own_stops).len()
            &&& end == cut_at_each(text, own_stops).len() || default_stop_at(text, end)
            &&& own_stops.len() == 0 ==> end == text.len() || default_stop_at(text, end)
            &&& own_stops.len() == 1 && own_stops[0].len() > 0 ==> {
                &&& forall|at: int| #[trigger] occurs_at(text, own_stops[0], at) ==> end <= at
                &&& end == text.len() || default_stop_at(text, end) || occurs_at(
                    text,
                    own_stops[0],
                    end,
                )
            }
        }),
{
    let kept = cut_at_stops(text, own_stops);
    let end = completion_end(text, own_stops);
    let cut = cut_at_each(text, own_stops);
    law_cut_text_holds_no_stop(text, own_stops);
    lemma_earliest_stop(text, default_stops());
    lemma_fixed_texts_are_not_empty();
    lemma_default_stop_at(text);
    assert(kept =~= text.subrange(0, end));
    if own_stops.len() == 1 {
        reveal_with_fuel(cut_at_each, 2);
        assert(own_stops.drop_last().len() == 0);
        assert(own_stops.last() == own_stops[0]);
        lemma_first_occurrence(text, own_stops[0]);
        assert(cut == cut_at(text, own_stops[0]));
        assert forall|at: int|
            own_stops[0].len() > 0 && #[trigger] occurs_at(text, own_stops[0], at) implies end
            <= at by {
            assert(occurs(text, own_stops[0]));
        }
    }
}

proof fn lemma_default_stop_at(text: Seq<char>)
    ensures
        forall|at: int| #[trigger]
            default_stop_at(text, at) <==> exists|k: int|
                0 <= k < default_stops().len() && occurs_at(text, #[trigger] default_stops()[k], at),
{
    assert forall|at: int| #[trigger]
        default_stop_at(text, at) <==> exists|k: int|
            0 <= k < default_stops().len() && occurs_at(
                text,
                #[trigger] default_stops()[k],
                at,
            ) by {
        let all = default_stops();
        assert(all[0] == "\n\n"@ && all[1] == "<|fim_"@ && all[2] == "<|endoftext|>"@);
        assert(all[3] == "<|im_end|>"@ && all[4] == "</context>"@);
        assert(all[5] == "<contextAfterCursor>"@);
    }
}

/// One of the texts behind which nothing belongs to a completion stands in
/// `text` at `at`: a fence, or a marker of the prompt or of the context.
pub open spec fn boundary_at(text: Seq<char>, at: int) -> bool {
    ||| occurs_at(text, "```"@, at)
    ||| occurs_at(text, "<|fim_prefix|>"@, at)
    ||| occurs_at(text, "<|fim_suffix|>"@, at)
    ||| occurs_at(text, "<|fim_middle|>"@, at)
    ||| occurs_at(text, "<contextBeforeCursor>"@, at)
    ||| occurs_at(text, "<contextAfterCursor>"@, at)
    ||| occurs_at(text, "<cursorPosition>"@, at)
    ||| occurs_at(text, "</context>"@, at)
}

/// Over-generation is cut at the first fence or marker, and nowhere else.
pub proof fn law_over_generation_is_cut_at_the_first_boundary(text: Seq<char>)
    ensures
        ({
            let kept = cut_at_each(text, boundaries());
            &&& kept.is_prefix_of(text)
            &&& forall|at: int| #[trigger] boundary_at(text, at) ==> kept.len() <= at
            &&& kept.len() == text.len() || boundary_at(text, kept.len() as int)
        }),
{
    law_boundaries_cut_at_the_first(text);
    law_text_is_stopped_at_the_earliest_stop(text, boundaries());
    lemma_earliest_stop(text, boundaries());
    lemma_fixed_texts_are_not_empty();
    lemma_boundary_at(text);
}

proof fn lemma_boundary_at(text: Seq<char>)
    ensures
        forall|at: int| #[trigger]
            boundary_at(text, at) <==> exists|k: int|
                0 <= k < boundaries().len() && occurs_at(text, #[trigger] boundaries()[k], at),
{
    assert forall|at: int| #[trigger]
        boundary_at(text, at) <==> exists|k: int|
            0 <= k < boundaries().len() && occurs_at(text, #[trigger] boundaries()[k], at) by {
        let all = boundaries();
        assert(all[0] == "```"@ && all[1] == "<|fim_prefix|>"@ && all[2] == "<|fim_suffix|>"@);
        assert(all[3] == "<|fim_middle|>"@ && all[4] == "<contextBeforeCursor>"@);
        assert(all[5] == "<contextAfterCursor>"@ && all[6] == "<cursorPosition>"@);
        assert(all[7] == "</context>"@);
    }
}

/// What is left of the raw completion is handed on up to where it is cut: a
/// completion is its front up to a place where a stop or a boundary stands, or
/// all of it, without the white space at the end; and no boundary lies in what
/// the stops leave before that place.
pub proof fn law_cleaned_completion_goes_up_to_its_end(
    raw: Seq<char>,
    prompt: Seq<char>,
    stops: Seq<Seq<char>>,
)
    ensures
        ({
            let left = stripped(raw, prompt);
            let stop_end = cut_at_stops(left, stops).len() as int;
            exists|end: int|
                {
                    &&& 0 <= end <= stop_end <= left.len()
                    &&& cleaned(raw, prompt, stops) == trimmed_end(#[trigger] left.take(end))
                    &&& end == stop_end || boundary_at(left, end)
                    &&& forall|at: int| #[trigger]
                        boundary_at(left.take(stop_end), at) ==> end <= at
                }
        }),
{
    let left = stripped(raw, prompt);
    let front = cut_at_stops(left, stops);
    let stop_end = front.len() as int;
    law_completion_ends_where_a_stop_stands(left, stops);
    law_over_generation_is_cut_at_the_first_boundary(front);
    let end = cut_at_each(front, boundaries()).len() as int;
    assert(front =~= left.take(stop_end));
    assert(cut_at_each(front, boundaries()) =~= left.take(end));
    if end < stop_end {
        assert forall|pattern: Seq<char>| #[trigger] occurs_at(front, pattern, end) implies occurs_at(
            left,
            pattern,
            end,
        ) by {
            assert(front.subrange(end, end + pattern.len()) =~= left.subrange(
                end,
                end + pattern.len(),
            ));
        }
    }
}

/// Letters and digits of ASCII, the underscore and the hyphen can stand in a
/// label, and nothing else; a text is a label where each of its parts is.
pub proof fn law_labels_are_words(c: char, front: Seq<char>, back: Seq<char>)
    ensures
        is_label(seq![c]) <==> 'a' <= c <= 'z' || 'A' <= c <= 'Z' || '0' <= c <= '9' || c == '_'
            || c == '-',
        is_label(Seq::empty()),
        is_label(front + back) <==> is_label(front) && is_label(back),
{
    assert(seq![c][0] == c);
    let whole = front + back;
    if is_label(whole) {
        assert forall|k: int| 0 <= k < front.len() implies label_char(#[trigger] front[k]) by {
            assert(whole[k] == front[k]);
        }
        assert forall|k: int| 0 <= k < back.len() implies label_char(#[trigger] back[k]) by {
            assert(whole[front.len() + k] == back[k]);
        }
    }
}

/// A text that neither starts nor ends with a fence keeps its ends.
pub proof fn law_text_without_fences_is_kept(text: Seq<char>)
    ensures
        !occurs_at(text, "```"@, 0) ==> without_opening_fence(text) == text,
        !occurs_at(text, "```"@, text.len() - 3) ==> without_closing_fence(text) == text,
{
    reveal_strlit("```");
}

/// Behind an opening fence the text follows: without its first line where that
/// line ends and is a label, and else all of it.
pub proof fn law_opening_fence_is_taken_off(line: Seq<char>, body: Seq<char>)
    requires
        forall|k: int| 0 <= k < line.len() ==> #[trigger] line[k] != '\n',
    ensures
        is_label(line) ==> without_opening_fence("```"@ + line + "\n"@ + body) == body,
        !is_label(line) ==> without_opening_fence("```"@ + line + "\n"@ + body) == line + "\n"@
            + body,
        without_opening_fence("```"@ + line) == line,
{
    reveal_strlit("```");
    reveal_strlit("\n");
    let rest = line + "\n"@ + body;
    let text = "```"@ + line + "\n"@ + body;
    assert(text.subrange(0, 3) =~= "```"@);
    assert(text.skip(3) =~= rest);
    let at = line.len() as int;
    assert(rest.subrange(at, at + 1) =~= "\n"@);
    assert forall|k: int| 0 <= k < at implies !occurs_at(rest, "\n"@, k) by {
        assert(rest[k] == line[k]);
        assert(rest.subrange(k, k + 1)[0] == rest[k]);
    }
    lemma_first_at(rest, "\n"@, at);
    assert(rest.take(at) =~= line);
    assert(rest.skip(at + 1) =~= body);
    let alone = "```"@ + line;
    assert(alone.subrange(0, 3) =~= "```"@);
    assert(alone.skip(3) =~= line);
    lemma_first_occurrence(line, "\n"@);
    if occurs(line, "\n"@) {
        let k = choose|k: int| occurs_at(line, "\n"@, k);
        assert(line.subrange(k, k + 1)[0] == line[k]);
    }
}

/// Before a closing fence the text ends, without the one line break that the
/// fence stands behind.
pub proof fn law_closing_fence_is_taken_off(body: Seq<char>)
    ensures
        without_closing_fence(body + "\n```"@) == body,
        body.len() == 0 || body.last() != '\n' ==> without_closing_fence(body + "```"@) == body,
{
    reveal_strlit("```");
    reveal_strlit("\n");
    reveal_strlit("\n```");
    let n = body.len() as int;
    let fenced = body + "\n```"@;
    assert(fenced.subrange(n + 1, n + 4) =~= "```"@);
    let ended = fenced.take(n + 1);
    assert(ended.subrange(n, n + 1) =~= "\n"@);
    assert(ended.take(n) =~= body);
    let bare = body + "```"@;
    assert(bare.subrange(n, n + 3) =~= "```"@);
    assert(bare.take(n) =~= body);
    if occurs_at(body, "\n"@, n - 1) {
        assert(body.subrange(n - 1, n)[0] == body[n - 1]);
    }
}

/// A text that starts with `<`, ends with the only `>` in it, and holds no
/// other `<`.
pub open spec fn is_closed_tag(tag: Seq<char>) -> bool {
    &&& is_tag(tag)
    &&& tag.last() == '>'
    &&& forall|k: int| 0 <= k < tag.len() - 1 ==> tag[k] != '>'
}

/// A front in which no occurrence starts is left alone when a pattern is removed.
proof fn lemma_removal_behind(front: Seq<char>, back: Seq<char>, pattern: Seq<char>)
    requires
        pattern.len() > 0,
        forall|k: int| 0 <= k < front.len() ==> !occurs_at(front + back, pattern, k),
    ensures
        without(front + back, pattern) == front + without(back, pattern),
{
    let text = front + back;
    let n = front.len() as int;
    let width = pattern.len() as int;
    assert forall|k: int| #[trigger] occurs_at(back, pattern, k) <==> 0 <= k && occurs_at(
        text,
        pattern,
        n + k,
    ) by {
        if 0 <= k && k + width <= back.len() {
            assert(text.subrange(n + k, n + k + width) =~= back.subrange(k, k + width));
        }
    }
    lemma_first_occurrence(back, pattern);
    if occurs(back, pattern) {
        let at = first_occurrence(back, pattern)->0;
        assert forall|k: int| 0 <= k < n + at implies !occurs_at(text, pattern, k) by {
            if k >= n {
                assert(!occurs_at(back, pattern, k - n));
            }
        }
        lemma_first_at(text, pattern, n + at);
        assert(text.take(n + at) =~= front + back.take(at));
        assert(text.skip(n + at + width) =~= back.skip(at + width));
        assert(without(text, pattern) =~= front + without(back, pattern));
    } else {
        if occurs(text, pattern) {
            let k = choose|k: int| occurs_at(text, pattern, k);
            assert(occurs_at(back, pattern, k - n));
        }
    }
}

/// Neither in a front without `<` nor in another tag behind it does a tag start.
proof fn lemma_no_tag_starts(front: Seq<char>, marker: Seq<char>, back: Seq<char>, tag: Seq<char>)
    requires
        forall|k: int| 0 <= k < front.len() ==> #[trigger] front[k] != '<',
        is_closed_tag(tag),
    ensures
        forall|k: int| 0 <= k < front.len() ==> !occurs_at(front + back, tag, k),
        is_closed_tag(marker) && marker != tag ==> forall|k: int|
            0 <= k < front.len() + marker.len() ==> !occurs_at(front + marker + back, tag, k),
{
    assert forall|k: int| 0 <= k < front.len() implies !occurs_at(front + back, tag, k) by {
        if occurs_at(front + back, tag, k) {
            assert((front + back).subrange(k, k + tag.len())[0] == front[k]);
        }
    }
    if is_closed_tag(marker) && marker != tag {
        let text = front + marker + back;
        assert forall|k: int| 0 <= k < front.len() + marker.len() implies !occurs_at(
            text,
            tag,
            k,
        ) by {
            if occurs_at(text, tag, k) {
                let n = front.len() as int;
                let stands = text.subrange(k, k + tag.len());
                assert(stands[0] == text[k]);
                if k < n {
                    assert(text[k] == front[k]);
                } else {
                    assert(text[k] == marker[k - n]);
                    assert(k == n);
                    if tag.len() < marker.len() {
                        assert(stands[tag.len() - 1] == marker[tag.len() - 1]);
                    } else if tag.len() > marker.len() {
                        assert(stands[marker.len() - 1] == marker[marker.len() - 1]);
                    } else {
                        assert(stands =~= marker);
                    }
                }
            }
        }
    }
}

/// A front without `<` stays when tags are taken out of a text.
proof fn lemma_front_stays(front: Seq<char>, back: Seq<char>, tags: Seq<Seq<char>>)
    requires
        forall|k: int| 0 <= k < front.len() ==> #[trigger] front[k] != '<',
        forall|k: int| 0 <= k < tags.len() ==> is_closed_tag(#[trigger] tags[k]),
    ensures
        without_each(front + back, tags) == front + without_each(back, tags),
    decreases tags.len(),
{
    if tags.len() > 0 {
        let earlier = tags.drop_last();
        let last = tags[tags.len() - 1];
        assert forall|k: int| 0 <= k < earlier.len() implies is_closed_tag(
            #[trigger] earlier[k],
        ) by {
            assert(earlier[k] == tags[k]);
        }
        lemma_front_stays(front, back, earlier);
        lemma_no_tag_starts(front, last, without_each(back, earlier), last);
        lemma_removal_behind(front, without_each(back, earlier), last);
    }
}

/// So does a tag behind it that is not among those taken out.
proof fn lemma_other_tag_stays(
    front: Seq<char>,
    marker: Seq<char>,
    back: Seq<char>,
    tags: Seq<Seq<char>>,
)
    requires
        forall|k: int| 0 <= k < front.len() ==> #[trigger] front[k] != '<',
        forall|k: int| 0 <= k < tags.len() ==> is_closed_tag(#[trigger] tags[k]),
        is_closed_tag(marker),
        forall|k: int| 0 <= k < tags.len() ==> #[trigger] tags[k] != marker,
    ensures
        without_each(front + marker + back, tags) == front + marker + without_each(back, tags),
    decreases tags.len(),
{
    if tags.len() > 0 {
        let earlier = tags.drop_last();
        let last = tags[tags.len() - 1];
        assert forall|k: int| 0 <= k < earlier.len() implies is_closed_tag(#[trigger] earlier[k])
            && earlier[k] != marker by {
            assert(earlier[k] == tags[k]);
        }
        lemma_other_tag_stays(front, marker, back, earlier);
        lemma_no_tag_starts(front, marker, without_each(back, earlier), last);
        lemma_removal_behind(front + marker, without_each(back, earlier), last);
    }
}

/// A tag behind a front without `<` goes when it is among those taken out.
proof fn lemma_tag_goes(
    front: Seq<char>,
    marker: Seq<char>,
    back: Seq<char>,
    tags: Seq<Seq<char>>,
    among: int,
)
    requires
        forall|k: int| 0 <= k < front.len() ==> #[trigger] front[k] != '<',
        forall|k: int| 0 <= k < tags.len() ==> is_closed_tag(#[trigger] tags[k]),
        0 <= among < tags.len(),
        tags[among] == marker,
        forall|k: int| 0 <= k < among ==> #[trigger] tags[k] != marker,
    ensures
        without_each(front + marker + back, tags) == front + without_each(back, tags),
    decreases tags.len(),
{
    let earlier = tags.drop_last();
    let last = tags[tags.len() - 1];
    let left = without_each(back, earlier);
    assert forall|k: int| 0 <= k < earlier.len() implies is_closed_tag(#[trigger] earlier[k]) by {
        assert(earlier[k] == tags[k]);
    }
    if among < earlier.len() {
        assert(earlier[among] == marker);
        assert forall|k: int| 0 <= k < among implies #[trigger] earlier[k] != marker by {
            assert(earlier[k] == tags[k]);
        }
        lemma_tag_goes(front, marker, back, earlier, among);
        lemma_no_tag_starts(front, last, left, last);
        lemma_removal_behind(front, left, last);
    } else {
        assert forall|k: int| 0 <= k < earlier.len() implies #[trigger] earlier[k] != marker by {
            assert(earlier[k] == tags[k]);
        }
        lemma_other_tag_stays(front, marker, back, earlier);
        let text = front + marker + left;
        let n = front.len() as int;
        assert(front + (marker + left) =~= text);
        lemma_no_tag_starts(front, marker, marker + left, marker);
        assert(text.subrange(n, n + marker.len()) =~= marker);
        lemma_first_at(text, marker, n);
        assert(text.take(n) =~= front);
        assert(text.skip(n + marker.len()) =~= left);
    }
}

/// Echoed markers are taken out and the text around them stays: a marker
/// behind a text without `<` goes, that text stays, and so on in what follows.
/// A text that holds none of the markers stays whole.
pub proof fn law_echoed_markers_are_taken_out(front: Seq<char>, back: Seq<char>)
    requires
        forall|k: int| 0 <= k < front.len() ==> #[trigger] front[k] != '<',
    ensures
        ({
            let left = front + without_each(back, artifacts());
            &&& without_each(front + "<|fim_prefix|>"@ + back, artifacts()) == left
            &&& without_each(front + "<|fim_suffix|>"@ + back, artifacts()) == left
            &&& without_each(front + "<|fim_middle|>"@ + back, artifacts()) == left
            &&& without_each(front + "<contextBeforeCursor>"@ + back, artifacts()) == left
            &&& without_each(front + "<contextAfterCursor>"@ + back, artifacts()) == left
            &&& without_each(front + "<cursorPosition>"@ + back, artifacts()) == left
            &&& without_each(front + "<cursor>"@ + back, artifacts()) == left
            &&& without_each(front + "</cursor>"@ + back, artifacts()) == left
            &&& without_each(front + back, artifacts()) == left
        }),
        without_each(front, artifacts()) == front,
        ({
            &&& !occurs(back, "<|fim_prefix|>"@)
            &&& !occurs(back, "<|fim_suffix|>"@)
            &&& !occurs(back, "<|fim_middle|>"@)
            &&& !occurs(back, "<contextBeforeCursor>"@)
            &&& !occurs(back, "<contextAfterCursor>"@)
            &&& !occurs(back, "<cursorPosition>"@)
            &&& !occurs(back, "<cursor>"@)
            &&& !occurs(back, "</cursor>"@)
        }) ==> without_each(back, artifacts()) == back,
{
    let all = artifacts();
    lemma_artifacts_are_closed_tags();
    lemma_tag_goes(front, all[0], back, all, 0);
    lemma_tag_goes(front, all[1], back, all, 1);
    lemma_tag_goes(front, all[2], back, all, 2);
    lemma_tag_goes(front, all[3], back, all, 3);
    lemma_tag_goes(front, all[4], back, all, 4);
    lemma_tag_goes(front, all[5], back, all, 5);
    lemma_tag_goes(front, all[6], back, all, 6);
    lemma_tag_goes(front, all[7], back, all, 7);
    lemma_front_stays(front, back, all);
    lemma_front_stays(front, Seq::empty(), all);
    assert(front + Seq::<char>::empty() =~= front);
    assert forall|k: int| 0 <= k < all.len() implies !occurs(
        Seq::<char>::empty(),
        #[trigger] all[k],
    ) by {
        assert(is_closed_tag(all[k]));
    }
    law_text_without_patterns_is_kept(Seq::empty(), all);
    if forall|k: int| 0 <= k < all.len() ==> !occurs(back, #[trigger] all[k]) {
        law_text_without_patterns_is_kept(back, all);
    }
}

proof fn lemma_artifacts_are_closed_tags()
    ensures
        artifacts().len() == 8,
        forall|k: int| 0 <= k < 8 ==> is_closed_tag(#[trigger] artifacts()[k]),
        forall|i: int, j: int| 0 <= i < j < 8 ==> #[trigger] artifacts()[i] != #[trigger] artifacts()[j],
{
    reveal_strlit("<|fim_prefix|>");
    reveal_strlit("<|fim_suffix|>");
    reveal_strlit("<|fim_middle|>");
    reveal_strlit("<contextBeforeCursor>");
    reveal_strlit("<contextAfterCursor>");
    reveal_strlit("<cursorPosition>");
    reveal_strlit("<cursor>");
    reveal_strlit("</cursor>");
    // Those of the same length differ in the letter behind the underscore.
    assert("<|fim_prefix|>"@[6] == 'p');
    assert("<|fim_suffix|>"@[6] == 's');
    assert("<|fim_middle|>"@[6] == 'm');
    assert("<contextBeforeCursor>"@.len() == 21);
    assert("<contextAfterCursor>"@.len() == 20);
    assert("<cursorPosition>"@.len() == 16);
    assert("<cursor>"@.len() == 8);
    assert("</cursor>"@.len() == 9);
}

/// What is left of a completion does not depend on the prompt but for what is
/// taken off as a repetition of it: a completion that repeats the prompt
/// leaves what its rest would leave, one that repeats nothing leaves what it
/// would leave without any prompt, and so does what a repetition leaves.
pub proof fn law_only_a_repetition_depends_on_the_prompt(rest: Seq<char>, prompt: Seq<char>)
    ensures
        stripped(prompt + rest, prompt) == stripped(rest, Seq::empty()),
        unrepeated(rest, prompt) == rest ==> stripped(rest, prompt) == stripped(
            rest,
            Seq::empty(),
        ),
        stripped(rest, prompt) == stripped(unrepeated(rest, prompt), Seq::empty()),
{
    law_repeated_prompt_is_stripped(prompt, rest);
    law_repeated_prompt_is_stripped(Seq::empty(), rest);
    assert(Seq::<char>::empty() + rest =~= rest);
    let left = unrepeated(rest, prompt);
    law_repeated_prompt_is_stripped(Seq::empty(), left);
    assert(Seq::<char>::empty() + left =~= left);
}

/// A fenced block leaves its body without the echoed markers in it, a text
/// without fences at its ends leaves itself without them, and any other text
/// leaves what its fences leave of it without them.
pub proof fn law_fences_and_echoes_are_stripped(
    label: Seq<char>,
    body: Seq<char>,
    text: Seq<char>,
)
    requires
        is_label(label),
        !occurs_at(text, "```"@, 0),
        !occurs_at(text, "```"@, text.len() - 3),
    ensures
        stripped("```"@ + label + "\n"@ + body + "\n```"@, Seq::empty()) == without_each(
            body,
            artifacts(),
        ),
        stripped(text, Seq::empty()) == without_each(text, artifacts()),
        forall|other: Seq<char>| #[trigger]
            stripped(other, Seq::empty()) == without_each(
                without_closing_fence(without_opening_fence(other)),
                artifacts(),
            ),
{
    assert forall|other: Seq<char>| #[trigger]
        stripped(other, Seq::empty()) == without_each(
            without_closing_fence(without_opening_fence(other)),
            artifacts(),
        ) by {
        law_repeated_prompt_is_stripped(Seq::empty(), other);
        assert(Seq::<char>::empty() + other =~= other);
    }
    law_fenced_block_gives_its_body(label, body);
    law_text_without_fences_is_kept(text);
    let fenced = "```"@ + label + "\n"@ + body + "\n```"@;
    law_repeated_prompt_is_stripped(Seq::empty(), fenced);
    law_repeated_prompt_is_stripped(Seq::empty(), text);
    assert(Seq::<char>::empty() + fenced =~= fenced);
    assert(Seq::<char>::empty() + text =~= text);
}

/// A completion with one echoed marker in it is handed on without it, cut at
/// the stops of what is then left: a stop that the marker parted counts.
pub proof fn law_completion_around_an_echo_is_cut_afterwards(
    front: Seq<char>,
    back: Seq<char>,
    stops: Seq<Seq<char>>,
)
    requires
        forall|k: int|
            0 <= k < front.len() ==> #[trigger] front[k] != '<' && front[k] != '`',
        forall|k: int| 0 <= k < back.len() ==> #[trigger] back[k] != '<' && back[k] != '`',
    ensures
        cleaned(front + "<cursor>"@ + back, Seq::empty(), stops) == trimmed_end(
            cut_at_stops(front + back, stops),
        ),
        cleaned(front + "<cursorPosition>"@ + back, Seq::empty(), stops) == trimmed_end(
            cut_at_stops(front + back, stops),
        ),
{
    law_echoed_markers_are_taken_out(front, back);
    law_echoed_markers_are_taken_out(back, Seq::empty());
    lemma_unfenced(front, "<cursor>"@, back);
    lemma_unfenced(front, "<cursorPosition>"@, back);
    let with_cursor = front + "<cursor>"@ + back;
    let with_position = front + "<cursorPosition>"@ + back;
    law_fences_and_echoes_are_stripped(Seq::empty(), Seq::empty(), with_cursor);
    law_fences_and_echoes_are_stripped(Seq::empty(), Seq::empty(), with_position);
    let kept = cut_at_stops(front + back, stops);
    law_completion_ends_where_a_stop_stands(front + back, stops);
    law_over_generation_is_cut_at_the_first_boundary(kept);
    lemma_fixed_texts_are_not_empty();
    let bounded = cut_at_each(kept, boundaries());
    let end = bounded.len() as int;
    if end < kept.len() {
        assert(kept[end] == (front + back)[end]);
        assert(kept[end] != '<' && kept[end] != '`');
        lemma_boundary_at(kept);
        let k = choose|k: int|
            0 <= k < boundaries().len() && occurs_at(kept, #[trigger] boundaries()[k], end);
        lemma_boundary_opens(k);
        assert(kept.subrange(end, end + boundaries()[k].len())[0] == kept[end]);
    }
    assert(bounded =~= kept);
}

proof fn lemma_boundary_opens(k: int)
    requires
        0 <= k < boundaries().len(),
    ensures
        boundaries()[k].len() > 0,
        boundaries()[k][0] == '<' || boundaries()[k][0] == '`',
{
    reveal_strlit("```");
    reveal_strlit("<|fim_prefix|>");
    reveal_strlit("<|fim_suffix|>");
    reveal_strlit("<|fim_middle|>");
    reveal_strlit("<contextBeforeCursor>");
    reveal_strlit("<contextAfterCursor>");
    reveal_strlit("<cursorPosition>");
    reveal_strlit("</context>");
}

/// A text without the character of a fence has none at its ends.
proof fn lemma_unfenced(front: Seq<char>, marker: Seq<char>, back: Seq<char>)
    requires
        forall|k: int|
            0 <= k < front.len() ==> #[trigger] front[k] != '<' && front[k] != '`',
        forall|k: int| 0 <= k < back.len() ==> #[trigger] back[k] != '<' && back[k] != '`',
        marker == "<cursor>"@ || marker == "<cursorPosition>"@,
    ensures
        !occurs_at(front + marker + back, "```"@, 0),
        !occurs_at(front + marker + back, "```"@, (front + marker + back).len() - 3),
{
    reveal_strlit("```");
    reveal_strlit("<cursor>");
    reveal_strlit("<cursorPosition>");
    let text = front + marker + back;
    assert forall|k: int| 0 <= k < text.len() implies #[trigger] text[k] != '`' by {
        if k < front.len() {
            assert(text[k] == front[k]);
        } else if k < front.len() + marker.len() {
            assert(text[k] == marker[k - front.len()]);
        } else {
            assert(text[k] == back[k - front.len() - marker.len()]);
        }
    }
    if occurs_at(text, "```"@, 0) {
        assert(text.subrange(0, 3)[0] == text[0]);
    }
    let at = text.len() - 3;
    if occurs_at(text, "```"@, at) {
        assert(text.subrange(at, at + 3)[0] == text[at]);
    }
}

/// The markers are taken out one after the other, those of the prompt first,
/// then those of the context and the cursor: a marker that only comes about
/// when another is taken out goes where its turn is later.
pub proof fn law_markers_are_taken_out_in_turn(text: Seq<char>)
    ensures
        ({
            let unmarked = without(
                without(without(text, "<|fim_prefix|>"@), "<|fim_suffix|>"@),
                "<|fim_middle|>"@,
            );
            let shown = without(
                without(
                    without(unmarked, "<contextBeforeCursor>"@),
                    "<contextAfterCursor>"@,
                ),
                "<cursorPosition>"@,
            );
            without_each(text, artifacts()) == without(without(shown, "<cursor>"@), "</cursor>"@)
        }),
{
    reveal_with_fuel(without_each, 9);
}

} // verus!
