//! The messages that the model is sent.
use crate::fim::{fim_parts, law_marked_texts_are_found, parse_qwen_fim_prompt, unmarked};
use crate::text::{contains, occurs};
use vstd::prelude::*;
use vstd::string::{StrSliceExecFns, StringExecFns};
use vstd::utf8::is_ascii_chars;

verus! {

/// What the model is told to do.
pub const SYSTEM_PROMPT: &'static str =
    "You are a code completion engine. Output only the text to insert at <cursorPosition>. Preserve exact whitespace and indentation. No markdown fences, no explanation, no repetition of context before or after the cursor. Prefer one line or a few lines. If the natural completion is a comment, output only the comment.";

/// The first `max` characters of `text`, or all of it.
pub open spec fn head_of(text: Seq<char>, max: nat) -> Seq<char> {
    if max < text.len() {
        text.take(max as int)
    } else {
        text
    }
}

/// The last `max` characters of `text`, or all of it.
pub open spec fn tail_of(text: Seq<char>, max: nat) -> Seq<char> {
    if max < text.len() {
        text.skip(text.len() - max)
    } else {
        text
    }
}

/// The first `max_chars` characters.
pub fn head(value: &str, max_chars: usize) -> (kept: String)
    ensures
        kept@ == head_of(value@, max_chars as nat),
{
    let len: usize = value.unicode_len();
    if max_chars < len {
        value.substring_char(0, max_chars).to_owned()
    } else {
        value.to_owned()
    }
}

/// The last `max_chars` characters.
pub fn tail(value: &str, max_chars: usize) -> (kept: String)
    ensures
        kept@ == tail_of(value@, max_chars as nat),
{
    let len: usize = value.unicode_len();
    let start: usize = len.saturating_sub(max_chars);
    let kept = value.substring_char(start, len);
    assert(kept@ =~= tail_of(value@, max_chars as nat));
    kept.to_owned()
}

/// The name of the language that a lowercase text is taken to be written in.
pub open spec fn language_of(lower: Seq<char>) -> Seq<char> {
    if occurs(lower, "export default"@) || occurs(lower, "function "@) || occurs(lower, "const "@) {
        "javascript"@
    } else if occurs(lower, "interface "@) || occurs(lower, ": string"@) || occurs(
        lower,
        ": number"@,
    ) {
        "typescript"@
    } else if occurs(lower, "def "@) || occurs(lower, "import "@) {
        "python"@
    } else if occurs(lower, "fn "@) || occurs(lower, "let mut"@) {
        "rust"@
    } else if occurs(lower, "package main"@) || occurs(lower, "func "@) {
        "go"@
    } else {
        "unknown"@
    }
}

/// Guesses the language of a text that is in lower case already.
pub fn language_of_lowercase(lower: &str) -> (language: &'static str)
    ensures
        language@ == language_of(lower@),
{
    if contains(lower, "export default") || contains(lower, "function ") || contains(
        lower,
        "const ",
    ) {
        return "javascript";
    }
    if contains(lower, "interface ") || contains(lower, ": string") || contains(lower, ": number") {
        return "typescript";
    }
    if contains(lower, "def ") || contains(lower, "import ") {
        return "python";
    }
    if contains(lower, "fn ") || contains(lower, "let mut") {
        return "rust";
    }
    if contains(lower, "package main") || contains(lower, "func ") {
        return "go";
    }
    "unknown"
}

/// The lower case of an ASCII character.
pub open spec fn ascii_lower(c: char) -> char {
    if 'A' <= c <= 'Z' {
        ((c as u32 + 32) as u32) as char
    } else {
        c
    }
}

/// A text of ASCII characters in lower case.
pub open spec fn ascii_lowercase(text: Seq<char>) -> Seq<char> {
    text.map_values(|c: char| ascii_lower(c))
}

/// What `str::to_lowercase` makes of a text.
pub uninterp spec fn lowercase(text: Seq<char>) -> Seq<char>;

/// Calls `str::to_lowercase`, which follows Unicode's mapping. The contract
/// names its result, and claims that in a text of ASCII characters alone each
/// letter from `A` to `Z` becomes its lower case and nothing else changes.
#[verifier::external_body]
fn to_lowercase(text: &str) -> (lower: String)
    ensures
        lower@ == lowercase(text@),
        is_ascii_chars(text@) ==> lower@ == ascii_lowercase(text@),
{
    text.to_lowercase()
}

/// Guesses the language from the text before the cursor.
pub fn guess_language_from_prefix(prefix: &str) -> (language: &'static str)
    ensures
        language@ == language_of(lowercase(prefix@)),
        is_ascii_chars(prefix@) ==> language@ == language_of(
            ascii_lowercase(prefix@),
        ),
{
    let lower = to_lowercase(prefix);
    language_of_lowercase(lower.as_str())
}

/// The message that shows the model a language, the text before the cursor
/// and the text after it.
pub open spec fn prompt_text(
    language: Seq<char>,
    before: Seq<char>,
    after: Seq<char>,
) -> Seq<char> {
    "# language: "@ + language + "\n<contextBeforeCursor>\n"@ + before
        + "<cursorPosition>\n<contextAfterCursor>\n"@ + after
}

/// Writes the message for a language, a text before the cursor and a text after it.
pub fn write_prompt(language: &str, before: &str, after: &str) -> (message: String)
    ensures
        message@ == prompt_text(language@, before@, after@),
{
    let mut message = "# language: ".to_owned();
    message.append(language);
    message.append("\n<contextBeforeCursor>\n");
    message.append(before);
    message.append("<cursorPosition>\n<contextAfterCursor>\n");
    message.append(after);
    message
}

/// The text around the cursor that a prompt stands for: its marked parts, or
/// else the whole prompt with nothing behind it; of the first part its last
/// `max_prefix` characters, of the second its first `max_suffix` ones.
pub open spec fn cursor_context(
    prompt: Seq<char>,
    max_prefix: nat,
    max_suffix: nat,
) -> (Seq<char>, Seq<char>) {
    match fim_parts(prompt) {
        Some((before, after)) => (tail_of(before, max_prefix), head_of(after, max_suffix)),
        None => (tail_of(prompt, max_prefix), Seq::empty()),
    }
}

/// Rewrites an editor's prompt into the message that the model is sent.
pub fn build_minuet_style_user_prompt(
    original_prompt: &str,
    max_prefix_chars: usize,
    max_suffix_chars: usize,
) -> (message: String)
    ensures
        ({
            let (before, after) = cursor_context(
                original_prompt@,
                max_prefix_chars as nat,
                max_suffix_chars as nat,
            );
            &&& message@ == prompt_text(language_of(lowercase(before)), before, after)
            &&& is_ascii_chars(before) ==> message@ == prompt_text(
                language_of(ascii_lowercase(before)),
                before,
                after,
            )
        }),
{
    if let Some((prefix, suffix)) = parse_qwen_fim_prompt(original_prompt) {
        let prefix = tail(prefix, max_prefix_chars);
        let suffix = head(suffix, max_suffix_chars);
        let language = guess_language_from_prefix(prefix.as_str());
        return write_prompt(language, prefix.as_str(), suffix.as_str());
    }
    let prefix = tail(original_prompt, max_prefix_chars);
    let language = guess_language_from_prefix(prefix.as_str());
    let nothing = String::new();
    write_prompt(language, prefix.as_str(), nothing.as_str())
}

/// The system message.
pub fn build_system_prompt() -> (message: String)
    ensures
        message@ == SYSTEM_PROMPT@,
{
    SYSTEM_PROMPT.to_owned()
}

/// A message is at most 83 characters longer than the limits on the text that it shows.
pub proof fn law_prompt_is_bounded(prompt: Seq<char>, max_prefix: nat, max_suffix: nat)
    ensures
        ({
            let (before, after) = cursor_context(prompt, max_prefix, max_suffix);
            prompt_text(language_of(lowercase(before)), before, after).len() <= max_prefix
                + max_suffix + 83
        }),
{
    reveal_strlit("# language: ");
    reveal_strlit("\n<contextBeforeCursor>\n");
    reveal_strlit("<cursorPosition>\n<contextAfterCursor>\n");
    reveal_strlit("javascript");
    reveal_strlit("typescript");
    reveal_strlit("python");
    reveal_strlit("rust");
    reveal_strlit("go");
    reveal_strlit("unknown");
}

/// Of the text around the cursor the part next to it is kept: the end of the
/// text before it and the start of the text after it, as much of each as its
/// limit allows. In a prompt that does not tell the two apart the cursor stands
/// at the end: the whole prompt is the text before it, and nothing comes after.
pub proof fn law_context_is_next_to_the_cursor(
    prompt: Seq<char>,
    max_prefix: nat,
    max_suffix: nat,
)
    ensures
        ({
            let (before, after) = match fim_parts(prompt) {
                Some(parts) => parts,
                None => (prompt, Seq::empty()),
            };
            let (near_before, near_after) = cursor_context(prompt, max_prefix, max_suffix);
            &&& near_before.is_suffix_of(before)
            &&& near_after.is_prefix_of(after)
            &&& near_before.len() == if max_prefix < before.len() {
                max_prefix
            } else {
                before.len()
            }
            &&& near_after.len() == if max_suffix < after.len() {
                max_suffix
            } else {
                after.len()
            }
        }),
{
    let (before, after) = match fim_parts(prompt) {
        Some(parts) => parts,
        None => (prompt, Seq::empty()),
    };
    let (near_before, near_after) = cursor_context(prompt, max_prefix, max_suffix);
    assert(near_before =~= before.subrange(before.len() - near_before.len(), before.len() as int));
    assert(near_after =~= after.subrange(0, near_after.len() as int));
}

/// A message shows the two texts whole, and tells the language: its first line
/// is the language, then comes all of the text before the cursor, the cursor,
/// and all of the text after it. There is nothing else in it, so that two
/// messages are the same only where they show the same.
pub proof fn law_message_shows_both_texts(
    language: Seq<char>,
    before: Seq<char>,
    after: Seq<char>,
    other_before: Seq<char>,
    other_after: Seq<char>,
)
    ensures
        ({
            let message = prompt_text(language, before, after);
            let behind = "<cursorPosition>\n<contextAfterCursor>\n"@ + after;
            let front = "\n<contextBeforeCursor>\n"@ + before;
            &&& message.len() == language.len() + before.len() + after.len() + 73
            &&& message.skip(message.len() - behind.len()) == behind
            &&& message.take(message.len() - behind.len()).skip(
                message.len() - behind.len() - front.len(),
            ) == front
            &&& message.take(message.len() - behind.len() - front.len()) == "# language: "@
                + language
        }),
        prompt_text(language, before, after) == prompt_text(language, before, other_after)
            <==> after == other_after,
        prompt_text(language, before, after) == prompt_text(language, other_before, after)
            <==> before == other_before,
{
    reveal_strlit("# language: ");
    reveal_strlit("\n<contextBeforeCursor>\n");
    reveal_strlit("<cursorPosition>\n<contextAfterCursor>\n");
    let message = prompt_text(language, before, after);
    let behind = "<cursorPosition>\n<contextAfterCursor>\n"@ + after;
    let front = "\n<contextBeforeCursor>\n"@ + before;
    let opening = "# language: "@ + language;
    assert(message =~= opening + front + behind);
    assert(message.skip((opening.len() + front.len()) as int) =~= behind);
    assert(message.take((opening.len() + front.len()) as int) =~= opening + front);
    assert((opening + front).skip(opening.len() as int) =~= front);
    assert(message.take(opening.len() as int) =~= opening);
    let with_after = prompt_text(language, before, other_after);
    if message == with_after {
        let n = (opening.len() + front.len() + 38) as int;
        assert(message.skip(n) =~= after);
        assert(with_after.skip(n) =~= other_after);
    }
    let with_before = prompt_text(language, other_before, after);
    if message == with_before {
        let n = (opening.len() + 23) as int;
        assert(message.len() == opening.len() + 23 + before.len() + behind.len());
        assert(with_before.len() == opening.len() + 23 + other_before.len() + behind.len());
        assert(message.subrange(n, n + before.len()) =~= before);
        assert(with_before.subrange(n, n + before.len()) =~= other_before);
    }
}

/// The first characters of a text are its front, the last ones its end: as
/// many as are asked for, or all that there are.
pub proof fn law_head_and_tail_are_the_ends(text: Seq<char>, max: nat)
    ensures
        head_of(text, max).is_prefix_of(text),
        tail_of(text, max).is_suffix_of(text),
        max <= text.len() ==> head_of(text, max).len() == max && tail_of(text, max).len() == max,
        max >= text.len() ==> head_of(text, max) == text && tail_of(text, max) == text,
{
    let n = tail_of(text, max).len();
    assert(head_of(text, max) =~= text.subrange(0, head_of(text, max).len() as int));
    assert(tail_of(text, max) =~= text.subrange(text.len() - n, text.len() as int));
}

/// The texts that an editor marks are the ones that are shown: of the text
/// before the cursor its end, of the text after it its front, each whole where
/// its limit allows it. What stands around the marked texts is not shown.
pub proof fn law_marked_texts_are_shown(
    lead: Seq<char>,
    before: Seq<char>,
    after: Seq<char>,
    rest: Seq<char>,
    max_prefix: nat,
    max_suffix: nat,
)
    requires
        unmarked(lead),
        !occurs(before, "<|fim_suffix|>"@),
        !occurs(before, "<|fim_middle|>"@),
        !occurs(after, "<|fim_middle|>"@),
    ensures
        ({
            let prompt = lead + "<|fim_prefix|>"@ + before + "<|fim_suffix|>"@ + after
                + "<|fim_middle|>"@ + rest;
            let (near_before, near_after) = cursor_context(prompt, max_prefix, max_suffix);
            &&& before.len() <= max_prefix ==> near_before == before
            &&& before.len() > max_prefix ==> near_before == before.subrange(
                before.len() - max_prefix,
                before.len() as int,
            )
            &&& after.len() <= max_suffix ==> near_after == after
            &&& after.len() > max_suffix ==> near_after == after.subrange(0, max_suffix as int)
        }),
{
    law_marked_texts_are_found(lead, before, after, rest);
    if before.len() > max_prefix {
        assert(tail_of(before, max_prefix) =~= before.subrange(
            before.len() - max_prefix,
            before.len() as int,
        ));
    }
    if after.len() > max_suffix {
        assert(head_of(after, max_suffix) =~= after.subrange(0, max_suffix as int));
    }
}

/// A prompt in which a marker is missing is shown as the text before the
/// cursor: its end, as much of it as the limit allows.
pub proof fn law_unmarked_prompt_is_shown(prompt: Seq<char>, max_prefix: nat, max_suffix: nat)
    requires
        !occurs(prompt, "<|fim_prefix|>"@) || !occurs(prompt, "<|fim_suffix|>"@) || !occurs(
            prompt,
            "<|fim_middle|>"@,
        ),
    ensures
        ({
            let (near_before, near_after) = cursor_context(prompt, max_prefix, max_suffix);
            &&& near_after.len() == 0
            &&& prompt.len() <= max_prefix ==> near_before == prompt
            &&& prompt.len() > max_prefix ==> near_before == prompt.subrange(
                prompt.len() - max_prefix,
                prompt.len() as int,
            )
        }),
{
    if prompt.len() > max_prefix {
        assert(tail_of(prompt, max_prefix) =~= prompt.subrange(
            prompt.len() - max_prefix,
            prompt.len() as int,
        ));
    }
}

/// A text is taken for the first language of which it holds a sign: a text
/// with a sign of JavaScript is JavaScript whatever else it holds, then come
/// TypeScript, Python, Rust and Go. One without a sign is of no known language.
pub proof fn law_language_is_told_by_its_signs(lower: Seq<char>)
    ensures
        ({
            let javascript = occurs(lower, "export default"@) || occurs(lower, "function "@)
                || occurs(lower, "const "@);
            let typescript = occurs(lower, "interface "@) || occurs(lower, ": string"@) || occurs(
                lower,
                ": number"@,
            );
            let python = occurs(lower, "def "@) || occurs(lower, "import "@);
            let rust = occurs(lower, "fn "@) || occurs(lower, "let mut"@);
            let go = occurs(lower, "package main"@) || occurs(lower, "func "@);
            &&& javascript <==> language_of(lower) == "javascript"@
            &&& typescript && !javascript <==> language_of(lower) == "typescript"@
            &&& python && !javascript && !typescript <==> language_of(lower) == "python"@
            &&& rust && !javascript && !typescript && !python <==> language_of(lower) == "rust"@
            &&& go && !javascript && !typescript && !python && !rust <==> language_of(lower)
                == "go"@
            &&& !javascript && !typescript && !python && !rust && !go <==> language_of(lower)
                == "unknown"@
        }),
{
    reveal_strlit("javascript");
    reveal_strlit("typescript");
    reveal_strlit("python");
    reveal_strlit("rust");
    reveal_strlit("go");
    reveal_strlit("unknown");
    assert("javascript"@[0] == 'j' && "typescript"@[0] == 't');
    assert("javascript"@ != "typescript"@);
    // No other two of the names have the same length.
    assert("javascript"@.len() == 10 && "typescript"@.len() == 10);
    assert("python"@.len() == 6 && "rust"@.len() == 4);
    assert("go"@.len() == 2 && "unknown"@.len() == 7);
}

/// Lower case changes the letters from `A` to `Z`, each into the same letter,
/// and nothing else; so texts that differ only in case become the same.
pub proof fn law_lower_case_keeps_the_letters(text: Seq<char>, other: Seq<char>)
    ensures
        ascii_lowercase(text).len() == text.len(),
        forall|k: int|
            0 <= k < text.len() && 'A' <= text[k] <= 'Z' ==> (#[trigger] ascii_lowercase(
                text,
            )[k]) as int == text[k] as int + ('a' as int - 'A' as int),
        forall|k: int|
            0 <= k < text.len() && !('A' <= text[k] <= 'Z') ==> (#[trigger] ascii_lowercase(
                text,
            )[k]) == text[k],
        text.len() == other.len() && (forall|k: int|
            0 <= k < text.len() ==> #[trigger] text[k] == other[k] || ('A' <= text[k] <= 'Z'
                && other[k] as int == text[k] as int + 32)) ==> ascii_lowercase(text)
            == ascii_lowercase(other),
{
    if text.len() == other.len() && (forall|k: int|
        0 <= k < text.len() ==> #[trigger] text[k] == other[k] || ('A' <= text[k] <= 'Z'
            && other[k] as int == text[k] as int + 32)) {
        assert forall|k: int| 0 <= k < text.len() implies #[trigger] ascii_lowercase(text)[k]
            == ascii_lowercase(other)[k] by {
            assert(text[k] == other[k] || 'A' <= text[k] <= 'Z');
        }
        assert(ascii_lowercase(text) =~= ascii_lowercase(other));
    }
}

/// The model is told to give the inserted text alone, as it is to stand there:
/// no fences, no explanation, no repetition of the context.
pub proof fn law_system_message_asks_for_the_text_alone()
    ensures
        SYSTEM_PROMPT@ == "You are a code completion engine. "@
            + "Output only the text to insert at <cursorPosition>. "@
            + "Preserve exact whitespace and indentation. "@
            + "No markdown fences, no explanation, no repetition of context before or after the cursor. "@
            + "Prefer one line or a few lines. "@
            + "If the natural completion is a comment, output only the comment."@,
{
    reveal_strlit("You are a code completion engine. Output only the text to insert at <cursorPosition>. Preserve exact whitespace and indentation. No markdown fences, no explanation, no repetition of context before or after the cursor. Prefer one line or a few lines. If the natural completion is a comment, output only the comment.");
    reveal_strlit("You are a code completion engine. ");
    reveal_strlit("Output only the text to insert at <cursorPosition>. ");
    reveal_strlit("Preserve exact whitespace and indentation. ");
    reveal_strlit("No markdown fences, no explanation, no repetition of context before or after the cursor. ");
    reveal_strlit("Prefer one line or a few lines. ");
    reveal_strlit("If the natural completion is a comment, output only the comment.");
}

} // verus!
