//! Fill-in-the-middle prompts.
//!
//! An editor marks the text before the cursor and the text after it with the
//! three markers of the Qwen format.
use crate::text::{find, first_at, first_occurrence, occurs, occurs_at};
use vstd::prelude::*;
use vstd::string::StrSliceExecFns;

verus! {

/// Opens the text before the cursor.
pub const FIM_PREFIX: &'static str = "<|fim_prefix|>";

/// Opens the text after the cursor.
pub const FIM_SUFFIX: &'static str = "<|fim_suffix|>";

/// Closes the text after the cursor.
pub const FIM_MIDDLE: &'static str = "<|fim_middle|>";

/// The text before the cursor and the text after it, where the first
/// occurrences of the three markers stand in their order.
pub open spec fn fim_parts(prompt: Seq<char>) -> Option<(Seq<char>, Seq<char>)> {
    match (
        first_occurrence(prompt, FIM_PREFIX@),
        first_occurrence(prompt, FIM_SUFFIX@),
        first_occurrence(prompt, FIM_MIDDLE@),
    ) {
        (Some(prefix), Some(suffix), Some(middle)) => if prefix < suffix < middle {
            Some(
                (
                    prompt.subrange(prefix + FIM_PREFIX@.len(), suffix),
                    prompt.subrange(suffix + FIM_SUFFIX@.len(), middle),
                ),
            )
        } else {
            None
        },
        _ => None,
    }
}

/// The views of a pair of strings.
pub open spec fn pair_view(pair: Option<(&str, &str)>) -> Option<(Seq<char>, Seq<char>)> {
    match pair {
        Some((first, second)) => Some((first@, second@)),
        None => None,
    }
}

/// A text that starts with `<` and holds no other.
pub open spec fn is_tag(tag: Seq<char>) -> bool {
    &&& tag.len() > 0
    &&& tag[0] == '<'
    &&& forall|k: int| 0 < k < tag.len() ==> tag[k] != '<'
}

pub proof fn lemma_markers_are_tags()
    ensures
        is_tag(FIM_PREFIX@),
        is_tag(FIM_SUFFIX@),
        is_tag(FIM_MIDDLE@),
{
    reveal_strlit("<|fim_prefix|>");
    reveal_strlit("<|fim_suffix|>");
    reveal_strlit("<|fim_middle|>");
}

/// Two tags that stand at different places do not overlap.
proof fn lemma_tags_apart(text: Seq<char>, first: Seq<char>, second: Seq<char>, i: int, j: int)
    requires
        is_tag(first),
        is_tag(second),
        occurs_at(text, first, i),
        occurs_at(text, second, j),
        i < j,
    ensures
        i + first.len() <= j,
{
    if j < i + first.len() {
        assert(text.subrange(i, i + first.len())[j - i] == text[j]);
        assert(text.subrange(j, j + second.len())[0] == text[j]);
    }
}

/// Parts a fill-in-the-middle prompt into the text before the cursor and the
/// text after it.
pub fn parse_qwen_fim_prompt(prompt: &str) -> (parts: Option<(&str, &str)>)
    ensures
        pair_view(parts) == fim_parts(prompt@),
{
    proof {
        lemma_markers_are_tags();
        crate::text::lemma_first_occurrence(prompt@, FIM_PREFIX@);
        crate::text::lemma_first_occurrence(prompt@, FIM_SUFFIX@);
        crate::text::lemma_first_occurrence(prompt@, FIM_MIDDLE@);
    }
    let prefix_start: usize = match find(prompt, FIM_PREFIX) {
        Some(at) => at,
        None => return None,
    };
    let suffix_start: usize = match find(prompt, FIM_SUFFIX) {
        Some(at) => at,
        None => return None,
    };
    let middle_start: usize = match find(prompt, FIM_MIDDLE) {
        Some(at) => at,
        None => return None,
    };
    if !(prefix_start < suffix_start && suffix_start < middle_start) {
        return None;
    }
    proof {
        lemma_tags_apart(prompt@, FIM_PREFIX@, FIM_SUFFIX@, prefix_start as int, suffix_start as int);
        lemma_tags_apart(prompt@, FIM_SUFFIX@, FIM_MIDDLE@, suffix_start as int, middle_start as int);
    }
    let prefix = prompt.substring_char(prefix_start + FIM_PREFIX.unicode_len(), suffix_start);
    let suffix = prompt.substring_char(suffix_start + FIM_SUFFIX.unicode_len(), middle_start);
    Some((prefix, suffix))
}

/// The prompt that marks `before` and `after`.
pub open spec fn fim_prompt(before: Seq<char>, after: Seq<char>) -> Seq<char> {
    FIM_PREFIX@ + before + FIM_SUFFIX@ + after + FIM_MIDDLE@
}

/// Parsing gives back what was marked: the parts of a prompt made of a text
/// before the cursor and a text after it are these two texts, provided that
/// neither holds a marker that would be read in place of the one that ends it.
pub proof fn law_parse_inverts_marking(before: Seq<char>, after: Seq<char>)
    requires
        !occurs(before, FIM_SUFFIX@),
        !occurs(before, FIM_MIDDLE@),
        !occurs(after, FIM_MIDDLE@),
    ensures
        fim_parts(fim_prompt(before, after)) == Some((before, after)),
{
    lemma_markers_are_tags();
    reveal_strlit("<|fim_prefix|>");
    reveal_strlit("<|fim_suffix|>");
    reveal_strlit("<|fim_middle|>");
    // The markers differ in the letter behind the underscore.
    assert(FIM_PREFIX@[6] == 'p' && FIM_SUFFIX@[6] == 's' && FIM_MIDDLE@[6] == 'm');
    let prompt = fim_prompt(before, after);
    let n = FIM_PREFIX@.len() as int;
    let s = n + before.len();
    let m = s + FIM_SUFFIX@.len() + after.len();
    assert(prompt.subrange(0, n) =~= FIM_PREFIX@);
    assert(prompt.subrange(s, s + FIM_SUFFIX@.len()) =~= FIM_SUFFIX@);
    assert(prompt.subrange(m, m + FIM_MIDDLE@.len()) =~= FIM_MIDDLE@);
    let front = FIM_PREFIX@ + before + FIM_SUFFIX@;
    let back = FIM_SUFFIX@ + after + FIM_MIDDLE@;
    assert(prompt.subrange(0, front.len() as int) =~= front);
    assert(prompt.subrange(s, s + back.len()) =~= back);
    crate::text::lemma_first_at(prompt, FIM_PREFIX@, 0);
    assert forall|k: int| 0 <= k < s implies !occurs_at(prompt, FIM_SUFFIX@, k) by {
        lemma_not_at(prompt, FIM_PREFIX@, before, FIM_SUFFIX@, FIM_SUFFIX@, 0, k);
    }
    crate::text::lemma_first_at(prompt, FIM_SUFFIX@, s);
    assert forall|k: int| 0 <= k < m implies !occurs_at(prompt, FIM_MIDDLE@, k) by {
        if k < s {
            lemma_not_at(prompt, FIM_PREFIX@, before, FIM_SUFFIX@, FIM_MIDDLE@, 0, k);
        } else {
            lemma_not_at(prompt, FIM_SUFFIX@, after, FIM_MIDDLE@, FIM_MIDDLE@, s, k);
        }
    }
    crate::text::lemma_first_at(prompt, FIM_MIDDLE@, m);
    assert(prompt.subrange(n, s) =~= before);
    assert(prompt.subrange(s + FIM_SUFFIX@.len(), m) =~= after);
}

/// Where `open + inner + close` stands in a text, a tag that `inner` does not
/// hold, and that is not `open`, does not start inside `open` or `inner`.
proof fn lemma_not_at(
    text: Seq<char>,
    open: Seq<char>,
    inner: Seq<char>,
    close: Seq<char>,
    tag: Seq<char>,
    at: int,
    k: int,
)
    requires
        is_tag(open),
        is_tag(close),
        is_tag(tag),
        occurs_at(text, open + inner + close, at),
        at <= k < at + open.len() + inner.len(),
        open.len() == tag.len(),
        open != tag,
        !occurs(inner, tag),
    ensures
        !occurs_at(text, tag, k),
{
    if occurs_at(text, tag, k) {
        let whole = open + inner + close;
        assert(forall|j: int| 0 <= j < whole.len() ==> #[trigger] text.subrange(at, at + whole.len())[j] == text[at + j]);
        assert(forall|j: int| 0 <= j < whole.len() ==> #[trigger] whole[j] == text[at + j]);
        assert(text.subrange(k, k + tag.len())[0] == text[k]);
        if k < at + open.len() {
            assert(whole[k - at] == open[k - at]);
            assert(k == at);
            assert(text.subrange(k, k + tag.len()) =~= open);
        } else {
            let start = k - at - open.len();
            let end = at + open.len() + inner.len();
            if end < k + tag.len() {
                assert(whole[end - at] == close[0]);
                assert(text.subrange(k, k + tag.len())[end - k] == text[end]);
            } else {
                assert forall|j: int| 0 <= j < tag.len() implies inner[start + j] == tag[j] by {
                    assert(whole[open.len() + start + j] == inner[start + j]);
                    assert(text.subrange(k, k + tag.len())[j] == text[k + j]);
                }
                assert(inner.subrange(start, start + tag.len()) =~= tag);
                assert(occurs_at(inner, tag, start));
            }
        }
    }
}

/// The parts of a prompt stand in it, each between its two markers, and none
/// of them holds the marker that ends it.
pub proof fn law_parts_stand_in_prompt(prompt: Seq<char>)
    requires
        fim_parts(prompt) is Some,
    ensures
        ({
            let (before, after) = fim_parts(prompt)->0;
            &&& occurs(prompt, fim_prompt(before, after))
            &&& !occurs(before, FIM_SUFFIX@)
            &&& !occurs(before, FIM_MIDDLE@)
            &&& !occurs(after, FIM_MIDDLE@)
        }),
{
    lemma_markers_are_tags();
    crate::text::lemma_first_occurrence(prompt, FIM_PREFIX@);
    crate::text::lemma_first_occurrence(prompt, FIM_SUFFIX@);
    crate::text::lemma_first_occurrence(prompt, FIM_MIDDLE@);
    let (before, after) = fim_parts(prompt)->0;
    let p = first_occurrence(prompt, FIM_PREFIX@)->0;
    let s = first_occurrence(prompt, FIM_SUFFIX@)->0;
    let m = first_occurrence(prompt, FIM_MIDDLE@)->0;
    lemma_tags_apart(prompt, FIM_PREFIX@, FIM_SUFFIX@, p, s);
    lemma_tags_apart(prompt, FIM_SUFFIX@, FIM_MIDDLE@, s, m);
    let whole = fim_prompt(before, after);
    assert(prompt.subrange(p, m + FIM_MIDDLE@.len()) =~= prompt.subrange(p, p + FIM_PREFIX@.len())
        + before + prompt.subrange(s, s + FIM_SUFFIX@.len()) + after + prompt.subrange(
        m,
        m + FIM_MIDDLE@.len(),
    ));
    assert(occurs_at(prompt, whole, p));
    lemma_free_before(prompt, FIM_SUFFIX@, p + FIM_PREFIX@.len(), s, s);
    lemma_free_before(prompt, FIM_MIDDLE@, p + FIM_PREFIX@.len(), s, m);
    lemma_free_before(prompt, FIM_MIDDLE@, s + FIM_SUFFIX@.len(), m, m);
}

/// Nothing before its first occurrence holds a marker.
proof fn lemma_free_before(text: Seq<char>, marker: Seq<char>, from: int, to: int, first: int)
    requires
        first_at(text, marker, first),
        marker.len() > 0,
        0 <= from <= to <= first,
    ensures
        !occurs(text.subrange(from, to), marker),
{
    let part = text.subrange(from, to);
    if occurs(part, marker) {
        let at = choose|at: int| occurs_at(part, marker, at);
        assert(part.subrange(at, at + marker.len()) =~= text.subrange(
            from + at,
            from + at + marker.len(),
        ));
        assert(occurs_at(text, marker, from + at));
    }
}

/// A text holds none of the three markers.
pub open spec fn unmarked(text: Seq<char>) -> bool {
    &&& !occurs(text, "<|fim_prefix|>"@)
    &&& !occurs(text, "<|fim_suffix|>"@)
    &&& !occurs(text, "<|fim_middle|>"@)
}

/// Parsing gives back what was marked wherever it stands: what comes before
/// the marked texts, as long as it holds no marker itself, and whatever comes
/// after them do not matter.
pub proof fn law_marked_texts_are_found(
    lead: Seq<char>,
    before: Seq<char>,
    after: Seq<char>,
    rest: Seq<char>,
)
    requires
        unmarked(lead),
        !occurs(before, "<|fim_suffix|>"@),
        !occurs(before, "<|fim_middle|>"@),
        !occurs(after, "<|fim_middle|>"@),
    ensures
        fim_parts(
            lead + "<|fim_prefix|>"@ + before + "<|fim_suffix|>"@ + after + "<|fim_middle|>"@
                + rest,
        ) == Some((before, after)),
{
    lemma_markers_are_tags();
    reveal_strlit("<|fim_prefix|>");
    reveal_strlit("<|fim_suffix|>");
    reveal_strlit("<|fim_middle|>");
    assert(FIM_PREFIX@[6] == 'p' && FIM_SUFFIX@[6] == 's' && FIM_MIDDLE@[6] == 'm');
    let prompt = lead + FIM_PREFIX@ + before + FIM_SUFFIX@ + after + FIM_MIDDLE@ + rest;
    let p = lead.len() as int;
    let n = p + FIM_PREFIX@.len();
    let s = n + before.len();
    let m = s + FIM_SUFFIX@.len() + after.len();
    assert(prompt.subrange(p, n) =~= FIM_PREFIX@);
    assert(prompt.subrange(s, s + FIM_SUFFIX@.len()) =~= FIM_SUFFIX@);
    assert(prompt.subrange(m, m + FIM_MIDDLE@.len()) =~= FIM_MIDDLE@);
    let front = FIM_PREFIX@ + before + FIM_SUFFIX@;
    let back = FIM_SUFFIX@ + after + FIM_MIDDLE@;
    assert(prompt.subrange(p, p + front.len()) =~= front);
    assert(prompt.subrange(s, s + back.len()) =~= back);
    assert(prompt.take(p) =~= lead);
    assert forall|k: int| 0 <= k < p implies !occurs_at(prompt, FIM_PREFIX@, k) by {
        lemma_not_before(prompt, FIM_PREFIX@, FIM_PREFIX@, p, k);
    }
    crate::text::lemma_first_at(prompt, FIM_PREFIX@, p);
    assert forall|k: int| 0 <= k < s implies !occurs_at(prompt, FIM_SUFFIX@, k) by {
        if k < p {
            lemma_not_before(prompt, FIM_PREFIX@, FIM_SUFFIX@, p, k);
        } else {
            lemma_not_at(prompt, FIM_PREFIX@, before, FIM_SUFFIX@, FIM_SUFFIX@, p, k);
        }
    }
    crate::text::lemma_first_at(prompt, FIM_SUFFIX@, s);
    assert forall|k: int| 0 <= k < m implies !occurs_at(prompt, FIM_MIDDLE@, k) by {
        if k < p {
            lemma_not_before(prompt, FIM_PREFIX@, FIM_MIDDLE@, p, k);
        } else if k < s {
            lemma_not_at(prompt, FIM_PREFIX@, before, FIM_SUFFIX@, FIM_MIDDLE@, p, k);
        } else {
            lemma_not_at(prompt, FIM_SUFFIX@, after, FIM_MIDDLE@, FIM_MIDDLE@, s, k);
        }
    }
    crate::text::lemma_first_at(prompt, FIM_MIDDLE@, m);
    assert(prompt.subrange(n, s) =~= before);
    assert(prompt.subrange(s + FIM_SUFFIX@.len(), m) =~= after);
}

/// A tag does not start before a place where another one stands, unless it
/// stands in the text up to there.
proof fn lemma_not_before(text: Seq<char>, open: Seq<char>, tag: Seq<char>, at: int, k: int)
    requires
        is_tag(open),
        is_tag(tag),
        occurs_at(text, open, at),
        0 <= k < at,
        !occurs(text.take(at), tag),
    ensures
        !occurs_at(text, tag, k),
{
    if occurs_at(text, tag, k) {
        lemma_tags_apart(text, tag, open, k, at);
        assert(text.take(at).subrange(k, k + tag.len()) =~= text.subrange(k, k + tag.len()));
        assert(occurs_at(text.take(at), tag, k));
    }
}

/// Only marked texts are found: a prompt that has parts is made of them and of
/// the three markers, with nothing marked before them.
pub proof fn law_only_marked_texts_are_found(prompt: Seq<char>)
    requires
        fim_parts(prompt) is Some,
    ensures
        ({
            let (before, after) = fim_parts(prompt)->0;
            &&& !occurs(before, "<|fim_suffix|>"@)
            &&& !occurs(before, "<|fim_middle|>"@)
            &&& !occurs(after, "<|fim_middle|>"@)
            &&& exists|lead: Seq<char>, rest: Seq<char>|
                unmarked(lead) && prompt == #[trigger] (lead + "<|fim_prefix|>"@ + before
                    + "<|fim_suffix|>"@ + after + "<|fim_middle|>"@ + rest)
        }),
{
    law_parts_stand_in_prompt(prompt);
    lemma_markers_are_tags();
    crate::text::lemma_first_occurrence(prompt, FIM_PREFIX@);
    crate::text::lemma_first_occurrence(prompt, FIM_SUFFIX@);
    crate::text::lemma_first_occurrence(prompt, FIM_MIDDLE@);
    let (before, after) = fim_parts(prompt)->0;
    let p = first_occurrence(prompt, FIM_PREFIX@)->0;
    let s = first_occurrence(prompt, FIM_SUFFIX@)->0;
    let m = first_occurrence(prompt, FIM_MIDDLE@)->0;
    lemma_tags_apart(prompt, FIM_PREFIX@, FIM_SUFFIX@, p, s);
    lemma_tags_apart(prompt, FIM_SUFFIX@, FIM_MIDDLE@, s, m);
    let lead = prompt.subrange(0, p);
    let rest = prompt.skip(m + FIM_MIDDLE@.len());
    lemma_free_before(prompt, FIM_PREFIX@, 0, p, p);
    lemma_free_before(prompt, FIM_SUFFIX@, 0, p, s);
    lemma_free_before(prompt, FIM_MIDDLE@, 0, p, m);
    assert(prompt =~= lead + prompt.subrange(p, p + FIM_PREFIX@.len()) + before + prompt.subrange(
        s,
        s + FIM_SUFFIX@.len(),
    ) + after + prompt.subrange(m, m + FIM_MIDDLE@.len()) + rest);
    assert(prompt == lead + "<|fim_prefix|>"@ + before + "<|fim_suffix|>"@ + after
        + "<|fim_middle|>"@ + rest);
}

} // verus!
