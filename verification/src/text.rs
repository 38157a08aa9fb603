//! Searching, cutting and trimming text.
//!
//! A string is modelled by the sequence of its characters. Positions are
//! counted in characters.
use vstd::prelude::*;
use vstd::string::{StrSliceExecFns, StringExecFns};

verus! {

/// `pattern` stands in `text` from position `at` on.
pub open spec fn occurs_at(text: Seq<char>, pattern: Seq<char>, at: int) -> bool {
    &&& 0 <= at
    &&& at + pattern.len() <= text.len()
    &&& text.subrange(at, at + pattern.len()) == pattern
}

/// `pattern` stands somewhere in `text`.
pub open spec fn occurs(text: Seq<char>, pattern: Seq<char>) -> bool {
    exists|at: int| occurs_at(text, pattern, at)
}

/// `at` is the first position from which `pattern` stands in `text`.
pub open spec fn first_at(text: Seq<char>, pattern: Seq<char>, at: int) -> bool {
    &&& occurs_at(text, pattern, at)
    &&& forall|k: int| 0 <= k < at ==> !occurs_at(text, pattern, k)
}

/// The first position from which `pattern` stands in `text`, if there is one.
pub open spec fn first_occurrence(text: Seq<char>, pattern: Seq<char>) -> Option<int> {
    if occurs(text, pattern) {
        Some(choose|at: int| first_at(text, pattern, at))
    } else {
        None
    }
}

/// A position that is first is the one that `first_occurrence` names.
pub proof fn lemma_first_at(text: Seq<char>, pattern: Seq<char>, at: int)
    requires
        first_at(text, pattern, at),
    ensures
        first_occurrence(text, pattern) == Some(at),
{
    assert(occurs_at(text, pattern, at));
    let other = choose|k: int| first_at(text, pattern, k);
    assert(first_at(text, pattern, other));
    if other < at {
        assert(occurs_at(text, pattern, other));
    }
    if at < other {
        assert(occurs_at(text, pattern, at));
    }
}

/// Where a pattern occurs at all, it occurs somewhere first.
pub proof fn lemma_first_occurrence(text: Seq<char>, pattern: Seq<char>)
    ensures
        match first_occurrence(text, pattern) {
            Some(at) => first_at(text, pattern, at),
            None => !occurs(text, pattern),
        },
{
    if occurs(text, pattern) {
        let at = choose|at: int| occurs_at(text, pattern, at);
        let first = lemma_earliest(text, pattern, at);
        lemma_first_at(text, pattern, first);
    }
}

proof fn lemma_earliest(text: Seq<char>, pattern: Seq<char>, at: int) -> (first: int)
    requires
        occurs_at(text, pattern, at),
    ensures
        first_at(text, pattern, first),
    decreases at,
{
    if exists|k: int| 0 <= k < at && occurs_at(text, pattern, k) {
        let k = choose|k: int| 0 <= k < at && occurs_at(text, pattern, k);
        lemma_earliest(text, pattern, k)
    } else {
        at
    }
}

/// The characters of a string.
pub(crate) fn chars_of(s: &str) -> (chars: Vec<char>)
    ensures
        chars@ == s@,
{
    let mut chars: Vec<char> = Vec::new();
    for c in it: s.chars()
        invariant
            chars@ == it.seq().take(it.index() as int),
            it.seq() == s@,
    {
        chars.push(c);
    }
    chars
}

fn stands_at(text: &Vec<char>, pattern: &Vec<char>, at: usize) -> (yes: bool)
    requires
        at + pattern@.len() <= text@.len(),
    ensures
        yes == occurs_at(text@, pattern@, at as int),
{
    let end: usize = text.len();
    let mut k: usize = 0;
    while k < pattern.len()
        invariant
            k <= pattern@.len(),
            end == text@.len(),
            at + pattern@.len() <= end,
            forall|j: int| 0 <= j < k ==> text@[at + j] == pattern@[j],
        decreases pattern@.len() - k,
    {
        if text[at + k] != pattern[k] {
            assert(text@.subrange(at as int, at + pattern@.len())[k as int] != pattern@[k as int]);
            return false;
        }
        k += 1;
    }
    assert(text@.subrange(at as int, at + pattern@.len()) =~= pattern@);
    true
}

/// The first position from which `pattern` stands in `text`.
pub(crate) fn find(text: &str, pattern: &str) -> (at: Option<usize>)
    ensures
        match at {
            Some(at) => first_occurrence(text@, pattern@) == Some(at as int),
            None => first_occurrence(text@, pattern@) is None,
        },
{
    let chars = chars_of(text);
    let wanted = chars_of(pattern);
    if wanted.len() > chars.len() {
        return None;
    }
    let last: usize = chars.len() - wanted.len();
    let mut at: usize = 0;
    loop
        invariant
            chars@ == text@,
            wanted@ == pattern@,
            at <= last,
            last + wanted@.len() == chars@.len(),
            forall|k: int| 0 <= k < at ==> !occurs_at(text@, pattern@, k),
        decreases last - at,
    {
        if stands_at(&chars, &wanted, at) {
            proof {
                lemma_first_at(text@, pattern@, at as int);
            }
            return Some(at);
        }
        if at == last {
            return None;
        }
        at += 1;
    }
}


/// Whether `pattern` stands somewhere in `text`.
pub(crate) fn contains(text: &str, pattern: &str) -> (yes: bool)
    ensures
        yes == occurs(text@, pattern@),
{
    proof {
        lemma_first_occurrence(text@, pattern@);
    }
    find(text, pattern).is_some()
}

/// What stands before the first occurrence of `pattern`; the whole text where there is none.
pub open spec fn before_first(text: Seq<char>, pattern: Seq<char>) -> Seq<char> {
    match first_occurrence(text, pattern) {
        Some(at) => text.take(at),
        None => text,
    }
}

/// What stands before the first occurrence of `pattern`; the whole text where there is none.
pub(crate) fn cut_before<'a>(text: &'a str, pattern: &str) -> (kept: &'a str)
    ensures
        kept@ == before_first(text@, pattern@),
{
    proof {
        lemma_first_occurrence(text@, pattern@);
    }
    match find(text, pattern) {
        Some(at) => text.substring_char(0, at),
        None => text,
    }
}

/// What is left of `text` once `prefix` is taken off its front, if it starts so.
pub open spec fn after_prefix(text: Seq<char>, prefix: Seq<char>) -> Option<Seq<char>> {
    if occurs_at(text, prefix, 0) {
        Some(text.skip(prefix.len() as int))
    } else {
        None
    }
}

/// What is left of `text` once `suffix` is taken off its end, if it ends so.
pub open spec fn before_suffix(text: Seq<char>, suffix: Seq<char>) -> Option<Seq<char>> {
    if occurs_at(text, suffix, text.len() - suffix.len()) {
        Some(text.take(text.len() - suffix.len()))
    } else {
        None
    }
}

/// The view of an optional string.
pub open spec fn opt_view(s: Option<&str>) -> Option<Seq<char>> {
    match s {
        Some(s) => Some(s@),
        None => None,
    }
}

/// Takes `prefix` off the front of `text`.
pub(crate) fn strip_prefix<'a>(text: &'a str, prefix: &str) -> (rest: Option<&'a str>)
    ensures
        opt_view(rest) == after_prefix(text@, prefix@),
{
    let chars = chars_of(text);
    let wanted = chars_of(prefix);
    if wanted.len() <= chars.len() && stands_at(&chars, &wanted, 0) {
        let rest = text.substring_char(wanted.len(), chars.len());
        assert(rest@ =~= text@.skip(prefix@.len() as int));
        Some(rest)
    } else {
        None
    }
}

/// Takes `suffix` off the end of `text`.
pub(crate) fn strip_suffix<'a>(text: &'a str, suffix: &str) -> (rest: Option<&'a str>)
    ensures
        opt_view(rest) == before_suffix(text@, suffix@),
{
    let chars = chars_of(text);
    let wanted = chars_of(suffix);
    if wanted.len() <= chars.len() && stands_at(&chars, &wanted, chars.len() - wanted.len()) {
        let rest = text.substring_char(0, chars.len() - wanted.len());
        assert(rest@ =~= text@.take(text@.len() - suffix@.len()));
        Some(rest)
    } else {
        None
    }
}

/// `text` without any of the occurrences of `pattern` that a single pass from
/// left to right meets.
pub open spec fn without(text: Seq<char>, pattern: Seq<char>) -> Seq<char>
    decreases text.len(),
{
    match first_occurrence(text, pattern) {
        Some(at) => if 0 < pattern.len() && 0 <= at && at + pattern.len() <= text.len() {
            text.take(at) + without(text.skip(at + pattern.len()), pattern)
        } else {
            text
        },
        None => text,
    }
}

/// Removes the occurrences of `pattern`, in a single pass from left to right.
pub(crate) fn remove_all(text: &str, pattern: &str) -> (left: String)
    requires
        pattern@.len() > 0,
    ensures
        left@ == without(text@, pattern@),
{
    let width: usize = pattern.unicode_len();
    let mut left = String::new();
    let mut rest = text;
    loop
        invariant
            width == pattern@.len(),
            width > 0,
            left@ + without(rest@, pattern@) == without(text@, pattern@),
        decreases rest@.len(),
    {
        proof {
            lemma_first_occurrence(rest@, pattern@);
        }
        match find(rest, pattern) {
            Some(at) => {
                let end: usize = rest.unicode_len();
                let ghost tail = rest@.skip(at + width);
                left.append(rest.substring_char(0, at));
                rest = rest.substring_char(at + width, end);
                assert(rest@ =~= tail);
            },
            None => {
                left.append(rest);
                return left;
            },
        }
    }
}

/// The characters with the Unicode property `White_Space`.
pub open spec fn white_space(c: char) -> bool {
    let u = c as u32;
    ||| 0x09 <= u <= 0x0d
    ||| u == 0x20
    ||| u == 0x85
    ||| u == 0xa0
    ||| u == 0x1680
    ||| 0x2000 <= u <= 0x200a
    ||| u == 0x2028
    ||| u == 0x2029
    ||| u == 0x202f
    ||| u == 0x205f
    ||| u == 0x3000
}

/// Whether a character is white space.
fn is_white_space(c: char) -> (yes: bool)
    ensures
        yes == white_space(c),
{
    let u: u32 = c as u32;
    (0x09 <= u && u <= 0x0d) || u == 0x20 || u == 0x85 || u == 0xa0 || u == 0x1680 || (0x2000 <= u
        && u <= 0x200a) || u == 0x2028 || u == 0x2029 || u == 0x202f || u == 0x205f || u == 0x3000
}

/// `text` without the white space at its end.
pub open spec fn trimmed_end(text: Seq<char>) -> Seq<char>
    decreases text.len(),
{
    if text.len() > 0 && white_space(text.last()) {
        trimmed_end(text.drop_last())
    } else {
        text
    }
}

/// `text` without the white space at its front.
pub open spec fn trimmed_start(text: Seq<char>) -> Seq<char>
    decreases text.len(),
{
    if text.len() > 0 && white_space(text[0]) {
        trimmed_start(text.drop_first())
    } else {
        text
    }
}

/// Takes off the white space at the end.
pub(crate) fn trim_end(text: &str) -> (kept: &str)
    ensures
        kept@ == trimmed_end(text@),
{
    let chars = chars_of(text);
    let mut end: usize = chars.len();
    assert(text@.take(end as int) =~= text@);
    while end > 0 && is_white_space(chars[end - 1])
        invariant
            chars@ == text@,
            end <= chars@.len(),
            trimmed_end(text@.take(end as int)) == trimmed_end(text@),
        decreases end,
    {
        assert(text@.take(end as int).drop_last() =~= text@.take(end - 1));
        end -= 1;
    }
    text.substring_char(0, end)
}

/// Takes off the white space at the front.
pub(crate) fn trim_start(text: &str) -> (kept: &str)
    ensures
        kept@ == trimmed_start(text@),
{
    let chars = chars_of(text);
    let mut start: usize = 0;
    assert(text@.skip(0) =~= text@);
    while start < chars.len() && is_white_space(chars[start])
        invariant
            chars@ == text@,
            start <= chars@.len(),
            trimmed_start(text@.skip(start as int)) == trimmed_start(text@),
        decreases chars@.len() - start,
    {
        assert(text@.skip(start as int).drop_first() =~= text@.skip(start + 1));
        start += 1;
    }
    let kept = text.substring_char(start, chars.len());
    assert(kept@ =~= text@.skip(start as int));
    kept
}

/// Whether two strings hold the same text.
pub(crate) fn same_text(a: &str, b: &str) -> (yes: bool)
    ensures
        yes == (a@ == b@),
{
    let left = chars_of(a);
    let right = chars_of(b);
    if left.len() != right.len() {
        return false;
    }
    let yes = stands_at(&left, &right, 0);
    assert(a@.subrange(0, a@.len() as int) =~= a@);
    yes
}

/// A pattern stands where it was put, and wherever it stands, the text is what
/// comes before it, the pattern, and what comes after it.
pub proof fn law_standing_is_being_put_there(text: Seq<char>, pattern: Seq<char>, at: int)
    ensures
        occurs_at(text, pattern, at) <==> 0 <= at && at + pattern.len() <= text.len() && text
            == text.take(at) + pattern + text.skip(at + pattern.len()),
        forall|front: Seq<char>, back: Seq<char>|
            occurs_at(
                #[trigger] (front + pattern + back),
                pattern,
                front.len() as int,
            ),
        forall|front: Seq<char>, back: Seq<char>|
            occurs(#[trigger] (front + pattern + back), pattern),
{
    if 0 <= at && at + pattern.len() <= text.len() {
        let parted = text.take(at) + pattern + text.skip(at + pattern.len());
        if text == parted {
            assert(parted.subrange(at, at + pattern.len()) =~= pattern);
        }
        if occurs_at(text, pattern, at) {
            assert(text =~= text.take(at) + text.subrange(at, at + pattern.len()) + text.skip(
                at + pattern.len(),
            ));
        }
    }
    assert forall|front: Seq<char>, back: Seq<char>|
        occurs_at(#[trigger] (front + pattern + back), pattern, front.len() as int) by {
        let whole = front + pattern + back;
        let n = front.len() as int;
        assert(whole.subrange(n, n + pattern.len()) =~= pattern);
    }
    assert forall|front: Seq<char>, back: Seq<char>|
        occurs(#[trigger] (front + pattern + back), pattern) by {
        assert(occurs_at(front + pattern + back, pattern, front.len() as int));
    }
}

/// A text that a pattern was put into, so that it stands nowhere earlier, is
/// cut right before it; a text in which it stands nowhere is not cut.
pub proof fn law_search_finds_the_earliest(front: Seq<char>, pattern: Seq<char>, back: Seq<char>)
    ensures
        ({
            let text = front + pattern + back;
            (forall|k: int|
                0 <= k < front.len() ==> #[trigger] text.subrange(k, k + pattern.len()) != pattern)
                ==> {
                &&& first_occurrence(text, pattern) == Some(front.len() as int)
                &&& before_first(text, pattern) == front
            }
        }),
        (forall|k: int|
            0 <= k <= back.len() - pattern.len() ==> #[trigger] back.subrange(
                k,
                k + pattern.len(),
            ) != pattern) ==> {
            &&& first_occurrence(back, pattern) is None
            &&& before_first(back, pattern) == back
        },
{
    let text = front + pattern + back;
    if forall|k: int|
        0 <= k < front.len() ==> #[trigger] text.subrange(k, k + pattern.len()) != pattern {
        law_standing_is_being_put_there(text, pattern, front.len() as int);
        lemma_first_at(text, pattern, front.len() as int);
        assert(text.take(front.len() as int) =~= front);
    }
    if forall|k: int|
        0 <= k <= back.len() - pattern.len() ==> #[trigger] back.subrange(k, k + pattern.len())
            != pattern {
        if occurs(back, pattern) {
            let at = choose|at: int| occurs_at(back, pattern, at);
            assert(back.subrange(at, at + pattern.len()) == pattern);
        }
    }
}

/// Taking a prefix off gives the rest exactly where the text is the prefix and
/// that rest; the same holds of a suffix.
pub proof fn law_ends_come_off(text: Seq<char>, end: Seq<char>, rest: Seq<char>)
    ensures
        after_prefix(text, end) == Some(rest) <==> text == end + rest,
        before_suffix(text, end) == Some(rest) <==> text == rest + end,
{
    let n = end.len() as int;
    if text == end + rest {
        assert(text.subrange(0, n) =~= end);
        assert(text.skip(n) =~= rest);
    }
    if after_prefix(text, end) == Some(rest) {
        assert(text =~= text.subrange(0, n) + text.skip(n));
    }
    let m = text.len() - end.len();
    if text == rest + end {
        assert(text.subrange(m, m + n) =~= end);
        assert(text.take(m) =~= rest);
    }
    if before_suffix(text, end) == Some(rest) {
        assert(text =~= text.take(m) + text.subrange(m, m + n));
    }
}

/// Removing a pattern takes out its first occurrence and goes on behind it; a
/// text in which it stands nowhere, and an empty pattern, leave all as it is.
pub proof fn law_removal_goes_from_left_to_right(
    front: Seq<char>,
    pattern: Seq<char>,
    back: Seq<char>,
)
    ensures
        ({
            let text = front + pattern + back;
            pattern.len() > 0 && (forall|k: int|
                0 <= k < front.len() ==> #[trigger] text.subrange(k, k + pattern.len()) != pattern)
                ==> without(text, pattern) == front + without(back, pattern)
        }),
        (forall|k: int|
            0 <= k <= back.len() - pattern.len() ==> #[trigger] back.subrange(
                k,
                k + pattern.len(),
            ) != pattern) ==> without(back, pattern) == back,
        without(back, Seq::empty()) == back,
{
    let text = front + pattern + back;
    law_search_finds_the_earliest(front, pattern, back);
    assert(text.take(front.len() as int) =~= front);
    assert(text.skip((front.len() + pattern.len()) as int) =~= back);
}

/// Trimming takes off exactly the white space at an end: a text behind which
/// white space was put, and which does not end in it, comes back; and the same
/// at the front.
pub proof fn law_trimming_takes_off_white_space(kept: Seq<char>, space: Seq<char>)
    requires
        forall|k: int| 0 <= k < space.len() ==> white_space(#[trigger] space[k]),
    ensures
        kept.len() == 0 || !white_space(kept.last()) ==> trimmed_end(kept + space) == kept,
        kept.len() == 0 || !white_space(kept[0]) ==> trimmed_start(space + kept) == kept,
    decreases space.len(),
{
    if space.len() == 0 {
        assert(kept + space =~= kept);
        assert(space + kept =~= kept);
    } else {
        let shorter = space.drop_last();
        assert((kept + space).drop_last() =~= kept + shorter);
        assert((kept + space).last() == space.last());
        law_trimming_takes_off_white_space(kept, shorter);
        let later = space.drop_first();
        assert((space + kept).drop_first() =~= later + kept);
        assert((space + kept)[0] == space[0]);
        assert forall|k: int| 0 <= k < later.len() implies white_space(#[trigger] later[k]) by {
            assert(later[k] == space[k + 1]);
        }
        law_trimming_takes_off_white_space(kept, later);
    }
}

/// Space, tab and line breaks are white space; what can be seen in ASCII is not.
pub proof fn law_white_space_in_ascii(c: char)
    requires
        c as u32 <= 0x7f,
    ensures
        white_space(c) <==> c == ' ' || c == '\t' || c == '\n' || c == '\r' || c as u32 == 0x0b
            || c as u32 == 0x0c,
{
}

} // verus!
