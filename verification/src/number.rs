//! Numbers in decimal.
use crate::text::chars_of;
use vstd::prelude::*;
use vstd::string::StringExecFns;

verus! {

/// The character of a digit.
pub open spec fn digit(d: nat) -> char {
    (('0' as u32 + d) as u32) as char
}

/// The decimal digits of a number.
pub open spec fn decimal(n: nat) -> Seq<char>
    decreases n,
{
    if n < 10 {
        seq![digit(n)]
    } else {
        decimal(n / 10).push(digit(n % 10))
    }
}

fn digit_text(d: u64) -> (text: &'static str)
    requires
        d < 10,
    ensures
        text@ == seq![digit(d as nat)],
{
    proof {
        reveal_strlit("0");
        reveal_strlit("1");
        reveal_strlit("2");
        reveal_strlit("3");
        reveal_strlit("4");
        reveal_strlit("5");
        reveal_strlit("6");
        reveal_strlit("7");
        reveal_strlit("8");
        reveal_strlit("9");
    }
    match d {
        0 => "0",
        1 => "1",
        2 => "2",
        3 => "3",
        4 => "4",
        5 => "5",
        6 => "6",
        7 => "7",
        8 => "8",
        _ => "9",
    }
}

/// Writes a number in decimal.
pub fn to_decimal(n: u64) -> (text: String)
    ensures
        text@ == decimal(n as nat),
    decreases n,
{
    if n < 10 {
        digit_text(n).to_owned()
    } else {
        let mut text = to_decimal(n / 10);
        text.append(digit_text(n % 10));
        text
    }
}

/// A decimal digit.
pub open spec fn is_digit(c: char) -> bool {
    '0' <= c <= '9'
}

/// A text of decimal digits alone.
pub open spec fn all_digits(text: Seq<char>) -> bool {
    forall|k: int| 0 <= k < text.len() ==> is_digit(#[trigger] text[k])
}

/// The number that a text of digits stands for.
pub open spec fn value_of(digits: Seq<char>) -> int
    decreases digits.len(),
{
    if digits.len() == 0 {
        0
    } else {
        value_of(digits.drop_last()) * 10 + (digits.last() as int - '0' as int)
    }
}

/// The unsigned number that a text denotes: at least one digit and nothing
/// but digits, behind an optional plus sign, with a value of at most `max`.
pub open spec fn unsigned(text: Seq<char>, max: int) -> Option<int> {
    let digits = if text.len() > 0 && text[0] == '+' {
        text.skip(1)
    } else {
        text
    };
    if digits.len() > 0 && all_digits(digits) && value_of(digits) <= max {
        Some(value_of(digits))
    } else {
        None
    }
}

/// Longer texts of digits stand for numbers that are no smaller.
proof fn lemma_value_grows(digits: Seq<char>, len: int)
    requires
        0 <= len <= digits.len(),
        all_digits(digits),
    ensures
        0 <= value_of(digits.take(len)) <= value_of(digits),
    decreases digits.len(),
{
    if len == digits.len() {
        assert(digits.take(len) =~= digits);
        if len > 0 {
            assert(is_digit(digits[len - 1]));
            assert(all_digits(digits.drop_last())) by {
                assert forall|k: int| 0 <= k < digits.len() - 1 implies is_digit(
                    #[trigger] digits.drop_last()[k],
                ) by {
                    assert(is_digit(digits[k]));
                }
            }
            lemma_value_grows(digits.drop_last(), len - 1);
            assert(digits.drop_last().take(len - 1) =~= digits.drop_last());
        }
    } else {
        let front = digits.drop_last();
        assert forall|k: int| 0 <= k < front.len() implies is_digit(#[trigger] front[k]) by {
            assert(is_digit(digits[k]));
        }
        assert(is_digit(digits[digits.len() - 1]));
        lemma_value_grows(front, len);
        assert(front.take(len) =~= digits.take(len));
    }
}

/// Reads an unsigned number of at most `max`.
pub fn parse_unsigned(text: &str, max: u64) -> (number: Option<u64>)
    ensures
        match number {
            Some(n) => unsigned(text@, max as int) == Some(n as int),
            None => unsigned(text@, max as int) is None,
        },
{
    let chars = chars_of(text);
    let start: usize = if chars.len() > 0 && chars[0] == '+' {
        1
    } else {
        0
    };
    let ghost digits = text@.skip(start as int);
    assert(start == 0 ==> digits =~= text@);
    if start == chars.len() {
        return None;
    }
    let mut value: u64 = 0;
    let mut k: usize = start;
    assert(digits.take(0) =~= Seq::<char>::empty());
    while k < chars.len()
        invariant
            chars@ == text@,
            start <= k <= chars@.len(),
            digits == text@.skip(start as int),
            unsigned(text@, max as int) == (if digits.len() > 0 && all_digits(digits) && value_of(
                digits,
            ) <= max {
                Some(value_of(digits))
            } else {
                None::<int>
            }),
            all_digits(digits.take(k - start)),
            value == value_of(digits.take(k - start)),
            value <= max,
        decreases chars@.len() - k,
    {
        let c = chars[k];
        assert(c == digits[k - start]);
        if !('0' <= c && c <= '9') {
            assert(!is_digit(digits[k - start]));
            return None;
        }
        let d: u64 = c as u64 - '0' as u64;
        let ghost longer = digits.take(k - start + 1);
        assert(longer.drop_last() =~= digits.take(k - start));
        assert(longer.last() == c);
        assert(value_of(longer) == value * 10 + d);
        if d > max || value > max / 10 || value * 10 > max - d {
            proof {
                if all_digits(digits) {
                    lemma_value_grows(digits, k - start + 1);
                }
            }
            return None;
        }
        assert forall|j: int| 0 <= j < longer.len() implies is_digit(#[trigger] longer[j]) by {
            if j < k - start {
                assert(is_digit(digits.take(k - start)[j]));
            }
        }
        value = value * 10 + d;
        k += 1;
    }
    assert(digits.take(k - start) =~= digits);
    Some(value)
}

/// Reading what was written gives the number back.
pub proof fn law_parse_inverts_decimal(n: nat, max: int)
    requires
        n <= max,
    ensures
        unsigned(decimal(n), max) == Some(n as int),
{
    lemma_decimal(n);
    assert(is_digit(decimal(n)[0]));
}

/// A number is written with at least one digit and nothing but digits, and
/// its digits stand for it.
pub proof fn lemma_decimal(n: nat)
    ensures
        decimal(n).len() > 0,
        all_digits(decimal(n)),
        value_of(decimal(n)) == n,
    decreases n,
{
    reveal_with_fuel(value_of, 2);
    if n >= 10 {
        let front = decimal(n / 10);
        lemma_decimal(n / 10);
        assert(decimal(n).drop_last() =~= front);
        assert forall|k: int| 0 <= k < decimal(n).len() implies is_digit(
            #[trigger] decimal(n)[k],
        ) by {
            if k < front.len() {
                assert(is_digit(front[k]));
            }
        }
    } else {
        assert(decimal(n).drop_last() =~= Seq::<char>::empty());
    }
}

/// A number is written digit by digit: one digit alone, and behind the digits
/// of ten times less the last one.
pub proof fn law_decimal_ends_in_its_last_digit(n: nat, d: nat)
    requires
        d < 10,
    ensures
        decimal(d).len() == 1,
        decimal(d)[0] as int == '0' as int + d,
        n > 0 ==> decimal(n * 10 + d).drop_last() == decimal(n),
        n > 0 ==> decimal(n * 10 + d).last() as int == '0' as int + d,
{
    if n > 0 {
        let m = n * 10 + d;
        assert(m / 10 == n && m % 10 == d);
        assert(decimal(m) == decimal(n).push(digit(d)));
        assert(decimal(m).drop_last() =~= decimal(n));
    }
}

/// What is no number is not read as one: nothing at all, a text that holds
/// anything but digits behind a first plus sign, or a number above the limit.
pub proof fn law_what_is_no_number_is_not_read(text: Seq<char>, max: int, n: nat)
    ensures
        text.len() == 0 ==> unsigned(text, max) is None,
        forall|k: int|
            0 <= k < text.len() && !('0' <= #[trigger] text[k] <= '9') && !(k == 0 && text[0]
                == '+') ==> unsigned(text, max) is None,
        text.len() == 1 && text[0] == '+' ==> unsigned(text, max) is None,
        n > max ==> unsigned(decimal(n), max) is None,
{
    lemma_decimal(n);
    assert(is_digit(decimal(n)[0]));
    assert forall|k: int|
        0 <= k < text.len() && !('0' <= #[trigger] text[k] <= '9') && !(k == 0 && text[0]
            == '+') implies unsigned(text, max) is None by {
        assert(!is_digit(text[k]));
        if text[0] == '+' {
            assert(text.skip(1)[k - 1] == text[k]);
        }
    }
}

/// A plus sign before the digits, and zeros before them, change nothing.
pub proof fn law_plus_and_leading_zeros_do_not_count(n: nat, zeros: nat, max: int)
    requires
        n <= max,
    ensures
        ({
            let padded = Seq::new(zeros, |k: int| '0') + decimal(n);
            &&& unsigned(padded, max) == Some(n as int)
            &&& unsigned(seq!['+'] + padded, max) == Some(n as int)
        }),
{
    let padded = Seq::new(zeros, |k: int| '0') + decimal(n);
    lemma_decimal(n);
    lemma_leading_zeros(decimal(n), zeros);
    assert forall|k: int| 0 <= k < padded.len() implies is_digit(#[trigger] padded[k]) by {
        if k >= zeros {
            assert(padded[k] == decimal(n)[k - zeros]);
        }
    }
    assert(is_digit(padded[0]));
    assert((seq!['+'] + padded).skip(1) =~= padded);
}

proof fn lemma_leading_zeros(digits: Seq<char>, zeros: nat)
    ensures
        value_of(Seq::new(zeros, |k: int| '0') + digits) == value_of(digits),
    decreases zeros + digits.len(),
{
    let padded = Seq::new(zeros, |k: int| '0') + digits;
    if digits.len() > 0 {
        assert(padded.drop_last() =~= Seq::new(zeros, |k: int| '0') + digits.drop_last());
        assert(padded.last() == digits.last());
        lemma_leading_zeros(digits.drop_last(), zeros);
    } else if zeros > 0 {
        let fewer = (zeros - 1) as nat;
        assert(padded.drop_last() =~= Seq::new(fewer, |k: int| '0') + digits);
        assert(padded.last() == '0');
        lemma_leading_zeros(digits, fewer);
    } else {
        assert(padded =~= digits);
    }
}

} // verus!
