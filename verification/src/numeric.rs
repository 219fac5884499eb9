//! Numeric literals: which texts denote a 32-bit signed integer, and which
//! are written as a floating point number.
//!
//! An integer literal is an optional sign and one or more decimal digits.
//! A float literal is an optional sign followed by a special name or by a
//! decimal number:
//!
//! ```text
//! float    = [sign] (special | number)
//! special  = "inf" | "infinity" | "nan"        in any mix of cases
//! number   = mantissa [exponent]
//! mantissa = digits | digits "." [digits] | "." digits
//! exponent = ("e" | "E") [sign] digits
//! sign     = "+" | "-"
//! digits   = one or more of "0" to "9"
//! ```
//!
//! Only ASCII digits and letters count, and no white space is allowed.

use vstd::prelude::*;
use vstd::slice::slice_subrange;

verus! {

/// A decimal digit, `0` to `9`.
pub open spec fn is_digit(c: char) -> bool {
    '0' <= c && c <= '9'
}

/// The number that a decimal digit stands for.
pub open spec fn digit_value(c: char) -> int {
    c as int - '0' as int
}

/// Every character of `text` is a decimal digit.
pub open spec fn all_digits(text: Seq<char>) -> bool {
    forall|i: int| 0 <= i < text.len() ==> is_digit(#[trigger] text[i])
}

/// The number that a run of decimal digits denotes, most significant first.
pub open spec fn decimal_value(digits: Seq<char>) -> int
    decreases digits.len(),
{
    if digits.len() == 0 {
        0
    } else {
        decimal_value(digits.drop_last()) * 10 + digit_value(digits.last())
    }
}

/// `text` begins with `+` or `-`.
pub open spec fn has_sign(text: Seq<char>) -> bool {
    text.len() > 0 && (text[0] == '+' || text[0] == '-')
}

/// `text` after its sign, if it has one.
pub open spec fn without_sign(text: Seq<char>) -> Seq<char> {
    if has_sign(text) {
        text.skip(1)
    } else {
        text
    }
}

/// An optional sign followed by one or more decimal digits, and nothing else.
pub open spec fn is_integer_literal(text: Seq<char>) -> bool {
    without_sign(text).len() > 0 && all_digits(without_sign(text))
}

/// The number that an integer literal denotes.
pub open spec fn integer_value(text: Seq<char>) -> int {
    if text.len() > 0 && text[0] == '-' {
        -decimal_value(without_sign(text))
    } else {
        decimal_value(without_sign(text))
    }
}

/// The 32-bit signed integer that `text` denotes in base 10, if it denotes
/// one: `None` for a text that is no integer literal and for a number
/// outside the range of `i32`.
pub open spec fn parsed_i32(text: Seq<char>) -> Option<i32> {
    if is_integer_literal(text) && i32::MIN <= integer_value(text) <= i32::MAX {
        Some(integer_value(text) as i32)
    } else {
        None
    }
}

/// The letter that introduces an exponent, in either case.
pub open spec fn is_exponent_mark(c: char) -> bool {
    c == 'e' || c == 'E'
}

/// Digits with at most one `.` among them, before, between or after, and
/// at least one digit.
pub open spec fn is_mantissa(text: Seq<char>) -> bool {
    ||| text.len() > 0 && all_digits(text)
    ||| exists|dot: int|
        0 <= dot < text.len() && #[trigger] text[dot] == '.' && text.len() > 1 && all_digits(
            text.take(dot),
        ) && all_digits(text.skip(dot + 1))
}

/// An exponent mark followed by an integer literal.
pub open spec fn is_exponent(text: Seq<char>) -> bool {
    text.len() > 0 && is_exponent_mark(text[0]) && is_integer_literal(text.skip(1))
}

/// A mantissa, optionally followed by an exponent.
pub open spec fn is_decimal_number(text: Seq<char>) -> bool {
    exists|end: int|
        0 <= end <= text.len() && is_mantissa(#[trigger] text.take(end)) && (end == text.len()
            || is_exponent(text.skip(end)))
}

/// An upper case ASCII letter as lower case; any other character unchanged.
pub open spec fn lower_case(c: char) -> char {
    if 'A' <= c && c <= 'Z' {
        ((c as u8) + 32) as char
    } else {
        c
    }
}

/// `text` reads as `word` once its upper case ASCII letters are lowered.
pub open spec fn reads_as(text: Seq<char>, word: Seq<char>) -> bool {
    text.map_values(|c: char| lower_case(c)) == word
}

/// One of the names of the values that are no decimal number: `inf`,
/// `infinity` or `nan`, in any mix of upper and lower case.
pub open spec fn is_special_float(text: Seq<char>) -> bool {
    reads_as(text, "inf"@) || reads_as(text, "infinity"@) || reads_as(text, "nan"@)
}

/// The texts that are written as a floating point number: an optional sign,
/// then either a special name or a decimal number.
pub open spec fn is_float_literal(text: Seq<char>) -> bool {
    is_special_float(without_sign(text)) || is_decimal_number(without_sign(text))
}

/// Every integer literal is a float literal too: one that does not fit in
/// 32 bits still reads as a floating point number.
pub proof fn integer_literals_are_float_literals(text: Seq<char>)
    requires
        is_integer_literal(text),
    ensures
        is_float_literal(text),
{
    let body = without_sign(text);
    assert(body.take(body.len() as int) =~= body);
    assert(is_mantissa(body.take(body.len() as int)));
}

/// Tells whether `c` is a decimal digit.
fn matches_digit(c: char) -> (yes: bool)
    ensures
        yes == is_digit(c),
{
    '0' <= c && c <= '9'
}

/// Where the sign of `text` ends: 1 if it has one, else 0.
fn sign_end(text: &[char]) -> (end: usize)
    ensures
        end <= text@.len(),
        end == if has_sign(text@) { 1int } else { 0int },
        without_sign(text@) == text@.skip(end as int),
{
    if text.len() > 0 && (text[0] == '+' || text[0] == '-') {
        1
    } else {
        assert(text@.skip(0) =~= text@);
        0
    }
}

/// Tells whether every character of `text` is a decimal digit.
fn only_digits(text: &[char]) -> (yes: bool)
    ensures
        yes == all_digits(text@),
{
    let mut i: usize = 0;
    while i < text.len()
        invariant
            i <= text.len(),
            forall|j: int| 0 <= j < i ==> is_digit(#[trigger] text@[j]),
        decreases text.len() - i,
    {
        if !matches_digit(text[i]) {
            return false;
        }
        i += 1;
    }
    true
}

/// Reads `text` as a base 10 integer of 32 bits, with an optional sign.
pub fn parse_i32(text: &[char]) -> (number: Option<i32>)
    ensures
        number == parsed_i32(text@),
{
    let n = text.len();
    let start = sign_end(text);
    if start == n {
        return None;
    }
    let negative = text[0] == '-';
    let ghost body = without_sign(text@);
    let limit: i64 = 2147483648;
    let mut magnitude: i64 = 0;
    let mut beyond = false;
    let mut i: usize = start;
    while i < n
        invariant
            start <= i <= n,
            n == text.len(),
            body == text@.skip(start as int),
            body == without_sign(text@),
            limit == 2147483648,
            all_digits(body.take(i - start)),
            !beyond ==> magnitude == decimal_value(body.take(i - start)) && 0 <= magnitude
                <= limit,
            beyond ==> decimal_value(body.take(i - start)) > limit,
        decreases n - i,
    {
        let c = text[i];
        if !matches_digit(c) {
            assert(body[i - start] == c);
            return None;
        }
        proof {
            let longer = body.take(i - start + 1);
            assert(longer.drop_last() =~= body.take(i - start));
            assert(longer.last() == c);
        }
        if !beyond {
            magnitude = magnitude * 10 + (c as u32 - '0' as u32) as i64;
            if magnitude > limit {
                beyond = true;
            }
        }
        i += 1;
    }
    assert(body.take(n - start) =~= body);
    if beyond {
        None
    } else if negative {
        Some((-magnitude) as i32)
    } else if magnitude < limit {
        Some(magnitude as i32)
    } else {
        None
    }
}

/// Tells whether `text` is digits with at most one `.` and at least one digit.
fn matches_mantissa(text: &[char]) -> (yes: bool)
    ensures
        yes == is_mantissa(text@),
{
    let n = text.len();
    let mut dot: usize = 0;
    while dot < n && text[dot] != '.'
        invariant
            dot <= n,
            n == text.len(),
            forall|j: int| 0 <= j < dot ==> #[trigger] text@[j] != '.',
        decreases n - dot,
    {
        dot += 1;
    }
    if dot == n {
        n > 0 && only_digits(text)
    } else {
        let before = slice_subrange(text, 0, dot);
        let after = slice_subrange(text, dot + 1, n);
        assert(before@ =~= text@.take(dot as int));
        assert(after@ =~= text@.skip(dot + 1));
        let yes = n > 1 && only_digits(before) && only_digits(after);
        proof {
            if !yes && is_mantissa(text@) {
                let other = choose|other: int|
                    0 <= other < text@.len() && #[trigger] text@[other] == '.' && text@.len() > 1
                        && all_digits(text@.take(other)) && all_digits(text@.skip(other + 1));
                if other < dot {
                    assert(text@[other] != '.');
                } else if other > dot {
                    assert(text@.take(other)[dot as int] == '.');
                }
            }
        }
        yes
    }
}

/// Tells whether `text` is an exponent mark followed by an integer literal.
fn matches_exponent(text: &[char]) -> (yes: bool)
    ensures
        yes == is_exponent(text@),
{
    let n = text.len();
    if n == 0 || !(text[0] == 'e' || text[0] == 'E') {
        return false;
    }
    let rest = slice_subrange(text, 1, n);
    assert(rest@ =~= text@.skip(1));
    let start = sign_end(rest);
    let digits = slice_subrange(rest, start, rest.len());
    assert(digits@ =~= without_sign(rest@));
    digits.len() > 0 && only_digits(digits)
}

/// Tells whether `text` is a mantissa, optionally followed by an exponent.
fn matches_decimal_number(text: &[char]) -> (yes: bool)
    ensures
        yes == is_decimal_number(text@),
{
    let n = text.len();
    let mut end: usize = 0;
    while end < n && !(text[end] == 'e' || text[end] == 'E')
        invariant
            end <= n,
            n == text.len(),
            forall|j: int| 0 <= j < end ==> !is_exponent_mark(#[trigger] text@[j]),
        decreases n - end,
    {
        end += 1;
    }
    let head = slice_subrange(text, 0, end);
    let tail = slice_subrange(text, end, n);
    assert(head@ =~= text@.take(end as int));
    assert(tail@ =~= text@.skip(end as int));
    let yes = matches_mantissa(head) && (end == n || matches_exponent(tail));
    proof {
        if !yes && is_decimal_number(text@) {
            let other = choose|other: int|
                0 <= other <= text@.len() && is_mantissa(#[trigger] text@.take(other)) && (other
                    == text@.len() || is_exponent(text@.skip(other)));
            mantissa_has_no_exponent_mark(text@.take(other));
            if other < end {
                assert(text@.skip(other)[0] == text@[other]);
            } else if other > end {
                assert(text@.take(other)[end as int] == text@[end as int]);
            }
        }
    }
    yes
}

/// No character of a mantissa is an exponent mark.
proof fn mantissa_has_no_exponent_mark(text: Seq<char>)
    requires
        is_mantissa(text),
    ensures
        forall|j: int| 0 <= j < text.len() ==> !is_exponent_mark(#[trigger] text[j]),
{
    assert forall|j: int| 0 <= j < text.len() implies !is_exponent_mark(#[trigger] text[j]) by {
        if text.len() > 0 && all_digits(text) {
        } else {
            let dot = choose|dot: int|
                0 <= dot < text.len() && #[trigger] text[dot] == '.' && text.len() > 1
                    && all_digits(text.take(dot)) && all_digits(text.skip(dot + 1));
            if j < dot {
                assert(text.take(dot)[j] == text[j]);
            } else if j > dot {
                assert(text.skip(dot + 1)[j - dot - 1] == text[j]);
            }
        }
    }
}

/// Tells whether `text` reads as `word` once its upper case ASCII letters are
/// lowered.
fn matches_word(text: &[char], word: &[char]) -> (yes: bool)
    ensures
        yes == reads_as(text@, word@),
{
    let ghost lowered = text@.map_values(|c: char| lower_case(c));
    if text.len() != word.len() {
        return false;
    }
    let mut i: usize = 0;
    while i < text.len()
        invariant
            i <= text.len(),
            text.len() == word.len(),
            lowered == text@.map_values(|c: char| lower_case(c)),
            forall|j: int| 0 <= j < i ==> lowered[j] == #[trigger] word@[j],
        decreases text.len() - i,
    {
        let c = text[i];
        let low = if 'A' <= c && c <= 'Z' {
            ((c as u8) + 32) as char
        } else {
            c
        };
        assert(low == lowered[i as int]);
        if low != word[i] {
            return false;
        }
        i += 1;
    }
    assert(lowered =~= word@);
    true
}

/// Tells whether `text` is written as a floating point number.
pub fn matches_float_literal(text: &[char]) -> (yes: bool)
    ensures
        yes == is_float_literal(text@),
{
    let start = sign_end(text);
    let body = slice_subrange(text, start, text.len());
    assert(body@ =~= without_sign(text@));
    let inf = ['i', 'n', 'f'];
    let infinity = ['i', 'n', 'f', 'i', 'n', 'i', 't', 'y'];
    let nan = ['n', 'a', 'n'];
    proof {
        reveal_strlit("inf");
        reveal_strlit("infinity");
        reveal_strlit("nan");
        assert(inf@ =~= "inf"@);
        assert(infinity@ =~= "infinity"@);
        assert(nan@ =~= "nan"@);
    }
    matches_word(body, inf.as_slice()) || matches_word(body, infinity.as_slice())
        || matches_word(body, nan.as_slice()) || matches_decimal_number(body)
}

} // verus!
