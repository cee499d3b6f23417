//! Reading short pieces of configuration text.

use vstd::arithmetic::power::{lemma_pow1, pow};
use vstd::prelude::*;
use vstd::string::StrSliceExecFns;

verus! {

/// Whether `c` is one of the ten ASCII decimal digits.
pub open spec fn is_digit(c: char) -> bool {
    '0' as int <= c as int <= '9' as int
}

/// Whether `text` holds at least one character and nothing but digits.
pub open spec fn is_digits(text: Seq<char>) -> bool {
    &&& text.len() > 0
    &&& forall|i: int| 0 <= i < text.len() ==> is_digit(#[trigger] text[i])
}

/// The number that a run of decimal digits writes.
pub open spec fn digits_value(text: Seq<char>) -> nat
    decreases text.len(),
{
    if text.len() == 0 {
        0
    } else {
        digits_value(text.drop_last()) * 10 + (text.last() as int - '0' as int) as nat
    }
}

/// The integer that `text` writes: an optional sign followed by digits only.
pub open spec fn written_integer(text: Seq<char>) -> Option<int> {
    if text.len() > 0 && text[0] == '+' && is_digits(text.skip(1)) {
        Some(digits_value(text.skip(1)) as int)
    } else if text.len() > 0 && text[0] == '-' && is_digits(text.skip(1)) {
        Some(-(digits_value(text.skip(1)) as int))
    } else if is_digits(text) {
        Some(digits_value(text) as int)
    } else {
        None
    }
}

/// The `usize` that `text` writes; a minus sign is not accepted for an unsigned number.
pub open spec fn parsed_usize(text: Seq<char>) -> Option<usize> {
    match written_integer(text) {
        Some(n) if text[0] != '-' && n <= usize::MAX => Some(n as usize),
        _ => None,
    }
}

/// The `i32` that `text` writes.
pub open spec fn parsed_i32(text: Seq<char>) -> Option<i32> {
    match written_integer(text) {
        Some(n) if i32::MIN <= n <= i32::MAX => Some(n as i32),
        _ => None,
    }
}

/// The error of `std`'s integer parser, carried along for its message.
#[verifier::external_type_specification]
#[verifier::external_body]
pub struct ExParseIntError(std::num::ParseIntError);

/// Calls `str::parse::<usize>`.
///
/// The documentation of `usize::from_str` asks for an optional `+` followed by only digits,
/// rejects everything else (white space and the empty string too), and reports a number that
/// does not fit.
#[verifier::external_body]
pub(crate) fn parse_usize(text: &str) -> (number: Option<usize>)
    ensures
        number == parsed_usize(text@),
{
    text.parse::<usize>().ok()
}

/// Calls `str::parse::<i32>`.
///
/// The documentation of `i32::from_str` asks for an optional `+` or `-` followed by only
/// digits, rejects everything else, and reports a number that does not fit. What the error
/// says is left unsaid.
#[verifier::external_body]
pub(crate) fn parse_i32(text: &str) -> (number: Result<i32, std::num::ParseIntError>)
    ensures
        number is Ok <==> parsed_i32(text@) is Some,
        number matches Ok(n) ==> parsed_i32(text@) == Some(n),
{
    text.parse::<i32>()
}

/// Whether two strings hold the same characters, without allocating.
pub fn same_text(left: &str, right: &str) -> (same: bool)
    ensures
        same == (left@ == right@),
{
    let mut left_chars = left.chars();
    let mut right_chars = right.chars();
    let ghost mut matched: int = 0;
    assert(left@.skip(0) =~= left@);
    assert(right@.skip(0) =~= right@);
    loop
        invariant
            0 <= matched <= left@.len(),
            matched <= right@.len(),
            vstd::std_specs::iter::IteratorSpec::remaining(&left_chars) == left@.skip(matched),
            vstd::std_specs::iter::IteratorSpec::remaining(&right_chars) == right@.skip(matched),
            left@.take(matched) =~= right@.take(matched),
        decreases left@.len() - matched,
    {
        let next_left = left_chars.next();
        let next_right = right_chars.next();
        match (next_left, next_right) {
            (None, None) => {
                assert(left@ =~= left@.take(matched));
                assert(right@ =~= right@.take(matched));
                return true;
            },
            (Some(l), Some(r)) => {
                assert(l == left@[matched]);
                assert(r == right@[matched]);
                if l != r {
                    return false;
                }
                proof {
                    assert(left@.skip(matched).drop_first() =~= left@.skip(matched + 1));
                    assert(right@.skip(matched).drop_first() =~= right@.skip(matched + 1));
                    assert(left@.take(matched + 1) =~= left@.take(matched).push(l));
                    assert(right@.take(matched + 1) =~= right@.take(matched).push(r));
                    matched = matched + 1;
                }
            },
            _ => {
                return false;
            },
        }
    }
}

/// Splits `text` at the first `separator`, which belongs to neither part.
pub fn split_once<'a>(text: &'a str, separator: char) -> (parts: Option<(&'a str, &'a str)>)
    ensures
        match parts {
            Some((before, after)) => {
                &&& text@ == before@.push(separator) + after@
                &&& !before@.contains(separator)
            },
            None => !text@.contains(separator),
        },
{
    let len = text.unicode_len();
    let mut i: usize = 0;
    while i < len
        invariant
            len == text@.len(),
            i <= len,
            forall|k: int| 0 <= k < i ==> text@[k] != separator,
        decreases len - i,
    {
        if text.get_char(i) == separator {
            let before = text.substring_char(0, i);
            let after = text.substring_char(i + 1, len);
            assert(text@ =~= before@.push(separator) + after@);
            return Some((before, after));
        }
        i = i + 1;
    }
    None
}

/// Whether `needle` occurs in `text`.
pub open spec fn has_text(text: Seq<char>, needle: Seq<char>) -> bool {
    exists|i: int| #[trigger] text_at(text, needle, i)
}

/// Whether `needle` occurs in `text` at place `i`.
pub open spec fn text_at(text: Seq<char>, needle: Seq<char>, i: int) -> bool {
    &&& 0 <= i <= text.len() - needle.len()
    &&& text.subrange(i, i + needle.len()) == needle
}

/// The characters of `text`.
fn chars_of(text: &str) -> (chars: Vec<char>)
    ensures
        chars@ == text@,
{
    let mut rest = text.chars();
    let mut chars: Vec<char> = Vec::new();
    assert(text@.skip(0) =~= text@);
    loop
        invariant
            chars@.len() <= text@.len(),
            chars@ == text@.take(chars@.len() as int),
            vstd::std_specs::iter::IteratorSpec::remaining(&rest) == text@.skip(
                chars@.len() as int,
            ),
        decreases text@.len() - chars@.len(),
    {
        let ghost taken = chars@.len() as int;
        match rest.next() {
            Some(c) => {
                assert(c == text@[taken]);
                chars.push(c);
                assert(text@.skip(taken).drop_first() =~= text@.skip(taken + 1));
                assert(chars@ =~= text@.take(taken + 1));
            },
            None => {
                assert(text@.take(taken) =~= text@);
                return chars;
            },
        }
    }
}

/// Whether `needle` occurs in `text`.
pub fn contains_text(text: &str, needle: &str) -> (found: bool)
    ensures
        found == has_text(text@, needle@),
{
    let chars = chars_of(text);
    let wanted = chars_of(needle);
    if wanted.len() > chars.len() {
        return false;
    }
    let len: usize = chars.len();
    let last: usize = len - wanted.len();
    let mut i: usize = 0;
    while i <= last
        invariant
            chars@ == text@,
            wanted@ == needle@,
            wanted@.len() <= chars@.len(),
            len == chars@.len(),
            last == len - wanted@.len(),
            i <= last + 1,
            forall|k: int| 0 <= k < i ==> !#[trigger] text_at(text@, needle@, k),
        decreases last + 1 - i,
    {
        let mut matched: usize = 0;
        while matched < wanted.len() && chars[i + matched] == wanted[matched]
            invariant
                chars@ == text@,
                wanted@ == needle@,
                len == chars@.len(),
                i + wanted@.len() <= len,
                matched <= wanted@.len(),
                forall|k: int| 0 <= k < matched ==> #[trigger] wanted@[k] == chars@[i + k],
            decreases wanted@.len() - matched,
        {
            matched = matched + 1;
        }
        if matched == wanted.len() {
            assert(text@.subrange(i as int, i + needle@.len()) =~= needle@);
            assert(text_at(text@, needle@, i as int));
            return true;
        }
        assert(!text_at(text@, needle@, i as int)) by {
            if text_at(text@, needle@, i as int) {
                assert(text@.subrange(i as int, i + needle@.len())[matched as int]
                    == needle@[matched as int]);
            }
        }
        if i == last {
            return false;
        }
        i = i + 1;
    }
    false
}

/// A text holds `needle` exactly where it is something, then `needle`, then something.
pub proof fn law_text_is_found_where_it_stands(text: Seq<char>, needle: Seq<char>)
    ensures
        has_text(text, needle) <==> exists|before: Seq<char>, after: Seq<char>|
            text == #[trigger] (before + needle + after),
{
    if has_text(text, needle) {
        let i = choose|i: int| #[trigger] text_at(text, needle, i);
        let before = text.take(i);
        let after = text.skip(i + needle.len());
        assert(text =~= text.take(i) + text.subrange(i, i + needle.len()) + text.skip(
            i + needle.len(),
        ));
        assert(text == before + needle + after);
    }
    if exists|before: Seq<char>, after: Seq<char>| text == #[trigger] (before + needle + after) {
        let (before, after) = choose|before: Seq<char>, after: Seq<char>|
            text == #[trigger] (before + needle + after);
        let i = before.len() as int;
        assert(text.subrange(i, i + needle.len()) =~= needle);
        assert(text_at(text, needle, i));
    }
}

/// Digits written one after the other make the number that they make in the decimal system:
/// those in front count once more tenfold for every digit behind them.
pub proof fn law_digits_are_decimal(front: Seq<char>, back: Seq<char>)
    ensures
        digits_value(Seq::empty()) == 0,
        back.len() == 1 && is_digit(back[0]) ==> digits_value(back) == back[0] as int - '0' as int,
        is_digits(back) ==> digits_value(front + back) == digits_value(front) * pow(
            10,
            back.len(),
        ) + digits_value(back),
    decreases back.len(),
{
    reveal_with_fuel(digits_value, 2);
    if is_digits(back) {
        let all = front + back;
        let before = back.drop_last();
        assert(all.drop_last() =~= front + before);
        assert(all.last() == back.last());
        assert(is_digit(back[back.len() - 1]));
        if before.len() == 0 {
            assert(front + before =~= front);
            lemma_pow1(10);
        } else {
            assert forall|i: int| 0 <= i < before.len() implies is_digit(#[trigger] before[i]) by {
                assert(before[i] == back[i]);
            }
            law_digits_are_decimal(front, before);
            reveal(pow);
            let tens = pow(10, before.len());
            assert(pow(10, back.len()) == 10 * tens);
            assert((digits_value(front) * tens) * 10 == digits_value(front) * (10 * tens))
                by (nonlinear_arith);
        }
    }
}

/// A sign changes nothing but the sign: digits alone and behind a `+` write the same number,
/// and behind a `-` its negative. A number for a count takes no `-`, and either kind takes no
/// number that it cannot hold.
pub proof fn law_signs_only_change_the_sign(digits: Seq<char>)
    requires
        is_digits(digits),
    ensures
        written_integer(digits) == Some(digits_value(digits) as int),
        written_integer(seq!['+'] + digits) == Some(digits_value(digits) as int),
        written_integer(seq!['-'] + digits) == Some(-(digits_value(digits) as int)),
        parsed_usize(seq!['-'] + digits) is None,
        digits_value(digits) <= usize::MAX ==> parsed_usize(digits) == Some(
            digits_value(digits) as usize,
        ) && parsed_usize(seq!['+'] + digits) == Some(digits_value(digits) as usize),
        digits_value(digits) > usize::MAX ==> parsed_usize(digits) is None && parsed_usize(
            seq!['+'] + digits,
        ) is None,
        digits_value(digits) <= i32::MAX ==> parsed_i32(digits) == Some(
            digits_value(digits) as i32,
        ),
        digits_value(digits) > i32::MAX ==> parsed_i32(digits) is None,
        -(digits_value(digits) as int) >= i32::MIN ==> parsed_i32(seq!['-'] + digits) == Some(
            (-(digits_value(digits) as int)) as i32,
        ),
{
    assert(is_digit(digits[0]));
    assert((seq!['+'] + digits).skip(1) =~= digits);
    assert((seq!['-'] + digits).skip(1) =~= digits);
    assert((seq!['+'] + digits)[0] == '+');
    assert((seq!['-'] + digits)[0] == '-');
}

} // verus!
