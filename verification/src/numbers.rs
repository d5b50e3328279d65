//! Numbers written in decimal digits.

use vstd::prelude::*;
use crate::names::is_digit;

verus! {

/// The number that `digits` stand for.
pub open spec fn digits_value(digits: Seq<char>) -> nat
    decreases digits.len(),
{
    if digits.len() == 0 {
        0
    } else {
        digits_value(digits.drop_last()) * 10 + (digits.last() as int - 48) as nat
    }
}

pub(crate) fn is_decimal_digit(c: char) -> (result: bool)
    ensures
        result == is_digit(c),
{
    let code: u32 = c as u32;
    48 <= code && code <= 57
}

pub(crate) fn parse_digits(name: &String, start: usize, end: usize) -> (value: Option<u64>)
    requires
        start <= end,
        end == name@.len(),
        forall|i: int| start <= i < end ==> is_digit(#[trigger] name@[i]),
    ensures
        match value {
            Some(value) => value == digits_value(name@.subrange(start as int, end as int)),
            None => digits_value(name@.subrange(start as int, end as int)) > u64::MAX,
        },
{
    let mut value: Option<u64> = Some(0);
    let mut i: usize = start;
    while i < end
        invariant
            start <= i <= end,
            end == name@.len(),
            forall|i: int| start <= i < end ==> is_digit(#[trigger] name@[i]),
            match value {
                Some(value) => value == digits_value(name@.subrange(start as int, i as int)),
                None => digits_value(name@.subrange(start as int, i as int)) > u64::MAX,
            },
        decreases end - i,
    {
        let c: char = name.as_str().get_char(i);
        assert(is_digit(name@[i as int]));
        let digit: u64 = (c as u32 - 48) as u64;
        let ghost longer = name@.subrange(start as int, i + 1);
        assert(longer.drop_last() =~= name@.subrange(start as int, i as int));
        assert(longer.last() == c);
        value =
        match value {
            Some(value) => {
                if value > (u64::MAX - digit) / 10 {
                    assert(value * 10 + digit > u64::MAX);
                    None
                } else {
                    Some(value * 10 + digit)
                }
            },
            None => None,
        };
        i += 1;
    }
    value
}

/// Whether all characters are digits.
pub open spec fn all_digits(text: Seq<char>) -> bool {
    forall|i: int| 0 <= i < text.len() ==> is_digit(#[trigger] text[i])
}

/// The number that the text from `start` on is: digits, which may stand behind a plus sign.
pub open spec fn number_from(text: Seq<char>, start: int) -> Option<nat> {
    let first = if start < text.len() && text[start] == '+' {
        start + 1
    } else {
        start
    };
    if first >= text.len() {
        None
    } else {
        let digits = text.subrange(first, text.len() as int);
        if all_digits(digits) {
            Some(digits_value(digits))
        } else {
            None
        }
    }
}

/// Read the text from `start` on as a number; numbers that are too large are not read.
pub(crate) fn parse_number(text: &String, start: usize) -> (result: Option<u64>)
    ensures
        match result {
            Some(value) => number_from(text@, start as int) == Some(value as nat),
            None => match number_from(text@, start as int) {
                Some(value) => value > u64::MAX,
                None => true,
            },
        },
{
    let length: usize = text.as_str().unicode_len();
    if start >= length {
        return None;
    }
    let first: usize = if text.as_str().get_char(start) == '+' {
        start + 1
    } else {
        start
    };
    if first >= length {
        return None;
    }
    let ghost digits = text@.subrange(first as int, length as int);
    let mut i: usize = first;
    while i < length
        invariant
            first <= i <= length,
            start < length,
            length == text@.len(),
            digits == text@.subrange(first as int, length as int),
            first == (if text@[start as int] == '+' {
                start + 1
            } else {
                start as int
            }),
            first < length,
            forall|k: int| first <= k < i ==> is_digit(#[trigger] text@[k]),
        decreases length - i,
    {
        if !is_decimal_digit(text.as_str().get_char(i)) {
            assert(!is_digit(digits[i - first]));
            return None;
        }
        i += 1;
    }
    assert forall|k: int| 0 <= k < digits.len() implies is_digit(#[trigger] digits[k]) by {
        assert(is_digit(text@[k + first]));
    }
    parse_digits(text, first, length)
}

} // verus!
