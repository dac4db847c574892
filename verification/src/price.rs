//! Prices as text and as whole cents.
//!
//! A price is written as digits, or as digits, a point and one or two more
//! digits: `12`, `0.5`, `1234.56`. It is held as a number of cents, so sums
//! of prices are exact.

use crate::text::{
    chars_of, decimal_u32, decimal_value, digit_value, is_digit, lemma_run_len_bounds, run_end,
    run_len, CharClass,
};
use vstd::prelude::*;

verus! {

/// What the digits after the point are worth in cents: one digit is tenths
/// of the unit, two digits are hundredths.
pub open spec fn fraction_cents(fraction: Seq<char>) -> Option<nat> {
    if fraction.len() == 1 && is_digit(fraction[0]) {
        Some(digit_value(fraction[0]) * 10)
    } else if fraction.len() == 2 && is_digit(fraction[0]) && is_digit(fraction[1]) {
        Some(digit_value(fraction[0]) * 10 + digit_value(fraction[1]))
    } else {
        None
    }
}

/// What a price text means in cents, where it is a price at all.
pub open spec fn price_cents(text: Seq<char>) -> Option<nat> {
    let whole_len = run_len(text, CharClass::Digit) as int;
    let whole = decimal_value(text.take(whole_len));
    if whole_len == 0 {
        None
    } else if whole_len == text.len() {
        Some(whole * 100)
    } else if text[whole_len] != '.' {
        None
    } else {
        match fraction_cents(text.skip(whole_len + 1)) {
            Some(cents) => Some(whole * 100 + cents),
            None => None,
        }
    }
}

/// The price that `text` writes, in cents, where it is a price of at most
/// `u32::MAX` cents.
pub open spec fn price_u32(text: Seq<char>) -> Option<u32> {
    match price_cents(text) {
        Some(cents) => if cents <= u32::MAX {
            Some(cents as u32)
        } else {
            None
        },
        None => None,
    }
}

/// The value of a digit.
fn digit_of(c: char) -> (value: u64)
    requires
        is_digit(c),
    ensures
        value == digit_value(c),
        value <= 9,
{
    (c as u32 - '0' as u32) as u64
}

/// Reads a price: the number of cents that `text` writes, or `None` where
/// `text` is no price or the price is above `u32::MAX` cents.
pub fn parse_price(text: &str) -> (cents: Option<u32>)
    ensures
        cents == price_u32(text@),
{
    let chars = chars_of(text);
    let len: usize = chars.len();
    let whole_end: usize = run_end(&chars, 0, len, CharClass::Digit);
    proof {
        assert(chars@.subrange(0, len as int) == text@);
        assert(text@.take(whole_end as int) == chars@.subrange(0, whole_end as int));
        lemma_run_len_bounds(text@, CharClass::Digit);
    }
    if whole_end == 0 {
        return None;
    }
    let whole: u64 = match decimal_u32(&chars, 0, whole_end) {
        Some(value) => value as u64,
        None => {
            return None;
        },
    };
    let ghost fraction = text@.skip(whole_end + 1);
    let part: u64 = if whole_end == len {
        0
    } else if chars[whole_end] != '.' {
        return None;
    } else if len - whole_end == 2 && CharClass::Digit.contains(chars[whole_end + 1]) {
        proof {
            assert(fraction.len() == 1);
            assert(fraction[0] == chars@[whole_end + 1]);
        }
        digit_of(chars[whole_end + 1]) * 10
    } else if len - whole_end == 3 && CharClass::Digit.contains(chars[whole_end + 1])
        && CharClass::Digit.contains(chars[whole_end + 2]) {
        proof {
            assert(fraction.len() == 2);
            assert(fraction[0] == chars@[whole_end + 1]);
            assert(fraction[1] == chars@[whole_end + 2]);
        }
        digit_of(chars[whole_end + 1]) * 10 + digit_of(chars[whole_end + 2])
    } else {
        proof {
            assert(fraction.len() == len - whole_end - 1);
            if fraction.len() >= 1 {
                assert(fraction[0] == chars@[whole_end + 1]);
            }
            if fraction.len() >= 2 {
                assert(fraction[1] == chars@[whole_end + 2]);
            }
        }
        return None;
    };
    let cents: u64 = whole * 100 + part;
    if cents > u32::MAX as u64 {
        None
    } else {
        Some(cents as u32)
    }
}

} // verus!
