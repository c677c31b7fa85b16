//! Reading a non-negative decimal number.

use vstd::prelude::*;
use vstd::string::*;

verus! {

/// One of the ten decimal digits.
pub open spec fn is_digit(c: char) -> bool {
    '0' <= c <= '9'
}

/// Every character is a decimal digit.
pub open spec fn all_digits(digits: Seq<char>) -> bool {
    forall|i: int| 0 <= i < digits.len() ==> is_digit(#[trigger] digits[i])
}

/// The number that a sequence of decimal digits writes, most significant
/// digit first.
pub open spec fn digits_value(digits: Seq<char>) -> nat
    decreases digits.len(),
{
    if digits.len() == 0 {
        0
    } else {
        digits_value(digits.drop_last()) * 10 + (digits.last() as u32 - '0' as u32) as nat
    }
}

/// The number that `text` writes: an optional `+` and then one or more
/// decimal digits, nothing else. `None` for any other text.
pub open spec fn decimal_value(text: Seq<char>) -> Option<nat> {
    let digits = if text.len() > 0 && text[0] == '+' {
        text.skip(1)
    } else {
        text
    };
    if digits.len() > 0 && all_digits(digits) {
        Some(digits_value(digits))
    } else {
        None
    }
}

/// What `parse_size` gives: the number that `text` writes, where it is one
/// that fits.
pub open spec fn size_value(text: Seq<char>) -> Option<usize> {
    match decimal_value(text) {
        Some(n) => if n <= usize::MAX {
            Some(n as usize)
        } else {
            None
        },
        None => None,
    }
}

/// A number is no smaller than what its leading digits write.
proof fn lemma_prefix_value(digits: Seq<char>, n: int)
    requires
        0 <= n <= digits.len(),
        all_digits(digits),
    ensures
        digits_value(digits.take(n)) <= digits_value(digits),
    decreases digits.len() - n,
{
    if n < digits.len() {
        lemma_prefix_value(digits, n + 1);
        assert(digits.take(n + 1).drop_last() =~= digits.take(n));
    } else {
        assert(digits.take(n) =~= digits);
    }
}

/// Reads `text` as a size: an optional `+`, then decimal digits only.
/// `None` where the text is anything else, or the number does not fit.
pub fn parse_size(text: &str) -> (size: Option<usize>)
    ensures
        size == size_value(text@),
{
    broadcast use is_ascii_spec_bytes;

    if !text.is_ascii() {
        proof {
            let i = choose|i: int| 0 <= i < text@.len() && !('\0' <= #[trigger] text@[i] <= '\u{7f}');
            if text@[0] == '+' {
                assert(text@.skip(1)[i - 1] == text@[i]);
            }
        }
        return None;
    }
    let bytes = text.as_bytes();
    let first: usize = if bytes.len() > 0 && bytes[0] == 43u8 {
        1
    } else {
        0
    };
    let ghost digits = text@.skip(first as int);
    proof {
        if first == 0 {
            assert(digits =~= text@);
        }
    }
    if first == bytes.len() {
        return None;
    }
    let mut value: usize = 0;
    let mut i: usize = first;
    assert(digits.take(0) =~= Seq::<char>::empty());
    while i < bytes.len()
        invariant
            first <= i <= bytes.len(),
            bytes.len() == text@.len(),
            digits == text@.skip(first as int),
            decimal_value(text@) == if all_digits(digits) {
                Some(digits_value(digits))
            } else {
                None::<nat>
            },
            forall|j: int| 0 <= j < bytes.len() ==> bytes@[j] == text@[j] as u8,
            forall|j: int| 0 <= j < text@.len() ==> '\0' <= #[trigger] text@[j] <= '\u{7f}',
            all_digits(digits.take(i - first)),
            value == digits_value(digits.take(i - first)),
        decreases bytes.len() - i,
    {
        let byte = bytes[i];
        if byte < 48u8 || byte > 57u8 {
            assert(!is_digit(digits[i - first]));
            return None;
        }
        let digit: usize = (byte - 48u8) as usize;
        proof {
            assert(digits.take(i - first + 1).drop_last() =~= digits.take(i - first));
            assert(is_digit(digits[i - first]));
            assert(all_digits(digits.take(i - first + 1)));
        }
        if value > (usize::MAX - digit) / 10 {
            proof {
                if all_digits(digits) {
                    lemma_prefix_value(digits, i - first + 1);
                }
            }
            return None;
        }
        value = value * 10 + digit;
        i += 1;
    }
    assert(digits.take(i - first) =~= digits);
    Some(value)
}

} // verus!
