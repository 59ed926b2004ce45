//! Executable scanning over the bytes of the source.

use crate::lexer::rules::{
    decimal_value, in_class, is_digit, run_end, string_end, ByteClass, BACKSLASH, BLANK,
    CARRIAGE_RETURN, DIGIT_NINE, DIGIT_ZERO, FORM_FEED, LINE_FEED, LOWER_A, LOWER_N, LOWER_T,
    LOWER_U, LOWER_Z, QUOTE, TAB, UNDERSCORE, UPPER_A, UPPER_Z,
};
use vstd::prelude::*;

verus! {

/// Whether the byte `b` belongs to `class`.
pub fn byte_in_class(class: ByteClass, b: u8) -> (r: bool)
    ensures
        r == in_class(class, b),
{
    match class {
        ByteClass::Space => b == BLANK || b == TAB || b == CARRIAGE_RETURN || b == LINE_FEED || b
            == FORM_FEED,
        ByteClass::IdentContinue => (LOWER_A <= b && b <= LOWER_Z) || (UPPER_A <= b && b
            <= UPPER_Z) || b == UNDERSCORE || (DIGIT_ZERO <= b && b <= DIGIT_NINE),
        ByteClass::Digit => DIGIT_ZERO <= b && b <= DIGIT_NINE,
        ByteClass::Continuation => 0x80 <= b && b <= 0xbf,
    }
}

/// Finds the end of the longest run of bytes of `class` that starts at `pos`.
pub fn scan_run(bytes: &[u8], pos: usize, class: ByteClass) -> (end: usize)
    requires
        pos <= bytes.len(),
    ensures
        end == run_end(bytes@, pos as int, class),
        pos <= end <= bytes.len(),
{
    let mut i = pos;
    while i < bytes.len() && byte_in_class(class, bytes[i])
        invariant
            pos <= i <= bytes.len(),
            run_end(bytes@, pos as int, class) == run_end(bytes@, i as int, class),
        decreases bytes.len() - i,
    {
        i += 1;
    }
    i
}

/// Finds the end of the string whose opening quote stands just before `pos`.
pub fn scan_string(bytes: &[u8], pos: usize) -> (r: Option<usize>)
    requires
        pos <= bytes.len(),
    ensures
        match r {
            Some(end) => string_end(bytes@, pos as int) == Some(end as int) && pos < end
                <= bytes.len(),
            None => string_end(bytes@, pos as int) is None,
        },
{
    let mut i = pos;
    while i < bytes.len()
        invariant
            pos <= i <= bytes.len(),
            string_end(bytes@, pos as int) == string_end(bytes@, i as int),
        decreases bytes.len() - i,
    {
        let b = bytes[i];
        if b == QUOTE {
            return Some(i + 1);
        } else if b == BACKSLASH {
            if i + 1 < bytes.len() {
                let c = bytes[i + 1];
                if c == LOWER_T || c == LOWER_U || c == LOWER_N || c == QUOTE {
                    i += 2;
                } else {
                    return None;
                }
            } else {
                return None;
            }
        } else {
            i += 1;
        }
    }
    None
}

/// A number does not shrink when digits are written behind it.
pub proof fn lemma_decimal_prefix(digits: Seq<u8>, k: int)
    requires
        0 <= k <= digits.len(),
    ensures
        decimal_value(digits.subrange(0, k)) <= decimal_value(digits),
    decreases digits.len() - k,
{
    if k == digits.len() {
        assert(digits.subrange(0, k) =~= digits);
    } else {
        lemma_decimal_prefix(digits.drop_last(), k);
        assert(digits.drop_last().subrange(0, k) =~= digits.subrange(0, k));
    }
}

/// Reads the number that the digits in `from..to` denote, if it fits an
/// `i64`.
pub fn read_decimal(bytes: &[u8], from: usize, to: usize) -> (r: Option<i64>)
    requires
        from <= to <= bytes.len(),
        forall|i: int| from <= i < to ==> is_digit(#[trigger] bytes@[i]),
    ensures
        match r {
            Some(value) => decimal_value(bytes@.subrange(from as int, to as int)) == value,
            None => decimal_value(bytes@.subrange(from as int, to as int)) > i64::MAX,
        },
{
    let ghost digits = bytes@.subrange(from as int, to as int);
    let mut value: i64 = 0;
    let mut i = from;
    proof {
        assert(bytes@.subrange(from as int, from as int) =~= Seq::<u8>::empty());
    }
    while i < to
        invariant
            from <= i <= to <= bytes.len(),
            digits == bytes@.subrange(from as int, to as int),
            forall|j: int| from <= j < to ==> is_digit(#[trigger] bytes@[j]),
            0 <= value,
            value == decimal_value(bytes@.subrange(from as int, i as int)),
        decreases to - i,
    {
        let digit: i64 = (bytes[i] - DIGIT_ZERO) as i64;
        proof {
            let longer = bytes@.subrange(from as int, i + 1);
            assert(longer.drop_last() =~= bytes@.subrange(from as int, i as int));
            assert(longer.last() == bytes@[i as int]);
            assert(decimal_value(longer) == value * 10 + digit);
            assert(digits.subrange(0, i + 1 - from) =~= longer);
            lemma_decimal_prefix(digits, i + 1 - from);
        }
        if value > 922337203685477580 || (value == 922337203685477580 && digit > 7) {
            return None;
        }
        value = value * 10 + digit;
        i += 1;
    }
    proof {
        assert(bytes@.subrange(from as int, i as int) =~= digits);
    }
    Some(value)
}

} // verus!
