//! The two encodings found in header fields: NUL-terminated text and octal
//! numbers.

use vstd::prelude::*;
use vstd::slice::slice_subrange;
use vstd::string::StringSliceAdditionalSpecFns;
use vstd::utf8::{decode_utf8, encode_utf8_decode_utf8, valid_utf8};

verus! {

/// The bytes of a field before its first NUL; `None` where it holds no NUL.
pub open spec fn terminated_bytes(field: Seq<u8>) -> Option<Seq<u8>> {
    match field.index_of_first(0u8) {
        Some(n) => Some(field.take(n)),
        None => None,
    }
}

/// The text of a field: the UTF-8 decoding of the bytes before its first NUL.
/// `None` where the field holds no NUL or those bytes are not UTF-8.
pub open spec fn field_text(field: Seq<u8>) -> Option<Seq<char>> {
    match terminated_bytes(field) {
        Some(bytes) => if valid_utf8(bytes) {
            Some(decode_utf8(bytes))
        } else {
            None
        },
        None => None,
    }
}

/// Whether `b` is one of the ASCII digits `0` to `7`.
pub open spec fn is_octal_digit(b: u8) -> bool {
    0x30 <= b <= 0x37
}

/// Whether `digits` is a non-empty run of octal digits.
pub open spec fn is_octal(digits: Seq<u8>) -> bool {
    &&& digits.len() > 0
    &&& forall|i: int| 0 <= i < digits.len() ==> is_octal_digit(#[trigger] digits[i])
}

/// The number that a run of octal digits denotes, most significant digit
/// first.
pub open spec fn octal_value(digits: Seq<u8>) -> nat
    decreases digits.len(),
{
    if digits.len() == 0 {
        0
    } else {
        octal_value(digits.drop_last()) * 8 + (digits.last() - 0x30) as nat
    }
}

/// The number that `digits` denotes in base 8 where it is a non-empty run of
/// octal digits and the number fits in 64 bits.
pub open spec fn octal_number(digits: Seq<u8>) -> Option<u64> {
    if is_octal(digits) && octal_value(digits) <= u64::MAX {
        Some(octal_value(digits) as u64)
    } else {
        None
    }
}

/// The number in a field: that of the octal digits before its first NUL.
pub open spec fn field_number(field: Seq<u8>) -> Option<u64> {
    match terminated_bytes(field) {
        Some(digits) => octal_number(digits),
        None => None,
    }
}

/// A longer run of octal digits denotes no smaller a number than its prefix.
pub proof fn lemma_octal_value_grows(digits: Seq<u8>, n: int)
    requires
        0 <= n <= digits.len(),
        forall|i: int| 0 <= i < digits.len() ==> is_octal_digit(#[trigger] digits[i]),
    ensures
        octal_value(digits.take(n)) <= octal_value(digits),
    decreases digits.len() - n,
{
    if n == digits.len() {
        assert(digits.take(n) == digits);
    } else {
        let shorter = digits.drop_last();
        assert(shorter.take(n) == digits.take(n));
        lemma_octal_value_grows(shorter, n);
    }
}

/// The position of the first NUL in `input`.
pub fn find_nul(input: &[u8]) -> (r: Option<usize>)
    ensures
        match r {
            Some(n) => n < input@.len() && input@.index_of_first(0u8) == Some(n as int),
            None => input@.index_of_first(0u8) is None,
        },
{
    let mut i: usize = 0;
    while i < input.len()
        invariant
            i <= input.len(),
            forall|j: int| 0 <= j < i ==> input@[j] != 0,
        decreases input.len() - i,
    {
        if input[i] == 0 {
            proof {
                assert(input@.contains(0u8));
                input@.index_of_first_ensures(0u8);
            }
            return Some(i);
        }
        i += 1;
    }
    proof {
        assert(!input@.contains(0u8));
        input@.index_of_first_ensures(0u8);
    }
    None
}

/// `core::str::from_utf8`, with the error dropped. The standard library
/// returns the string slice over `bytes` exactly when `bytes` is well-formed
/// UTF-8; the slice then has `bytes` as its encoding.
#[verifier::external_body]
fn str_from_utf8(bytes: &[u8]) -> (r: Option<&str>)
    ensures
        r is Some <==> valid_utf8(bytes@),
        r matches Some(s) ==> s.spec_bytes() == bytes@,
{
    core::str::from_utf8(bytes).ok()
}

/// Reads a NUL-terminated field as text. What follows the first NUL is
/// ignored.
pub fn slice_to_str(input: &[u8]) -> (r: Option<&str>)
    ensures
        match r {
            Some(s) => field_text(input@) == Some(s@),
            None => field_text(input@) is None,
        },
{
    match find_nul(input) {
        None => None,
        Some(n) => {
            let bytes = slice_subrange(input, 0, n);
            match str_from_utf8(bytes) {
                None => None,
                Some(s) => {
                    proof {
                        encode_utf8_decode_utf8(s@);
                    }
                    Some(s)
                },
            }
        },
    }
}

/// Reads a run of octal digits as a number.
pub fn parse_octal(digits: &[u8]) -> (r: Option<u64>)
    ensures
        r == octal_number(digits@),
{
    if digits.len() == 0 {
        return None;
    }
    let mut value: u64 = 0;
    let mut i: usize = 0;
    while i < digits.len()
        invariant
            i <= digits.len(),
            forall|j: int| 0 <= j < i ==> is_octal_digit(#[trigger] digits@[j]),
            value == octal_value(digits@.take(i as int)),
        decreases digits.len() - i,
    {
        let b: u8 = digits[i];
        if b < 0x30 || b > 0x37 {
            return None;
        }
        proof {
            assert(digits@.take(i + 1).drop_last() == digits@.take(i as int));
            assert(digits@.take(i + 1).last() == b);
        }
        let digit: u64 = (b - 0x30) as u64;
        if value > (u64::MAX - digit) / 8 {
            proof {
                lemma_octal_overflow(digits@, i + 1);
            }
            return None;
        }
        value = value * 8 + digit;
        i += 1;
    }
    proof {
        assert(digits@.take(i as int) == digits@);
    }
    Some(value)
}

/// Where the first `n` bytes of `digits` are octal digits and denote a number
/// over 64 bits, `digits` denotes no number of 64 bits.
proof fn lemma_octal_overflow(digits: Seq<u8>, n: int)
    requires
        0 <= n <= digits.len(),
        forall|j: int| 0 <= j < n ==> is_octal_digit(#[trigger] digits[j]),
        octal_value(digits.take(n)) > u64::MAX,
    ensures
        octal_number(digits) is None,
{
    if is_octal(digits) {
        lemma_octal_value_grows(digits, n);
    }
}

/// Reads a NUL-terminated field of octal digits as a number.
pub fn field_to_number(input: &[u8]) -> (r: Option<u64>)
    ensures
        r == field_number(input@),
{
    match find_nul(input) {
        None => None,
        Some(n) => parse_octal(slice_subrange(input, 0, n)),
    }
}

} // verus!
