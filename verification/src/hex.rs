//! Hex text: what it decodes to, and the decoder.
//!
//! Two hex digits, of either case, make one byte. A leading `0x` or `0X` is
//! not part of the digits. Decoding itself is const-hex's, in the version
//! that revm brings.

use crate::text::{has_prefix, is_digit};
use vstd::prelude::*;

verus! {

/// const-hex's `FromHexError`, the error of its `decode`. Nothing is known
/// of its values.
#[verifier::external_type_specification]
#[verifier::external_body]
pub struct ExFromHexError(revm::primitives::hex::FromHexError);

/// Whether `c` is a hex digit: `0` to `9`, `a` to `f` or `A` to `F`.
pub open spec fn is_hex_digit(c: char) -> bool {
    is_digit(c) || ('a' <= c && c <= 'f') || ('A' <= c && c <= 'F')
}

/// The value of the hex digit `c`, from 0 to 15.
pub open spec fn hex_digit_value(c: char) -> int {
    if is_digit(c) {
        c as int - '0' as int
    } else if 'a' <= c && c <= 'f' {
        c as int - 'a' as int + 10
    } else {
        c as int - 'A' as int + 10
    }
}

/// Whether `digits` is an even number of hex digits.
pub open spec fn is_hex(digits: Seq<char>) -> bool {
    digits.len() % 2 == 0 && forall|i: int|
        0 <= i < digits.len() ==> is_hex_digit(#[trigger] digits[i])
}

/// The bytes that the hex digits `digits` spell: byte `k` is made of digits
/// `2k` and `2k + 1`, the first of them the high half.
pub open spec fn hex_bytes(digits: Seq<char>) -> Seq<u8> {
    Seq::new(
        digits.len() / 2,
        |k: int| (16 * hex_digit_value(digits[2 * k]) + hex_digit_value(digits[2 * k + 1])) as u8,
    )
}

/// `text` without a leading `0x` or `0X`.
pub open spec fn without_hex_prefix(text: Seq<char>) -> Seq<char> {
    if has_prefix(text, '0', 'x') || has_prefix(text, '0', 'X') {
        text.skip(2)
    } else {
        text
    }
}

/// What `text` decodes to: the bytes that its digits spell, or `None` where
/// what follows the optional prefix is not an even number of hex digits.
pub open spec fn hex_decode(text: Seq<char>) -> Option<Seq<u8>> {
    let digits = without_hex_prefix(text);
    if is_hex(digits) {
        Some(hex_bytes(digits))
    } else {
        None
    }
}

/// const-hex's `decode`, reached as `revm::primitives::hex::decode`. It
/// drops a leading `0x` or `0X`, fails on an odd length and on any byte that
/// is no hex digit, and else returns one byte for each two digits. The
/// contract says so as [`hex_decode`]; which error comes back is not stated.
#[verifier::external_body]
pub(crate) fn decode_hex(text: &str) -> (r: Result<Vec<u8>, revm::primitives::hex::FromHexError>)
    ensures
        r matches Ok(bytes) ==> hex_decode(text@) == Some(bytes@),
        r is Err ==> hex_decode(text@) is None,
{
    revm::primitives::hex::decode(text)
}

/// The lower-case hex digit for `value`, which is below 16.
pub open spec fn hex_digit_char(value: int) -> char {
    if value < 10 {
        ('0' as u8 + value) as char
    } else {
        ('a' as u8 + value - 10) as char
    }
}

/// `bytes` in lower-case hex, two digits for each byte.
pub open spec fn hex_encode(bytes: Seq<u8>) -> Seq<char> {
    Seq::new(
        2 * bytes.len(),
        |i: int|
            if i % 2 == 0 {
                hex_digit_char(bytes[i / 2] as int / 16)
            } else {
                hex_digit_char(bytes[i / 2] as int % 16)
            },
    )
}

/// Hex text decodes back to the bytes that it encodes.
pub proof fn lemma_hex_round_trip(bytes: Seq<u8>)
    ensures
        is_hex(hex_encode(bytes)),
        hex_bytes(hex_encode(bytes)) == bytes,
{
    let digits = hex_encode(bytes);
    assert forall|i: int| 0 <= i < digits.len() implies is_hex_digit(#[trigger] digits[i]) by {
        let b = bytes[i / 2] as int;
        assert(0 <= b / 16 < 16 && 0 <= b % 16 < 16);
    }
    assert forall|k: int| 0 <= k < bytes.len() implies hex_bytes(digits)[k] == bytes[k] by {
        let b = bytes[k] as int;
        assert(0 <= b / 16 < 16 && 0 <= b % 16 < 16);
        assert((2 * k) % 2 == 0 && (2 * k) / 2 == k);
        assert((2 * k + 1) % 2 == 1 && (2 * k + 1) / 2 == k);
        assert(hex_digit_value(hex_digit_char(b / 16)) == b / 16);
        assert(hex_digit_value(hex_digit_char(b % 16)) == b % 16);
        assert(16 * (b / 16) + b % 16 == b);
    }
    assert(hex_bytes(digits) =~= bytes);
}

} // verus!
