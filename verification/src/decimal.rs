//! Decimal text: the number it denotes, its bytes, and the parser.
//!
//! A decimal number is written with the digits `0` to `9`. An underscore
//! is a separator without a value, and text without a digit denotes zero. Parsing itself is ruint's, in the version that revm brings.

use crate::text::{digit, is_digit};
use vstd::prelude::*;

verus! {

/// ruint's `ParseError`, the error of its `from_str`. Nothing is known of
/// its values.
#[verifier::external_type_specification]
#[verifier::external_body]
pub struct ExParseError(revm::primitives::ruint::ParseError);

/// Whether `text` is decimal text: digits and underscores only.
pub open spec fn is_decimal(text: Seq<char>) -> bool {
    forall|i: int| 0 <= i < text.len() ==> is_digit(#[trigger] text[i]) || text[i] == '_'
}

/// The number that the decimal text `text` denotes.
pub open spec fn decimal_value(text: Seq<char>) -> nat
    decreases text.len(),
{
    if text.len() == 0 {
        0
    } else if text.last() == '_' {
        decimal_value(text.drop_last())
    } else {
        (10 * decimal_value(text.drop_last()) + (text.last() as int - '0' as int)) as nat
    }
}

/// 256 to the power `n`: the first number that `n` bytes cannot hold.
pub open spec fn pow256(n: nat) -> nat
    decreases n,
{
    if n == 0 {
        1
    } else {
        256 * pow256((n - 1) as nat)
    }
}

/// `value` in `n` bytes, most significant byte first. Where `value` is
/// `pow256(n)` or more, these are its lowest `n` bytes.
pub open spec fn be_bytes(value: nat, n: nat) -> Seq<u8>
    decreases n,
{
    if n == 0 {
        Seq::empty()
    } else {
        be_bytes(value / 256, (n - 1) as nat).push((value % 256) as u8)
    }
}

/// `be_bytes(value, n)` has `n` bytes.
pub proof fn lemma_be_bytes_len(value: nat, n: nat)
    ensures
        be_bytes(value, n).len() == n,
    decreases n,
{
    if n > 0 {
        lemma_be_bytes_len(value / 256, (n - 1) as nat);
    }
}

/// `value` in as few bytes as hold it, most significant byte first; no byte
/// for zero.
pub open spec fn minimal_bytes(value: nat) -> Seq<u8>
    decreases value,
{
    if value == 0 {
        Seq::empty()
    } else {
        minimal_bytes(value / 256).push((value % 256) as u8)
    }
}

/// The first of the minimal bytes of a number is not zero.
pub proof fn lemma_minimal_bytes_head(value: nat)
    requires
        value > 0,
    ensures
        minimal_bytes(value).len() > 0,
        minimal_bytes(value)[0] != 0,
    decreases value,
{
    let higher = minimal_bytes(value / 256);
    if value / 256 > 0 {
        lemma_minimal_bytes_head(value / 256);
        assert(minimal_bytes(value)[0] == higher[0]);
    } else {
        assert(higher.len() == 0);
        assert(value % 256 == value);
        assert(minimal_bytes(value)[0] == (value % 256) as u8);
    }
}

/// The `n` bytes of a number that `n` bytes can hold are zeros, then its
/// minimal bytes.
pub proof fn lemma_be_bytes_are_padded(value: nat, n: nat)
    requires
        value < pow256(n),
    ensures
        minimal_bytes(value).len() <= n,
        be_bytes(value, n) == Seq::new((n - minimal_bytes(value).len()) as nat, |i: int| 0u8)
            + minimal_bytes(value),
    decreases n,
{
    if n > 0 {
        lemma_be_bytes_are_padded(value / 256, (n - 1) as nat);
    }
    assert(be_bytes(value, n) =~= Seq::new(
        (n - minimal_bytes(value).len()) as nat,
        |i: int| 0u8,
    ) + minimal_bytes(value));
}

/// ruint's `from_str` for `U256` (`Uint<256, 4>`), then `to_be_bytes_vec` of
/// the number parsed. On decimal text `from_str` reads base 10 and skips
/// underscores; it fails exactly if the number does not fit in 256 bits.
/// `to_be_bytes_vec` gives the 32 bytes of the number, most significant
/// first. Text that is not decimal text is kept out: ruint reads some of it
/// in other bases.
#[verifier::external_body]
pub(crate) fn parse_u256(text: &str) -> (r: Result<Vec<u8>, revm::primitives::ruint::ParseError>)
    requires
        is_decimal(text@),
    ensures
        r is Ok <==> decimal_value(text@) < pow256(32),
        r matches Ok(bytes) ==> bytes@ == be_bytes(decimal_value(text@), 32),
{
    match <revm::primitives::U256 as std::str::FromStr>::from_str(text) {
        Ok(number) => Ok(number.to_be_bytes_vec()),
        Err(e) => Err(e),
    }
}

/// Whether `chars[from..]` is decimal text.
pub(crate) fn decimal_text(chars: &Vec<char>, from: usize) -> (r: bool)
    requires
        from <= chars.len(),
    ensures
        r == is_decimal(chars@.skip(from as int)),
{
    let mut i: usize = from;
    while i < chars.len()
        invariant
            from <= i <= chars.len(),
            forall|k: int| from <= k < i ==> is_digit(#[trigger] chars@[k]) || chars@[k] == '_',
        decreases chars.len() - i,
    {
        if !digit(chars[i]) && chars[i] != '_' {
            assert(chars@.skip(from as int)[i - from] == chars@[i as int]);
            return false;
        }
        i += 1;
    }
    assert forall|k: int| 0 <= k < chars@.skip(from as int).len() implies is_digit(
        #[trigger] chars@.skip(from as int)[k],
    ) || chars@.skip(from as int)[k] == '_' by {
        assert(chars@.skip(from as int)[k] == chars@[from + k]);
    }
    true
}

} // verus!
