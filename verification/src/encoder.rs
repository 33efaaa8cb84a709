//! The token encoder: from one token to the bytes it contributes.
//!
//! A token is tried as a mnemonic, as a hex literal (`0x`), as a decimal
//! literal (`0t`) and as raw hex bytes, in this order; the first category
//! that it falls under decides. A token does not depend on its neighbours.
//!
//! Hex is malformed only where the text claims to be hex: behind `0x`. A
//! token without a prefix that does not decode as hex is of no category, and
//! so unrecognized, also where it is made of an odd number of hex digits.

use crate::decimal::{
    be_bytes, decimal_text, decimal_value, is_decimal, lemma_be_bytes_len, parse_u256, pow256,
};
use crate::error::{outcome, AssembleError, ErrorKind, Failure};
use crate::hex::{decode_hex, hex_bytes, hex_decode, is_hex};
use crate::opcodes::OpcodeTable;
use crate::push::{
    lemma_leading_zeros, prepend_push_opcode, push_encoding, MAX_LITERAL_BYTES,
};
use crate::text::{chars_of, has_prefix, string_of};
use vstd::prelude::*;

verus! {

/// The failure of `kind` on `token`, as a result.
pub open spec fn failure(kind: ErrorKind, token: Seq<char>) -> Result<Seq<u8>, Failure> {
    Err(Failure { kind, token })
}

/// The bytes that `token` contributes under `table`, or why it cannot be
/// encoded.
///
/// 1. A registered mnemonic gives its opcode, whatever else it looks like.
/// 2. After `0x` stand hex digits. Their bytes, 32 at most, are pushed.
/// 3. After `0t` stands decimal text. Its number is pushed, if 32 bytes
///    hold it.
/// 4. Any other token that decodes as hex gives the decoded bytes as they
///    are, however many.
pub open spec fn token_bytes(table: Map<Seq<char>, u8>, token: Seq<char>) -> Result<
    Seq<u8>,
    Failure,
> {
    if table.contains_key(token) {
        Ok(seq![table[token]])
    } else if has_prefix(token, '0', 'x') {
        let digits = token.skip(2);
        if !is_hex(digits) {
            failure(ErrorKind::MalformedHex, token)
        } else if hex_bytes(digits).len() > MAX_LITERAL_BYTES {
            failure(ErrorKind::OversizedLiteral, token)
        } else {
            Ok(push_encoding(hex_bytes(digits)))
        }
    } else if has_prefix(token, '0', 't') {
        let digits = token.skip(2);
        if !is_decimal(digits) {
            failure(ErrorKind::InvalidDecimal, token)
        } else if decimal_value(digits) >= pow256(MAX_LITERAL_BYTES as nat) {
            failure(ErrorKind::OversizedLiteral, token)
        } else {
            Ok(push_encoding(be_bytes(decimal_value(digits), MAX_LITERAL_BYTES as nat)))
        }
    } else {
        match hex_decode(token) {
            Some(bytes) => Ok(bytes),
            None => failure(ErrorKind::UnrecognizedToken, token),
        }
    }
}

/// Encodes `token` under `opcodes`.
pub fn encode_token(opcodes: &OpcodeTable, token: &str) -> (r: Result<Vec<u8>, AssembleError>)
    ensures
        outcome(r) == token_bytes(opcodes@, token@),
{
    if let Some(opcode) = opcodes.lookup(token) {
        let bytes = vec![opcode];
        assert(bytes@ =~= seq![opcode]);
        return Ok(bytes);
    }
    let chars = chars_of(token);
    let n = chars.len();
    if n >= 2 && chars[0] == '0' && chars[1] == 'x' {
        match decode_hex(token) {
            Ok(mut bytes) => {
                if bytes.len() > MAX_LITERAL_BYTES {
                    Err(AssembleError::new(ErrorKind::OversizedLiteral, token))
                } else {
                    proof {
                        lemma_leading_zeros(bytes@);
                    }
                    prepend_push_opcode(&mut bytes);
                    Ok(bytes)
                }
            },
            Err(_) => Err(AssembleError::new(ErrorKind::MalformedHex, token)),
        }
    } else if n >= 2 && chars[0] == '0' && chars[1] == 't' {
        if !decimal_text(&chars, 2) {
            return Err(AssembleError::new(ErrorKind::InvalidDecimal, token));
        }
        let digits = string_of(&chars, 2, n);
        assert(digits@ =~= token@.skip(2));
        match parse_u256(digits.as_str()) {
            Ok(mut bytes) => {
                proof {
                    lemma_be_bytes_len(decimal_value(digits@), 32);
                    lemma_leading_zeros(bytes@);
                }
                prepend_push_opcode(&mut bytes);
                Ok(bytes)
            },
            Err(_) => Err(AssembleError::new(ErrorKind::OversizedLiteral, token)),
        }
    } else {
        match decode_hex(token) {
            Ok(bytes) => Ok(bytes),
            Err(_) => Err(AssembleError::new(ErrorKind::UnrecognizedToken, token)),
        }
    }
}

} // verus!
