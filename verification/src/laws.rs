//! What holds of every assembly. Each law is stated for any well-formed
//! opcode table, so it holds of the table in use whatever the instruction
//! set names.

use crate::assembler::{after, assembly, encode_all};
use crate::decimal::{
    be_bytes, decimal_value, is_decimal, lemma_be_bytes_are_padded, lemma_minimal_bytes_head,
    minimal_bytes, pow256,
};
use crate::encoder::{failure, token_bytes};
use crate::error::ErrorKind;
use crate::hex::{hex_bytes, hex_decode, hex_encode, is_hex, is_hex_digit, lemma_hex_round_trip};
use crate::lexer::tokens;
use crate::lexer_laws::{
    all_space, ends_in_comment, lemma_tokens_concat, lemma_tokens_ignore_comment,
    lemma_tokens_ignore_last_comment, lemma_tokens_ignore_space, lemma_tokens_of_word,
    no_line_feed, separated,
};
use crate::opcodes::{is_mnemonic, lemma_mnemonic_is_word, well_formed};
use crate::push::{
    leading_zeros, lemma_leading_zeros_are, push_encoding, without_leading_zeros, PUSH0, PUSH1,
};
use crate::text::{is_word, is_word_char};
use vstd::prelude::*;

verus! {

/// The hex literal that spells `digits`: `0x`, then the digits.
pub open spec fn hex_literal(digits: Seq<char>) -> Seq<char> {
    seq!['0', 'x'] + digits
}

/// A source text of one token assembles to the bytes of that token.
pub proof fn lemma_assembly_of_word(table: Map<Seq<char>, u8>, word: Seq<char>)
    requires
        is_word(word),
    ensures
        assembly(table, word) == token_bytes(table, word),
{
    lemma_tokens_of_word(word);
    let one = seq![word];
    assert(one.skip(1).len() == 0);
    assert(encode_all(table, one.skip(1)) == Ok::<Seq<u8>, crate::error::Failure>(Seq::empty()));
    if let Ok(bytes) = token_bytes(table, word) {
        assert(bytes + Seq::<u8>::empty() =~= bytes);
    }
}

/// A hex literal is a word, and no mnemonic.
pub proof fn lemma_hex_literal_is_word(digits: Seq<char>)
    requires
        forall|i: int| 0 <= i < digits.len() ==> is_hex_digit(#[trigger] digits[i]),
    ensures
        is_word(hex_literal(digits)),
        !is_mnemonic(hex_literal(digits)),
        hex_literal(digits).skip(2) == digits,
{
    let literal = hex_literal(digits);
    assert forall|i: int| 0 <= i < literal.len() implies is_word_char(#[trigger] literal[i]) by {
        if i >= 2 {
            assert(literal[i] == digits[i - 2]);
            assert(is_hex_digit(digits[i - 2]));
        }
    }
    assert(literal[0] == '0');
    assert(literal.skip(2) =~= digits);
}

/// Mnemonics: every registered mnemonic, alone, assembles to the one byte
/// that it is registered for.
pub proof fn lemma_mnemonic_assembles(table: Map<Seq<char>, u8>, mnemonic: Seq<char>)
    requires
        well_formed(table),
        table.contains_key(mnemonic),
    ensures
        assembly(table, mnemonic) == Ok::<Seq<u8>, crate::error::Failure>(seq![table[mnemonic]]),
{
    lemma_mnemonic_is_word(mnemonic);
    lemma_assembly_of_word(table, mnemonic);
}

/// Hex literals: `0x` and the hex text of at most 32 bytes assemble to the
/// shortest push of those bytes. With `k` bytes left once the leading zeros
/// are gone, that is the push-zero opcode if `k` is 0, else the opcode
/// `PUSH1 + (k - 1)` and the `k` bytes.
pub proof fn lemma_hex_literal_assembles(table: Map<Seq<char>, u8>, bytes: Seq<u8>)
    requires
        well_formed(table),
        bytes.len() <= 32,
    ensures
        assembly(table, hex_literal(hex_encode(bytes))) == Ok::<Seq<u8>, crate::error::Failure>(
            push_encoding(bytes),
        ),
        leading_zeros(bytes) == bytes.len() ==> push_encoding(bytes) == seq![PUSH0],
        leading_zeros(bytes) < bytes.len() ==> push_encoding(bytes) == seq![
            (PUSH1 + (bytes.len() - leading_zeros(bytes) - 1)) as u8,
        ] + without_leading_zeros(bytes),
{
    let digits = hex_encode(bytes);
    lemma_hex_round_trip(bytes);
    lemma_hex_literal_is_word(digits);
    lemma_assembly_of_word(table, hex_literal(digits));
    crate::push::lemma_leading_zeros(bytes);
}

/// The decimal literal that spells `digits`: `0t`, then the digits.
pub open spec fn decimal_literal(digits: Seq<char>) -> Seq<char> {
    seq!['0', 't'] + digits
}

/// Decimal literals: `0t` and the decimal text of a number that 32 bytes
/// hold assemble to the shortest push of that number: the push-zero opcode
/// for zero, else the opcode for the number of its minimal bytes, then
/// those bytes.
pub proof fn lemma_decimal_literal_assembles(table: Map<Seq<char>, u8>, digits: Seq<char>)
    requires
        well_formed(table),
        is_decimal(digits),
        decimal_value(digits) < pow256(32),
    ensures
        minimal_bytes(decimal_value(digits)).len() <= 32,
        assembly(table, decimal_literal(digits)) == Ok::<Seq<u8>, crate::error::Failure>(
            if decimal_value(digits) == 0 {
                seq![PUSH0]
            } else {
                seq![(PUSH1 + (minimal_bytes(decimal_value(digits)).len() - 1)) as u8]
                    + minimal_bytes(decimal_value(digits))
            },
        ),
{
    let literal = decimal_literal(digits);
    let value = decimal_value(digits);
    assert forall|i: int| 0 <= i < literal.len() implies is_word_char(#[trigger] literal[i]) by {
        if i >= 2 {
            assert(literal[i] == digits[i - 2]);
            assert(crate::text::is_digit(digits[i - 2]) || digits[i - 2] == '_');
        }
    }
    assert(literal[0] == '0' && literal[1] == 't');
    assert(!is_mnemonic(literal));
    assert(literal.skip(2) =~= digits);
    lemma_assembly_of_word(table, literal);
    lemma_be_bytes_are_padded(value, 32);
    let minimal = minimal_bytes(value);
    let padded = be_bytes(value, 32);
    let zeros = 32 - minimal.len();
    if value > 0 {
        lemma_minimal_bytes_head(value);
        assert(padded[zeros] == minimal[0]);
    }
    lemma_leading_zeros_are(padded, zeros);
    assert(without_leading_zeros(padded) =~= minimal);
    assert(token_bytes(table, literal) == Ok::<Seq<u8>, crate::error::Failure>(
        push_encoding(padded),
    ));
    if value == 0 {
        assert(minimal.len() == 0);
    }
}

/// Priority: a token that is a registered mnemonic is encoded as that
/// mnemonic, also where it could be read as hex bytes.
pub proof fn lemma_mnemonic_before_hex(table: Map<Seq<char>, u8>, token: Seq<char>)
    requires
        table.contains_key(token),
        hex_decode(token) is Some,
    ensures
        token_bytes(table, token) == Ok::<Seq<u8>, crate::error::Failure>(seq![table[token]]),
        is_word(token) ==> assembly(table, token) == Ok::<Seq<u8>, crate::error::Failure>(
            seq![table[token]],
        ),
{
    if is_word(token) {
        lemma_assembly_of_word(table, token);
    }
}

/// Oversized literals: a hex literal of 33 bytes or more fails as oversized,
/// whatever its value.
pub proof fn lemma_oversized_hex_literal_fails(table: Map<Seq<char>, u8>, digits: Seq<char>)
    requires
        well_formed(table),
        is_hex(digits),
        digits.len() >= 66,
    ensures
        hex_bytes(digits).len() >= 33,
        assembly(table, hex_literal(digits)) == failure(
            ErrorKind::OversizedLiteral,
            hex_literal(digits),
        ),
{
    lemma_hex_literal_is_word(digits);
    lemma_assembly_of_word(table, hex_literal(digits));
}

/// The bytes of a list of tokens are those of its first part, then those of
/// its second part; a failure in the first part is the failure of the whole.
pub proof fn lemma_encode_all_concat(
    table: Map<Seq<char>, u8>,
    first: Seq<Seq<char>>,
    second: Seq<Seq<char>>,
)
    ensures
        encode_all(table, first + second) == (match encode_all(table, first) {
            Ok(bytes) => after(bytes, encode_all(table, second)),
            Err(failure) => Err(failure),
        }),
    decreases first.len(),
{
    if first.len() == 0 {
        assert(first + second =~= second);
        if let Ok(bytes) = encode_all(table, second) {
            assert(Seq::<u8>::empty() + bytes =~= bytes);
        }
    } else {
        assert((first + second)[0] == first[0]);
        assert((first + second).skip(1) =~= first.skip(1) + second);
        lemma_encode_all_concat(table, first.skip(1), second);
        if let Ok(head) = token_bytes(table, first[0]) {
            if let Ok(middle) = encode_all(table, first.skip(1)) {
                if let Ok(tail) = encode_all(table, second) {
                    assert(head + (middle + tail) =~= (head + middle) + tail);
                }
            }
        }
    }
}

/// Tokens do not depend on their neighbours: two texts parted by white
/// space assemble to the bytes of the first, then the bytes of the second,
/// and fail as the first fails, or else as the second.
pub proof fn lemma_assembly_concat(
    table: Map<Seq<char>, u8>,
    before: Seq<char>,
    gap: Seq<char>,
    behind: Seq<char>,
)
    requires
        all_space(gap),
        gap.len() > 0,
        !ends_in_comment(before),
    ensures
        assembly(table, before + gap + behind) == (match assembly(table, before) {
            Ok(bytes) => after(bytes, assembly(table, behind)),
            Err(failure) => Err(failure),
        }),
{
    lemma_tokens_concat(before, gap, behind);
    lemma_encode_all_concat(table, tokens(before), tokens(behind));
}

/// White space: putting in or taking out a run of spaces, tabs and line
/// feeds between tokens does not change what a text assembles to, as long as
/// white space, a comment or an end of the text still parts the tokens.
pub proof fn lemma_assembly_ignores_space(
    table: Map<Seq<char>, u8>,
    before: Seq<char>,
    gap: Seq<char>,
    behind: Seq<char>,
)
    requires
        all_space(gap),
        !ends_in_comment(before),
        separated(before, behind),
    ensures
        assembly(table, before + gap + behind) == assembly(table, before + behind),
{
    lemma_tokens_ignore_space(before, gap, behind);
}

/// Comments: what stands between a `#` and the end of its line contributes
/// nothing, whatever it is.
pub proof fn lemma_assembly_ignores_comment(
    table: Map<Seq<char>, u8>,
    before: Seq<char>,
    comment: Seq<char>,
    behind: Seq<char>,
)
    requires
        no_line_feed(comment),
    ensures
        assembly(table, before + seq!['#'] + comment + seq!['\n'] + behind) == assembly(
            table,
            before + seq!['\n'] + behind,
        ),
        assembly(table, before + seq!['#'] + comment) == assembly(table, before),
{
    lemma_tokens_ignore_comment(before, comment, behind);
    lemma_tokens_ignore_last_comment(before, comment);
}

} // verus!
