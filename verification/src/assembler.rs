//! The assembler: from source text to bytecode.
//!
//! The bytes of the tokens are joined in the order of the tokens. The first
//! token that cannot be encoded ends the assembly with its failure, and no
//! bytes are returned.

use crate::encoder::token_bytes;
use crate::error::{outcome, AssembleError, Failure};
use crate::lexer::{tokens, Lexer};
use crate::opcodes::{instruction_set, registry, OpcodeTable};
use vstd::prelude::*;

verus! {

/// `r` with `bytes` put before its bytes; a failure stays as it is.
pub open spec fn after(bytes: Seq<u8>, r: Result<Seq<u8>, Failure>) -> Result<Seq<u8>, Failure> {
    match r {
        Ok(rest) => Ok(bytes + rest),
        Err(failure) => Err(failure),
    }
}

/// The bytes of `tokens` joined in order, or the failure of the first of
/// them that cannot be encoded under `table`.
pub open spec fn encode_all(table: Map<Seq<char>, u8>, tokens: Seq<Seq<char>>) -> Result<
    Seq<u8>,
    Failure,
>
    decreases tokens.len(),
{
    if tokens.len() == 0 {
        Ok(Seq::empty())
    } else {
        match token_bytes(table, tokens[0]) {
            Ok(bytes) => after(bytes, encode_all(table, tokens.skip(1))),
            Err(failure) => Err(failure),
        }
    }
}

/// What the source text `source` assembles to under `table`.
pub open spec fn assembly(table: Map<Seq<char>, u8>, source: Seq<char>) -> Result<
    Seq<u8>,
    Failure,
> {
    encode_all(table, tokens(source))
}

/// Assembles `input` with the opcode table `opcodes`.
pub fn assemble_with(input: &str, opcodes: &OpcodeTable) -> (r: Result<Vec<u8>, AssembleError>)
    ensures
        outcome(r) == assembly(opcodes@, input@),
{
    let mut lexer = Lexer::new(input, opcodes);
    let mut bytecode: Vec<u8> = Vec::new();
    loop
        invariant
            lexer.table() == opcodes@,
            assembly(opcodes@, input@) == after(
                bytecode@,
                encode_all(opcodes@, lexer.remaining()),
            ),
        decreases lexer.remaining().len(),
    {
        let ghost before = lexer.remaining();
        match lexer.next_token() {
            Some(token) => {
                assert(before[0] == token@);
                assert(before.skip(1) =~= lexer.remaining());
                match lexer.parse_token(token.as_str()) {
                    Ok(mut bytes) => {
                        let ghost head = bytecode@;
                        let ghost tail = bytes@;
                        bytecode.append(&mut bytes);
                        proof {
                            if let Ok(rest) = encode_all(opcodes@, lexer.remaining()) {
                                assert(head + (tail + rest) =~= (head + tail) + rest);
                            }
                        }
                    },
                    Err(failure) => {
                        return Err(failure);
                    },
                }
            },
            None => {
                assert(bytecode@ + Seq::<u8>::empty() =~= bytecode@);
                return Ok(bytecode);
            },
        }
    }
}

/// Assembles `input` with the opcode table of revm's instruction set.
pub fn assemble(input: &str) -> (r: Result<Vec<u8>, AssembleError>)
    ensures
        outcome(r) == assembly(registry(instruction_set()), input@),
{
    let opcodes = OpcodeTable::new();
    assemble_with(input, &opcodes)
}

/// The bytes that `input` stands for. The input is mnemonic source text;
/// it is assembled.
pub fn parse(input: &str) -> (r: Result<Vec<u8>, AssembleError>)
    ensures
        outcome(r) == assembly(registry(instruction_set()), input@),
{
    assemble(input)
}

} // verus!
