//! An assembler for EVM code written as text.
//!
//! The source text holds mnemonics (`MSTORE`, `mstore`), hex literals
//! (`0x2002`), decimal literals (`0t1023`), raw hex bytes (`6001`) and
//! comments (`# ...`), parted by white space. [`assembler::assemble`] turns
//! it into bytecode: a mnemonic becomes its opcode, a literal the shortest
//! push instruction that holds it, raw bytes themselves.
//!
//! The instruction set is revm's. Hex and decimal text are decoded by the
//! crates that revm brings; what they return is stated in [`hex`] and
//! [`decimal`].

pub mod assembler;
pub mod bytes_wrapper;
pub mod decimal;
pub mod encoder;
pub mod error;
pub mod hex;
pub mod laws;
pub mod lexer;
pub mod lexer_laws;
pub mod opcodes;
pub mod push;
pub mod text;
pub mod token_laws;
