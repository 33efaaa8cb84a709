//! Bytes given as hex text, as on a command line.

use crate::error::{AssembleError, ErrorKind, Failure};
use crate::hex::{decode_hex, hex_decode};
use vstd::prelude::*;

verus! {

/// Bytes that were read from hex text.
#[derive(Debug, Clone)]
pub struct BytesWrapper(Vec<u8>);

impl View for BytesWrapper {
    type V = Seq<u8>;

    closed spec fn view(&self) -> Seq<u8> {
        self.0@
    }
}

impl BytesWrapper {
    /// The bytes that `value` spells in hex, with or without a leading `0x`.
    /// Text with an odd number of digits, or with a character that is no hex
    /// digit, is malformed.
    pub fn from_hex(value: &str) -> (r: Result<BytesWrapper, AssembleError>)
        ensures
            match hex_decode(value@) {
                Some(bytes) => r matches Ok(wrapper) && wrapper@ == bytes,
                None => r matches Err(e) && e@ == (Failure {
                    kind: ErrorKind::MalformedHex,
                    token: value@,
                }),
            },
    {
        match decode_hex(value) {
            Ok(bytes) => Ok(BytesWrapper(bytes)),
            Err(_) => Err(AssembleError::new(ErrorKind::MalformedHex, value)),
        }
    }

    /// The bytes themselves.
    pub fn into_inner(self) -> (bytes: Vec<u8>)
        ensures
            bytes@ == self@,
    {
        self.0
    }
}

} // verus!
