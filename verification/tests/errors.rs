use evm_assembler::assembler::assemble;
use evm_assembler::error::{AssembleError, ErrorKind};

#[test]
fn a_failure_names_its_token() {
    let e = AssembleError::new(ErrorKind::InvalidDecimal, "0tx");
    assert_eq!(e.kind, ErrorKind::InvalidDecimal);
    assert_eq!(e.token, "0tx");
}

#[test]
fn messages_hold_the_kind_and_the_token() {
    let e = AssembleError::new(ErrorKind::OversizedLiteral, "0xff");
    assert_eq!(e.message(), "Literal exceeds 32 bytes -> 0xff");
    let e = AssembleError::new(ErrorKind::InvalidDecimal, "0tx");
    assert_eq!(e.message(), "Invalid decimal value -> 0tx");
    let e = AssembleError::new(ErrorKind::UnrecognizedToken, "FOO");
    assert_eq!(e.message(), "Unexpected token -> FOO");
    let e = AssembleError::new(ErrorKind::MalformedHex, "0x1");
    assert_eq!(e.message(), "Malformed hex -> 0x1");
}

#[test]
fn each_kind_of_failure_can_happen() {
    assert_eq!(assemble("ADD 0x1").unwrap_err().kind, ErrorKind::MalformedHex);
    assert_eq!(assemble("ADD 0t1x").unwrap_err().kind, ErrorKind::InvalidDecimal);
    assert_eq!(assemble("ADD BOGUS").unwrap_err().kind, ErrorKind::UnrecognizedToken);
    let long = format!("ADD 0x{}", "01".repeat(33));
    assert_eq!(assemble(&long).unwrap_err().kind, ErrorKind::OversizedLiteral);
    let big = format!("ADD 0t{}", "9".repeat(78));
    assert_eq!(assemble(&big).unwrap_err().kind, ErrorKind::OversizedLiteral);
}

#[test]
fn the_message_of_an_assembly_failure() {
    let e = assemble("0x01 FOO").unwrap_err();
    assert_eq!(e.message(), "Unexpected token -> FOO");
}
