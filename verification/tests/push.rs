use evm_assembler::push::{prepend_push_opcode, MAX_LITERAL_BYTES, PUSH0, PUSH1};

fn pushed(bytes: &[u8]) -> Vec<u8> {
    let mut bytes = bytes.to_vec();
    prepend_push_opcode(&mut bytes);
    bytes
}

#[test]
fn the_opcodes_are_those_of_revm() {
    assert_eq!(PUSH0, revm::interpreter::opcode::PUSH0);
    assert_eq!(PUSH1, revm::interpreter::opcode::PUSH1);
    assert_eq!(PUSH1 + 31, revm::interpreter::opcode::PUSH32);
    assert_eq!(PUSH0, 0x5f);
    assert_eq!(PUSH1, 0x60);
    assert_eq!(MAX_LITERAL_BYTES, 32);
}

#[test]
fn nothing_is_push_zero() {
    assert_eq!(pushed(&[]), vec![0x5f]);
}

#[test]
fn zeros_are_push_zero() {
    assert_eq!(pushed(&[0]), vec![0x5f]);
    assert_eq!(pushed(&[0; 32]), vec![0x5f]);
    assert_eq!(pushed(&[0; 40]), vec![0x5f]);
}

#[test]
fn one_byte_is_push1() {
    assert_eq!(pushed(&[1]), vec![0x60, 1]);
    assert_eq!(pushed(&[0xff]), vec![0x60, 0xff]);
}

#[test]
fn the_opcode_grows_with_the_length() {
    for n in 1..=32usize {
        let bytes = vec![0x11; n];
        let mut expected = vec![0x60 + (n as u8 - 1)];
        expected.extend(&bytes);
        assert_eq!(pushed(&bytes), expected);
    }
}

#[test]
fn leading_zeros_are_dropped() {
    assert_eq!(pushed(&[0, 0, 5]), vec![0x60, 5]);
    assert_eq!(pushed(&[0, 1, 0]), vec![0x61, 1, 0]);
    let mut bytes = vec![0; 31];
    bytes.push(7);
    assert_eq!(pushed(&bytes), vec![0x60, 7]);
}

#[test]
fn zeros_inside_and_at_the_end_stay() {
    assert_eq!(pushed(&[1, 0, 0]), vec![0x62, 1, 0, 0]);
    assert_eq!(pushed(&[0, 2, 0, 3, 0]), vec![0x63, 2, 0, 3, 0]);
}

#[test]
fn thirty_two_bytes_are_push32() {
    let bytes: Vec<u8> = (1..=32).collect();
    let mut expected = vec![0x7f];
    expected.extend(&bytes);
    assert_eq!(pushed(&bytes), expected);
}
