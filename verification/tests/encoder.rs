use evm_assembler::encoder::encode_token;
use evm_assembler::error::ErrorKind;
use evm_assembler::opcodes::OpcodeTable;

fn encode(token: &str) -> Result<Vec<u8>, (ErrorKind, String)> {
    let table = OpcodeTable::new();
    encode_token(&table, token).map_err(|e| (e.kind, e.token))
}

fn fails(token: &str, kind: ErrorKind) {
    assert_eq!(encode(token), Err((kind, token.to_string())));
}

#[test]
fn a_mnemonic_gives_its_opcode() {
    assert_eq!(encode("STOP"), Ok(vec![0x00]));
    assert_eq!(encode("MSTORE"), Ok(vec![0x52]));
    assert_eq!(encode("PUSH1"), Ok(vec![0x60]));
    assert_eq!(encode("SELFDESTRUCT"), Ok(vec![0xff]));
}

#[test]
fn a_mnemonic_may_be_in_lower_case() {
    assert_eq!(encode("mstore"), Ok(vec![0x52]));
    assert_eq!(encode("push32"), Ok(vec![0x7f]));
    assert_eq!(encode("keccak256"), Ok(vec![0x20]));
}

#[test]
fn a_mnemonic_in_mixed_case_is_not_registered() {
    fails("Mstore", ErrorKind::UnrecognizedToken);
    fails("mSTORE", ErrorKind::UnrecognizedToken);
}

#[test]
fn a_hex_literal_is_pushed() {
    assert_eq!(encode("0x01"), Ok(vec![0x60, 0x01]));
    assert_eq!(encode("0x2002"), Ok(vec![0x61, 0x20, 0x02]));
    assert_eq!(encode("0xDeadBeef"), Ok(vec![0x63, 0xde, 0xad, 0xbe, 0xef]));
}

#[test]
fn leading_zero_bytes_are_not_pushed() {
    assert_eq!(encode("0x0001"), Ok(vec![0x60, 0x01]));
    assert_eq!(encode("0x00000100"), Ok(vec![0x61, 0x01, 0x00]));
    assert_eq!(encode("0x0000"), Ok(vec![0x5f]));
    assert_eq!(encode("0x00"), Ok(vec![0x5f]));
}

#[test]
fn an_empty_hex_literal_is_zero() {
    assert_eq!(encode("0x"), Ok(vec![0x5f]));
}

#[test]
fn a_hex_literal_of_32_bytes_is_the_longest() {
    let token = format!("0x{}", "ff".repeat(32));
    let mut expected = vec![0x7f];
    expected.extend(vec![0xff; 32]);
    assert_eq!(encode(&token), Ok(expected));
    let token = format!("0x{}", "ff".repeat(33));
    fails(&token, ErrorKind::OversizedLiteral);
}

#[test]
fn an_oversized_literal_is_not_cut_down() {
    let token = format!("0x{}", "00".repeat(33));
    fails(&token, ErrorKind::OversizedLiteral);
    let token = format!("0x{}01", "00".repeat(32));
    fails(&token, ErrorKind::OversizedLiteral);
    let token = format!("0x{}", "12".repeat(64));
    fails(&token, ErrorKind::OversizedLiteral);
}

#[test]
fn a_hex_literal_must_be_hex() {
    fails("0x1", ErrorKind::MalformedHex);
    fails("0x123", ErrorKind::MalformedHex);
    fails("0xzz", ErrorKind::MalformedHex);
    fails("0x0g", ErrorKind::MalformedHex);
    fails("0x0x01", ErrorKind::MalformedHex);
    fails("0x01é", ErrorKind::MalformedHex);
}

#[test]
fn a_decimal_literal_is_pushed() {
    assert_eq!(encode("0t1023"), Ok(vec![0x61, 0x03, 0xff]));
    assert_eq!(encode("0t1"), Ok(vec![0x60, 0x01]));
    assert_eq!(encode("0t255"), Ok(vec![0x60, 0xff]));
    assert_eq!(encode("0t256"), Ok(vec![0x61, 0x01, 0x00]));
    assert_eq!(encode("0t65536"), Ok(vec![0x62, 0x01, 0x00, 0x00]));
    assert_eq!(encode("0t0001023"), Ok(vec![0x61, 0x03, 0xff]));
}

#[test]
fn decimal_zero_is_push_zero() {
    assert_eq!(encode("0t0"), Ok(vec![0x5f]));
    assert_eq!(encode("0t000"), Ok(vec![0x5f]));
    assert_eq!(encode("0t"), Ok(vec![0x5f]));
}

#[test]
fn underscores_part_the_digits_of_a_decimal() {
    assert_eq!(encode("0t1_000"), Ok(vec![0x61, 0x03, 0xe8]));
    assert_eq!(encode("0t_1_0_"), Ok(vec![0x60, 0x0a]));
    assert_eq!(encode("0t_"), Ok(vec![0x5f]));
}

#[test]
fn the_largest_decimal_takes_32_bytes() {
    let max = "0t115792089237316195423570985008687907853269984665640564039457584007913129639935";
    let mut expected = vec![0x7f];
    expected.extend(vec![0xff; 32]);
    assert_eq!(encode(max), Ok(expected));
    let over = "0t115792089237316195423570985008687907853269984665640564039457584007913129639936";
    fails(over, ErrorKind::OversizedLiteral);
    let far_over = format!("0t1{}", "0".repeat(100));
    fails(&far_over, ErrorKind::OversizedLiteral);
}

#[test]
fn two_to_the_255_takes_32_bytes() {
    let token = "0t57896044618658097711785492504343953926634992332820282019728792003956564819968";
    let mut expected = vec![0x7f, 0x80];
    expected.extend(vec![0x00; 31]);
    assert_eq!(encode(token), Ok(expected));
}

#[test]
fn a_decimal_literal_must_be_decimal() {
    fails("0tabc", ErrorKind::InvalidDecimal);
    fails("0t12a", ErrorKind::InvalidDecimal);
    fails("0t-1", ErrorKind::InvalidDecimal);
    fails("0t+1", ErrorKind::InvalidDecimal);
    fails("0t1.5", ErrorKind::InvalidDecimal);
    fails("0t١٢", ErrorKind::InvalidDecimal);
}

#[test]
fn a_decimal_literal_is_read_in_base_ten_only() {
    fails("0t0x10", ErrorKind::InvalidDecimal);
    fails("0t0X10", ErrorKind::InvalidDecimal);
    fails("0t0b11", ErrorKind::InvalidDecimal);
    fails("0t0o17", ErrorKind::InvalidDecimal);
    assert_eq!(encode("0t010"), Ok(vec![0x60, 0x0a]));
}

#[test]
fn raw_hex_is_placed_as_it_is() {
    assert_eq!(encode("01"), Ok(vec![0x01]));
    assert_eq!(encode("0000"), Ok(vec![0x00, 0x00]));
    assert_eq!(encode("deadBEEF"), Ok(vec![0xde, 0xad, 0xbe, 0xef]));
    assert_eq!(encode("600160005260206000f3"), Ok(vec![0x60, 0x01, 0x60, 0x00, 0x52, 0x60, 0x20, 0x60, 0x00, 0xf3]));
}

#[test]
fn raw_hex_has_no_limit() {
    let token = "ab".repeat(100);
    assert_eq!(encode(&token), Ok(vec![0xab; 100]));
}

#[test]
fn raw_hex_may_carry_an_upper_case_prefix() {
    assert_eq!(encode("0X0102"), Ok(vec![0x01, 0x02]));
    assert_eq!(encode("0X"), Ok(Vec::new()));
}

#[test]
fn what_is_nothing_else_is_unrecognized() {
    fails("FOO", ErrorKind::UnrecognizedToken);
    fails("abc", ErrorKind::UnrecognizedToken);
    fails("1", ErrorKind::UnrecognizedToken);
    fails("0T12", ErrorKind::UnrecognizedToken);
    fails("12zz", ErrorKind::UnrecognizedToken);
    fails("é", ErrorKind::UnrecognizedToken);
    fails("0X1", ErrorKind::UnrecognizedToken);
}

#[test]
fn a_mnemonic_wins_over_hex_bytes() {
    let mut names: Vec<Option<String>> = vec![None; 256];
    names[0x0a] = Some("BEEF".to_string());
    names[0x0b] = Some("ADD".to_string());
    let table = OpcodeTable::from_names(&names);
    assert_eq!(encode_token(&table, "BEEF").unwrap(), vec![0x0a]);
    assert_eq!(encode_token(&table, "beef").unwrap(), vec![0x0a]);
    assert_eq!(encode_token(&table, "BEEf").unwrap(), vec![0xbe, 0xef]);
    assert_eq!(encode("BEEF"), Ok(vec![0xbe, 0xef]));
}
