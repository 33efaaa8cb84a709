use evm_assembler::assembler::assemble;
use evm_assembler::error::ErrorKind;
use revm::primitives::U256;

fn hex_of(bytes: &[u8]) -> String {
    let mut text = String::new();
    for byte in bytes {
        text.push_str(&format!("{:02x}", byte));
    }
    text
}

fn shortest_push(bytes: &[u8]) -> Vec<u8> {
    let zeros = bytes.iter().take_while(|byte| **byte == 0).count();
    let value = &bytes[zeros..];
    if value.is_empty() {
        vec![0x5f]
    } else {
        let mut push = vec![0x60 + (value.len() as u8 - 1)];
        push.extend(value);
        push
    }
}

#[test]
fn hex_literals_use_the_shortest_push() {
    for length in 1..=32usize {
        for zeros in 0..=length {
            let mut bytes = vec![0u8; zeros];
            for i in zeros..length {
                bytes.push((i as u8).wrapping_mul(37).wrapping_add(1) | 1);
            }
            let source = format!("0x{}", hex_of(&bytes));
            assert_eq!(assemble(&source).unwrap(), shortest_push(&bytes));
        }
    }
}

#[test]
fn a_hex_literal_of_known_bytes() {
    assert_eq!(assemble("0x00ab00").unwrap(), vec![0x61, 0xab, 0x00]);
    assert_eq!(assemble("0x000000").unwrap(), vec![0x5f]);
}

#[test]
fn the_width_of_white_space_does_not_matter() {
    let expected = vec![0x60, 0x01, 0x61, 0x03, 0xff, 0x52];
    for source in [
        "0x01 0t1023 MSTORE",
        "0x01\t0t1023\nMSTORE",
        "  0x01   0t1023   MSTORE  ",
        "\n\n0x01\n\t \n0t1023 \t MSTORE\n",
    ] {
        assert_eq!(assemble(source).unwrap(), expected);
    }
}

#[test]
fn white_space_inside_a_token_does_matter() {
    assert_eq!(assemble("0x0102").unwrap(), vec![0x61, 0x01, 0x02]);
    assert_eq!(assemble("0x01 02").unwrap(), vec![0x60, 0x01, 0x02]);
}

#[test]
fn the_content_of_a_comment_does_not_matter() {
    let expected = vec![0x60, 0x01, 0x52];
    for source in [
        "0x01 \nMSTORE",
        "0x01 #\nMSTORE",
        "0x01 # push one\nMSTORE",
        "0x01 # FOO 0x1 0tzz # more\nMSTORE",
        "0x01 #\t\t日本語 \r\nMSTORE",
        "0x01 # push one\nMSTORE # store",
        "# head\n0x01 # push one\nMSTORE\n# tail",
    ] {
        assert_eq!(assemble(source).unwrap(), expected);
    }
}

#[test]
fn a_literal_of_33_bytes_or_more_is_oversized() {
    for length in [33usize, 34, 64, 100] {
        for digit in ["00", "01", "ff"] {
            let source = format!("0x{}", digit.repeat(length));
            let e = assemble(&source).unwrap_err();
            assert_eq!(e.kind, ErrorKind::OversizedLiteral);
            assert_eq!(e.token, source);
        }
    }
}

#[test]
fn decimal_literals_use_the_shortest_push() {
    for k in 1..32usize {
        let power = U256::from(1u8) << (8 * k);
        let mut expected = vec![0x60 + k as u8, 0x01];
        expected.extend(vec![0x00; k]);
        assert_eq!(assemble(&format!("0t{}", power)).unwrap(), expected);
        let below = power - U256::from(1u8);
        let mut expected = vec![0x60 + (k as u8 - 1)];
        expected.extend(vec![0xff; k]);
        assert_eq!(assemble(&format!("0t{}", below)).unwrap(), expected);
    }
    assert_eq!(assemble("0t0").unwrap(), vec![0x5f]);
}
