use evm_assembler::bytes_wrapper::BytesWrapper;
use evm_assembler::error::ErrorKind;

#[test]
fn hex_text_gives_its_bytes() {
    assert_eq!(BytesWrapper::from_hex("0102ff").unwrap().into_inner(), vec![0x01, 0x02, 0xff]);
    assert_eq!(BytesWrapper::from_hex("DeadBeef").unwrap().into_inner(), vec![0xde, 0xad, 0xbe, 0xef]);
}

#[test]
fn a_prefix_is_not_part_of_the_bytes() {
    assert_eq!(BytesWrapper::from_hex("0x0102").unwrap().into_inner(), vec![0x01, 0x02]);
    assert_eq!(BytesWrapper::from_hex("0X0102").unwrap().into_inner(), vec![0x01, 0x02]);
    assert_eq!(BytesWrapper::from_hex("0x").unwrap().into_inner(), Vec::<u8>::new());
}

#[test]
fn empty_text_gives_no_bytes() {
    assert_eq!(BytesWrapper::from_hex("").unwrap().into_inner(), Vec::<u8>::new());
}

#[test]
fn an_odd_number_of_digits_is_malformed() {
    for value in ["1", "123", "0x1", "abcde"] {
        let e = BytesWrapper::from_hex(value).unwrap_err();
        assert_eq!(e.kind, ErrorKind::MalformedHex);
        assert_eq!(e.token, value);
    }
}

#[test]
fn what_is_no_hex_digit_is_malformed() {
    for value in ["zz", "0xgg", "12 34", "0x0x01", "ñ1"] {
        let e = BytesWrapper::from_hex(value).unwrap_err();
        assert_eq!(e.kind, ErrorKind::MalformedHex);
        assert_eq!(e.token, value);
    }
}
