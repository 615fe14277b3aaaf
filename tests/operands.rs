use ev3c::opcodes::OperandKind;
use ev3c::operands::{encode_operand, parse_number};

#[test]
fn parses_decimal_and_hex_numbers() {
    assert_eq!(parse_number(b"0", 0, 1), Some(0));
    assert_eq!(parse_number(b"65535", 0, 5), Some(65535));
    assert_eq!(parse_number(b"0x1F", 0, 4), Some(31));
    assert_eq!(parse_number(b"0xff", 0, 4), Some(255));
    assert_eq!(parse_number(b"x12", 1, 3), Some(12));
}

#[test]
fn rejects_malformed_or_large_numbers() {
    assert_eq!(parse_number(b"", 0, 0), None);
    assert_eq!(parse_number(b"0x", 0, 2), None);
    assert_eq!(parse_number(b"12a", 0, 3), None);
    assert_eq!(parse_number(b"0xg1", 0, 4), None);
    assert_eq!(parse_number(b"65536", 0, 5), None);
    assert_eq!(parse_number(b"99999999999999999999", 0, 20), None);
}

#[test]
fn encodes_each_operand_kind() {
    let mut out = vec![9u8];
    assert!(encode_operand(OperandKind::Register, b"r12", 0, 3, &mut out));
    assert!(encode_operand(OperandKind::ImmediateU8, b"0x80", 0, 4, &mut out));
    assert!(encode_operand(OperandKind::ImmediateU16, b"258", 0, 3, &mut out));
    assert_eq!(out, vec![9u8, 12, 0x80, 2, 1]);
    assert!(!encode_operand(OperandKind::Register, b"r256", 0, 4, &mut out));
    assert!(!encode_operand(OperandKind::ImmediateU8, b"300", 0, 3, &mut out));
    assert_eq!(out, vec![9u8, 12, 0x80, 2, 1]);
}
