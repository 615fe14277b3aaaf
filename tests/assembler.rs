use ev3c::assembler::assemble;
use ev3c::error::{AssemblyError, ErrorKind};
use ev3c::lexer::{tokenize, Token};
use ev3c::opcodes::{OpcodeTable, OperandKind};

fn machine_table() -> OpcodeTable {
    let mut table = OpcodeTable::standard();
    assert!(table.add(b"mov".to_vec(), 0x10, vec![OperandKind::Register, OperandKind::ImmediateU8]));
    assert!(table.add(b"jmp".to_vec(), 0x20, vec![OperandKind::ImmediateU16]));
    assert!(table.add(b"push".to_vec(), 0x30, vec![OperandKind::Register]));
    table
}

#[test]
fn err_compiles_to_single_zero_byte() {
    let table = OpcodeTable::standard();
    let out = assemble(b"err", &table).unwrap();
    assert_eq!(out, vec![0x00u8]);
}

#[test]
fn err_with_operand_is_count_mismatch() {
    let table = OpcodeTable::standard();
    match assemble(b"err, err", &table) {
        Err(AssemblyError::OperandCountMismatch { position, expected, found }) => {
            assert_eq!(position, 0);
            assert_eq!(expected, 0);
            assert_eq!(found, 1);
        }
        other => panic!("unexpected result {:?}", other),
    }
}

#[test]
fn unknown_mnemonic_reports_its_text() {
    let table = OpcodeTable::standard();
    match assemble(b"foo", &table) {
        Err(AssemblyError::UnknownMnemonic { text, position }) => {
            assert_eq!(text, b"foo".to_vec());
            assert_eq!(position, 0);
        }
        other => panic!("unexpected result {:?}", other),
    }
}

#[test]
fn unknown_mnemonic_keeps_case() {
    let table = OpcodeTable::standard();
    match assemble(b"err\nErR", &table) {
        Err(e) => {
            assert_eq!(e.kind(), ErrorKind::UnknownMnemonic);
            assert_eq!(e.position(), 4);
            match e {
                AssemblyError::UnknownMnemonic { text, .. } => assert_eq!(text, b"ErR".to_vec()),
                _ => panic!("wrong variant"),
            }
        }
        Ok(_) => panic!("expected a failure"),
    }
}

#[test]
fn operands_are_encoded_in_order_and_width() {
    let table = machine_table();
    let out = assemble(b"mov r3, 200\njmp 0x1234\n\npush r0\nerr", &table).unwrap();
    assert_eq!(out, vec![0x10u8, 3, 200, 0x20, 0x34, 0x12, 0x30, 0, 0x00]);
}

#[test]
fn output_length_is_sum_of_instruction_sizes() {
    let table = machine_table();
    let out = assemble(b"jmp 1\njmp 65535\nmov r255, 0xff\nerr\n", &table).unwrap();
    assert_eq!(out.len(), 3 + 3 + 3 + 1);
    assert_eq!(out, vec![0x20u8, 1, 0, 0x20, 0xff, 0xff, 0x10, 255, 255, 0x00]);
}

#[test]
fn too_few_operands_is_count_mismatch() {
    let table = machine_table();
    match assemble(b"mov r1", &table) {
        Err(AssemblyError::OperandCountMismatch { expected, found, .. }) => {
            assert_eq!(expected, 2);
            assert_eq!(found, 1);
        }
        other => panic!("unexpected result {:?}", other),
    }
}

#[test]
fn too_many_operands_is_count_mismatch() {
    let table = machine_table();
    match assemble(b"err\npush r1, r2", &table) {
        Err(AssemblyError::OperandCountMismatch { position, expected, found }) => {
            assert_eq!(position, 4);
            assert_eq!(expected, 1);
            assert_eq!(found, 2);
        }
        other => panic!("unexpected result {:?}", other),
    }
}

#[test]
fn immediate_out_of_range_is_type_mismatch() {
    let table = machine_table();
    match assemble(b"mov r1, 256", &table) {
        Err(AssemblyError::OperandTypeMismatch { position }) => assert_eq!(position, 8),
        other => panic!("unexpected result {:?}", other),
    }
}

#[test]
fn wide_immediate_out_of_range_is_type_mismatch() {
    let table = machine_table();
    let e = assemble(b"jmp 65536", &table).unwrap_err();
    assert_eq!(e.kind(), ErrorKind::OperandTypeMismatch);
    assert_eq!(e.position(), 4);
}

#[test]
fn register_without_prefix_is_type_mismatch() {
    let table = machine_table();
    let e = assemble(b"push 5", &table).unwrap_err();
    assert_eq!(e.kind(), ErrorKind::OperandTypeMismatch);
}

#[test]
fn label_operand_is_rejected() {
    let table = machine_table();
    let e = assemble(b"jmp start", &table).unwrap_err();
    assert_eq!(e.kind(), ErrorKind::OperandTypeMismatch);
}

#[test]
fn missing_comma_is_syntax_error() {
    let table = machine_table();
    let e = assemble(b"mov r1 2", &table).unwrap_err();
    assert_eq!(e.kind(), ErrorKind::ParseError);
    assert_eq!(e.position(), 0);
}

#[test]
fn leading_comma_is_syntax_error() {
    let table = machine_table();
    match assemble(b", err", &table) {
        Err(AssemblyError::Syntax { position }) => assert_eq!(position, 0),
        other => panic!("unexpected result {:?}", other),
    }
}

#[test]
fn unexpected_byte_is_lex_error() {
    let table = machine_table();
    match assemble(b"err\nmov r1, $2", &table) {
        Err(AssemblyError::Lex { byte, position }) => {
            assert_eq!(byte, b'$');
            assert_eq!(position, 12);
        }
        other => panic!("unexpected result {:?}", other),
    }
}

#[test]
fn empty_source_gives_empty_output() {
    let table = machine_table();
    assert_eq!(assemble(b"", &table).unwrap(), Vec::<u8>::new());
    assert_eq!(assemble(b"\n \n\t\r\n", &table).unwrap(), Vec::<u8>::new());
}

#[test]
fn zero_byte_ends_the_source() {
    let table = machine_table();
    assert_eq!(assemble(b"err\0foo", &table).unwrap(), vec![0x00u8]);
}

#[test]
fn assembling_twice_gives_identical_bytes() {
    let table = machine_table();
    let src = b"mov r7, 0x2A\njmp 513\nerr";
    let first = assemble(src, &table).unwrap();
    let second = assemble(src, &table).unwrap();
    assert_eq!(first, second);
    assert_eq!(first, vec![0x10u8, 7, 42, 0x20, 1, 2, 0x00]);
}

#[test]
fn tokenize_splits_words_commas_and_lines() {
    let toks = tokenize(b"mov r1, 2\nerr").unwrap();
    assert_eq!(
        toks,
        vec![
            Token::Word { start: 0, end: 3 },
            Token::Word { start: 4, end: 6 },
            Token::Comma { position: 6 },
            Token::Word { start: 8, end: 9 },
            Token::Newline { position: 9 },
            Token::Word { start: 10, end: 13 },
        ]
    );
}

#[test]
fn table_rejects_duplicate_mnemonic() {
    let mut table = OpcodeTable::standard();
    assert_eq!(table.len(), 1);
    assert!(!table.add(b"err".to_vec(), 0x01, Vec::new()));
    assert_eq!(table.len(), 1);
    assert_eq!(table.find(b"err", 0, 3), Some(0));
    assert_eq!(table.find(b"ERR", 0, 3), None);
}

#[test]
fn unknown_mnemonic_wins_over_later_lex_error() {
    let table = OpcodeTable::standard();
    match assemble(b"foo\n#", &table) {
        Err(AssemblyError::UnknownMnemonic { text, position }) => {
            assert_eq!(text, b"foo".to_vec());
            assert_eq!(position, 0);
        }
        other => panic!("unexpected result {:?}", other),
    }
    match assemble(b"FOO\n#", &table) {
        Err(AssemblyError::UnknownMnemonic { text, .. }) => assert_eq!(text, b"FOO".to_vec()),
        other => panic!("unexpected result {:?}", other),
    }
}

#[test]
fn count_mismatch_wins_over_later_lex_error() {
    let table = OpcodeTable::standard();
    let e = assemble(b"err x\n#", &table).unwrap_err();
    assert_eq!(e.kind(), ErrorKind::OperandCountMismatch);
}

#[test]
fn lex_error_after_valid_lines() {
    let table = OpcodeTable::standard();
    match assemble(b"err\nerr\n#", &table) {
        Err(AssemblyError::Lex { byte, position }) => {
            assert_eq!(byte, b'#');
            assert_eq!(position, 8);
        }
        other => panic!("unexpected result {:?}", other),
    }
}

#[test]
fn table_rejects_clashing_opcode() {
    let mut table = OpcodeTable::standard();
    assert!(!table.add(b"nop".to_vec(), 0x00, Vec::new()));
    assert!(table.add(b"pop".to_vec(), 0x00, vec![OperandKind::Register]));
    assert!(!table.add(b"inc".to_vec(), 0x00, vec![OperandKind::Register]));
    assert!(table.add(b"ld".to_vec(), 0x00, vec![OperandKind::ImmediateU8]));
    assert!(!table.add(b"ldw".to_vec(), 0x00, vec![OperandKind::ImmediateU16]));
    assert_eq!(table.len(), 3);
}

#[test]
fn offending_text_names_the_token() {
    let table = machine_table();
    let src = b"mov r1, 256";
    let e = assemble(src, &table).unwrap_err();
    assert_eq!(e.offending_text(src), b"256".to_vec());
    let src = b"mov r1 2";
    let e = assemble(src, &table).unwrap_err();
    assert_eq!(e.offending_text(src), b"mov".to_vec());
    let src = b", err";
    let e = assemble(src, &table).unwrap_err();
    assert_eq!(e.offending_text(src), b",".to_vec());
    let src = b"err\n$";
    let e = assemble(src, &table).unwrap_err();
    assert_eq!(e.offending_text(src), b"$".to_vec());
}
