use ev3c::scanner::Scanner;

#[test]
fn new_scanner_starts_at_first_byte() {
    let bytes = [7u8, 8, 9];
    let mut scanner = Scanner::new(&bytes);
    assert_eq!(scanner.cursor_index(), 0);
    assert_eq!(scanner.peek(), 7);
}

#[test]
fn consume_returns_bytes_in_order() {
    let bytes = [1u8, 2, 3];
    let mut scanner = Scanner::new(&bytes);
    assert_eq!(scanner.consume(), 1);
    assert_eq!(scanner.consume(), 2);
    assert_eq!(scanner.consume(), 3);
    assert_eq!(scanner.cursor_index(), 3);
}

#[test]
fn eof_after_exactly_length_consumes() {
    let bytes = b"mov r1";
    let mut scanner = Scanner::new(bytes);
    let mut count = 0usize;
    while !scanner.is_eof() {
        scanner.consume();
        count += 1;
    }
    assert_eq!(count, bytes.len());
}

#[test]
fn empty_buffer_is_eof() {
    let bytes: [u8; 0] = [];
    let mut scanner = Scanner::new(&bytes);
    assert!(scanner.is_eof());
}

#[test]
fn zero_byte_ends_scanning() {
    let bytes = [b'a', 0u8, b'b'];
    let mut scanner = Scanner::new(&bytes);
    assert!(!scanner.is_eof());
    scanner.consume();
    assert!(scanner.is_eof());
}

#[test]
fn peek_and_look_ahead_do_not_advance() {
    let bytes = b"abc";
    let mut scanner = Scanner::new(bytes);
    assert_eq!(scanner.look_ahead(2), b'c');
    assert_eq!(scanner.look_ahead(1), b'b');
    assert_eq!(scanner.peek(), b'a');
    assert_eq!(scanner.peek(), b'a');
    assert_eq!(scanner.cursor_index(), 0);
}
