use http_proxy::scanner::DelimiterScan;
use http_proxy::{Parser, ProxyError};

#[test]
fn parser_consume_until() {
    let mut parser = Parser::new(b"qwertyuioptest".to_vec());
    assert_eq!(parser.consume_until(b"test").unwrap(), b"qwertyuiop".to_vec());

    let mut parser = Parser::new(b"nothing".to_vec());
    assert!(parser.consume_until(b"test").is_err());

    let mut parser = Parser::new(b"randomdata   test1 test2".to_vec());
    assert_eq!(parser.consume_until(b"test").unwrap(), b"randomdata   ".to_vec());
    assert_eq!(parser.consume_until(b"test").unwrap(), b"1 ".to_vec());
}

#[test]
fn consume_until_returns_prefix_and_leaves_rest() {
    let mut parser = Parser::new(b"GET /x HTTP/1.1\r\nrest".to_vec());
    assert_eq!(parser.consume_until(b" ").unwrap(), b"GET".to_vec());
    assert_eq!(parser.consume_until(b" HTTP/1.1\r\n").unwrap(), b"/x".to_vec());
    assert_eq!(parser.consume_until_end(), b"rest".to_vec());
}

#[test]
fn consume_until_missing_delimiter_is_incomplete() {
    let mut parser = Parser::new(b"abc\r".to_vec());
    assert_eq!(parser.consume_until(b"\r\n"), Err(ProxyError::IncompleteData));
    assert_eq!(parser.consume_until_end(), Vec::<u8>::new());
}

#[test]
fn consume_until_on_empty_input_is_incomplete() {
    let mut parser = Parser::new(Vec::new());
    assert_eq!(parser.consume_until(b":"), Err(ProxyError::IncompleteData));
}

#[test]
fn consume_until_delimiter_at_start_gives_empty_token() {
    let mut parser = Parser::new(b"\r\nx".to_vec());
    assert_eq!(parser.consume_until(b"\r\n").unwrap(), Vec::<u8>::new());
    assert_eq!(parser.consume_until_end(), b"x".to_vec());
}

#[test]
fn streak_reset_does_not_rematch_the_breaking_byte() {
    // The second 'a' breaks the streak and is not taken as a new start.
    let mut parser = Parser::new(b"aab".to_vec());
    assert_eq!(parser.consume_until(b"ab"), Err(ProxyError::IncompleteData));
}

#[test]
fn sequential_scans_compose() {
    let mut parser = Parser::new(b"ab\r\n\r\ncd\r\n\r\n".to_vec());
    assert_eq!(parser.consume_until(b"\r\n\r\n").unwrap(), b"ab".to_vec());
    assert_eq!(parser.consume_until(b"\r\n\r\n").unwrap(), b"cd".to_vec());
    assert_eq!(parser.consume_until_end(), Vec::<u8>::new());
}

#[test]
fn whitespace_skip_keeps_first_other_byte() {
    let mut parser = Parser::new(b" \t\r\n value".to_vec());
    parser.consume_whitespaces();
    assert_eq!(parser.consume_until_end(), b"value".to_vec());
}

#[test]
fn whitespace_skip_then_scan_sees_held_back_byte() {
    let mut parser = Parser::new(b"   x:y".to_vec());
    parser.consume_whitespaces();
    assert_eq!(parser.consume_until(b":").unwrap(), b"x".to_vec());
    assert_eq!(parser.consume_until_end(), b"y".to_vec());
}

#[test]
fn whitespace_skip_at_end_succeeds() {
    let mut parser = Parser::new(b"   ".to_vec());
    parser.consume_whitespaces();
    assert_eq!(parser.consume_until_end(), Vec::<u8>::new());
    let mut parser = Parser::new(Vec::new());
    parser.consume_whitespaces();
    assert_eq!(parser.consume_until_end(), Vec::<u8>::new());
}

#[test]
fn inner_and_into_inner_give_the_source() {
    let mut parser = Parser::new(b"abc def".to_vec());
    assert_eq!(parser.consume_until(b" ").unwrap(), b"abc".to_vec());
    assert_eq!(parser.inner(), &b"abc def".to_vec());
    assert_eq!(parser.into_inner(), (b"abc def".to_vec(), 4));
}

#[test]
fn into_inner_counts_a_held_back_byte_as_unread() {
    let mut parser = Parser::new(b"  xy".to_vec());
    parser.consume_whitespaces();
    let (source, consumed) = parser.into_inner();
    assert_eq!(consumed, 2);
    assert_eq!(&source[consumed..], b"xy");
}

#[test]
fn read_byte_after_whitespace_returns_first_other_byte() {
    let mut parser = Parser::new(b" \t c rest".to_vec());
    parser.consume_whitespaces();
    assert_eq!(parser.read_byte(), Some(b'c'));
    assert_eq!(parser.consume_until_end(), b" rest".to_vec());
    assert_eq!(parser.read_byte(), None);
}

#[test]
fn delimiter_scan_fed_byte_by_byte() {
    let mut scan = DelimiterScan::new(b"\r\n");
    let mut done = false;
    for b in b"Host: x\r\n" {
        assert!(!done);
        done = scan.push(*b);
    }
    assert!(done);
    assert_eq!(scan.into_token(), b"Host: x".to_vec());
}
