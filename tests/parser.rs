use goosekv::data_type::GString;
use goosekv::frame::GFrame;
use goosekv::parser::{ParseError, Parser};

fn parse_one(bytes: &[u8]) -> Result<Option<GFrame>, ParseError> {
    let mut parser = Parser::new();
    parser.extend_from_slice(bytes);
    parser.parse()
}

fn bulk(s: &[u8]) -> GFrame {
    GFrame::BulkString(GString::copy_from_slice(s))
}

#[test]
fn simple_string() {
    assert_eq!(parse_one(b"+OK\r\n").unwrap(), Some(GFrame::SimpleString(GString::copy_from_slice(b"OK"))));
}

#[test]
fn simple_error() {
    assert_eq!(
        parse_one(b"-Error message\r\n").unwrap(),
        Some(GFrame::SimpleError(GString::copy_from_slice(b"Error message")))
    );
}

#[test]
fn integer() {
    assert_eq!(parse_one(b":10\r\n").unwrap(), Some(GFrame::Integer(10)));
}

#[test]
fn bulk_string() {
    assert_eq!(parse_one(b"$5\r\nhello\r\n").unwrap(), Some(bulk(b"hello")));
}

#[test]
fn empty_bulk_string() {
    assert_eq!(parse_one(b"$0\r\n\r\n").unwrap(), Some(GFrame::BulkString(GString::new())));
}

#[test]
fn array() {
    assert_eq!(
        parse_one(b"*2\r\n$5\r\nhello\r\n$5\r\nworld\r\n").unwrap(),
        Some(GFrame::Array(vec![bulk(b"hello"), bulk(b"world")]))
    );
}

#[test]
fn empty_array() {
    assert_eq!(parse_one(b"*0\r\n").unwrap(), Some(GFrame::Array(vec![])));
}

#[test]
fn null() {
    assert_eq!(parse_one(b"_\r\n").unwrap(), Some(GFrame::Null));
}

#[test]
fn negative_integer_and_bounds() {
    assert_eq!(parse_one(b":-42\r\n").unwrap(), Some(GFrame::Integer(-42)));
    assert_eq!(parse_one(b":+7\r\n").unwrap(), Some(GFrame::Integer(7)));
    assert_eq!(parse_one(b":9223372036854775807\r\n").unwrap(), Some(GFrame::Integer(i64::MAX)));
    assert_eq!(parse_one(b":-9223372036854775808\r\n").unwrap(), Some(GFrame::Integer(i64::MIN)));
}

#[test]
fn invalid_first_byte() {
    assert_eq!(parse_one(b"?x\r\n"), Err(ParseError::InvalidFirstByte));
}

#[test]
fn invalid_integer() {
    assert_eq!(parse_one(b":12a\r\n"), Err(ParseError::InvalidInteger));
    assert_eq!(parse_one(b":9223372036854775808\r\n"), Err(ParseError::InvalidInteger));
    assert_eq!(parse_one(b":\r\n"), Err(ParseError::InvalidInteger));
    assert_eq!(parse_one(b":-\r\n"), Err(ParseError::InvalidInteger));
    assert_eq!(parse_one(b"$-1\r\n"), Err(ParseError::InvalidInteger));
    assert_eq!(parse_one(b"*x\r\n"), Err(ParseError::InvalidInteger));
}

#[test]
fn invalid_null() {
    assert_eq!(parse_one(b"_ab"), Err(ParseError::InvalidNull));
}

#[test]
fn truncated_input_needs_more() {
    let encoded: &[u8] = b"*2\r\n$5\r\nhello\r\n:-12\r\n";
    for k in 0..encoded.len() {
        assert_eq!(parse_one(&encoded[..k]), Ok(None), "prefix of length {}", k);
    }
    assert_eq!(parse_one(b"_\r"), Ok(None));
}

#[test]
fn incomplete_parse_keeps_buffer() {
    let mut parser = Parser::new();
    parser.extend_from_slice(b"*2\r\n$5\r\nhel");
    assert_eq!(parser.parse(), Ok(None));
    assert_eq!(parser.buf(), b"*2\r\n$5\r\nhel");
    parser.extend_from_slice(b"lo\r\n$1\r\nx\r\n");
    assert_eq!(parser.parse().unwrap(), Some(GFrame::Array(vec![bulk(b"hello"), bulk(b"x")])));
    assert!(parser.buf().is_empty());
}

#[test]
fn error_keeps_buffer() {
    let mut parser = Parser::new();
    parser.extend_from_slice(b"!oops");
    assert_eq!(parser.parse(), Err(ParseError::InvalidFirstByte));
    assert_eq!(parser.buf(), b"!oops");
}

#[test]
fn end_of_input() {
    let mut parser = Parser::new();
    assert!(parser.end_of_input().is_none());
    parser.extend_from_slice(b"+PAR");
    assert!(matches!(parser.end_of_input(), Some(goosekv::stream::FrameStreamError::UnexpectedEof)));
}
