use goosekv::data_type::{GInteger, GString};
use goosekv::frame::GFrame;
use goosekv::parser::{parse_array, parse_buf, parse_integer, parse_null, Parser};
use goosekv::stream::OutboundBuffer;

fn bulk(s: &[u8]) -> GFrame {
    GFrame::BulkString(GString::copy_from_slice(s))
}

fn sample_frames() -> Vec<GFrame> {
    vec![
        GFrame::SimpleString(GString::copy_from_slice(b"PONG")),
        GFrame::SimpleError(GString::copy_from_slice(b"bad thing")),
        GFrame::Integer(0),
        GFrame::Integer(-17),
        GFrame::Integer(i64::MAX),
        GFrame::Integer(i64::MIN),
        bulk(b""),
        bulk(b"with\r\ninside"),
        GFrame::Null,
        GFrame::Array(vec![]),
        GFrame::Array(vec![bulk(b"GET"), GFrame::Array(vec![GFrame::Integer(3), GFrame::Null])]),
    ]
}

#[test]
fn encode_literal_bytes() {
    assert_eq!(&GFrame::SimpleString(GString::copy_from_slice(b"OK")).bytes()[..], b"+OK\r\n");
    assert_eq!(&GFrame::SimpleError(GString::copy_from_slice(b"ERR")).bytes()[..], b"-ERR\r\n");
    assert_eq!(&GFrame::Integer(42).bytes()[..], b":42\r\n");
    assert_eq!(&GFrame::Integer(-9).bytes()[..], b":-9\r\n");
    assert_eq!(&GFrame::Integer(i64::MIN).bytes()[..], b":-9223372036854775808\r\n");
    assert_eq!(&bulk(b"hello").bytes()[..], b"$5\r\nhello\r\n");
    assert_eq!(&GFrame::Null.bytes()[..], b"_\r\n");
    assert_eq!(
        &GFrame::Array(vec![bulk(b"a"), GFrame::Integer(1)]).bytes()[..],
        b"*2\r\n$1\r\na\r\n:1\r\n"
    );
}

#[test]
fn round_trip_each_frame() {
    for frame in sample_frames() {
        let encoded = frame.bytes();
        let parsed = parse_buf(&encoded).unwrap().unwrap();
        assert_eq!(parsed.frame, frame);
        assert_eq!(parsed.advance_by, encoded.len());
    }
}

#[test]
fn split_feeding_matches_whole() {
    for frame in sample_frames() {
        let encoded = frame.bytes();
        for k in 0..=encoded.len() {
            let mut parser = Parser::new();
            parser.extend_from_slice(&encoded[..k]);
            if k < encoded.len() {
                assert_eq!(parser.parse(), Ok(None));
            }
            parser.extend_from_slice(&encoded[k..]);
            assert_eq!(parser.parse().unwrap().as_ref(), Some(&frame));
            assert!(parser.buf().is_empty());
        }
    }
}

#[test]
fn concatenated_frames_drain_in_order() {
    let first = bulk(b"one");
    let second = GFrame::Array(vec![GFrame::Integer(2), GFrame::Null]);
    let mut parser = Parser::new();
    parser.extend_from_slice(&first.bytes());
    parser.extend_from_slice(&second.bytes());
    assert_eq!(parser.parse().unwrap(), Some(first));
    assert_eq!(parser.parse().unwrap(), Some(second));
    assert_eq!(parser.parse().unwrap(), None);
}

#[test]
fn named_parsers() {
    assert_eq!(parse_integer(b":5\r\nrest").unwrap().unwrap().advance_by, 4);
    assert_eq!(parse_null(b"_\r\n").unwrap().unwrap().frame, GFrame::Null);
    let parsed = parse_array(b"*1\r\n_\r\n").unwrap().unwrap();
    assert_eq!(parsed.frame, GFrame::Array(vec![GFrame::Null]));
    assert_eq!(parsed.advance_by, 7);
    assert!(parse_array(b"*1\r\n").unwrap().is_none());
}

#[test]
fn accessors() {
    let s = GFrame::SimpleString(GString::copy_from_slice(b"x"));
    assert_eq!(s.as_simple_string().unwrap().as_slice(), b"x");
    assert!(s.as_bulk_string().is_err());
    assert!(s.as_simple_error().is_err());
    assert_eq!(GFrame::Integer(3).as_integer().unwrap(), 3);
    assert!(GFrame::Null.as_integer().is_err());
    assert_eq!(bulk(b"y").as_bulk_string().unwrap().as_slice(), b"y");
    assert_eq!(GFrame::Array(vec![GFrame::Null]).as_array().unwrap().len(), 1);
    assert!(GFrame::Null.as_array().is_err());
}

#[test]
fn gstring_and_ginteger() {
    let g = GString::copy_from_slice(b"abc");
    assert_eq!(g.len(), 3);
    assert!(!g.is_empty());
    assert!(GString::new().is_empty());
    assert_eq!(&g.bytes()[..], b"abc");
    assert_eq!(GString::from_static(b"zz").as_slice(), b"zz");
    assert_eq!(g.clone(), g);
    assert_ne!(g, GString::copy_from_slice(b"abd"));
    assert_eq!(&GInteger::new(-120).bytes()[..], b"-120");
    assert_eq!(GInteger::from_ascii(b"0042").unwrap().get(), 42);
    assert!(GInteger::from_ascii(b"4.2").is_none());
    assert!(GInteger::new(i64::MAX).checked_add(1).is_none());
    assert_eq!(GInteger::new(41).checked_add(1).unwrap().get(), 42);
}

#[test]
fn outbound_buffer_queues_and_consumes() {
    let mut out = OutboundBuffer::new();
    assert!(out.is_empty());
    out.push_frame(&GFrame::Integer(1));
    out.push_frame(&GFrame::Null);
    assert_eq!(out.pending(), b":1\r\n_\r\n");
    out.consume(4);
    assert_eq!(out.pending(), b"_\r\n");
    out.consume(3);
    assert!(out.is_empty());
}
