use goosekv::data_type::GString;
use goosekv::driver::{Driver, DriverError};
use goosekv::frame::GFrame;
use goosekv::parser::ParseError;

#[test]
fn driver_takes_every_complete_frame() {
    let mut driver = Driver::new();
    let frames = driver.handle(b"+OK\r\n:5\r\n$3\r\nab").unwrap();
    assert_eq!(frames, vec![GFrame::SimpleString(GString::copy_from_slice(b"OK")), GFrame::Integer(5)]);
    let frames = driver.handle(b"c\r\n").unwrap();
    assert_eq!(frames, vec![GFrame::BulkString(GString::copy_from_slice(b"abc"))]);
    assert!(driver.handle(b"").unwrap().is_empty());
}

#[test]
fn driver_reports_parse_error() {
    let mut driver = Driver::new();
    match driver.handle(b"_\r\n_xx") {
        Err(DriverError::Parsing(error)) => assert_eq!(error, ParseError::InvalidNull),
        other => panic!("{:?}", other),
    }
    driver.reset();
    assert_eq!(driver.handle(b"_\r\n").unwrap(), vec![GFrame::Null]);
}
