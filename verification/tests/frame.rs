use bytes::BytesMut;

use memcrabd::protocol::text::find_crlf;
use memcrabd::server::command::{Command, CommandError};
use memcrabd::server::frame::{parse_frame, Frame, FrameError};

#[test]
fn find_crlf_first_position() {
    assert_eq!(find_crlf(&BytesMut::from(&b"ab\r\ncd\r\n"[..])), Some(2));
    assert_eq!(find_crlf(&BytesMut::from(&b"\r\r\n"[..])), Some(1));
    assert_eq!(find_crlf(&BytesMut::from(&b"abc\r"[..])), None);
    assert_eq!(find_crlf(&BytesMut::new()), None);
}

#[test]
fn incomplete_line_consumes_nothing() {
    let mut buf = BytesMut::from(&b"get fo"[..]);
    assert!(parse_frame(&mut buf).unwrap().is_none());
    assert_eq!(&buf[..], b"get fo");
}

#[test]
fn command_frame_and_rest() {
    let mut buf = BytesMut::from(&b"get foo\r\nversion\r\n"[..]);
    match parse_frame(&mut buf).unwrap().unwrap() {
        Frame::Command(Command::Get { keys }) => assert_eq!(keys, vec!["foo".to_string()]),
        _ => panic!("expected get"),
    }
    assert_eq!(&buf[..], b"version\r\n");
    assert!(matches!(parse_frame(&mut buf).unwrap().unwrap(), Frame::Command(Command::Version)));
    assert!(buf.is_empty());
}

#[test]
fn set_frame_waits_for_data() {
    let mut buf = BytesMut::from(&b"set k 0 0 5\r\nhel"[..]);
    assert!(parse_frame(&mut buf).unwrap().is_none());
    assert_eq!(&buf[..], b"set k 0 0 5\r\nhel");
    buf.extend_from_slice(b"lo\r");
    assert!(parse_frame(&mut buf).unwrap().is_none());
    buf.extend_from_slice(b"\nget k\r\n");
    match parse_frame(&mut buf).unwrap().unwrap() {
        Frame::SetData { command: Command::SetItem { key, bytes, .. }, value } => {
            assert_eq!(key, "k");
            assert_eq!(bytes, 5);
            assert_eq!(value, b"hello");
        }
        _ => panic!("expected set data"),
    }
    assert_eq!(&buf[..], b"get k\r\n");
}

#[test]
fn set_data_may_hold_crlf() {
    let mut buf = BytesMut::from(&b"set k 1 0 4\r\na\r\nb\r\n"[..]);
    match parse_frame(&mut buf).unwrap().unwrap() {
        Frame::SetData { value, .. } => assert_eq!(value, b"a\r\nb"),
        _ => panic!("expected set data"),
    }
    assert!(buf.is_empty());
}

#[test]
fn set_data_without_crlf_is_refused() {
    let mut buf = BytesMut::from(&b"set k 0 0 2\r\nabXYtail"[..]);
    assert_eq!(parse_frame(&mut buf).err(), Some(FrameError::MissingDataEnd));
    assert_eq!(&buf[..], b"XYtail");
}

#[test]
fn bad_lines_are_refused_and_kept() {
    let mut buf = BytesMut::from(&b"bogus\r\n"[..]);
    assert_eq!(parse_frame(&mut buf).err(), Some(FrameError::Command(CommandError::Unknown)));
    assert_eq!(&buf[..], b"bogus\r\n");

    let mut buf = BytesMut::from(&b"get \xff\r\n"[..]);
    assert_eq!(parse_frame(&mut buf).err(), Some(FrameError::InvalidUtf8));
    assert_eq!(&buf[..], b"get \xff\r\n");
}

#[test]
fn huge_set_length_waits() {
    let mut buf = BytesMut::from(&b"set k 0 0 18446744073709551615\r\nabc"[..]);
    assert!(parse_frame(&mut buf).unwrap().is_none());
}

#[test]
fn unicode_key() {
    let mut buf = BytesMut::from("get schlüssel\r\n".as_bytes());
    match parse_frame(&mut buf).unwrap().unwrap() {
        Frame::Command(Command::Get { keys }) => assert_eq!(keys, vec!["schlüssel".to_string()]),
        _ => panic!("expected get"),
    }
}
