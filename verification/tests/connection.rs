use bytes::BytesMut;

use memcrabd::server::command::{parse_command_line, Command};
use memcrabd::server::connection::{
    handle_command_at, handle_set_data_at, serve_buffer, serve_buffer_at, ServeStatus,
};
use memcrabd::server::frame::FrameError;
use memcrabd::server::{handle_command, handle_set_data};
use memcrabd::store::Store;

fn set_cmd(line: &str) -> Command {
    parse_command_line(line).unwrap()
}

#[test]
fn set_then_get_replies() {
    let mut store = Store::new();
    let r = handle_set_data_at(set_cmd("set foo 7 0 5"), b"hello".to_vec(), &mut store, 0);
    assert_eq!(r.bytes, b"STORED\r\n");
    assert!(r.keep_open);
    let r = handle_command_at(set_cmd("get foo missing"), &mut store, 1);
    assert_eq!(r.bytes, b"VALUE foo 7 5\r\nhello\r\nEND\r\n");
    assert!(r.keep_open);
}

#[test]
fn noreply_set_is_silent() {
    let mut store = Store::new();
    let r = handle_set_data(set_cmd("set k 0 0 1 noreply"), b"x".to_vec(), &mut store);
    assert!(r.bytes.is_empty());
    assert_eq!(store.get("k").unwrap().value, b"x");
}

#[test]
fn get_expired_is_a_miss() {
    let mut store = Store::new();
    handle_set_data_at(set_cmd("set k 0 1 1"), b"x".to_vec(), &mut store, 0);
    let r = handle_command_at(set_cmd("get k"), &mut store, 1_000_000_000);
    assert_eq!(r.bytes, b"END\r\n");
}

#[test]
fn delete_replies() {
    let mut store = Store::new();
    store.set("k".into(), 0, 0, b"v".to_vec());
    assert_eq!(handle_command(set_cmd("delete k"), &mut store).bytes, b"DELETED\r\n");
    assert_eq!(handle_command(set_cmd("delete k"), &mut store).bytes, b"NOT_FOUND\r\n");
    store.set("k".into(), 0, 0, b"v".to_vec());
    assert!(handle_command(set_cmd("delete k noreply"), &mut store).bytes.is_empty());
    assert!(store.get("k").is_none());
}

#[test]
fn version_quit_and_misplaced_frames() {
    let mut store = Store::new();
    let r = handle_command(Command::Version, &mut store);
    assert_eq!(r.bytes, b"VERSION memcrabd 0.1.0\r\n");
    let r = handle_command(Command::Quit, &mut store);
    assert!(r.bytes.is_empty());
    assert!(!r.keep_open);
    let r = handle_command(set_cmd("set k 0 0 1"), &mut store);
    assert_eq!(r.bytes, b"CLIENT_ERROR invalid set frame\r\n");
    let r = handle_set_data(Command::Version, b"x".to_vec(), &mut store);
    assert_eq!(r.bytes, b"CLIENT_ERROR invalid frame\r\n");
    assert!(r.keep_open);
}

#[test]
fn large_numbers_in_value_line() {
    let mut store = Store::new();
    handle_set_data_at(set_cmd("set big 4294967295 0 0"), Vec::new(), &mut store, 0);
    let r = handle_command_at(set_cmd("get big"), &mut store, 0);
    assert_eq!(r.bytes, b"VALUE big 4294967295 0\r\n\r\nEND\r\n");
}

#[test]
fn serve_pipelined_requests() {
    let mut store = Store::new();
    let mut buf = BytesMut::from(&b"set a 1 0 2\r\nhi\r\nget a b\r\ndelete a\r\nget a\r\nget"[..]);
    let out = serve_buffer_at(&mut buf, &mut store, 0);
    assert_eq!(
        out.reply,
        b"STORED\r\nVALUE a 1 2\r\nhi\r\nEND\r\nDELETED\r\nEND\r\n".to_vec()
    );
    assert_eq!(out.status, ServeStatus::NeedMore);
    assert_eq!(&buf[..], b"get");
}

#[test]
fn serve_stops_at_quit() {
    let mut store = Store::new();
    let mut buf = BytesMut::from(&b"version\r\nquit\r\nversion\r\n"[..]);
    let out = serve_buffer(&mut buf, &mut store);
    assert_eq!(out.reply, b"VERSION memcrabd 0.1.0\r\n".to_vec());
    assert_eq!(out.status, ServeStatus::Close);
    assert_eq!(&buf[..], b"version\r\n");
}

#[test]
fn serve_reports_refused_frame_after_earlier_replies() {
    let mut store = Store::new();
    let mut buf = BytesMut::from(&b"version\r\nnope\r\n"[..]);
    let out = serve_buffer(&mut buf, &mut store);
    assert_eq!(out.reply, b"VERSION memcrabd 0.1.0\r\n".to_vec());
    assert!(matches!(out.status, ServeStatus::Failed(FrameError::Command(_))));
}
