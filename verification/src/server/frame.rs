//! Cutting frames (a command line, and for `set` its data block) off the
//! front of a connection's read buffer.
use vstd::prelude::*;
use vstd::slice::slice_to_vec;
use vstd::utf8::{decode_utf8, valid_utf8};

use bytes::BytesMut;

use crate::protocol::buffer::{buffer_advance, buffer_bytes, buffer_slice};
use crate::protocol::text::{crlf_at, crlf_from, find_crlf_in, index_of, lemma_crlf_from, utf8_str};
use crate::server::command::{
    parse_command_line, spec_parse_command, Command, CommandError, CommandView,
};

verus! {

/// A complete request: a command, or a `set` command with its data block.
pub enum Frame {
    Command(Command),
    SetData { command: Command, value: Vec<u8> },
}

pub enum FrameView {
    Command(CommandView),
    SetData { command: CommandView, value: Seq<u8> },
}

impl View for Frame {
    type V = FrameView;

    open spec fn view(&self) -> FrameView {
        match self {
            Frame::Command(c) => FrameView::Command(c@),
            Frame::SetData { command, value } => FrameView::SetData {
                command: command@,
                value: value@,
            },
        }
    }
}

/// Why the buffer holds no valid frame.
#[derive(Debug, Clone, Copy, PartialEq, Eq, Structural)]
pub enum FrameError {
    /// The command line is not valid UTF-8.
    InvalidUtf8,
    /// The command line is refused.
    Command(CommandError),
    /// The data block of a `set` is not followed by `\r\n`.
    MissingDataEnd,
}

/// The frame at the front of `data`, and what is left of the buffer after
/// the attempt: `Ok(None)` where the frame is not complete yet.
pub open spec fn spec_parse_frame(data: Seq<u8>) -> (Result<Option<FrameView>, FrameError>, Seq<u8>) {
    match crlf_from(data, 0) {
        None => (Ok(None), data),
        Some(e) => {
            let line = data.take(e as int);
            if !valid_utf8(line) {
                (Err(FrameError::InvalidUtf8), data)
            } else {
                match spec_parse_command(decode_utf8(line)) {
                    Err(c) => (Err(FrameError::Command(c)), data),
                    Ok(cmd) => match cmd {
                        CommandView::SetItem { bytes, .. } => {
                            let header: int = e as int + 2;
                            if data.len() < header + bytes + 2 {
                                (Ok(None), data)
                            } else if crlf_at(data, header + bytes) {
                                (
                                    Ok(
                                        Some(
                                            FrameView::SetData {
                                                command: cmd,
                                                value: data.subrange(
                                                    header,
                                                    header + bytes,
                                                ),
                                            },
                                        ),
                                    ),
                                    data.skip(header + bytes + 2),
                                )
                            } else {
                                (Err(FrameError::MissingDataEnd), data.skip(header + bytes))
                            }
                        },
                        _ => (Ok(Some(FrameView::Command(cmd))), data.skip(e as int + 2)),
                    },
                }
            }
        },
    }
}

/// Whether `res` is the result that `spec_parse_frame` gives in `r`.
pub open spec fn frame_result_is(
    res: Result<Option<Frame>, FrameError>,
    r: Result<Option<FrameView>, FrameError>,
) -> bool {
    match (res, r) {
        (Ok(Some(f)), Ok(Some(g))) => f@ == g,
        (Ok(None), Ok(None)) => true,
        (Err(e), Err(f)) => e == f,
        _ => false,
    }
}

/// An incomplete frame takes nothing off the buffer.
pub proof fn law_incomplete_frame_consumes_nothing(data: Seq<u8>)
    ensures
        spec_parse_frame(data).0 matches Ok(None) ==> spec_parse_frame(data).1 == data,
{
}

/// `\r\n`
pub open spec fn crlf() -> Seq<u8> {
    seq![13u8, 10u8]
}

/// A buffer that starts with a complete `set` request (its line, `\r\n`,
/// exactly `bytes` data bytes and `\r\n`) yields that request with its data,
/// whatever follows, and keeps what follows.
pub proof fn law_set_request_framed(line: Seq<u8>, value: Seq<u8>, rest: Seq<u8>)
    requires
        forall|j: int| 0 <= j < line.len() ==> !crlf_at(line + crlf() + value + crlf() + rest, j),
        valid_utf8(line),
        spec_parse_command(decode_utf8(line)) matches Ok(CommandView::SetItem { bytes, .. })
            && bytes == value.len(),
    ensures
        spec_parse_frame(line + crlf() + value + crlf() + rest) == (
            Ok::<Option<FrameView>, FrameError>(
                Some(
                    FrameView::SetData {
                        command: spec_parse_command(decode_utf8(line))->Ok_0,
                        value,
                    },
                ),
            ),
            rest,
        ),
{
    let data = line + crlf() + value + crlf() + rest;
    let n: int = line.len() as int;
    lemma_crlf_from(data, 0);
    assert(crlf_at(data, n));
    if crlf_from(data, 0) != Some(n as nat) {
        let p = crlf_from(data, 0);
        if p is None {
            assert(!crlf_at(data, n));
        } else {
            let q = p->Some_0;
            if q < n {
                assert(!crlf_at(data, q as int));
            } else {
                assert(!crlf_at(data, n));
            }
        }
    }
    assert(data.take(n) =~= line);
    let bytes: int = value.len() as int;
    assert(data[n + 2 + bytes] == 13u8);
    assert(data[n + 2 + bytes + 1] == 10u8);
    assert(data.subrange(n + 2, n + 2 + bytes) =~= value);
    assert(data.skip(n + 2 + bytes + 2) =~= rest);
}

/// A buffer that starts with a complete command line other than `set`
/// yields that command, whatever follows, and keeps what follows.
pub proof fn law_command_framed(line: Seq<u8>, rest: Seq<u8>)
    requires
        forall|j: int| 0 <= j < line.len() ==> !crlf_at(line + crlf() + rest, j),
        valid_utf8(line),
        spec_parse_command(decode_utf8(line)) is Ok,
        !(spec_parse_command(decode_utf8(line))->Ok_0 is SetItem),
    ensures
        spec_parse_frame(line + crlf() + rest) == (
            Ok::<Option<FrameView>, FrameError>(
                Some(FrameView::Command(spec_parse_command(decode_utf8(line))->Ok_0)),
            ),
            rest,
        ),
{
    let data = line + crlf() + rest;
    let n: int = line.len() as int;
    lemma_crlf_from(data, 0);
    assert(crlf_at(data, n));
    if crlf_from(data, 0) != Some(n as nat) {
        let p = crlf_from(data, 0);
        if p is None {
            assert(!crlf_at(data, n));
        } else {
            let q = p->Some_0;
            if q < n {
                assert(!crlf_at(data, q as int));
            } else {
                assert(!crlf_at(data, n));
            }
        }
    }
    assert(data.take(n) =~= line);
    assert(data.skip(n + 2) =~= rest);
}

/// Takes the next complete frame off the front of `buf`.
pub fn parse_frame(buf: &mut BytesMut) -> (res: Result<Option<Frame>, FrameError>)
    ensures
        frame_result_is(res, spec_parse_frame(buffer_bytes(*old(buf))).0),
        buffer_bytes(*final(buf)) == spec_parse_frame(buffer_bytes(*old(buf))).1,
{
    let ghost d = buffer_bytes(*buf);
    let data = buffer_slice(buf);
    let n = data.len();
    let found = find_crlf_in(data);
    let line_end = match found {
        Some(e) => e,
        None => return Ok(None),
    };
    proof {
        lemma_crlf_from(d, 0);
        let p = crlf_from(d, 0)->Some_0;
        assert(crlf_at(d, p as int));
        assert(p == line_end as nat);
    }
    let line = &data[0..line_end];
    assert(line@ =~= d.take(line_end as int));
    let line_str = match utf8_str(line) {
        Some(s) => s,
        None => return Err(FrameError::InvalidUtf8),
    };
    let command = match parse_command_line(line_str) {
        Ok(c) => c,
        Err(e) => return Err(FrameError::Command(e)),
    };
    let header_len = line_end + 2;
    if let Command::SetItem { bytes, .. } = &command {
        let bytes = *bytes;
        let avail = n - header_len;
        if bytes > avail || avail - bytes < 2 {
            return Ok(None);
        }
        let value = slice_to_vec(&data[header_len..header_len + bytes]);
        let ends_ok = data[header_len + bytes] == 13 && data[header_len + bytes + 1] == 10;
        if !ends_ok {
            buffer_advance(buf, header_len + bytes);
            return Err(FrameError::MissingDataEnd);
        }
        buffer_advance(buf, header_len + bytes + 2);
        Ok(Some(Frame::SetData { command, value }))
    } else {
        buffer_advance(buf, header_len);
        Ok(Some(Frame::Command(command)))
    }
}

} // verus!
