//! What the server answers to each frame, and how it works through a
//! connection's read buffer.
use vstd::prelude::*;
use vstd::utf8::encode_utf8;

use bytes::BytesMut;

use crate::protocol::buffer::buffer_bytes;
use crate::protocol::number::{decimal, push_decimal};
use crate::server::command::{spec_parse_command, Command, CommandError, CommandView};
use crate::protocol::text::crlf_at;
use crate::server::frame::{
    crlf, law_command_framed, law_set_request_framed, parse_frame, spec_parse_frame, Frame,
    FrameError, FrameView,
};
use vstd::utf8::{decode_utf8, valid_utf8};
use crate::store::item::ItemView;
use crate::store::{
    deadline, item_view, law_get_after_set, spec_delete, spec_get, spec_set, Store, StoreView,
};

verus! {

/// The bytes to send back for a frame, and whether the connection stays
/// open.
pub struct Reply {
    pub bytes: Vec<u8>,
    pub keep_open: bool,
}

pub open spec fn line_end() -> Seq<u8> {
    encode_utf8("\r\n"@)
}

/// A single space.
pub open spec fn space() -> Seq<u8> {
    encode_utf8(" "@)
}

pub open spec fn end_line() -> Seq<u8> {
    encode_utf8("END\r\n"@)
}

pub open spec fn value_word() -> Seq<u8> {
    encode_utf8("VALUE "@)
}

pub open spec fn stored_line() -> Seq<u8> {
    encode_utf8("STORED\r\n"@)
}

pub open spec fn deleted_line() -> Seq<u8> {
    encode_utf8("DELETED\r\n"@)
}

pub open spec fn not_found_line() -> Seq<u8> {
    encode_utf8("NOT_FOUND\r\n"@)
}

pub open spec fn version_line() -> Seq<u8> {
    encode_utf8("VERSION memcrabd 0.1.0\r\n"@)
}

pub open spec fn invalid_set_frame_line() -> Seq<u8> {
    encode_utf8("CLIENT_ERROR invalid set frame\r\n"@)
}

pub open spec fn invalid_frame_line() -> Seq<u8> {
    encode_utf8("CLIENT_ERROR invalid frame\r\n"@)
}

/// The block for one key of a `get`: `VALUE <key> <flags> <bytes>\r\n`,
/// the data and `\r\n` for an item found, nothing for a miss.
pub open spec fn value_block(key: Seq<char>, found: Option<ItemView>) -> Seq<u8> {
    match found {
        None => seq![],
        Some(item) => value_word() + encode_utf8(key) + space() + decimal(item.flags as nat)
            + space() + decimal(item.value.len()) + line_end() + item.value + line_end(),
    }
}

/// The store after reading `keys` in order at time `now`, and the reply:
/// a block for each key, then `END\r\n`.
pub open spec fn spec_get_keys(s: StoreView, keys: Seq<Seq<char>>, now: u128) -> (StoreView, Seq<u8>)
    decreases keys.len(),
{
    if keys.len() == 0 {
        (s, end_line())
    } else {
        let (s1, found) = spec_get(s, keys[0], now);
        let (s2, rest) = spec_get_keys(s1, keys.drop_first(), now);
        (s2, value_block(keys[0], found) + rest)
    }
}

/// The reply to a `get` of the keys `ks` and then `k` is the reply to `ks`
/// with the block for `k` put before its `END`: every key is answered in
/// order, a miss adds nothing and does not end the reply, and the store
/// after it is the store after `ks` as the read of `k` leaves it.
pub proof fn law_get_reply_extends(s: StoreView, ks: Seq<Seq<char>>, k: Seq<char>, now: u128) -> (p:
    Seq<u8>)
    ensures
        spec_get_keys(s, ks, now).1 == p + end_line(),
        spec_get_keys(s, ks.push(k), now).1 == p + value_block(
            k,
            spec_get(spec_get_keys(s, ks, now).0, k, now).1,
        ) + end_line(),
        spec_get_keys(s, ks.push(k), now).0 == spec_get(spec_get_keys(s, ks, now).0, k, now).0,
        spec_get(spec_get_keys(s, ks, now).0, k, now).1 is None ==> spec_get_keys(
            s,
            ks.push(k),
            now,
        ).1 == spec_get_keys(s, ks, now).1,
    decreases ks.len(),
{
    if ks.len() == 0 {
        let one = ks.push(k);
        assert(one[0] == k);
        assert(one.drop_first() =~= Seq::<Seq<char>>::empty());
        let (s1, f) = spec_get(s, k, now);
        assert(spec_get_keys(s1, Seq::<Seq<char>>::empty(), now) == (s1, end_line()));
        assert(spec_get_keys(s, ks, now) == (s, end_line()));
        assert(seq![] + end_line() =~= end_line());
        assert(seq![] + value_block(k, f) + end_line() =~= value_block(k, f) + end_line());
        if f is None {
            assert(value_block(k, f) + end_line() =~= end_line());
        }
        seq![]
    } else {
        let (s1, f) = spec_get(s, ks[0], now);
        let q = law_get_reply_extends(s1, ks.drop_first(), k, now);
        let longer = ks.push(k);
        assert(longer[0] == ks[0]);
        assert(longer.drop_first() =~= ks.drop_first().push(k));
        let p = value_block(ks[0], f) + q;
        let b = value_block(k, spec_get(spec_get_keys(s, ks, now).0, k, now).1);
        assert(value_block(ks[0], f) + (q + end_line()) =~= p + end_line());
        assert(value_block(ks[0], f) + (q + b + end_line()) =~= p + b + end_line());
        if spec_get(spec_get_keys(s, ks, now).0, k, now).1 is None {
            assert(q + b + end_line() =~= q + end_line());
        }
        p
    }
}

/// The store, the reply and whether the connection stays open after the
/// command `c` at time `now`.
pub open spec fn spec_handle_command(s: StoreView, c: CommandView, now: u128) -> (StoreView, Seq<u8>, bool) {
    match c {
        CommandView::Get { keys } => {
            let (s1, out) = spec_get_keys(s, keys, now);
            (s1, out, true)
        },
        CommandView::Delete { key, noreply } => {
            let (s1, deleted) = spec_delete(s, key);
            (
                s1,
                if noreply {
                    seq![]
                } else if deleted {
                    deleted_line()
                } else {
                    not_found_line()
                },
                true,
            )
        },
        CommandView::Version => (s, version_line(), true),
        CommandView::Quit => (s, seq![], false),
        CommandView::SetItem { .. } => (s, invalid_set_frame_line(), true),
    }
}

/// The store, the reply and whether the connection stays open after the
/// command `c` with the data block `value` at time `now`.
pub open spec fn spec_handle_set_data(s: StoreView, c: CommandView, value: Seq<u8>, now: u128) -> (
    StoreView,
    Seq<u8>,
    bool,
) {
    match c {
        CommandView::SetItem { key, flags, ttl, noreply, .. } => (
            spec_set(s, key, flags, ttl, value, now),
            if noreply {
                seq![]
            } else {
                stored_line()
            },
            true,
        ),
        _ => (s, invalid_frame_line(), true),
    }
}

/// Appends `b` to `out`.
pub fn push_bytes(out: &mut Vec<u8>, b: &[u8])
    ensures
        final(out)@ == old(out)@ + b@,
{
    let mut i: usize = 0;
    while i < b.len()
        invariant
            i <= b@.len(),
            out@ == old(out)@ + b@.subrange(0, i as int),
        decreases b.len() - i,
    {
        out.push(b[i]);
        i = i + 1;
        assert(out@ =~= old(out)@ + b@.subrange(0, i as int));
    }
    assert(b@.subrange(0, b@.len() as int) =~= b@);
}

fn push_value_block(out: &mut Vec<u8>, key: &String, item: &crate::store::Item)
    ensures
        final(out)@ == old(out)@ + value_block(key@, Some(item@)),
{
    push_bytes(out, "VALUE ".as_bytes());
    push_bytes(out, key.as_str().as_bytes());
    push_bytes(out, " ".as_bytes());
    push_decimal(out, item.flags as u64);
    push_bytes(out, " ".as_bytes());
    push_decimal(out, item.value.len() as u64);
    push_bytes(out, "\r\n".as_bytes());
    push_bytes(out, item.value.as_slice());
    push_bytes(out, "\r\n".as_bytes());
    assert(final(out)@ =~= old(out)@ + value_block(key@, Some(item@)));
}

fn get_keys_at(keys: &Vec<String>, store: &mut Store, now: u128) -> (res: Vec<u8>)
    ensures
        (final(store)@, res@) == spec_get_keys(old(store)@, keys@.map_values(|k: String| k@), now),
{
    let ghost ks = keys@.map_values(|k: String| k@);
    let mut out: Vec<u8> = Vec::new();
    let mut i: usize = 0;
    assert(ks.skip(0) =~= ks);
    while i < keys.len()
        invariant
            i <= keys.len(),
            ks == keys@.map_values(|k: String| k@),
            spec_get_keys(old(store)@, ks, now) == (
                spec_get_keys(store@, ks.skip(i as int), now).0,
                out@ + spec_get_keys(store@, ks.skip(i as int), now).1,
            ),
        decreases keys.len() - i,
    {
        let ghost before = store@;
        let ghost out_before = out@;
        let found = store.get_at(keys[i].as_str(), now);
        assert(ks.skip(i as int)[0] == keys@[i as int]@);
        assert(ks.skip(i as int).drop_first() =~= ks.skip(i + 1));
        match found {
            Some(item) => {
                push_value_block(&mut out, &keys[i], &item);
            },
            None => {},
        }
        assert(out@ =~= out_before + value_block(keys@[i as int]@, item_view(found)));
        i = i + 1;
    }
    assert(ks.skip(i as int).len() == 0);
    push_bytes(&mut out, "END\r\n".as_bytes());
    out
}

/// The reply to `command` at time `now`, with its effect on the store.
pub fn handle_command_at(command: Command, store: &mut Store, now: u128) -> (res: Reply)
    ensures
        (final(store)@, res.bytes@, res.keep_open) == spec_handle_command(old(store)@, command@, now),
{
    match command {
        Command::Get { keys } => {
            let bytes = get_keys_at(&keys, store, now);
            Reply { bytes, keep_open: true }
        },
        Command::Delete { key, noreply } => {
            let deleted = store.delete(key.as_str());
            let mut bytes: Vec<u8> = Vec::new();
            if !noreply {
                if deleted {
                    push_bytes(&mut bytes, "DELETED\r\n".as_bytes());
                } else {
                    push_bytes(&mut bytes, "NOT_FOUND\r\n".as_bytes());
                }
            }
            assert(bytes@ =~= spec_handle_command(old(store)@, command@, now).1);
            Reply { bytes, keep_open: true }
        },
        Command::Version => {
            let mut bytes: Vec<u8> = Vec::new();
            push_bytes(&mut bytes, "VERSION memcrabd 0.1.0\r\n".as_bytes());
            assert(bytes@ =~= version_line());
            Reply { bytes, keep_open: true }
        },
        Command::Quit => Reply { bytes: Vec::new(), keep_open: false },
        Command::SetItem { .. } => {
            let mut bytes: Vec<u8> = Vec::new();
            push_bytes(&mut bytes, "CLIENT_ERROR invalid set frame\r\n".as_bytes());
            assert(bytes@ =~= invalid_set_frame_line());
            Reply { bytes, keep_open: true }
        },
    }
}

/// The reply to `command`, with its effect on the store, at the current
/// time.
pub fn handle_command(command: Command, store: &mut Store) -> (res: Reply)
    ensures
        exists|now: u128|
            (final(store)@, res.bytes@, res.keep_open) == #[trigger] spec_handle_command(
                old(store)@,
                command@,
                now,
            ),
{
    let ghost c = command@;
    let now = store.now();
    let res = handle_command_at(command, store, now);
    assert((final(store)@, res.bytes@, res.keep_open) == spec_handle_command(old(store)@, c, now));
    res
}

/// The reply to `command` with its data block `value` at time `now`, with
/// its effect on the store: a `set` stores the value.
pub fn handle_set_data_at(command: Command, value: Vec<u8>, store: &mut Store, now: u128) -> (res:
    Reply)
    ensures
        (final(store)@, res.bytes@, res.keep_open) == spec_handle_set_data(
            old(store)@,
            command@,
            value@,
            now,
        ),
{
    match command {
        Command::SetItem { key, flags, ttl, noreply, .. } => {
            store.set_at(key, flags, ttl, value, now);
            let mut bytes: Vec<u8> = Vec::new();
            if !noreply {
                push_bytes(&mut bytes, "STORED\r\n".as_bytes());
            }
            assert(bytes@ =~= spec_handle_set_data(old(store)@, command@, value@, now).1);
            Reply { bytes, keep_open: true }
        },
        _ => {
            let mut bytes: Vec<u8> = Vec::new();
            push_bytes(&mut bytes, "CLIENT_ERROR invalid frame\r\n".as_bytes());
            assert(bytes@ =~= invalid_frame_line());
            Reply { bytes, keep_open: true }
        },
    }
}

/// The reply to `command` with its data block `value`, with its effect on
/// the store, at the current time.
pub fn handle_set_data(command: Command, value: Vec<u8>, store: &mut Store) -> (res: Reply)
    ensures
        exists|now: u128|
            (final(store)@, res.bytes@, res.keep_open) == #[trigger] spec_handle_set_data(
                old(store)@,
                command@,
                value@,
                now,
            ),
{
    let ghost c = command@;
    let ghost v = value@;
    let now = store.now();
    let res = handle_set_data_at(command, value, store, now);
    assert((final(store)@, res.bytes@, res.keep_open) == spec_handle_set_data(
        old(store)@,
        c,
        v,
        now,
    ));
    res
}

/// The store, the reply and whether the connection stays open after the
/// frame `f` at time `now`.
pub open spec fn spec_handle_frame(s: StoreView, f: FrameView, now: u128) -> (StoreView, Seq<u8>, bool) {
    match f {
        FrameView::Command(c) => spec_handle_command(s, c, now),
        FrameView::SetData { command, value } => spec_handle_set_data(s, command, value, now),
    }
}

/// Where working through a read buffer stopped.
#[derive(Debug, Clone, Copy, PartialEq, Eq, Structural)]
pub enum ServeStatus {
    /// Every complete frame was answered; the rest needs more bytes.
    NeedMore,
    /// A frame asked to close the connection.
    Close,
    /// The buffer holds a frame that is refused.
    Failed(FrameError),
}

/// The replies to the frames taken off a read buffer, and where it stopped.
pub struct ServeOutcome {
    pub reply: Vec<u8>,
    pub status: ServeStatus,
}

pub proof fn lemma_frame_consumes(data: Seq<u8>)
    ensures
        spec_parse_frame(data).0 matches Ok(Some(_)) ==> spec_parse_frame(data).1.len() < data.len(),
{
    crate::protocol::text::lemma_crlf_from(data, 0);
}

/// What is left of the buffer, the store, the replies and where it stopped
/// after answering, at time `now`, the frames at the front of `data` in
/// order, up to the first one that is incomplete, refused or closes the
/// connection.
pub open spec fn spec_serve(data: Seq<u8>, s: StoreView, now: u128) -> (
    Seq<u8>,
    StoreView,
    Seq<u8>,
    ServeStatus,
)
    decreases data.len(),
{
    match spec_parse_frame(data) {
        (Err(e), rest) => (rest, s, seq![], ServeStatus::Failed(e)),
        (Ok(None), rest) => (rest, s, seq![], ServeStatus::NeedMore),
        (Ok(Some(f)), rest) => {
            let (s1, out, keep_open) = spec_handle_frame(s, f, now);
            if !keep_open {
                (rest, s1, out, ServeStatus::Close)
            } else {
                proof {
                    lemma_frame_consumes(data);
                }
                let (r2, s2, out2, st) = spec_serve(rest, s1, now);
                (r2, s2, out + out2, st)
            }
        },
    }
}

/// Over the protocol, a `set` of a key followed by a `get` of it answers
/// `STORED`, then the value that was stored with its flags, then `END`;
/// whatever follows is served after them.
pub proof fn law_protocol_read_after_write(
    s: StoreView,
    now: u128,
    set_line: Seq<u8>,
    value: Seq<u8>,
    get_line: Seq<u8>,
    rest: Seq<u8>,
    key: Seq<char>,
    flags: u32,
    ttl: u64,
)
    requires
        forall|j: int|
            0 <= j < set_line.len() ==> !crlf_at(
                set_line + crlf() + value + crlf() + (get_line + crlf() + rest),
                j,
            ),
        value.len() <= usize::MAX,
        valid_utf8(set_line),
        spec_parse_command(decode_utf8(set_line)) == Ok::<CommandView, CommandError>(
            CommandView::SetItem { key, flags, ttl, bytes: value.len() as usize, noreply: false },
        ),
        forall|j: int| 0 <= j < get_line.len() ==> !crlf_at(get_line + crlf() + rest, j),
        valid_utf8(get_line),
        spec_parse_command(decode_utf8(get_line)) == Ok::<CommandView, CommandError>(
            CommandView::Get { keys: seq![key] },
        ),
        deadline(now, ttl) matches Some(e) ==> now < e,
    ensures
        ({
            let data = set_line + crlf() + value + crlf() + get_line + crlf() + rest;
            let stored = spec_set(s, key, flags, ttl, value, now);
            let item = ItemView { value, flags, expires_at: deadline(now, ttl), cas: s.next_cas };
            spec_serve(data, s, now) == (
                spec_serve(rest, stored, now).0,
                spec_serve(rest, stored, now).1,
                stored_line() + value_block(key, Some(item)) + end_line() + spec_serve(
                    rest,
                    stored,
                    now,
                ).2,
                spec_serve(rest, stored, now).3,
            )
        }),
{
    let tail = get_line + crlf() + rest;
    let data = set_line + crlf() + value + crlf() + tail;
    assert(data =~= set_line + crlf() + value + crlf() + get_line + crlf() + rest);
    law_set_request_framed(set_line, value, tail);
    law_command_framed(get_line, rest);
    let stored = spec_set(s, key, flags, ttl, value, now);
    law_get_after_set(s, key, flags, ttl, value, now, now);
    let item = ItemView { value, flags, expires_at: deadline(now, ttl), cas: s.next_cas };
    let keys = seq![key];
    assert(keys.drop_first() =~= Seq::<Seq<char>>::empty());
    assert(keys[0] == key);
    assert(spec_get(stored, key, now) == (stored, Some(item)));
    assert(spec_get_keys(stored, Seq::<Seq<char>>::empty(), now) == (stored, end_line()));
    assert(spec_get_keys(stored, keys, now) == (stored, value_block(key, Some(item)) + end_line()));
    let r = spec_serve(rest, stored, now);
    assert(spec_serve(tail, stored, now) == (r.0, r.1, value_block(key, Some(item)) + end_line() + r.2, r.3));
    assert(stored_line() + (value_block(key, Some(item)) + end_line() + r.2) =~= stored_line()
        + value_block(key, Some(item)) + end_line() + r.2);
}

/// A `set` frame stores its value under its key with its own flags and time
/// to live, whether or not it asks for no reply; `noreply` only drops the
/// `STORED` line. A read before the deadline then gives back that value and
/// those flags.
pub proof fn law_set_data_stores_whatever_noreply(
    s: StoreView,
    key: Seq<char>,
    flags: u32,
    ttl: u64,
    bytes: usize,
    noreply: bool,
    value: Seq<u8>,
    now: u128,
    t: u128,
)
    requires
        deadline(now, ttl) matches Some(e) ==> t < e,
    ensures
        ({
            let c = CommandView::SetItem { key, flags, ttl, bytes, noreply };
            let quiet_flipped = CommandView::SetItem { key, flags, ttl, bytes, noreply: !noreply };
            let r = spec_handle_set_data(s, c, value, now);
            &&& r.0 == spec_handle_set_data(s, quiet_flipped, value, now).0
            &&& spec_get(r.0, key, t).1 == Some(
                ItemView { value, flags, expires_at: deadline(now, ttl), cas: s.next_cas },
            )
            &&& r.1 == if noreply {
                seq![]
            } else {
                stored_line()
            }
            &&& r.2
        }),
{
    law_get_after_set(s, key, flags, ttl, value, now, t);
}

/// Over the protocol, a `set ... noreply` of a key followed by a `get` of it
/// answers nothing for the set, then the value that was stored with its
/// flags, then `END`; whatever follows is served after them.
pub proof fn law_protocol_read_after_quiet_write(
    s: StoreView,
    now: u128,
    set_line: Seq<u8>,
    value: Seq<u8>,
    get_line: Seq<u8>,
    rest: Seq<u8>,
    key: Seq<char>,
    flags: u32,
    ttl: u64,
)
    requires
        forall|j: int|
            0 <= j < set_line.len() ==> !crlf_at(
                set_line + crlf() + value + crlf() + (get_line + crlf() + rest),
                j,
            ),
        value.len() <= usize::MAX,
        valid_utf8(set_line),
        spec_parse_command(decode_utf8(set_line)) == Ok::<CommandView, CommandError>(
            CommandView::SetItem { key, flags, ttl, bytes: value.len() as usize, noreply: true },
        ),
        forall|j: int| 0 <= j < get_line.len() ==> !crlf_at(get_line + crlf() + rest, j),
        valid_utf8(get_line),
        spec_parse_command(decode_utf8(get_line)) == Ok::<CommandView, CommandError>(
            CommandView::Get { keys: seq![key] },
        ),
        deadline(now, ttl) matches Some(e) ==> now < e,
    ensures
        ({
            let data = set_line + crlf() + value + crlf() + get_line + crlf() + rest;
            let stored = spec_set(s, key, flags, ttl, value, now);
            let item = ItemView { value, flags, expires_at: deadline(now, ttl), cas: s.next_cas };
            spec_serve(data, s, now) == (
                spec_serve(rest, stored, now).0,
                spec_serve(rest, stored, now).1,
                value_block(key, Some(item)) + end_line() + spec_serve(rest, stored, now).2,
                spec_serve(rest, stored, now).3,
            )
        }),
{
    let tail = get_line + crlf() + rest;
    let data = set_line + crlf() + value + crlf() + tail;
    assert(data =~= set_line + crlf() + value + crlf() + get_line + crlf() + rest);
    law_set_request_framed(set_line, value, tail);
    law_command_framed(get_line, rest);
    let stored = spec_set(s, key, flags, ttl, value, now);
    law_get_after_set(s, key, flags, ttl, value, now, now);
    let item = ItemView { value, flags, expires_at: deadline(now, ttl), cas: s.next_cas };
    let keys = seq![key];
    assert(keys.drop_first() =~= Seq::<Seq<char>>::empty());
    assert(keys[0] == key);
    assert(spec_get(stored, key, now) == (stored, Some(item)));
    assert(spec_get_keys(stored, Seq::<Seq<char>>::empty(), now) == (stored, end_line()));
    assert(spec_get_keys(stored, keys, now) == (stored, value_block(key, Some(item)) + end_line()));
    let r = spec_serve(rest, stored, now);
    assert(spec_serve(tail, stored, now) == (r.0, r.1, value_block(key, Some(item)) + end_line() + r.2, r.3));
    assert(seq![] + (value_block(key, Some(item)) + end_line() + r.2) =~= value_block(key, Some(item))
        + end_line() + r.2);
}

/// Answers, at time `now`, the frames at the front of `buf` in order, up to
/// the first one that is incomplete, refused or closes the connection.
pub fn serve_buffer_at(buf: &mut BytesMut, store: &mut Store, now: u128) -> (res: ServeOutcome)
    ensures
        spec_serve(buffer_bytes(*old(buf)), old(store)@, now) == (
            buffer_bytes(*final(buf)),
            final(store)@,
            res.reply@,
            res.status,
        ),
{
    let mut reply: Vec<u8> = Vec::new();
    loop
        invariant
            spec_serve(buffer_bytes(*old(buf)), old(store)@, now) == (
                spec_serve(buffer_bytes(*buf), store@, now).0,
                spec_serve(buffer_bytes(*buf), store@, now).1,
                reply@ + spec_serve(buffer_bytes(*buf), store@, now).2,
                spec_serve(buffer_bytes(*buf), store@, now).3,
            ),
        decreases buffer_bytes(*buf).len(),
    {
        let ghost d = buffer_bytes(*buf);
        let ghost s = store@;
        proof {
            lemma_frame_consumes(d);
        }
        match parse_frame(buf) {
            Err(e) => {
                assert(reply@ + seq![] =~= reply@);
                return ServeOutcome { reply, status: ServeStatus::Failed(e) };
            },
            Ok(None) => {
                assert(reply@ + seq![] =~= reply@);
                return ServeOutcome { reply, status: ServeStatus::NeedMore };
            },
            Ok(Some(frame)) => {
                let ghost f = frame@;
                let r = match frame {
                    Frame::Command(c) => handle_command_at(c, store, now),
                    Frame::SetData { command, value } => handle_set_data_at(
                        command,
                        value,
                        store,
                        now,
                    ),
                };
                assert((store@, r.bytes@, r.keep_open) == spec_handle_frame(s, f, now));
                let ghost before = reply@;
                push_bytes(&mut reply, r.bytes.as_slice());
                if !r.keep_open {
                    return ServeOutcome { reply, status: ServeStatus::Close };
                }
                assert(before + (r.bytes@ + spec_serve(buffer_bytes(*buf), store@, now).2) =~= reply@
                    + spec_serve(buffer_bytes(*buf), store@, now).2);
            },
        }
    }
}

/// Answers, at the current time, the frames at the front of `buf` in
/// order, up to the first one that is incomplete, refused or closes the
/// connection.
pub fn serve_buffer(buf: &mut BytesMut, store: &mut Store) -> (res: ServeOutcome)
    ensures
        exists|now: u128|
            #[trigger] spec_serve(buffer_bytes(*old(buf)), old(store)@, now) == (
                buffer_bytes(*final(buf)),
                final(store)@,
                res.reply@,
                res.status,
            ),
{
    let now = store.now();
    let res = serve_buffer_at(buf, store, now);
    assert(spec_serve(buffer_bytes(*old(buf)), old(store)@, now) == (
        buffer_bytes(*final(buf)),
        final(store)@,
        res.reply@,
        res.status,
    ));
    res
}

} // verus!
