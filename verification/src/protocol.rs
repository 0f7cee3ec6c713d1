//! Chat frames: a kind, a nick and a text in protobuf.
use vstd::prelude::*;
use vstd::slice::slice_subrange;
use vstd::string::*;
use vstd::utf8::*;

use crate::constants::{
    CHAT_TYPE_FILE_ACCEPT, CHAT_TYPE_FILE_CHUNK, CHAT_TYPE_FILE_DONE, CHAT_TYPE_FILE_META,
    MAX_FRAME_LEN, MAX_NICK_LEN, MAX_TEXT_LEN,
};
use crate::ffi;
use crate::text;
use crate::wire;

verus! {

/// Why a frame could not be written, read, sent or received.
#[derive(Clone, Copy, PartialEq, Eq, Structural, Debug)]
pub enum FrameError {
    NickWrite,
    TextWrite,
    TagRead,
    VarintRead,
    BytesRead,
    Skip,
    Send,
    Receive,
}

impl FrameError {
    /// The error in words.
    pub open spec fn words(self) -> Seq<char> {
        match self {
            FrameError::NickWrite => "protobuf nick write failed"@,
            FrameError::TextWrite => "protobuf text write failed"@,
            FrameError::TagRead => "protobuf tag read failed"@,
            FrameError::VarintRead => "protobuf varint read failed"@,
            FrameError::BytesRead => "protobuf bytes read failed"@,
            FrameError::Skip => "protobuf skip failed"@,
            FrameError::Send => "send frame failed"@,
            FrameError::Receive => "recv frame failed"@,
        }
    }

    /// The error in words.
    pub fn message(self) -> (r: String)
        ensures
            r@ == self.words(),
    {
        match self {
            FrameError::NickWrite => "protobuf nick write failed".to_owned(),
            FrameError::TextWrite => "protobuf text write failed".to_owned(),
            FrameError::TagRead => "protobuf tag read failed".to_owned(),
            FrameError::VarintRead => "protobuf varint read failed".to_owned(),
            FrameError::BytesRead => "protobuf bytes read failed".to_owned(),
            FrameError::Skip => "protobuf skip failed".to_owned(),
            FrameError::Send => "send frame failed".to_owned(),
            FrameError::Receive => "recv frame failed".to_owned(),
        }
    }
}

/// Field 1: the kind as a varint.
pub open spec fn kind_field(kind: u32) -> Seq<u8> {
    wire::varint(8) + wire::varint(kind as nat)
}

/// A string field under `tag`: nothing for an empty string; else its bytes without NUL characters,
/// behind their length.
pub open spec fn string_field(tag: nat, s: Seq<char>) -> Seq<u8> {
    if s.len() == 0 {
        Seq::empty()
    } else {
        let b = encode_utf8(ffi::without_nul(s));
        wire::varint(tag) + wire::varint(b.len()) + b
    }
}

/// A frame up to and with its nick.
pub open spec fn frame_head(kind: u32, nick: Seq<char>) -> Seq<u8> {
    kind_field(kind) + string_field(18, nick)
}

/// A whole frame.
pub open spec fn frame_bytes(kind: u32, nick: Seq<char>, body: Seq<char>) -> Seq<u8> {
    frame_head(kind, nick) + string_field(26, body)
}

/// Whether a frame's parts fit the room for one, and which does not.
pub open spec fn frame_fault(kind: u32, nick: Seq<char>, body: Seq<char>) -> Option<FrameError> {
    if frame_head(kind, nick).len() > MAX_FRAME_LEN {
        Some(FrameError::NickWrite)
    } else if frame_bytes(kind, nick, body).len() > MAX_FRAME_LEN {
        Some(FrameError::TextWrite)
    } else {
        None
    }
}

fn put_string(out: &mut Vec<u8>, tag: u64, s: &str) -> (fits: bool)
    requires
        old(out)@.len() <= MAX_FRAME_LEN,
    ensures
        fits == (old(out)@.len() + string_field(tag as nat, s@).len() <= MAX_FRAME_LEN),
        fits ==> final(out)@ == old(out)@ + string_field(tag as nat, s@),
{
    if s.is_empty() {
        proof {
            assert(out@ =~= old(out)@ + string_field(tag as nat, s@));
        }
        return true;
    }
    let bytes = ffi::cstring(s);
    let ghost b = encode_utf8(ffi::without_nul(s@));
    let tag_len: usize = wire::varint_size(tag);
    let len_len: usize = wire::varint_size(bytes.len() as u64);
    let room: usize = MAX_FRAME_LEN - out.len();
    if bytes.len() > room || tag_len + len_len > room - bytes.len() {
        return false;
    }
    wire::encode_varint(out, tag);
    wire::encode_varint(out, bytes.len() as u64);
    out.extend_from_slice(bytes.as_slice());
    proof {
        assert(out@ =~= old(out)@ + (wire::varint(tag as nat) + wire::varint(b.len()) + b));
    }
    true
}

/// Encodes a chat frame; an error where the nick or the text does not fit.
pub fn chat_frame_encode(kind: u32, nick: &str, body: &str) -> (r: Result<Vec<u8>, FrameError>)
    ensures
        match frame_fault(kind, nick@, body@) {
            Some(e) => r == Err::<Vec<u8>, FrameError>(e),
            None => r matches Ok(frame) && frame@ == frame_bytes(kind, nick@, body@),
        },
{
    let mut out: Vec<u8> = Vec::new();
    wire::encode_varint(&mut out, 8);
    wire::encode_varint(&mut out, kind as u64);
    proof {
        wire::lemma_varint_len_of(8);
        wire::lemma_varint_len_of(kind as u64);
        assert(out@ =~= kind_field(kind));
    }
    if !put_string(&mut out, 18, nick) {
        return Err(FrameError::NickWrite);
    }
    if !put_string(&mut out, 26, body) {
        return Err(FrameError::TextWrite);
    }
    Ok(out)
}

/// The fields of a frame as raw bytes.
#[verifier::ext_equal]
pub struct FieldsView {
    pub kind: u32,
    pub nick: Seq<u8>,
    pub body: Seq<u8>,
}

/// The lower 32 bits of a number.
pub open spec fn low32(v: nat) -> u32 {
    (v % 0x1_0000_0000) as u32
}

/// The fields that `s` adds to those read before: each one replaces an earlier one of its kind, and
/// fields of other numbers or wire types are passed over.
pub open spec fn read_fields(s: Seq<u8>, acc: FieldsView) -> Result<FieldsView, FrameError>
    decreases s.len(),
{
    if s.len() == 0 {
        Ok(acc)
    } else {
        proof {
            wire::lemma_varint_tail(s, 0);
        }
        match wire::read_varint(s) {
            None => Err(FrameError::TagRead),
            Some((tag, n)) => {
                let rest = s.skip(n as int);
                let field = low32(tag / 8);
                let kind = tag % 8;
                if field == 0 {
                    Err(FrameError::TagRead)
                } else if field == 1 && kind == wire::WIRE_VARINT {
                    proof {
                        wire::lemma_varint_tail(rest, 0);
                    }
                    match wire::read_varint(rest) {
                        None => Err(FrameError::VarintRead),
                        Some((v, m)) => read_fields(
                            rest.skip(m as int),
                            FieldsView { kind: low32(v), ..acc },
                        ),
                    }
                } else if (field == 2 || field == 3) && kind == wire::WIRE_LEN {
                    match wire::read_block(rest) {
                        None => Err(FrameError::BytesRead),
                        Some((block, after)) => read_fields(
                            after,
                            if field == 2 {
                                FieldsView { nick: block, ..acc }
                            } else {
                                FieldsView { body: block, ..acc }
                            },
                        ),
                    }
                } else {
                    proof {
                        wire::lemma_varint_tail(rest, 0);
                    }
                    match wire::after_field(rest, kind) {
                        None => Err(FrameError::Skip),
                        Some(after) => read_fields(after, acc),
                    }
                }
            },
        }
    }
}

/// The fields of a frame: kind zero and empty strings where it has none.
pub open spec fn frame_fields(frame: Seq<u8>) -> Result<FieldsView, FrameError> {
    read_fields(frame, FieldsView { kind: 0, nick: Seq::empty(), body: Seq::empty() })
}

/// The fields of a frame, in raw bytes.
pub struct Fields {
    pub kind: u32,
    pub nick: Vec<u8>,
    pub body: Vec<u8>,
}

impl View for Fields {
    type V = FieldsView;

    open spec fn view(&self) -> FieldsView {
        FieldsView { kind: self.kind, nick: self.nick@, body: self.body@ }
    }
}

/// Reads the fields of a frame in raw bytes.
pub fn decode_fields(frame: &[u8]) -> (r: Result<Fields, FrameError>)
    ensures
        match frame_fields(frame@) {
            Ok(f) => r matches Ok(fields) && fields@ == f,
            Err(e) => r == Err::<Fields, FrameError>(e),
        },
{
    let mut out = Fields { kind: 0, nick: Vec::new(), body: Vec::new() };
    let mut rest = frame;
    proof {
        assert(out@ =~= FieldsView { kind: 0, nick: Seq::empty(), body: Seq::empty() });
    }
    while rest.len() > 0
        invariant
            frame_fields(frame@) == read_fields(rest@, out@),
        decreases rest@.len(),
    {
        let n: usize = rest.len();
        let (tag, tag_len) = match wire::decode_varint(rest) {
            Some(p) => p,
            None => {
                return Err(FrameError::TagRead);
            },
        };
        let tail = slice_subrange(rest, tag_len, n);
        proof {
            assert(tail@ =~= rest@.skip(tag_len as int));
            wire::lemma_varint_tail(tail@, 0);
        }
        let field: u64 = (tag / 8) % 0x1_0000_0000;
        let kind: u64 = tag % 8;
        if field == 0 {
            return Err(FrameError::TagRead);
        }
        if field == 1 && kind == wire::WIRE_VARINT {
            match wire::decode_varint(tail) {
                Some((v, m)) => {
                    let after = slice_subrange(tail, m, tail.len());
                    proof {
                        assert(after@ =~= tail@.skip(m as int));
                    }
                    out.kind = (v % 0x1_0000_0000) as u32;
                    rest = after;
                },
                None => {
                    return Err(FrameError::VarintRead);
                },
            }
        } else if (field == 2 || field == 3) && kind == wire::WIRE_LEN {
            match wire::decode_block(tail) {
                Some((block, after)) => {
                    if field == 2 {
                        out.nick = vstd::slice::slice_to_vec(block);
                    } else {
                        out.body = vstd::slice::slice_to_vec(block);
                    }
                    rest = after;
                },
                None => {
                    return Err(FrameError::BytesRead);
                },
            }
        } else {
            match wire::skip_field(tail, kind) {
                Some(after) => {
                    rest = after;
                },
                None => {
                    return Err(FrameError::Skip);
                },
            }
        }
    }
    Ok(out)
}

/// The kind, the nick and the text that a frame holds.
pub open spec fn frame_content(frame: Seq<u8>) -> Result<
    (u32, Seq<char>, Seq<char>),
    FrameError,
> {
    match frame_fields(frame) {
        Ok(f) => Ok((f.kind, text::reading(f.nick), text::reading(f.body))),
        Err(e) => Err(e),
    }
}

/// Decodes a chat frame into its kind, nick and text.
pub fn chat_frame_decode(frame: &[u8]) -> (r: Result<(u32, String, String), FrameError>)
    ensures
        match frame_content(frame@) {
            Ok(c) => r matches Ok(t) && t.0 == c.0 && t.1@ == c.1 && t.2@ == c.2,
            Err(e) => r == Err::<(u32, String, String), FrameError>(e),
        },
{
    match decode_fields(frame) {
        Ok(f) => {
            let nick = text::lossy_text(f.nick.as_slice());
            let body = text::lossy_text(f.body.as_slice());
            Ok((f.kind, nick, body))
        },
        Err(e) => Err(e),
    }
}

/// The bytes that a frame of this length takes on the stream, with its length prefix.
pub open spec fn wire_len(len: nat) -> nat {
    wire::varint(len).len() + len
}

/// How many bytes went out for a frame of this length, unless the call that sent it failed.
pub fn send_chat_frame(frame_len: usize, rc: i32) -> (r: Result<usize, FrameError>)
    requires
        frame_len <= MAX_FRAME_LEN,
    ensures
        r == (if rc != 0 {
            Err(FrameError::Send)
        } else {
            Ok(wire_len(frame_len as nat) as usize)
        }),
        wire_len(frame_len as nat) <= usize::MAX,
{
    let prefix: usize = wire::varint_size(frame_len as u64);
    if rc != 0 {
        return Err(FrameError::Send);
    }
    Ok(prefix + frame_len)
}

/// The frame in a receive buffer and the bytes that it took, unless the call that filled the buffer
/// failed. `len` is the length that the call reported.
pub fn recv_chat_frame(buf: Vec<u8>, len: usize, rc: i32) -> (r: Result<
    (Vec<u8>, usize),
    FrameError,
>)
    requires
        len <= buf@.len(),
        buf@.len() == MAX_FRAME_LEN,
    ensures
        rc != 0 ==> r == Err::<(Vec<u8>, usize), FrameError>(FrameError::Receive),
        rc == 0 ==> (r matches Ok(p) && p.0@ == buf@.take(len as int) && p.1 == wire_len(
            len as nat,
        )),
{
    if rc != 0 {
        return Err(FrameError::Receive);
    }
    let mut frame = buf;
    frame.truncate(len);
    proof {
        assert(frame@ =~= buf@.take(len as int));
    }
    let prefix: usize = wire::varint_size(len as u64);
    Ok((frame, prefix + len))
}

/// The kinds that carry files.
pub open spec fn carries_file(kind: u32) -> bool {
    ||| kind == CHAT_TYPE_FILE_META
    ||| kind == CHAT_TYPE_FILE_CHUNK
    ||| kind == CHAT_TYPE_FILE_DONE
    ||| kind == CHAT_TYPE_FILE_ACCEPT
}

/// Whether frames of this kind carry files.
pub fn is_file_frame(kind: u32) -> (r: bool)
    ensures
        r == carries_file(kind),
{
    kind == CHAT_TYPE_FILE_META || kind == CHAT_TYPE_FILE_CHUNK || kind == CHAT_TYPE_FILE_DONE
        || kind == CHAT_TYPE_FILE_ACCEPT
}

proof fn lemma_read_string(tag: nat, s: Seq<char>, rest: Seq<u8>, acc: FieldsView)
    requires
        tag == 18 || tag == 26,
        s.len() > 0,
        string_field(tag, s).len() <= MAX_FRAME_LEN,
    ensures
        read_fields(string_field(tag, s) + rest, acc) == read_fields(
            rest,
            if tag == 18 {
                FieldsView { nick: encode_utf8(ffi::without_nul(s)), ..acc }
            } else {
                FieldsView { body: encode_utf8(ffi::without_nul(s)), ..acc }
            },
        ),
{
    let b = encode_utf8(ffi::without_nul(s));
    let all = string_field(tag, s) + rest;
    let tail = wire::varint(b.len()) + (b + rest);
    assert(all =~= wire::varint(tag) + tail);
    wire::law_varint_round_trip(tag as u64, tail);
    wire::law_varint_round_trip(b.len() as u64, b + rest);
    let n = wire::varint(tag).len();
    assert(all.skip(n as int) =~= tail);
    let m = wire::varint(b.len()).len();
    assert(tail.subrange(m as int, (m + b.len()) as int) =~= b);
    assert(tail.skip((m + b.len()) as int) =~= rest);
    wire::lemma_varint_tail(all, 0);
}

/// What is encoded decodes to the same kind, nick and text, but for the NUL characters that a C
/// string cannot hold.
pub proof fn law_frame_round_trip(kind: u32, nick: Seq<char>, body: Seq<char>)
    requires
        frame_fault(kind, nick, body) is None,
    ensures
        frame_content(frame_bytes(kind, nick, body)) == Ok::<
            (u32, Seq<char>, Seq<char>),
            FrameError,
        >((kind, ffi::without_nul(nick), ffi::without_nul(body))),
{
    let frame = frame_bytes(kind, nick, body);
    let start = FieldsView { kind: 0, nick: Seq::empty(), body: Seq::empty() };
    let nick_part = string_field(18, nick);
    let body_part = string_field(26, body);
    let tail = wire::varint(kind as nat) + (nick_part + body_part);
    assert(frame =~= wire::varint(8) + tail);
    wire::law_varint_round_trip(8, tail);
    wire::law_varint_round_trip(kind as u64, nick_part + body_part);
    wire::lemma_varint_tail(frame, 0);
    wire::lemma_varint_tail(tail, 0);
    assert(frame.skip(wire::varint(8).len() as int) =~= tail);
    assert(tail.skip(wire::varint(kind as nat).len() as int) =~= nick_part + body_part);
    let one = FieldsView { kind, ..start };
    assert(read_fields(frame, start) == read_fields(nick_part + body_part, one));
    let two = FieldsView { nick: encode_utf8(ffi::without_nul(nick)), ..one };
    if nick.len() > 0 {
        lemma_read_string(18, nick, body_part, one);
    } else {
        assert(nick_part + body_part =~= body_part);
        assert(two =~= one);
    }
    let three = FieldsView { body: encode_utf8(ffi::without_nul(body)), ..two };
    if body.len() > 0 {
        lemma_read_string(26, body, Seq::empty(), two);
        assert(body_part + Seq::<u8>::empty() =~= body_part);
    } else {
        assert(three =~= two);
    }
    assert(read_fields(Seq::<u8>::empty(), three) == Ok::<FieldsView, FrameError>(three));
    text::law_reading(ffi::without_nul(nick));
    text::law_reading(ffi::without_nul(body));
}

proof fn lemma_without_nul_len(s: Seq<char>)
    ensures
        encode_utf8(ffi::without_nul(s)).len() <= encode_utf8(s).len(),
    decreases s.len(),
{
    if s.len() > 0 {
        let d = s.drop_last();
        let last = seq![s.last()];
        lemma_without_nul_len(d);
        assert(s =~= d + last);
        text::lemma_utf8_concat(d, last);
        assert(ffi::without_nul(d).push(s.last()) =~= ffi::without_nul(d) + last);
        text::lemma_utf8_concat(ffi::without_nul(d), last);
    }
}

proof fn lemma_string_field_len(tag: nat, s: Seq<char>)
    requires
        tag < 128,
        encode_utf8(s).len() < 16384,
    ensures
        string_field(tag, s).len() <= 3 + encode_utf8(s).len(),
{
    lemma_without_nul_len(s);
    reveal_with_fuel(wire::varint, 2);
}

/// A frame always fits where the nick is shorter than its limit and the text is not longer than an
/// input line can become.
pub proof fn law_frame_fits(kind: u32, nick: Seq<char>, body: Seq<char>)
    requires
        nick.len() < MAX_NICK_LEN,
        encode_utf8(body).len() <= MAX_TEXT_LEN + 2,
    ensures
        frame_fault(kind, nick, body) is None,
{
    text::lemma_utf8_len(nick);
    lemma_string_field_len(18, nick);
    lemma_string_field_len(26, body);
    reveal_with_fuel(wire::varint, 6);
}

}
