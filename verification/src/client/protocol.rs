//! The client's side of the binary protocol: message numbers, frames, the
//! HELLO payload and error responses.
use vstd::prelude::*;
use vstd::utf8::{decode_utf8, encode_utf8, valid_utf8};
use crate::client::error::{Error, SpecError};
use crate::server::wire::{
    copy_bytes, le_bytes, le_value, lemma_le_roundtrip, lemma_le_value_bound, lemma_pow256_values,
    push_bytes, push_le, read_le,
};
use crate::text::{chars_of, decimal, owned, push_decimal, push_str, string_from_chars, string_from_utf8_lossy, utf8_text};

verus! {

pub const MSG_HELLO: u16 = 1;
pub const MSG_CTX_CREATE: u16 = 2;
pub const MSG_CTX_FORK: u16 = 3;
pub const MSG_GET_HEAD: u16 = 4;
pub const MSG_APPEND_TURN: u16 = 5;
pub const MSG_GET_LAST: u16 = 6;
pub const MSG_GET_BLOB: u16 = 9;
pub const MSG_ATTACH_FS: u16 = 10;
pub const MSG_PUT_BLOB: u16 = 11;
pub const MSG_ERROR: u16 = 255;

pub const ENCODING_MSGPACK: u32 = 1;
pub const COMPRESSION_NONE: u32 = 0;
pub const COMPRESSION_ZSTD: u32 = 1;

/// The largest payload a frame may announce: 64 MiB.
pub const MAX_FRAME_SIZE: u32 = 67108864;

/// The header of a frame.
#[derive(Debug, Clone, Copy, PartialEq, Eq)]
pub struct FrameHeader {
    pub len: u32,
    pub msg_type: u16,
    pub flags: u16,
    pub req_id: u64,
}

/// A frame: header and payload.
#[derive(Debug, Clone, PartialEq, Eq)]
pub struct Frame {
    pub header: FrameHeader,
    pub payload: Vec<u8>,
}

pub struct SpecFrame {
    pub header: FrameHeader,
    pub payload: Seq<u8>,
}

impl View for Frame {
    type V = SpecFrame;

    open spec fn view(&self) -> SpecFrame {
        SpecFrame { header: self.header, payload: self.payload@ }
    }
}

/// The bytes of a frame: payload length cut to 32 bits (4 bytes), message
/// type (2), flags (2), request id (8), payload.
pub open spec fn frame_bytes(msg_type: u16, flags: u16, req_id: u64, payload: Seq<u8>) -> Seq<u8> {
    le_bytes((payload.len() as u32) as nat, 4) + le_bytes(msg_type as nat, 2) + le_bytes(flags as nat, 2)
        + le_bytes(req_id as nat, 8) + payload
}

/// The bytes of a frame, as [`frame_bytes`] says.
pub fn write_frame(msg_type: u16, flags: u16, req_id: u64, payload: &[u8]) -> (r: Vec<u8>)
    ensures
        r@ == frame_bytes(msg_type, flags, req_id, payload@),
{
    let mut buf: Vec<u8> = Vec::new();
    push_le(&mut buf, (payload.len() as u32) as u64, 4);
    push_le(&mut buf, msg_type as u64, 2);
    push_le(&mut buf, flags as u64, 2);
    push_le(&mut buf, req_id, 8);
    push_bytes(&mut buf, payload);
    buf
}

pub open spec fn frame_too_large(len: nat) -> Seq<char> {
    "frame size "@ + decimal(len) + " exceeds maximum "@ + decimal(MAX_FRAME_SIZE as nat)
}

/// The frame at the start of some bytes: a header shorter than 16 bytes or a
/// payload shorter than announced is truncated, and a payload longer than
/// [`MAX_FRAME_SIZE`] is refused as soon as its length is read.
pub open spec fn read_frame_spec(b: Seq<u8>) -> Result<SpecFrame, SpecError> {
    if b.len() < 4 {
        Err(SpecError::InvalidResponse("frame header truncated"@))
    } else {
        let len = le_value(b.subrange(0, 4));
        if len > MAX_FRAME_SIZE {
            Err(SpecError::InvalidResponse(frame_too_large(len)))
        } else if b.len() < 16 {
            Err(SpecError::InvalidResponse("frame header truncated"@))
        } else if b.len() < 16 + len {
            Err(SpecError::InvalidResponse("frame payload truncated"@))
        } else {
            Ok(
                SpecFrame {
                    header: FrameHeader {
                        len: len as u32,
                        msg_type: le_value(b.subrange(4, 6)) as u16,
                        flags: le_value(b.subrange(6, 8)) as u16,
                        req_id: le_value(b.subrange(8, 16)) as u64,
                    },
                    payload: b.subrange(16, 16 + len as int),
                },
            )
        }
    }
}

pub open spec fn result_view<T: View>(r: Result<T, Error>) -> Result<T::V, SpecError> {
    match r {
        Ok(v) => Ok(v@),
        Err(e) => Err(e@),
    }
}

/// Reads the frame at the start of some bytes, as [`read_frame_spec`] says.
pub fn read_frame(bytes: &[u8]) -> (r: Result<Frame, Error>)
    ensures
        result_view(r) == read_frame_spec(bytes@),
{
    proof {
        lemma_pow256_values();
    }
    if bytes.len() < 4 {
        return Err(Error::invalid_response(owned("frame header truncated")));
    }
    let len = read_le(bytes, 0, 4);
    proof {
        lemma_le_value_bound(bytes@.subrange(0, 4));
    }
    if len > MAX_FRAME_SIZE as u64 {
        let mut msg = chars_of("frame size ");
        push_decimal(&mut msg, len);
        push_str(&mut msg, " exceeds maximum ");
        push_decimal(&mut msg, MAX_FRAME_SIZE as u64);
        return Err(Error::invalid_response(string_from_chars(msg.as_slice())));
    }
    if bytes.len() < 16 {
        return Err(Error::invalid_response(owned("frame header truncated")));
    }
    if (bytes.len() as u64) < 16 + len {
        return Err(Error::invalid_response(owned("frame payload truncated")));
    }
    proof {
        lemma_le_value_bound(bytes@.subrange(4, 6));
        lemma_le_value_bound(bytes@.subrange(6, 8));
    }
    let header = FrameHeader {
        len: len as u32,
        msg_type: read_le(bytes, 4, 2) as u16,
        flags: read_le(bytes, 6, 2) as u16,
        req_id: read_le(bytes, 8, 8),
    };
    let payload = copy_bytes(bytes, 16, len as usize);
    Ok(Frame { header, payload })
}

/// The HELLO payload: protocol version 1 (2 bytes), tag length cut to 16
/// bits (2), the tag as UTF-8, and an empty metadata length (4).
pub open spec fn hello_payload_bytes(client_tag: Seq<char>) -> Seq<u8> {
    le_bytes(1, 2) + le_bytes((encode_utf8(client_tag).len() as u16) as nat, 2) + encode_utf8(client_tag) + le_bytes(0, 4)
}

/// The HELLO payload, as [`hello_payload_bytes`] says.
pub fn hello_payload(client_tag: &str) -> (r: Vec<u8>)
    ensures
        r@ == hello_payload_bytes(client_tag@),
{
    let mut payload: Vec<u8> = Vec::new();
    push_le(&mut payload, 1, 2);
    let bytes = client_tag.as_bytes();
    push_le(&mut payload, (bytes.len() as u16) as u64, 2);
    push_bytes(&mut payload, bytes);
    push_le(&mut payload, 0, 4);
    payload
}

/// The error an ERROR response reports: code (4 bytes), detail length (4),
/// detail (decoded leniently); a response shorter than 8 bytes is an unknown
/// error with code 0, and a detail cut short is empty.
pub open spec fn server_error_spec(p: Seq<u8>) -> SpecError {
    if p.len() < 8 {
        SpecError::Server(0, "unknown error"@)
    } else {
        let detail_len: int = le_value(p.subrange(4, 8)) as int;
        SpecError::Server(
            le_value(p.subrange(0, 4)) as u32,
            if p.len() >= 8 + detail_len {
                utf8_text(p.subrange(8, 8 + detail_len))
            } else {
                Seq::empty()
            },
        )
    }
}

/// The error an ERROR response reports, as [`server_error_spec`] says.
pub fn parse_server_error(payload: &[u8]) -> (e: Error)
    ensures
        e@ == server_error_spec(payload@),
{
    proof {
        lemma_pow256_values();
    }
    if payload.len() < 8 {
        return Error::server(0, owned("unknown error"));
    }
    let code = read_le(payload, 0, 4);
    let detail_len = read_le(payload, 4, 4);
    proof {
        lemma_le_value_bound(payload@.subrange(0, 4));
        lemma_le_value_bound(payload@.subrange(4, 8));
    }
    let detail = if (payload.len() as u64) >= 8 + detail_len {
        string_from_utf8_lossy(vstd::slice::slice_subrange(payload, 8, 8 + detail_len as usize))
    } else {
        String::new()
    };
    Error::server(code as u32, detail)
}

} // verus!
