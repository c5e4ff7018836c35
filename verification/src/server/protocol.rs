//! The binary protocol: frame headers and the payloads of requests and
//! responses.
//!
//! Every integer is little-endian.  A frame is a 16-byte header (payload
//! length, message type, flags, request id) followed by the payload.  Each
//! `parse_*` function is stated over the payload bytes by a spec function of
//! the same name with `_spec`; reading past the end of a payload is the
//! error [`eof_error`], as `read_exact` reports it.
use vstd::prelude::*;
use vstd::utf8::{decode_utf8, encode_utf8, valid_utf8};
use crate::server::error::{SpecStoreError, StoreError, eof_error};
use crate::server::wire::{
    copy_bytes, le_bytes, le_value, lemma_le_roundtrip, lemma_le_value_bound, lemma_pow256_values,
    pow256, push_bytes, push_le, read_le,
};
use crate::text::{owned, string_from_utf8, decimal, push_decimal, chars_of, push_str, string_from_chars};

verus! {

/// The largest payload a frame may announce: 64 MiB.
pub const MAX_FRAME_SIZE: u32 = 67108864;

/// Message types.
#[derive(Debug, Clone, Copy, PartialEq, Eq, Structural)]
pub enum MsgType {
    Hello,
    CtxCreate,
    CtxFork,
    GetHead,
    AppendTurn,
    GetLast,
    GetBefore,
    GetRangeByDepth,
    GetBlob,
    AttachFs,
    PutBlob,
    Error,
}

/// The number of each message type on the wire.
pub open spec fn msg_type_code(t: MsgType) -> u16 {
    match t {
        MsgType::Hello => 1,
        MsgType::CtxCreate => 2,
        MsgType::CtxFork => 3,
        MsgType::GetHead => 4,
        MsgType::AppendTurn => 5,
        MsgType::GetLast => 6,
        MsgType::GetBefore => 7,
        MsgType::GetRangeByDepth => 8,
        MsgType::GetBlob => 9,
        MsgType::AttachFs => 10,
        MsgType::PutBlob => 11,
        MsgType::Error => 255,
    }
}

impl MsgType {
    /// The number of the message type on the wire.
    pub fn code(self) -> (r: u16)
        ensures
            r == msg_type_code(self),
    {
        match self {
            MsgType::Hello => 1,
            MsgType::CtxCreate => 2,
            MsgType::CtxFork => 3,
            MsgType::GetHead => 4,
            MsgType::AppendTurn => 5,
            MsgType::GetLast => 6,
            MsgType::GetBefore => 7,
            MsgType::GetRangeByDepth => 8,
            MsgType::GetBlob => 9,
            MsgType::AttachFs => 10,
            MsgType::PutBlob => 11,
            MsgType::Error => 255,
        }
    }

    /// The message type with this number, if any.
    pub fn from_code(code: u16) -> (r: Option<MsgType>)
        ensures
            match r {
                Some(t) => msg_type_code(t) == code,
                None => forall|t: MsgType| msg_type_code(t) != code,
            },
    {
        match code {
            1 => Some(MsgType::Hello),
            2 => Some(MsgType::CtxCreate),
            3 => Some(MsgType::CtxFork),
            4 => Some(MsgType::GetHead),
            5 => Some(MsgType::AppendTurn),
            6 => Some(MsgType::GetLast),
            7 => Some(MsgType::GetBefore),
            8 => Some(MsgType::GetRangeByDepth),
            9 => Some(MsgType::GetBlob),
            10 => Some(MsgType::AttachFs),
            11 => Some(MsgType::PutBlob),
            255 => Some(MsgType::Error),
            _ => None,
        }
    }
}

// ---------------------------------------------------------------------------
// Reading fields
// ---------------------------------------------------------------------------

/// The `n`-byte little-endian number at `pos`, if the payload holds it.
pub open spec fn num_at(p: Seq<u8>, pos: int, n: nat) -> Option<nat> {
    if 0 <= pos && pos + n <= p.len() {
        Some(le_value(p.subrange(pos, pos + n)))
    } else {
        None
    }
}

pub open spec fn view_result<T: View>(r: Result<T, StoreError>) -> Result<T::V, SpecStoreError> {
    match r {
        Ok(v) => Ok(v@),
        Err(e) => Err(e@),
    }
}

fn read_num(p: &[u8], pos: u64, n: usize) -> (r: Result<u64, StoreError>)
    requires
        n <= 8,
    ensures
        match r {
            Ok(v) => num_at(p@, pos as int, n as nat) == Some(v as nat),
            Err(e) => num_at(p@, pos as int, n as nat) is None && e@ == eof_error(),
        },
{
    if pos > p.len() as u64 || (n as u64) > (p.len() as u64) - pos {
        return Err(StoreError::eof());
    }
    Ok(read_le(p, pos as usize, n))
}

/// The 32 bytes at `pos`.
pub fn read_hash(p: &[u8], pos: usize) -> (r: [u8; 32])
    requires
        pos + 32 <= p.len(),
    ensures
        r@ == p@.subrange(pos as int, pos + 32),
{
    let mut h = [0u8; 32];
    let mut i: usize = 0;
    while i < 32
        invariant
            0 <= i <= 32,
            pos + 32 <= p.len(),
            forall|j: int| 0 <= j < i ==> h@[j] == p@[pos + j],
        decreases 32 - i,
    {
        h[i] = p[pos + i];
        i += 1;
    }
    assert(h@ =~= p@.subrange(pos as int, pos + 32));
    h
}

/// Reads a `u64` context id: the first eight bytes (later bytes are ignored).
pub open spec fn parse_ctx_create_spec(p: Seq<u8>) -> Result<u64, SpecStoreError> {
    match num_at(p, 0, 8) {
        Some(v) => Ok(v as u64),
        None => Err(eof_error()),
    }
}

pub open spec fn u64_result_view(r: Result<u64, StoreError>) -> Result<u64, SpecStoreError> {
    match r {
        Ok(v) => Ok(v),
        Err(e) => Err(e@),
    }
}

pub fn parse_ctx_create(payload: &[u8]) -> (r: Result<u64, StoreError>)
    ensures
        u64_result_view(r) == parse_ctx_create_spec(payload@),
{
    read_num(payload, 0, 8)
}

pub fn parse_ctx_fork(payload: &[u8]) -> (r: Result<u64, StoreError>)
    ensures
        u64_result_view(r) == parse_ctx_create_spec(payload@),
{
    parse_ctx_create(payload)
}

pub fn parse_get_head(payload: &[u8]) -> (r: Result<u64, StoreError>)
    ensures
        u64_result_view(r) == parse_ctx_create_spec(payload@),
{
    parse_ctx_create(payload)
}

// ---------------------------------------------------------------------------
// GET_LAST, GET_BLOB
// ---------------------------------------------------------------------------

#[derive(Debug, Clone, Copy, PartialEq, Eq)]
pub struct GetLastRequest {
    pub context_id: u64,
    pub limit: u32,
    pub include_payload: u32,
}

impl View for GetLastRequest {
    type V = GetLastRequest;

    open spec fn view(&self) -> GetLastRequest {
        *self
    }
}

/// Context id (8 bytes), limit (4), include-payload flag (4).
pub open spec fn parse_get_last_spec(p: Seq<u8>) -> Result<GetLastRequest, SpecStoreError> {
    if p.len() < 16 {
        Err(eof_error())
    } else {
        Ok(
            GetLastRequest {
                context_id: le_value(p.subrange(0, 8)) as u64,
                limit: le_value(p.subrange(8, 12)) as u32,
                include_payload: le_value(p.subrange(12, 16)) as u32,
            },
        )
    }
}

pub fn parse_get_last(payload: &[u8]) -> (r: Result<GetLastRequest, StoreError>)
    ensures
        view_result(r) == parse_get_last_spec(payload@),
{
    let context_id = match read_num(payload, 0, 8) {
        Ok(v) => v,
        Err(e) => {
            return Err(e);
        },
    };
    let limit = match read_num(payload, 8, 4) {
        Ok(v) => v,
        Err(e) => {
            return Err(e);
        },
    };
    let include_payload = match read_num(payload, 12, 4) {
        Ok(v) => v,
        Err(e) => {
            return Err(e);
        },
    };
    proof {
        lemma_pow256_values();
        lemma_le_value_bound(payload@.subrange(8, 12));
        lemma_le_value_bound(payload@.subrange(12, 16));
    }
    Ok(GetLastRequest { context_id, limit: limit as u32, include_payload: include_payload as u32 })
}

/// A blob hash: exactly 32 bytes.
pub open spec fn parse_get_blob_spec(p: Seq<u8>) -> Result<Seq<u8>, SpecStoreError> {
    if p.len() != 32 {
        Err(SpecStoreError::InvalidInput("invalid blob hash length"@))
    } else {
        Ok(p)
    }
}

pub fn parse_get_blob(payload: &[u8]) -> (r: Result<[u8; 32], StoreError>)
    ensures
        match r {
            Ok(h) => parse_get_blob_spec(payload@) == Ok::<Seq<u8>, SpecStoreError>(h@),
            Err(e) => parse_get_blob_spec(payload@) == Err::<Seq<u8>, SpecStoreError>(e@),
        },
{
    if payload.len() != 32 {
        return Err(StoreError::InvalidInput(owned("invalid blob hash length")));
    }
    let h = read_hash(payload, 0);
    assert(payload@.subrange(0, 32) =~= payload@);
    Ok(h)
}

// ---------------------------------------------------------------------------
// APPEND_TURN
// ---------------------------------------------------------------------------

#[derive(Debug, Clone)]
pub struct AppendTurnRequest {
    pub context_id: u64,
    pub parent_turn_id: u64,
    pub declared_type_id: String,
    pub declared_type_version: u32,
    pub encoding: u32,
    pub compression: u32,
    pub uncompressed_len: u32,
    pub content_hash: [u8; 32],
    pub payload_bytes: Vec<u8>,
    pub idempotency_key: Vec<u8>,
    /// The filesystem snapshot to attach, present when flag bit 0 is set.
    pub fs_root_hash: Option<[u8; 32]>,
}

pub struct SpecAppendTurn {
    pub context_id: u64,
    pub parent_turn_id: u64,
    pub declared_type_id: Seq<char>,
    pub declared_type_version: u32,
    pub encoding: u32,
    pub compression: u32,
    pub uncompressed_len: u32,
    pub content_hash: Seq<u8>,
    pub payload_bytes: Seq<u8>,
    pub idempotency_key: Seq<u8>,
    pub fs_root_hash: Option<Seq<u8>>,
}

impl View for AppendTurnRequest {
    type V = SpecAppendTurn;

    open spec fn view(&self) -> SpecAppendTurn {
        SpecAppendTurn {
            context_id: self.context_id,
            parent_turn_id: self.parent_turn_id,
            declared_type_id: self.declared_type_id@,
            declared_type_version: self.declared_type_version,
            encoding: self.encoding,
            compression: self.compression,
            uncompressed_len: self.uncompressed_len,
            content_hash: self.content_hash@,
            payload_bytes: self.payload_bytes@,
            idempotency_key: self.idempotency_key@,
            fs_root_hash: match self.fs_root_hash {
                Some(h) => Some(h@),
                None => None,
            },
        }
    }
}

/// The layout of an append request: context id (8), parent turn id (8),
/// type id length (4) and type id (UTF-8), type version (4), encoding (4),
/// compression (4), uncompressed length (4), content hash (32), payload
/// length (4) and payload, idempotency key length (4) and key, and, when flag
/// bit 0 is set, a filesystem root hash (32).
pub open spec fn parse_append_turn_spec(p: Seq<u8>, flags: u16) -> Result<SpecAppendTurn, SpecStoreError> {
    if p.len() < 20 {
        Err(eof_error())
    } else {
        let type_len = le_value(p.subrange(16, 20));
        let o1: int = 20 + type_len as int;
        if p.len() < o1 {
            Err(eof_error())
        } else if !valid_utf8(p.subrange(20, o1)) {
            Err(SpecStoreError::InvalidInput("declared_type_id not utf8"@))
        } else if p.len() < o1 + 52 {
            Err(eof_error())
        } else {
            let payload_len = le_value(p.subrange(o1 + 48, o1 + 52));
            let o2: int = o1 + 52 + payload_len as int;
            if p.len() < o2 + 4 {
                Err(eof_error())
            } else {
                let key_len = le_value(p.subrange(o2, o2 + 4));
                let o3: int = o2 + 4 + key_len as int;
                let has_fs = flags % 2 == 1;
                if p.len() < o3 || (has_fs && p.len() < o3 + 32) {
                    Err(eof_error())
                } else {
                    Ok(
                        SpecAppendTurn {
                            context_id: le_value(p.subrange(0, 8)) as u64,
                            parent_turn_id: le_value(p.subrange(8, 16)) as u64,
                            declared_type_id: decode_utf8(p.subrange(20, o1)),
                            declared_type_version: le_value(p.subrange(o1, o1 + 4)) as u32,
                            encoding: le_value(p.subrange(o1 + 4, o1 + 8)) as u32,
                            compression: le_value(p.subrange(o1 + 8, o1 + 12)) as u32,
                            uncompressed_len: le_value(p.subrange(o1 + 12, o1 + 16)) as u32,
                            content_hash: p.subrange(o1 + 16, o1 + 48),
                            payload_bytes: p.subrange(o1 + 52, o2),
                            idempotency_key: p.subrange(o2 + 4, o3),
                            fs_root_hash: if has_fs {
                                Some(p.subrange(o3, o3 + 32))
                            } else {
                                None
                            },
                        },
                    )
                }
            }
        }
    }
}

pub fn parse_append_turn(payload: &[u8], flags: u16) -> (r: Result<AppendTurnRequest, StoreError>)
    ensures
        view_result(r) == parse_append_turn_spec(payload@, flags),
{
    proof {
        lemma_pow256_values();
    }
    let n = payload.len() as u64;
    if n < 20 {
        return Err(StoreError::eof());
    }
    let context_id = read_le(payload, 0, 8);
    let parent_turn_id = read_le(payload, 8, 8);
    let type_len = read_le(payload, 16, 4);
    proof {
        lemma_le_value_bound(payload@.subrange(16, 20));
    }
    let o1: u64 = 20 + type_len;
    if n < o1 {
        return Err(StoreError::eof());
    }
    let type_bytes = copy_bytes(payload, 20, type_len as usize);
    let declared_type_id = match string_from_utf8(type_bytes) {
        Some(s) => s,
        None => {
            return Err(StoreError::InvalidInput(owned("declared_type_id not utf8")));
        },
    };
    if n < o1 + 52 {
        return Err(StoreError::eof());
    }
    let p1 = o1 as usize;
    let declared_type_version = read_le(payload, p1, 4);
    let encoding = read_le(payload, p1 + 4, 4);
    let compression = read_le(payload, p1 + 8, 4);
    let uncompressed_len = read_le(payload, p1 + 12, 4);
    let content_hash = read_hash(payload, p1 + 16);
    let payload_len = read_le(payload, p1 + 48, 4);
    proof {
        lemma_le_value_bound(payload@.subrange(o1 as int, o1 + 4));
        lemma_le_value_bound(payload@.subrange(o1 + 4, o1 + 8));
        lemma_le_value_bound(payload@.subrange(o1 + 8, o1 + 12));
        lemma_le_value_bound(payload@.subrange(o1 + 12, o1 + 16));
        lemma_le_value_bound(payload@.subrange(o1 + 48, o1 + 52));
    }
    let o2: u64 = o1 + 52 + payload_len;
    if n < o2 + 4 {
        return Err(StoreError::eof());
    }
    let payload_bytes = copy_bytes(payload, p1 + 52, payload_len as usize);
    let key_len = read_le(payload, o2 as usize, 4);
    proof {
        lemma_le_value_bound(payload@.subrange(o2 as int, o2 + 4));
    }
    let o3: u64 = o2 + 4 + key_len;
    let has_fs = flags & 1 != 0;
    assert((flags & 1 != 0) == (flags % 2 == 1)) by (bit_vector);
    if n < o3 || (has_fs && n < o3 + 32) {
        return Err(StoreError::eof());
    }
    let idempotency_key = copy_bytes(payload, (o2 + 4) as usize, key_len as usize);
    let fs_root_hash = if has_fs {
        Some(read_hash(payload, o3 as usize))
    } else {
        None
    };
    Ok(AppendTurnRequest {
        context_id,
        parent_turn_id,
        declared_type_id,
        declared_type_version: declared_type_version as u32,
        encoding: encoding as u32,
        compression: compression as u32,
        uncompressed_len: uncompressed_len as u32,
        content_hash,
        payload_bytes,
        idempotency_key,
        fs_root_hash,
    })
}

// ---------------------------------------------------------------------------
// ATTACH_FS, PUT_BLOB
// ---------------------------------------------------------------------------

#[derive(Debug, Clone)]
pub struct AttachFsRequest {
    pub turn_id: u64,
    pub fs_root_hash: [u8; 32],
}

pub struct SpecAttachFs {
    pub turn_id: u64,
    pub fs_root_hash: Seq<u8>,
}

impl View for AttachFsRequest {
    type V = SpecAttachFs;

    open spec fn view(&self) -> SpecAttachFs {
        SpecAttachFs { turn_id: self.turn_id, fs_root_hash: self.fs_root_hash@ }
    }
}

/// Turn id (8 bytes) and filesystem root hash (32).
pub open spec fn parse_attach_fs_spec(p: Seq<u8>) -> Result<SpecAttachFs, SpecStoreError> {
    if p.len() < 40 {
        Err(SpecStoreError::InvalidInput("attach_fs payload too short"@))
    } else {
        Ok(SpecAttachFs { turn_id: le_value(p.subrange(0, 8)) as u64, fs_root_hash: p.subrange(8, 40) })
    }
}

pub fn parse_attach_fs(payload: &[u8]) -> (r: Result<AttachFsRequest, StoreError>)
    ensures
        view_result(r) == parse_attach_fs_spec(payload@),
{
    if payload.len() < 40 {
        return Err(StoreError::InvalidInput(owned("attach_fs payload too short")));
    }
    let turn_id = read_le(payload, 0, 8);
    let fs_root_hash = read_hash(payload, 8);
    Ok(AttachFsRequest { turn_id, fs_root_hash })
}

/// The response to ATTACH_FS: turn id (8 bytes) and root hash (32).
pub open spec fn attach_fs_resp_bytes(turn_id: u64, hash: Seq<u8>) -> Seq<u8> {
    le_bytes(turn_id as nat, 8) + hash
}

pub fn encode_attach_fs_resp(turn_id: u64, fs_root_hash: &[u8; 32]) -> (r: Result<Vec<u8>, StoreError>)
    ensures
        r matches Ok(b) && b@ == attach_fs_resp_bytes(turn_id, fs_root_hash@),
{
    let mut buf: Vec<u8> = Vec::new();
    push_le(&mut buf, turn_id, 8);
    push_bytes(&mut buf, fs_root_hash.as_slice());
    Ok(buf)
}

#[derive(Debug, Clone)]
pub struct PutBlobRequest {
    pub hash: [u8; 32],
    pub data: Vec<u8>,
}

pub struct SpecPutBlob {
    pub hash: Seq<u8>,
    pub data: Seq<u8>,
}

impl View for PutBlobRequest {
    type V = SpecPutBlob;

    open spec fn view(&self) -> SpecPutBlob {
        SpecPutBlob { hash: self.hash@, data: self.data@ }
    }
}

/// Hash (32 bytes), data length (4) and data.
pub open spec fn parse_put_blob_spec(p: Seq<u8>) -> Result<SpecPutBlob, SpecStoreError> {
    if p.len() < 36 {
        Err(SpecStoreError::InvalidInput("put_blob payload too short"@))
    } else {
        let len: int = le_value(p.subrange(32, 36)) as int;
        if p.len() < 36 + len {
            Err(eof_error())
        } else {
            Ok(SpecPutBlob { hash: p.subrange(0, 32), data: p.subrange(36, 36 + len) })
        }
    }
}

pub fn parse_put_blob(payload: &[u8]) -> (r: Result<PutBlobRequest, StoreError>)
    ensures
        view_result(r) == parse_put_blob_spec(payload@),
{
    if payload.len() < 36 {
        return Err(StoreError::InvalidInput(owned("put_blob payload too short")));
    }
    proof {
        lemma_pow256_values();
        lemma_le_value_bound(payload@.subrange(32, 36));
    }
    let hash = read_hash(payload, 0);
    let len = read_le(payload, 32, 4);
    if (payload.len() as u64) < 36 + len {
        return Err(StoreError::eof());
    }
    let data = copy_bytes(payload, 36, len as usize);
    Ok(PutBlobRequest { hash, data })
}

/// The response to PUT_BLOB: the hash (32 bytes) and 1 when the blob was new,
/// 0 when it was already stored.
pub open spec fn put_blob_resp_bytes(hash: Seq<u8>, was_new: bool) -> Seq<u8> {
    hash.push(if was_new { 1u8 } else { 0u8 })
}

pub fn encode_put_blob_resp(hash: &[u8; 32], was_new: bool) -> (r: Result<Vec<u8>, StoreError>)
    ensures
        r matches Ok(b) && b@ == put_blob_resp_bytes(hash@, was_new),
{
    let mut buf: Vec<u8> = Vec::new();
    push_bytes(&mut buf, hash.as_slice());
    buf.push(if was_new { 1 } else { 0 });
    Ok(buf)
}

// ---------------------------------------------------------------------------
// Other responses
// ---------------------------------------------------------------------------

/// The response to CTX_CREATE / CTX_FORK / GET_HEAD: context id (8 bytes),
/// head turn id (8), head depth (4).
pub open spec fn ctx_create_resp_bytes(context_id: u64, head_turn_id: u64, head_depth: u32) -> Seq<u8> {
    le_bytes(context_id as nat, 8) + le_bytes(head_turn_id as nat, 8) + le_bytes(head_depth as nat, 4)
}

pub fn encode_ctx_create_resp(context_id: u64, head_turn_id: u64, head_depth: u32) -> (r: Result<Vec<u8>, StoreError>)
    ensures
        r matches Ok(b) && b@ == ctx_create_resp_bytes(context_id, head_turn_id, head_depth),
{
    let mut buf: Vec<u8> = Vec::new();
    push_le(&mut buf, context_id, 8);
    push_le(&mut buf, head_turn_id, 8);
    push_le(&mut buf, head_depth as u64, 4);
    Ok(buf)
}

/// The response to APPEND_TURN: context id (8 bytes), new turn id (8), new
/// depth (4), content hash (32).
pub open spec fn append_ack_bytes(context_id: u64, new_turn_id: u64, new_depth: u32, hash: Seq<u8>) -> Seq<u8> {
    le_bytes(context_id as nat, 8) + le_bytes(new_turn_id as nat, 8) + le_bytes(new_depth as nat, 4) + hash
}

pub fn encode_append_ack(context_id: u64, new_turn_id: u64, new_depth: u32, hash: &[u8; 32]) -> (r: Result<Vec<u8>, StoreError>)
    ensures
        r matches Ok(b) && b@ == append_ack_bytes(context_id, new_turn_id, new_depth, hash@),
{
    let mut buf: Vec<u8> = Vec::new();
    push_le(&mut buf, context_id, 8);
    push_le(&mut buf, new_turn_id, 8);
    push_le(&mut buf, new_depth as u64, 4);
    push_bytes(&mut buf, hash.as_slice());
    Ok(buf)
}

/// An error response: code (4 bytes), detail length in bytes cut to 32 bits
/// (4), and the detail as UTF-8.
pub open spec fn error_bytes(code: u32, detail: Seq<char>) -> Seq<u8> {
    le_bytes(code as nat, 4) + le_bytes((encode_utf8(detail).len() as u32) as nat, 4) + encode_utf8(detail)
}

pub fn encode_error(code: u32, detail: &str) -> (r: Result<Vec<u8>, StoreError>)
    ensures
        r matches Ok(b) && b@ == error_bytes(code, detail@),
{
    let mut buf: Vec<u8> = Vec::new();
    push_le(&mut buf, code as u64, 4);
    let bytes = detail.as_bytes();
    push_le(&mut buf, (bytes.len() as u32) as u64, 4);
    push_bytes(&mut buf, bytes);
    Ok(buf)
}

/// The response to HELLO: session id (8 bytes) and protocol version (2).
pub open spec fn hello_resp_bytes(session_id: u64, protocol_version: u16) -> Seq<u8> {
    le_bytes(session_id as nat, 8) + le_bytes(protocol_version as nat, 2)
}

pub fn encode_hello_resp(session_id: u64, protocol_version: u16) -> (r: Result<Vec<u8>, StoreError>)
    ensures
        r matches Ok(b) && b@ == hello_resp_bytes(session_id, protocol_version),
{
    let mut buf: Vec<u8> = Vec::new();
    push_le(&mut buf, session_id, 8);
    push_le(&mut buf, protocol_version as u64, 2);
    Ok(buf)
}

// ---------------------------------------------------------------------------
// HELLO
// ---------------------------------------------------------------------------

/// A HELLO request: protocol version, client tag and optional client
/// metadata (JSON text).
#[derive(Debug, Clone)]
pub struct HelloRequest {
    pub protocol_version: u16,
    pub client_tag: String,
    pub client_meta_json: Option<String>,
}

pub struct SpecHello {
    pub protocol_version: u16,
    pub client_tag: Seq<char>,
    pub client_meta_json: Option<Seq<char>>,
}

impl View for HelloRequest {
    type V = SpecHello;

    open spec fn view(&self) -> SpecHello {
        SpecHello {
            protocol_version: self.protocol_version,
            client_tag: self.client_tag@,
            client_meta_json: match self.client_meta_json {
                Some(m) => Some(m@),
                None => None,
            },
        }
    }
}

impl Default for HelloRequest {
    fn default() -> (r: HelloRequest)
        ensures
            r@ == (SpecHello { protocol_version: 0, client_tag: Seq::empty(), client_meta_json: None }),
    {
        HelloRequest { protocol_version: 0, client_tag: String::new(), client_meta_json: None }
    }
}

/// An empty payload is an old client's HELLO (all defaults).  Otherwise:
/// protocol version (2 bytes), tag length (2) and tag (UTF-8), metadata
/// length (4) and metadata (UTF-8), absent when its length is zero.
pub open spec fn parse_hello_spec(p: Seq<u8>) -> Result<SpecHello, SpecStoreError> {
    if p.len() == 0 {
        Ok(SpecHello { protocol_version: 0, client_tag: Seq::empty(), client_meta_json: None })
    } else if p.len() < 4 {
        Err(SpecStoreError::InvalidInput("hello payload too short"@))
    } else {
        let tag_len: int = le_value(p.subrange(2, 4)) as int;
        if p.len() < 4 + tag_len + 4 {
            Err(SpecStoreError::InvalidInput("hello payload truncated"@))
        } else if !valid_utf8(p.subrange(4, 4 + tag_len)) {
            Err(SpecStoreError::InvalidInput("client_tag not utf8"@))
        } else {
            let meta_len: int = le_value(p.subrange(4 + tag_len, 8 + tag_len)) as int;
            let version = le_value(p.subrange(0, 2)) as u16;
            let tag = decode_utf8(p.subrange(4, 4 + tag_len));
            if meta_len == 0 {
                Ok(SpecHello { protocol_version: version, client_tag: tag, client_meta_json: None })
            } else if p.len() < 8 + tag_len + meta_len {
                Err(eof_error())
            } else if !valid_utf8(p.subrange(8 + tag_len, 8 + tag_len + meta_len)) {
                Err(SpecStoreError::InvalidInput("client_meta_json not utf8"@))
            } else {
                Ok(
                    SpecHello {
                        protocol_version: version,
                        client_tag: tag,
                        client_meta_json: Some(decode_utf8(p.subrange(8 + tag_len, 8 + tag_len + meta_len))),
                    },
                )
            }
        }
    }
}

pub fn parse_hello(payload: &[u8]) -> (r: Result<HelloRequest, StoreError>)
    ensures
        view_result(r) == parse_hello_spec(payload@),
{
    proof {
        lemma_pow256_values();
    }
    let n = payload.len() as u64;
    if n == 0 {
        return Ok(HelloRequest::default());
    }
    if n < 4 {
        return Err(StoreError::InvalidInput(owned("hello payload too short")));
    }
    let protocol_version = read_le(payload, 0, 2);
    let tag_len = read_le(payload, 2, 2);
    proof {
        lemma_le_value_bound(payload@.subrange(0, 2));
        lemma_le_value_bound(payload@.subrange(2, 4));
    }
    if n < 4 + tag_len + 4 {
        return Err(StoreError::InvalidInput(owned("hello payload truncated")));
    }
    let tag_bytes = copy_bytes(payload, 4, tag_len as usize);
    let client_tag = match string_from_utf8(tag_bytes) {
        Some(s) => s,
        None => {
            return Err(StoreError::InvalidInput(owned("client_tag not utf8")));
        },
    };
    let meta_len = read_le(payload, (4 + tag_len) as usize, 4);
    proof {
        lemma_le_value_bound(payload@.subrange(4 + tag_len, 8 + tag_len));
    }
    if meta_len == 0 {
        return Ok(HelloRequest { protocol_version: protocol_version as u16, client_tag, client_meta_json: None });
    }
    if n < 8 + tag_len + meta_len {
        return Err(StoreError::eof());
    }
    let meta_bytes = copy_bytes(payload, (8 + tag_len) as usize, meta_len as usize);
    let meta = match string_from_utf8(meta_bytes) {
        Some(s) => s,
        None => {
            return Err(StoreError::InvalidInput(owned("client_meta_json not utf8")));
        },
    };
    Ok(HelloRequest { protocol_version: protocol_version as u16, client_tag, client_meta_json: Some(meta) })
}

// ---------------------------------------------------------------------------
// Frames
// ---------------------------------------------------------------------------

/// The header of a frame.
#[derive(Debug, Clone, Copy, PartialEq, Eq)]
pub struct FrameHeader {
    pub len: u32,
    pub msg_type: u16,
    pub flags: u16,
    pub req_id: u64,
}

/// The 16 bytes of a frame header: payload length (4), message type (2),
/// flags (2), request id (8).
pub open spec fn frame_header_bytes(h: FrameHeader) -> Seq<u8> {
    le_bytes(h.len as nat, 4) + le_bytes(h.msg_type as nat, 2) + le_bytes(h.flags as nat, 2) + le_bytes(h.req_id as nat, 8)
}

/// The header the first 16 bytes hold.
pub open spec fn frame_header_of(b: Seq<u8>) -> FrameHeader {
    FrameHeader {
        len: le_value(b.subrange(0, 4)) as u32,
        msg_type: le_value(b.subrange(4, 6)) as u16,
        flags: le_value(b.subrange(6, 8)) as u16,
        req_id: le_value(b.subrange(8, 16)) as u64,
    }
}

/// Reads a frame header from its 16 bytes.
pub fn decode_frame_header(bytes: &[u8; 16]) -> (h: FrameHeader)
    ensures
        h == frame_header_of(bytes@),
{
    proof {
        lemma_pow256_values();
        lemma_le_value_bound(bytes@.subrange(0, 4));
        lemma_le_value_bound(bytes@.subrange(4, 6));
        lemma_le_value_bound(bytes@.subrange(6, 8));
    }
    let b = bytes.as_slice();
    FrameHeader {
        len: read_le(b, 0, 4) as u32,
        msg_type: read_le(b, 4, 2) as u16,
        flags: read_le(b, 6, 2) as u16,
        req_id: read_le(b, 8, 8),
    }
}

/// The error for a frame that announces more than [`MAX_FRAME_SIZE`] bytes.
pub open spec fn frame_size_error(len: u32) -> Option<SpecStoreError> {
    if len > MAX_FRAME_SIZE {
        Some(SpecStoreError::InvalidInput("frame size "@ + decimal(len as nat) + " exceeds maximum "@ + decimal(MAX_FRAME_SIZE as nat)))
    } else {
        None
    }
}

/// Rejects a frame whose payload length exceeds [`MAX_FRAME_SIZE`].
pub fn check_frame_size(len: u32) -> (r: Result<(), StoreError>)
    ensures
        match r {
            Ok(_) => frame_size_error(len) is None,
            Err(e) => frame_size_error(len) == Some(e@),
        },
{
    if len > MAX_FRAME_SIZE {
        let mut msg = chars_of("frame size ");
        push_decimal(&mut msg, len as u64);
        push_str(&mut msg, " exceeds maximum ");
        push_decimal(&mut msg, MAX_FRAME_SIZE as u64);
        return Err(StoreError::InvalidInput(string_from_chars(msg.as_slice())));
    }
    Ok(())
}

/// A frame's bytes: the header, whose length field is the payload's length
/// cut to 32 bits, then the payload.
pub open spec fn frame_bytes(msg_type: u16, flags: u16, req_id: u64, payload: Seq<u8>) -> Seq<u8> {
    frame_header_bytes(FrameHeader { len: payload.len() as u32, msg_type, flags, req_id }) + payload
}

/// The bytes of a frame, as [`frame_bytes`] says.
pub fn encode_frame(msg_type: u16, flags: u16, req_id: u64, payload: &[u8]) -> (r: Vec<u8>)
    ensures
        r@ == frame_bytes(msg_type, flags, req_id, payload@),
{
    let mut buf: Vec<u8> = Vec::new();
    push_le(&mut buf, (payload.len() as u32) as u64, 4);
    push_le(&mut buf, msg_type as u64, 2);
    push_le(&mut buf, flags as u64, 2);
    push_le(&mut buf, req_id, 8);
    push_bytes(&mut buf, payload);
    buf
}

// ---------------------------------------------------------------------------
// Laws of the wire format
// ---------------------------------------------------------------------------

/// Reading back the header of an encoded frame gives the header written.
pub proof fn law_frame_header_roundtrip(h: FrameHeader)
    ensures
        frame_header_bytes(h).len() == 16,
        frame_header_of(frame_header_bytes(h)) == h,
{
    lemma_pow256_values();
    lemma_le_roundtrip(h.len as nat, 4);
    lemma_le_roundtrip(h.msg_type as nat, 2);
    lemma_le_roundtrip(h.flags as nat, 2);
    lemma_le_roundtrip(h.req_id as nat, 8);
    let b = frame_header_bytes(h);
    assert(b.subrange(0, 4) =~= le_bytes(h.len as nat, 4));
    assert(b.subrange(4, 6) =~= le_bytes(h.msg_type as nat, 2));
    assert(b.subrange(6, 8) =~= le_bytes(h.flags as nat, 2));
    assert(b.subrange(8, 16) =~= le_bytes(h.req_id as nat, 8));
}

/// A context id written in eight bytes is read back by CTX_CREATE,
/// CTX_FORK and GET_HEAD, whatever follows it.
pub proof fn law_context_id_roundtrip(id: u64, rest: Seq<u8>)
    ensures
        parse_ctx_create_spec(le_bytes(id as nat, 8) + rest) == Ok::<u64, SpecStoreError>(id),
{
    lemma_pow256_values();
    lemma_le_roundtrip(id as nat, 8);
    assert((le_bytes(id as nat, 8) + rest).subrange(0, 8) =~= le_bytes(id as nat, 8));
}

/// The response to ATTACH_FS has the layout of its request: parsing it as
/// a request gives back the turn id and hash.
pub proof fn law_attach_fs_roundtrip(turn_id: u64, hash: Seq<u8>)
    requires
        hash.len() == 32,
    ensures
        parse_attach_fs_spec(attach_fs_resp_bytes(turn_id, hash)) matches Ok(r)
            && r.turn_id == turn_id && r.fs_root_hash == hash,
{
    lemma_pow256_values();
    lemma_le_roundtrip(turn_id as nat, 8);
    let b = attach_fs_resp_bytes(turn_id, hash);
    assert(b.subrange(0, 8) =~= le_bytes(turn_id as nat, 8));
    assert(b.subrange(8, 40) =~= hash);
}

/// A PUT_BLOB request of a hash and data whose length fits in 32 bits is
/// read back as that hash and data.
pub proof fn law_put_blob_roundtrip(hash: Seq<u8>, data: Seq<u8>)
    requires
        hash.len() == 32,
        data.len() < 0x1_0000_0000,
    ensures
        parse_put_blob_spec(hash + le_bytes(data.len(), 4) + data) matches Ok(r) && r.hash == hash && r.data == data,
{
    lemma_pow256_values();
    lemma_le_roundtrip(data.len(), 4);
    let b = hash + le_bytes(data.len(), 4) + data;
    assert(b.subrange(0, 32) =~= hash);
    assert(b.subrange(32, 36) =~= le_bytes(data.len(), 4));
    assert(b.subrange(36, 36 + data.len() as int) =~= data);
}

} // verus!
