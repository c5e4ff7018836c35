//! Turns on the wire, from the client's side: the APPEND_TURN and GET_LAST
//! requests and the responses to them.
use vstd::prelude::*;
use vstd::utf8::{decode_utf8, encode_utf8, valid_utf8};
use crate::client::error::{Error, IoErrorKind, IoError, SpecError};
use crate::client::protocol::{ENCODING_MSGPACK, result_view};
use crate::hashing::{blake3_digest, blake3_hash};
use crate::server::wire::{
    copy_bytes, le_bytes, le_value, lemma_le_value_bound, lemma_pow256_values, push_bytes, push_le,
    read_le,
};
use crate::text::{chars_of, decimal, owned, push_decimal, push_str, string_from_chars, string_from_utf8};

verus! {

/// A turn to append.
#[derive(Debug, Clone)]
pub struct AppendRequest {
    pub context_id: u64,
    pub parent_turn_id: u64,
    pub type_id: String,
    pub type_version: u32,
    pub payload: Vec<u8>,
    pub idempotency_key: Vec<u8>,
    pub encoding: u32,
    pub compression: u32,
}

impl AppendRequest {
    /// A request with no parent turn (the context's head), no idempotency
    /// key, MessagePack encoding and no compression.
    pub fn new(context_id: u64, type_id: String, type_version: u32, payload: Vec<u8>) -> (r: AppendRequest)
        ensures
            r.context_id == context_id,
            r.parent_turn_id == 0,
            r.type_id@ == type_id@,
            r.type_version == type_version,
            r.payload@ == payload@,
            r.idempotency_key@.len() == 0,
            r.encoding == ENCODING_MSGPACK,
            r.compression == 0,
    {
        AppendRequest {
            context_id,
            parent_turn_id: 0,
            type_id,
            type_version,
            payload,
            idempotency_key: Vec::new(),
            encoding: ENCODING_MSGPACK,
            compression: 0,
        }
    }
}

/// A stored turn, as GET_LAST returns it.
#[derive(Debug, Clone, PartialEq, Eq)]
pub struct TurnRecord {
    pub turn_id: u64,
    pub parent_id: u64,
    pub depth: u32,
    pub type_id: String,
    pub type_version: u32,
    pub encoding: u32,
    pub compression: u32,
    pub payload_hash: [u8; 32],
    pub payload: Vec<u8>,
}

pub struct SpecTurnRecord {
    pub turn_id: u64,
    pub parent_id: u64,
    pub depth: u32,
    pub type_id: Seq<char>,
    pub type_version: u32,
    pub encoding: u32,
    pub compression: u32,
    pub payload_hash: Seq<u8>,
    pub payload: Seq<u8>,
}

impl View for TurnRecord {
    type V = SpecTurnRecord;

    open spec fn view(&self) -> SpecTurnRecord {
        SpecTurnRecord {
            turn_id: self.turn_id,
            parent_id: self.parent_id,
            depth: self.depth,
            type_id: self.type_id@,
            type_version: self.type_version,
            encoding: self.encoding,
            compression: self.compression,
            payload_hash: self.payload_hash@,
            payload: self.payload@,
        }
    }
}

/// The server's answer to an append.
#[derive(Debug, Clone, PartialEq, Eq)]
pub struct AppendResult {
    pub context_id: u64,
    pub turn_id: u64,
    pub depth: u32,
    pub payload_hash: [u8; 32],
}

pub struct SpecAppendResult {
    pub context_id: u64,
    pub turn_id: u64,
    pub depth: u32,
    pub payload_hash: Seq<u8>,
}

impl View for AppendResult {
    type V = SpecAppendResult;

    open spec fn view(&self) -> SpecAppendResult {
        SpecAppendResult {
            context_id: self.context_id,
            turn_id: self.turn_id,
            depth: self.depth,
            payload_hash: self.payload_hash@,
        }
    }
}

/// Options of GET_LAST.
#[derive(Debug, Clone, Copy)]
pub struct GetLastOptions {
    pub limit: u32,
    pub include_payload: bool,
}

impl Default for GetLastOptions {
    fn default() -> (r: GetLastOptions)
        ensures
            r.limit == 10,
            !r.include_payload,
    {
        GetLastOptions { limit: 10, include_payload: false }
    }
}

// ---------------------------------------------------------------------------
// APPEND_TURN
// ---------------------------------------------------------------------------

/// The encoding sent: MessagePack when the request says 0.
pub open spec fn effective_encoding(encoding: u32) -> u32 {
    if encoding == 0 {
        ENCODING_MSGPACK
    } else {
        encoding
    }
}

/// The APPEND_TURN payload for a request whose payload hashes to `hash`:
/// context id, parent turn id, type id length and type id, type version,
/// encoding, compression, payload length (as the uncompressed length), the
/// hash, payload length and payload, key length and key, and then the
/// filesystem root hash if there is one.  Lengths are cut to 32 bits.
pub open spec fn append_payload_bytes(
    context_id: u64,
    parent_turn_id: u64,
    type_id: Seq<char>,
    type_version: u32,
    encoding: u32,
    compression: u32,
    payload: Seq<u8>,
    key: Seq<u8>,
    hash: Seq<u8>,
    fs_root_hash: Option<Seq<u8>>,
) -> Seq<u8> {
    le_bytes(context_id as nat, 8) + le_bytes(parent_turn_id as nat, 8)
        + le_bytes((encode_utf8(type_id).len() as u32) as nat, 4) + encode_utf8(type_id)
        + le_bytes(type_version as nat, 4) + le_bytes(effective_encoding(encoding) as nat, 4)
        + le_bytes(compression as nat, 4) + le_bytes((payload.len() as u32) as nat, 4) + hash
        + le_bytes((payload.len() as u32) as nat, 4) + payload + le_bytes((key.len() as u32) as nat, 4) + key
        + match fs_root_hash {
        Some(h) => h,
        None => Seq::empty(),
    }
}

pub open spec fn request_payload_bytes(req: &AppendRequest, hash: Seq<u8>, fs_root_hash: Option<Seq<u8>>) -> Seq<u8> {
    append_payload_bytes(
        req.context_id,
        req.parent_turn_id,
        req.type_id@,
        req.type_version,
        req.encoding,
        req.compression,
        req.payload@,
        req.idempotency_key@,
        hash,
        fs_root_hash,
    )
}

pub open spec fn opt_hash_view(h: Option<[u8; 32]>) -> Option<Seq<u8>> {
    match h {
        Some(x) => Some(x@),
        None => None,
    }
}

/// The APPEND_TURN payload of a request whose payload hashes to `hash`, as
/// [`append_payload_bytes`] says.
pub fn append_payload_with_hash(req: &AppendRequest, hash: &[u8; 32], fs_root_hash: Option<[u8; 32]>) -> (r: Vec<u8>)
    ensures
        r@ == request_payload_bytes(req, hash@, opt_hash_view(fs_root_hash)),
{
    let encoding = if req.encoding == 0 { ENCODING_MSGPACK } else { req.encoding };
    let mut payload: Vec<u8> = Vec::new();
    push_le(&mut payload, req.context_id, 8);
    push_le(&mut payload, req.parent_turn_id, 8);
    let type_bytes = req.type_id.as_str().as_bytes();
    push_le(&mut payload, (type_bytes.len() as u32) as u64, 4);
    push_bytes(&mut payload, type_bytes);
    push_le(&mut payload, req.type_version as u64, 4);
    push_le(&mut payload, encoding as u64, 4);
    push_le(&mut payload, req.compression as u64, 4);
    push_le(&mut payload, (req.payload.len() as u32) as u64, 4);
    push_bytes(&mut payload, hash.as_slice());
    push_le(&mut payload, (req.payload.len() as u32) as u64, 4);
    push_bytes(&mut payload, req.payload.as_slice());
    push_le(&mut payload, (req.idempotency_key.len() as u32) as u64, 4);
    push_bytes(&mut payload, req.idempotency_key.as_slice());
    match fs_root_hash {
        Some(h) => push_bytes(&mut payload, h.as_slice()),
        None => {},
    }
    assert(payload@ =~= request_payload_bytes(req, hash@, opt_hash_view(fs_root_hash)));
    payload
}

/// The APPEND_TURN payload and flags of a request: the payload is hashed
/// with BLAKE3, and flag bit 0 marks an attached filesystem root hash.
pub fn append_payload(req: &AppendRequest, fs_root_hash: Option<[u8; 32]>) -> (r: (Vec<u8>, u16))
    ensures
        r.0@ == request_payload_bytes(req, blake3_digest(req.payload@), opt_hash_view(fs_root_hash)),
        r.1 == (if fs_root_hash is Some { 1u16 } else { 0u16 }),
{
    let hash = blake3_hash(req.payload.as_slice());
    let payload = append_payload_with_hash(req, &hash, fs_root_hash);
    let flags: u16 = if fs_root_hash.is_some() { 1 } else { 0 };
    (payload, flags)
}

/// The append response: context id (8 bytes), turn id (8), depth (4), hash
/// (32); shorter than 52 bytes is an invalid response.
pub open spec fn append_result_spec(p: Seq<u8>) -> Result<SpecAppendResult, SpecError> {
    if p.len() < 52 {
        Err(SpecError::InvalidResponse("append response too short"@ + " ("@ + decimal(p.len()) + " bytes)"@))
    } else {
        Ok(
            SpecAppendResult {
                context_id: le_value(p.subrange(0, 8)) as u64,
                turn_id: le_value(p.subrange(8, 16)) as u64,
                depth: le_value(p.subrange(16, 20)) as u32,
                payload_hash: p.subrange(20, 52),
            },
        )
    }
}

fn too_short(what: &str, len: usize) -> (e: Error)
    ensures
        e@ == SpecError::InvalidResponse(what@ + " ("@ + decimal(len as nat) + " bytes)"@),
{
    let mut msg = chars_of(what);
    push_str(&mut msg, " (");
    push_decimal(&mut msg, len as u64);
    push_str(&mut msg, " bytes)");
    Error::invalid_response(string_from_chars(msg.as_slice()))
}

/// The 32 bytes at `pos`.
pub fn hash_at(p: &[u8], pos: usize) -> (r: [u8; 32])
    requires
        pos + 32 <= p.len(),
    ensures
        r@ == p@.subrange(pos as int, pos + 32),
{
    let mut h = [0u8; 32];
    let mut i: usize = 0;
    while i < 32
        invariant
            0 <= i <= 32,
            pos + 32 <= p.len(),
            forall|j: int| 0 <= j < i ==> h@[j] == p@[pos + j],
        decreases 32 - i,
    {
        h[i] = p[pos + i];
        i += 1;
    }
    assert(h@ =~= p@.subrange(pos as int, pos + 32));
    h
}

/// Reads the append response, as [`append_result_spec`] says.
pub fn parse_append_result(payload: &[u8]) -> (r: Result<AppendResult, Error>)
    ensures
        result_view(r) == append_result_spec(payload@),
{
    if payload.len() < 52 {
        let e = too_short("append response too short", payload.len());
        return Err(e);
    }
    proof {
        lemma_pow256_values();
        lemma_le_value_bound(payload@.subrange(16, 20));
    }
    Ok(AppendResult {
        context_id: read_le(payload, 0, 8),
        turn_id: read_le(payload, 8, 8),
        depth: read_le(payload, 16, 4) as u32,
        payload_hash: hash_at(payload, 20),
    })
}

// ---------------------------------------------------------------------------
// GET_LAST
// ---------------------------------------------------------------------------

/// The GET_LAST payload: context id (8 bytes), limit (4; 10 when 0), and 1 or
/// 0 for whether payloads are wanted (4).
pub open spec fn get_last_payload_bytes(context_id: u64, limit: u32, include_payload: bool) -> Seq<u8> {
    le_bytes(context_id as nat, 8) + le_bytes((if limit == 0 { 10 } else { limit }) as nat, 4)
        + le_bytes((if include_payload { 1nat } else { 0nat }), 4)
}

pub fn get_last_payload(context_id: u64, opts: GetLastOptions) -> (r: Vec<u8>)
    ensures
        r@ == get_last_payload_bytes(context_id, opts.limit, opts.include_payload),
{
    let limit = if opts.limit == 0 { 10 } else { opts.limit };
    let mut payload: Vec<u8> = Vec::new();
    push_le(&mut payload, context_id, 8);
    push_le(&mut payload, limit as u64, 4);
    push_le(&mut payload, if opts.include_payload { 1 } else { 0 }, 4);
    payload
}

/// What reading past the end of a response reports (`read_exact`).
pub open spec fn eof_error() -> SpecError {
    SpecError::Io(IoErrorKind::UnexpectedEof, "failed to fill whole buffer"@)
}

pub fn eof() -> (e: Error)
    ensures
        e@ == eof_error(),
{
    Error::Io(IoError { kind: IoErrorKind::UnexpectedEof, message: owned("failed to fill whole buffer") })
}

/// One turn record at `pos`, and the position after it: turn id (8 bytes),
/// parent id (8), depth (4), type id length (4) and type id (UTF-8), type
/// version (4), encoding (4), compression (4), uncompressed length (4,
/// ignored), hash (32), payload length (4) and payload.
pub open spec fn record_at(p: Seq<u8>, pos: int) -> Result<(SpecTurnRecord, int), SpecError> {
    if pos + 24 > p.len() {
        Err(eof_error())
    } else {
        let type_len: int = le_value(p.subrange(pos + 20, pos + 24)) as int;
        let o1 = pos + 24 + type_len;
        if o1 > p.len() {
            Err(eof_error())
        } else if !valid_utf8(p.subrange(pos + 24, o1)) {
            Err(SpecError::InvalidResponse("type_id not utf8"@))
        } else if o1 + 52 > p.len() {
            Err(eof_error())
        } else {
            let payload_len: int = le_value(p.subrange(o1 + 48, o1 + 52)) as int;
            let o2 = o1 + 52 + payload_len;
            if o2 > p.len() {
                Err(eof_error())
            } else {
                Ok(
                    (
                        SpecTurnRecord {
                            turn_id: le_value(p.subrange(pos, pos + 8)) as u64,
                            parent_id: le_value(p.subrange(pos + 8, pos + 16)) as u64,
                            depth: le_value(p.subrange(pos + 16, pos + 20)) as u32,
                            type_id: decode_utf8(p.subrange(pos + 24, o1)),
                            type_version: le_value(p.subrange(o1, o1 + 4)) as u32,
                            encoding: le_value(p.subrange(o1 + 4, o1 + 8)) as u32,
                            compression: le_value(p.subrange(o1 + 8, o1 + 12)) as u32,
                            payload_hash: p.subrange(o1 + 16, o1 + 48),
                            payload: p.subrange(o1 + 52, o2),
                        },
                        o2,
                    ),
                )
            }
        }
    }
}

/// `count` records from `pos` on.
pub open spec fn records_from(p: Seq<u8>, pos: int, count: nat) -> Result<Seq<SpecTurnRecord>, SpecError>
    decreases count,
{
    if count == 0 {
        Ok(seq![])
    } else {
        match record_at(p, pos) {
            Err(e) => Err(e),
            Ok((rec, next)) => match records_from(p, next, (count - 1) as nat) {
                Err(e) => Err(e),
                Ok(rest) => Ok(seq![rec] + rest),
            },
        }
    }
}

/// The GET_LAST response: a record count (4 bytes) and the records.
pub open spec fn turn_records_spec(p: Seq<u8>) -> Result<Seq<SpecTurnRecord>, SpecError> {
    if p.len() < 4 {
        Err(SpecError::InvalidResponse("turn records too short"@))
    } else {
        records_from(p, 4, le_value(p.subrange(0, 4)))
    }
}

pub open spec fn records_view(v: Seq<TurnRecord>) -> Seq<SpecTurnRecord> {
    v.map_values(|r: TurnRecord| r@)
}

fn parse_record(p: &[u8], pos: usize) -> (r: Result<(TurnRecord, usize), Error>)
    requires
        pos <= p.len(),
    ensures
        match r {
            Ok((rec, next)) => record_at(p@, pos as int) == Ok::<(SpecTurnRecord, int), SpecError>((rec@, next as int))
                && pos <= next <= p.len(),
            Err(e) => record_at(p@, pos as int) == Err::<(SpecTurnRecord, int), SpecError>(e@),
        },
{
    proof {
        lemma_pow256_values();
    }
    let n = p.len() as u128;
    let start = pos as u128;
    if start + 24 > n {
        return Err(eof());
    }
    let turn_id = read_le(p, pos, 8);
    let parent_id = read_le(p, pos + 8, 8);
    let depth = read_le(p, pos + 16, 4);
    let type_len = read_le(p, pos + 20, 4);
    proof {
        lemma_le_value_bound(p@.subrange(pos + 16, pos + 20));
        lemma_le_value_bound(p@.subrange(pos + 20, pos + 24));
    }
    let o1: u128 = start + 24 + type_len as u128;
    if o1 > n {
        return Err(eof());
    }
    let type_bytes = copy_bytes(p, pos + 24, type_len as usize);
    let type_id = match string_from_utf8(type_bytes) {
        Some(s) => s,
        None => {
            return Err(Error::invalid_response(owned("type_id not utf8")));
        },
    };
    if o1 + 52 > n {
        return Err(eof());
    }
    let q = o1 as usize;
    let type_version = read_le(p, q, 4);
    let encoding = read_le(p, q + 4, 4);
    let compression = read_le(p, q + 8, 4);
    let payload_hash = hash_at(p, q + 16);
    let payload_len = read_le(p, q + 48, 4);
    proof {
        lemma_le_value_bound(p@.subrange(o1 as int, o1 + 4));
        lemma_le_value_bound(p@.subrange(o1 + 4, o1 + 8));
        lemma_le_value_bound(p@.subrange(o1 + 8, o1 + 12));
        lemma_le_value_bound(p@.subrange(o1 + 48, o1 + 52));
    }
    let o2: u128 = o1 + 52 + payload_len as u128;
    if o2 > n {
        return Err(eof());
    }
    let payload = copy_bytes(p, q + 52, payload_len as usize);
    let rec = TurnRecord {
        turn_id,
        parent_id,
        depth: depth as u32,
        type_id,
        type_version: type_version as u32,
        encoding: encoding as u32,
        compression: compression as u32,
        payload_hash,
        payload,
    };
    Ok((rec, o2 as usize))
}

proof fn lemma_records_step(p: Seq<u8>, pos: int, count: nat, rec: SpecTurnRecord, next: int)
    requires
        count > 0,
        record_at(p, pos) == Ok::<(SpecTurnRecord, int), SpecError>((rec, next)),
    ensures
        records_from(p, pos, count) == match records_from(p, next, (count - 1) as nat) {
            Err(e) => Err(e),
            Ok(rest) => Ok::<Seq<SpecTurnRecord>, SpecError>(seq![rec] + rest),
        },
{
}

/// Reads the GET_LAST response, as [`turn_records_spec`] says.
pub fn parse_turn_records(payload: &[u8]) -> (r: Result<Vec<TurnRecord>, Error>)
    ensures
        match r {
            Ok(v) => turn_records_spec(payload@) == Ok::<Seq<SpecTurnRecord>, SpecError>(records_view(v@)),
            Err(e) => turn_records_spec(payload@) == Err::<Seq<SpecTurnRecord>, SpecError>(e@),
        },
{
    if payload.len() < 4 {
        return Err(Error::invalid_response(owned("turn records too short")));
    }
    let count = read_le(payload, 0, 4);
    let ghost total = turn_records_spec(payload@);
    let mut records: Vec<TurnRecord> = Vec::new();
    let mut pos: usize = 4;
    let mut k: u64 = 0;
    while k < count
        invariant
            4 <= pos <= payload.len(),
            k <= count,
            count as nat == le_value(payload@.subrange(0, 4)),
            total == turn_records_spec(payload@),
            payload@.len() >= 4,
            total == match records_from(payload@, pos as int, (count - k) as nat) {
                Err(e) => Err(e),
                Ok(rest) => Ok::<Seq<SpecTurnRecord>, SpecError>(records_view(records@) + rest),
            },
        decreases count - k,
    {
        let ghost before = records_view(records@);
        match parse_record(payload, pos) {
            Err(e) => {
                proof {
                    assert(records_from(payload@, pos as int, (count - k) as nat) == Err::<Seq<SpecTurnRecord>, SpecError>(e@));
                }
                return Err(e);
            },
            Ok((rec, next)) => {
                proof {
                    lemma_records_step(payload@, pos as int, (count - k) as nat, rec@, next as int);
                }
                records.push(rec);
                proof {
                    assert(records_view(records@) =~= before.push(rec@));
                    match records_from(payload@, next as int, (count - k - 1) as nat) {
                        Ok(rest) => {
                            assert(before + (seq![rec@] + rest) =~= before.push(rec@) + rest);
                        },
                        Err(_) => {},
                    }
                }
                pos = next;
            },
        }
        k += 1;
    }
    assert(records_view(records@) + Seq::<SpecTurnRecord>::empty() =~= records_view(records@));
    Ok(records)
}

} // verus!
