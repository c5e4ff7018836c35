//! Filesystem snapshots and blobs on the wire, from the client's side:
//! ATTACH_FS and PUT_BLOB requests and their responses.
use vstd::prelude::*;
use crate::client::error::{Error, SpecError};
use crate::client::protocol::result_view;
use crate::client::turn::hash_at;
use crate::hashing::{blake3_digest, blake3_hash};
use crate::server::wire::{le_bytes, le_value, lemma_pow256_values, push_bytes, push_le, read_le};
use crate::text::{chars_of, decimal, push_decimal, push_str, string_from_chars};

verus! {

#[derive(Debug, Clone)]
pub struct AttachFsRequest {
    pub turn_id: u64,
    pub fs_root_hash: [u8; 32],
}

#[derive(Debug, Clone, PartialEq, Eq)]
pub struct AttachFsResult {
    pub turn_id: u64,
    pub fs_root_hash: [u8; 32],
}

pub struct SpecAttachFsResult {
    pub turn_id: u64,
    pub fs_root_hash: Seq<u8>,
}

impl View for AttachFsResult {
    type V = SpecAttachFsResult;

    open spec fn view(&self) -> SpecAttachFsResult {
        SpecAttachFsResult { turn_id: self.turn_id, fs_root_hash: self.fs_root_hash@ }
    }
}

#[derive(Debug, Clone)]
pub struct PutBlobRequest {
    pub data: Vec<u8>,
}

#[derive(Debug, Clone, PartialEq, Eq)]
pub struct PutBlobResult {
    pub hash: [u8; 32],
    pub was_new: bool,
}

pub struct SpecPutBlobResult {
    pub hash: Seq<u8>,
    pub was_new: bool,
}

impl View for PutBlobResult {
    type V = SpecPutBlobResult;

    open spec fn view(&self) -> SpecPutBlobResult {
        SpecPutBlobResult { hash: self.hash@, was_new: self.was_new }
    }
}

/// The ATTACH_FS payload: turn id (8 bytes) and root hash (32).
pub fn attach_fs_payload(req: &AttachFsRequest) -> (r: Vec<u8>)
    ensures
        r@ == le_bytes(req.turn_id as nat, 8) + req.fs_root_hash@,
{
    let mut payload: Vec<u8> = Vec::new();
    push_le(&mut payload, req.turn_id, 8);
    push_bytes(&mut payload, req.fs_root_hash.as_slice());
    payload
}

/// The ATTACH_FS response: turn id (8 bytes) and root hash (32); shorter than
/// 40 bytes is an invalid response.
pub open spec fn attach_fs_result_spec(p: Seq<u8>) -> Result<SpecAttachFsResult, SpecError> {
    if p.len() < 40 {
        Err(SpecError::InvalidResponse("attach fs response too short"@ + " ("@ + decimal(p.len()) + " bytes)"@))
    } else {
        Ok(SpecAttachFsResult { turn_id: le_value(p.subrange(0, 8)) as u64, fs_root_hash: p.subrange(8, 40) })
    }
}

fn too_short(what: &str, len: usize) -> (e: Error)
    ensures
        e@ == SpecError::InvalidResponse(what@ + " ("@ + decimal(len as nat) + " bytes)"@),
{
    let mut msg = chars_of(what);
    push_str(&mut msg, " (");
    push_decimal(&mut msg, len as u64);
    push_str(&mut msg, " bytes)");
    Error::invalid_response(string_from_chars(msg.as_slice()))
}

pub fn parse_attach_fs_result(payload: &[u8]) -> (r: Result<AttachFsResult, Error>)
    ensures
        result_view(r) == attach_fs_result_spec(payload@),
{
    if payload.len() < 40 {
        return Err(too_short("attach fs response too short", payload.len()));
    }
    Ok(AttachFsResult { turn_id: read_le(payload, 0, 8), fs_root_hash: hash_at(payload, 8) })
}

/// The PUT_BLOB payload for data whose hash is `hash`: the hash (32 bytes),
/// the data length cut to 32 bits (4), the data.
pub open spec fn put_blob_payload_bytes(hash: Seq<u8>, data: Seq<u8>) -> Seq<u8> {
    hash + le_bytes((data.len() as u32) as nat, 4) + data
}

/// The PUT_BLOB payload of a request whose data hashes to `hash`.
pub fn put_blob_payload_with_hash(req: &PutBlobRequest, hash: &[u8; 32]) -> (r: Vec<u8>)
    ensures
        r@ == put_blob_payload_bytes(hash@, req.data@),
{
    let mut payload: Vec<u8> = Vec::new();
    push_bytes(&mut payload, hash.as_slice());
    push_le(&mut payload, (req.data.len() as u32) as u64, 4);
    push_bytes(&mut payload, req.data.as_slice());
    payload
}

/// The PUT_BLOB payload of a request: the data is hashed with BLAKE3.
pub fn put_blob_payload(req: &PutBlobRequest) -> (r: Vec<u8>)
    ensures
        r@ == put_blob_payload_bytes(blake3_digest(req.data@), req.data@),
{
    let hash = blake3_hash(req.data.as_slice());
    put_blob_payload_with_hash(req, &hash)
}

/// The PUT_BLOB response: the hash (32 bytes) and whether the blob was new
/// (byte 32 is 1); shorter than 33 bytes is an invalid response.
pub open spec fn put_blob_result_spec(p: Seq<u8>) -> Result<SpecPutBlobResult, SpecError> {
    if p.len() < 33 {
        Err(SpecError::InvalidResponse("put blob response too short"@ + " ("@ + decimal(p.len()) + " bytes)"@))
    } else {
        Ok(SpecPutBlobResult { hash: p.subrange(0, 32), was_new: p[32] == 1 })
    }
}

pub fn parse_put_blob_result(payload: &[u8]) -> (r: Result<PutBlobResult, Error>)
    ensures
        result_view(r) == put_blob_result_spec(payload@),
{
    if payload.len() < 33 {
        return Err(too_short("put blob response too short", payload.len()));
    }
    Ok(PutBlobResult { hash: hash_at(payload, 0), was_new: payload[32] == 1 })
}

} // verus!
