//! The client and the server agree on the wire: what one side writes, the
//! other side reads back unchanged.
use vstd::prelude::*;
use vstd::utf8::{decode_utf8, encode_utf8, valid_utf8};
use crate::client::context::context_head_spec;
use crate::client::error::SpecError;
use crate::client::fs::{attach_fs_result_spec, put_blob_payload_bytes, put_blob_result_spec};
use crate::client::protocol::{frame_bytes, hello_payload_bytes, read_frame_spec, server_error_spec, MAX_FRAME_SIZE};
use crate::client::turn::{append_payload_bytes, append_result_spec, effective_encoding, get_last_payload_bytes};
use crate::server::protocol::{
    append_ack_bytes, attach_fs_resp_bytes, ctx_create_resp_bytes, error_bytes, hello_resp_bytes,
    parse_append_turn_spec, parse_get_last_spec, parse_hello_spec, parse_put_blob_spec,
    put_blob_resp_bytes,
};
use crate::server::wire::{le_bytes, le_value, lemma_le_roundtrip, lemma_pow256_values, lemma_le_bytes_len};

verus! {

broadcast use vstd::utf8::encode_utf8_valid_utf8, vstd::utf8::encode_utf8_decode_utf8;

/// The server reads an APPEND_TURN payload as the client wrote it: every
/// field, the payload, the idempotency key and the optional filesystem root
/// hash come back unchanged, the encoding as sent (MessagePack for 0), and
/// the uncompressed length as the payload's length.  Lengths must fit in 32
/// bits, as the payload format holds them so.
#[verifier::spinoff_prover]
#[verifier::rlimit(100)]
pub proof fn law_append_turn_roundtrip(
    context_id: u64,
    parent_turn_id: u64,
    type_id: Seq<char>,
    type_version: u32,
    encoding: u32,
    compression: u32,
    payload: Seq<u8>,
    key: Seq<u8>,
    hash: Seq<u8>,
    fs_root_hash: Option<Seq<u8>>,
)
    requires
        encode_utf8(type_id).len() < 0x1_0000_0000,
        payload.len() < 0x1_0000_0000,
        key.len() < 0x1_0000_0000,
        hash.len() == 32,
        fs_root_hash matches Some(h) ==> h.len() == 32,
    ensures
        parse_append_turn_spec(
            append_payload_bytes(context_id, parent_turn_id, type_id, type_version, encoding, compression, payload, key, hash, fs_root_hash),
            if fs_root_hash is Some { 1u16 } else { 0u16 },
        ) matches Ok(r) && {
            &&& r.context_id == context_id
            &&& r.parent_turn_id == parent_turn_id
            &&& r.declared_type_id == type_id
            &&& r.declared_type_version == type_version
            &&& r.encoding == effective_encoding(encoding)
            &&& r.compression == compression
            &&& r.uncompressed_len == payload.len()
            &&& r.content_hash == hash
            &&& r.payload_bytes == payload
            &&& r.idempotency_key == key
            &&& r.fs_root_hash == fs_root_hash
        },
{
    lemma_pow256_values();
    let t = encode_utf8(type_id);
    let f: Seq<u8> = match fs_root_hash {
        Some(h) => h,
        None => Seq::empty(),
    };
    let a0 = le_bytes(context_id as nat, 8);
    let a1 = le_bytes(parent_turn_id as nat, 8);
    let lt = le_bytes((t.len() as u32) as nat, 4);
    let v = le_bytes(type_version as nat, 4);
    let e = le_bytes(effective_encoding(encoding) as nat, 4);
    let c = le_bytes(compression as nat, 4);
    let u = le_bytes((payload.len() as u32) as nat, 4);
    let lp = le_bytes((payload.len() as u32) as nat, 4);
    let lk = le_bytes((key.len() as u32) as nat, 4);
    lemma_le_roundtrip(context_id as nat, 8);
    lemma_le_roundtrip(parent_turn_id as nat, 8);
    lemma_le_roundtrip(t.len(), 4);
    lemma_le_roundtrip(type_version as nat, 4);
    lemma_le_roundtrip(effective_encoding(encoding) as nat, 4);
    lemma_le_roundtrip(compression as nat, 4);
    lemma_le_roundtrip(payload.len(), 4);
    lemma_le_roundtrip(key.len(), 4);
    let b = append_payload_bytes(context_id, parent_turn_id, type_id, type_version, encoding, compression, payload, key, hash, fs_root_hash);
    assert(b == a0 + a1 + lt + t + v + e + c + u + hash + lp + payload + lk + key + f);
    let tl = t.len() as int;
    let o1 = 20 + tl;
    let pl = payload.len() as int;
    let o2 = o1 + 52 + pl;
    let kl = key.len() as int;
    let o3 = o2 + 4 + kl;
    assert(b.len() == o3 + f.len());
    assert(b.subrange(0, 8) =~= a0);
    assert(b.subrange(8, 16) =~= a1);
    assert(b.subrange(16, 20) =~= lt);
    assert(b.subrange(20, o1) =~= t);
    assert(b.subrange(o1, o1 + 4) =~= v);
    assert(b.subrange(o1 + 4, o1 + 8) =~= e);
    assert(b.subrange(o1 + 8, o1 + 12) =~= c);
    assert(b.subrange(o1 + 12, o1 + 16) =~= u);
    assert(b.subrange(o1 + 16, o1 + 48) =~= hash);
    assert(b.subrange(o1 + 48, o1 + 52) =~= lp);
    assert(b.subrange(o1 + 52, o2) =~= payload);
    assert(b.subrange(o2, o2 + 4) =~= lk);
    assert(b.subrange(o2 + 4, o3) =~= key);
    if fs_root_hash is Some {
        assert(b.subrange(o3, o3 + 32) =~= f);
    }
    assert(((if fs_root_hash is Some { 1u16 } else { 0u16 }) % 2 == 1) == fs_root_hash is Some);
}

/// The server reads the client's HELLO as protocol version 1 with the
/// client's tag and no metadata (a tag's UTF-8 must fit in 16 bits).
pub proof fn law_hello_roundtrip(client_tag: Seq<char>)
    requires
        encode_utf8(client_tag).len() < 0x1_0000,
    ensures
        parse_hello_spec(hello_payload_bytes(client_tag)) matches Ok(h)
            && h.protocol_version == 1 && h.client_tag == client_tag && h.client_meta_json is None,
{
    lemma_pow256_values();
    let t = encode_utf8(client_tag);
    lemma_le_roundtrip(1, 2);
    lemma_le_roundtrip(t.len(), 2);
    lemma_le_roundtrip(0, 4);
    let b = hello_payload_bytes(client_tag);
    let tl = t.len() as int;
    assert(b.subrange(0, 2) =~= le_bytes(1, 2));
    assert(b.subrange(2, 4) =~= le_bytes(t.len(), 2));
    assert(b.subrange(4, 4 + tl) =~= t);
    assert(b.subrange(4 + tl, 8 + tl) =~= le_bytes(0, 4));
}

/// A frame the client writes is read back with its header and payload,
/// when the payload is within [`MAX_FRAME_SIZE`].
pub proof fn law_frame_roundtrip(msg_type: u16, flags: u16, req_id: u64, payload: Seq<u8>)
    requires
        payload.len() <= MAX_FRAME_SIZE,
    ensures
        read_frame_spec(frame_bytes(msg_type, flags, req_id, payload)) matches Ok(f)
            && f.header.len == payload.len() && f.header.msg_type == msg_type && f.header.flags == flags
            && f.header.req_id == req_id && f.payload == payload,
{
    lemma_pow256_values();
    lemma_le_roundtrip(payload.len(), 4);
    lemma_le_roundtrip(msg_type as nat, 2);
    lemma_le_roundtrip(flags as nat, 2);
    lemma_le_roundtrip(req_id as nat, 8);
    let b = frame_bytes(msg_type, flags, req_id, payload);
    assert(b.subrange(0, 4) =~= le_bytes(payload.len(), 4));
    assert(b.subrange(4, 6) =~= le_bytes(msg_type as nat, 2));
    assert(b.subrange(6, 8) =~= le_bytes(flags as nat, 2));
    assert(b.subrange(8, 16) =~= le_bytes(req_id as nat, 8));
    assert(b.subrange(16, 16 + payload.len() as int) =~= payload);
}

/// The client reads the server's error response as a server error with the
/// same code and detail.
pub proof fn law_error_roundtrip(code: u32, detail: Seq<char>)
    requires
        encode_utf8(detail).len() < 0x1_0000_0000,
    ensures
        server_error_spec(error_bytes(code, detail)) == SpecError::Server(code, detail),
{
    lemma_pow256_values();
    let d = encode_utf8(detail);
    lemma_le_roundtrip(code as nat, 4);
    lemma_le_roundtrip(d.len(), 4);
    let b = error_bytes(code, detail);
    assert(b.subrange(0, 4) =~= le_bytes(code as nat, 4));
    assert(b.subrange(4, 8) =~= le_bytes(d.len(), 4));
    assert(b.subrange(8, 8 + d.len() as int) =~= d);
    assert(valid_utf8(d));
    assert(decode_utf8(d) == detail);
}

/// The client reads the server's context head response unchanged.
pub proof fn law_context_head_roundtrip(context_id: u64, head_turn_id: u64, head_depth: u32)
    ensures
        context_head_spec(ctx_create_resp_bytes(context_id, head_turn_id, head_depth)) matches Ok(h)
            && h.context_id == context_id && h.head_turn_id == head_turn_id && h.head_depth == head_depth,
{
    lemma_pow256_values();
    lemma_le_roundtrip(context_id as nat, 8);
    lemma_le_roundtrip(head_turn_id as nat, 8);
    lemma_le_roundtrip(head_depth as nat, 4);
    let b = ctx_create_resp_bytes(context_id, head_turn_id, head_depth);
    assert(b.subrange(0, 8) =~= le_bytes(context_id as nat, 8));
    assert(b.subrange(8, 16) =~= le_bytes(head_turn_id as nat, 8));
    assert(b.subrange(16, 20) =~= le_bytes(head_depth as nat, 4));
}

/// The client reads the server's append acknowledgement unchanged.
pub proof fn law_append_ack_roundtrip(context_id: u64, turn_id: u64, depth: u32, hash: Seq<u8>)
    requires
        hash.len() == 32,
    ensures
        append_result_spec(append_ack_bytes(context_id, turn_id, depth, hash)) matches Ok(r)
            && r.context_id == context_id && r.turn_id == turn_id && r.depth == depth && r.payload_hash == hash,
{
    lemma_pow256_values();
    lemma_le_roundtrip(context_id as nat, 8);
    lemma_le_roundtrip(turn_id as nat, 8);
    lemma_le_roundtrip(depth as nat, 4);
    let b = append_ack_bytes(context_id, turn_id, depth, hash);
    assert(b.subrange(0, 8) =~= le_bytes(context_id as nat, 8));
    assert(b.subrange(8, 16) =~= le_bytes(turn_id as nat, 8));
    assert(b.subrange(16, 20) =~= le_bytes(depth as nat, 4));
    assert(b.subrange(20, 52) =~= hash);
}

/// The client reads the server's ATTACH_FS response unchanged.
pub proof fn law_attach_fs_result_roundtrip(turn_id: u64, hash: Seq<u8>)
    requires
        hash.len() == 32,
    ensures
        attach_fs_result_spec(attach_fs_resp_bytes(turn_id, hash)) matches Ok(r)
            && r.turn_id == turn_id && r.fs_root_hash == hash,
{
    lemma_pow256_values();
    lemma_le_roundtrip(turn_id as nat, 8);
    let b = attach_fs_resp_bytes(turn_id, hash);
    assert(b.subrange(0, 8) =~= le_bytes(turn_id as nat, 8));
    assert(b.subrange(8, 40) =~= hash);
}

/// The client reads the server's PUT_BLOB response unchanged.
pub proof fn law_put_blob_result_roundtrip(hash: Seq<u8>, was_new: bool)
    requires
        hash.len() == 32,
    ensures
        put_blob_result_spec(put_blob_resp_bytes(hash, was_new)) matches Ok(r)
            && r.hash == hash && r.was_new == was_new,
{
    let b = put_blob_resp_bytes(hash, was_new);
    assert(b.subrange(0, 32) =~= hash);
}

/// The server reads the client's PUT_BLOB request as the hash and data sent.
pub proof fn law_put_blob_request_roundtrip(hash: Seq<u8>, data: Seq<u8>)
    requires
        hash.len() == 32,
        data.len() < 0x1_0000_0000,
    ensures
        parse_put_blob_spec(put_blob_payload_bytes(hash, data)) matches Ok(r) && r.hash == hash && r.data == data,
{
    lemma_pow256_values();
    lemma_le_roundtrip(data.len(), 4);
    let b = put_blob_payload_bytes(hash, data);
    assert(b.subrange(0, 32) =~= hash);
    assert(b.subrange(32, 36) =~= le_bytes(data.len(), 4));
    assert(b.subrange(36, 36 + data.len() as int) =~= data);
}

/// The server reads the client's GET_LAST request with the limit the client
/// sent (10 for 0) and 1 or 0 for whether payloads are wanted.
pub proof fn law_get_last_roundtrip(context_id: u64, limit: u32, include_payload: bool)
    ensures
        parse_get_last_spec(get_last_payload_bytes(context_id, limit, include_payload)) matches Ok(r)
            && r.context_id == context_id && r.limit == (if limit == 0 { 10 } else { limit })
            && r.include_payload == (if include_payload { 1u32 } else { 0u32 }),
{
    lemma_pow256_values();
    let l: nat = (if limit == 0 { 10 } else { limit }) as nat;
    let i: nat = if include_payload { 1 } else { 0 };
    lemma_le_roundtrip(context_id as nat, 8);
    lemma_le_roundtrip(l, 4);
    lemma_le_roundtrip(i, 4);
    let b = get_last_payload_bytes(context_id, limit, include_payload);
    assert(b.subrange(0, 8) =~= le_bytes(context_id as nat, 8));
    assert(b.subrange(8, 12) =~= le_bytes(l, 4));
    assert(b.subrange(12, 16) =~= le_bytes(i, 4));
}

} // verus!
