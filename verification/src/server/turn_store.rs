//! The turn store: every turn ever appended, the head of every context, and
//! the declared type of every turn.
//!
//! On disk it is four append-only files: the turn log (fixed 80-byte records
//! with a CRC), the turn index (turn id and log offset), the metadata file
//! (declared type, encoding, compression) and the head table (36-byte
//! records with a CRC; a later record of a context replaces an earlier one).
//! This module lays out and reads those records and keeps the store in
//! memory; the program reads and writes the files.
//!
//! A context is a chain of turns: each turn names its parent, and the
//! context's head names its last turn.  Appending a turn to a context makes
//! it the head, one deeper than its parent; reading the last turns of a
//! context walks the chain back from the head.
use vstd::prelude::*;
use std::collections::HashMap;
use crate::server::blob_store::{crc32_of, crc32_of_parts};
use crate::server::error::{SpecStoreError, StoreError};
use crate::server::protocol::read_hash;
use crate::server::wire::{
    le_bytes, le_value, lemma_le_bytes_len, lemma_le_roundtrip, lemma_le_value_bound, lemma_pow256_values, pow256,
    push_bytes, push_le, read_le,
};
use crate::text::owned;
use vstd::utf8::{decode_utf8, encode_utf8, valid_utf8};

verus! {

/// A turn as the store keeps it.
#[derive(Debug, Clone, Copy, PartialEq, Eq)]
pub struct TurnRecord {
    pub turn_id: u64,
    pub parent_turn_id: u64,
    pub depth: u32,
    pub codec: u32,
    pub type_tag: u64,
    pub payload_hash: [u8; 32],
    pub flags: u32,
    pub created_at_unix_ms: u64,
}

/// The declared type and encoding of a turn's payload.
#[derive(Debug, Clone)]
pub struct TurnMeta {
    pub declared_type_id: String,
    pub declared_type_version: u32,
    pub encoding: u32,
    pub compression: u32,
    pub uncompressed_len: u32,
}

/// The head of a context: its last turn and that turn's depth.
#[derive(Debug, Clone, Copy, PartialEq, Eq)]
pub struct ContextHead {
    pub context_id: u64,
    pub head_turn_id: u64,
    pub head_depth: u32,
    pub created_at_unix_ms: u64,
    pub flags: u32,
}

/// Counts and file sizes of the store.
#[derive(Debug, Clone, Copy)]
pub struct TurnStoreStats {
    pub turns_total: usize,
    pub contexts_total: usize,
    pub heads_total: usize,
    pub turns_log_bytes: u64,
    pub turns_index_bytes: u64,
    pub turns_meta_bytes: u64,
    pub heads_table_bytes: u64,
}

// ---------------------------------------------------------------------------
// The turn log
// ---------------------------------------------------------------------------

/// The 76 bytes of a turn before its CRC.
pub open spec fn turn_body_spec(r: TurnRecord) -> Seq<u8> {
    le_bytes(r.turn_id as nat, 8) + le_bytes(r.parent_turn_id as nat, 8) + le_bytes(r.depth as nat, 4) + le_bytes(
        r.codec as nat,
        4,
    ) + le_bytes(r.type_tag as nat, 8) + r.payload_hash@ + le_bytes(r.flags as nat, 4) + le_bytes(
        r.created_at_unix_ms as nat,
        8,
    )
}

/// The 80 bytes of a turn in the log: its body and the body's CRC-32.
pub open spec fn turn_record_spec(r: TurnRecord) -> Seq<u8> {
    turn_body_spec(r) + le_bytes(crc32_of(turn_body_spec(r)) as nat, 4)
}

/// The turn that 80 bytes of the log describe.
pub open spec fn record_of(c: Seq<u8>) -> TurnRecord {
    TurnRecord {
        turn_id: le_value(c.subrange(0, 8)) as u64,
        parent_turn_id: le_value(c.subrange(8, 16)) as u64,
        depth: le_value(c.subrange(16, 20)) as u32,
        codec: le_value(c.subrange(20, 24)) as u32,
        type_tag: le_value(c.subrange(24, 32)) as u64,
        payload_hash: arbitrary_hash(c.subrange(32, 64)),
        flags: le_value(c.subrange(64, 68)) as u32,
        created_at_unix_ms: le_value(c.subrange(68, 76)) as u64,
    }
}

/// A 32-byte array holding these bytes.
pub open spec fn arbitrary_hash(s: Seq<u8>) -> [u8; 32] {
    choose|h: [u8; 32]| h@ == s
}

/// Whether 80 bytes of the log carry the CRC of their first 76.
pub open spec fn chunk_ok(c: Seq<u8>) -> bool {
    le_value(c.subrange(76, 80)) == crc32_of(c.subrange(0, 76))
}

/// The `i`-th 80-byte chunk of the log.
pub open spec fn log_chunk(buf: Seq<u8>, i: int) -> Seq<u8> {
    buf.subrange(80 * i, 80 * i + 80)
}

/// The bytes of a turn in the log.
pub fn encode_turn_record(record: &TurnRecord) -> (r: Vec<u8>)
    ensures
        r@ == turn_record_spec(*record),
{
    let mut buf: Vec<u8> = Vec::new();
    push_le(&mut buf, record.turn_id, 8);
    push_le(&mut buf, record.parent_turn_id, 8);
    push_le(&mut buf, record.depth as u64, 4);
    push_le(&mut buf, record.codec as u64, 4);
    push_le(&mut buf, record.type_tag, 8);
    push_bytes(&mut buf, &record.payload_hash);
    push_le(&mut buf, record.flags as u64, 4);
    push_le(&mut buf, record.created_at_unix_ms, 8);
    assert(buf@ =~= turn_body_spec(*record));
    let empty: Vec<u8> = Vec::new();
    let crc = crc32_of_parts(buf.as_slice(), empty.as_slice());
    assert(buf@ + empty@ =~= buf@);
    push_le(&mut buf, crc as u64, 4);
    buf
}

/// Reads the log: the turns of its leading 80-byte chunks whose CRC is
/// right, each with its offset, and the length they span.  Reading stops at
/// the first chunk that is cut short or whose CRC is wrong; the log is to
/// be cut to the length returned.
pub fn scan_turns_log(buf: &[u8]) -> (r: (Vec<(TurnRecord, u64)>, u64))
    ensures
        r.1 == 80 * r.0@.len(),
        r.1 <= buf@.len(),
        forall|i: int| 0 <= i < r.0@.len() ==> chunk_ok(#[trigger] log_chunk(buf@, i)),
        forall|i: int|
            0 <= i < r.0@.len() ==> (#[trigger] r.0@[i]).0 == record_of(log_chunk(buf@, i)) && r.0@[i].1 == 80 * i,
        80 * r.0@.len() + 80 <= buf@.len() ==> !chunk_ok(log_chunk(buf@, r.0@.len() as int)),
{
    proof {
        lemma_pow256_values();
    }
    let mut out: Vec<(TurnRecord, u64)> = Vec::new();
    let mut pos: usize = 0;
    while pos <= buf.len() && buf.len() - pos >= 80
        invariant
            pos == 80 * out@.len(),
            pos <= buf@.len(),
            forall|i: int| 0 <= i < out@.len() ==> chunk_ok(#[trigger] log_chunk(buf@, i)),
            forall|i: int|
                0 <= i < out@.len() ==> (#[trigger] out@[i]).0 == record_of(log_chunk(buf@, i)) && out@[i].1 == 80 * i,
        decreases buf@.len() - pos,
    {
        let ghost c = log_chunk(buf@, out@.len() as int);
        let ghost k = out@.len();
        let body = vstd::slice::slice_subrange(buf, pos, pos + 76);
        let empty: Vec<u8> = Vec::new();
        let actual = crc32_of_parts(body, empty.as_slice());
        let stored = read_le(buf, pos + 76, 4);
        proof {
            assert(body@ + empty@ =~= c.subrange(0, 76));
            assert(buf@.subrange(pos + 76, pos + 80) =~= c.subrange(76, 80));
        }
        if stored != actual as u64 {
            return (out, pos as u64);
        }
        assert(chunk_ok(c));
        let turn_id = read_le(buf, pos, 8);
        let parent_turn_id = read_le(buf, pos + 8, 8);
        let depth = read_le(buf, pos + 16, 4);
        let codec = read_le(buf, pos + 20, 4);
        let type_tag = read_le(buf, pos + 24, 8);
        let payload_hash = read_hash(buf, pos + 32);
        let flags = read_le(buf, pos + 64, 4);
        let created = read_le(buf, pos + 68, 8);
        proof {
            assert(buf@.subrange(pos as int, pos + 8) =~= c.subrange(0, 8));
            assert(buf@.subrange(pos + 8, pos + 16) =~= c.subrange(8, 16));
            assert(buf@.subrange(pos + 16, pos + 20) =~= c.subrange(16, 20));
            assert(buf@.subrange(pos + 20, pos + 24) =~= c.subrange(20, 24));
            assert(buf@.subrange(pos + 24, pos + 32) =~= c.subrange(24, 32));
            assert(buf@.subrange(pos + 32, pos + 64) =~= c.subrange(32, 64));
            assert(buf@.subrange(pos + 64, pos + 68) =~= c.subrange(64, 68));
            assert(buf@.subrange(pos + 68, pos + 76) =~= c.subrange(68, 76));
            lemma_le_value_bound(c.subrange(16, 20));
            lemma_le_value_bound(c.subrange(20, 24));
            lemma_le_value_bound(c.subrange(64, 68));
        }
        let rec = TurnRecord {
            turn_id,
            parent_turn_id,
            depth: depth as u32,
            codec: codec as u32,
            type_tag,
            payload_hash,
            flags: flags as u32,
            created_at_unix_ms: created,
        };
        proof {
            let h = arbitrary_hash(c.subrange(32, 64));
            assert(exists|x: [u8; 32]| x@ == c.subrange(32, 64)) by {
                assert(payload_hash@ == c.subrange(32, 64));
            }
            assert(h@ == payload_hash@);
            assert(h == payload_hash) by {
                assert(h@ =~= payload_hash@);
            }
            assert(rec == record_of(c));
        }
        let ghost before = out@;
        out.push((rec, pos as u64));
        proof {
            assert forall|i: int|
                0 <= i < out@.len() implies (#[trigger] out@[i]).0 == record_of(log_chunk(buf@, i)) && out@[i].1 == 80
                    * i by {
                if i < k {
                    assert(out@[i] == before[i]);
                } else {
                    assert(i == k);
                    assert(out@[i] == (rec, pos as u64));
                    assert(log_chunk(buf@, i) == c);
                }
            }
        }
        pos = pos + 80;
    }
    (out, pos as u64)
}


/// A turn written to the log reads back as itself, with a right CRC.
pub proof fn law_turn_record_roundtrip(r: TurnRecord)
    ensures
        turn_record_spec(r).len() == 80,
        chunk_ok(turn_record_spec(r)),
        record_of(turn_record_spec(r)) == r,
{
    lemma_pow256_values();
    let b = turn_body_spec(r);
    let c = turn_record_spec(r);
    lemma_le_bytes_len(r.turn_id as nat, 8);
    lemma_le_bytes_len(r.parent_turn_id as nat, 8);
    lemma_le_bytes_len(r.depth as nat, 4);
    lemma_le_bytes_len(r.codec as nat, 4);
    lemma_le_bytes_len(r.type_tag as nat, 8);
    lemma_le_bytes_len(r.flags as nat, 4);
    lemma_le_bytes_len(r.created_at_unix_ms as nat, 8);
    lemma_le_bytes_len(crc32_of(b) as nat, 4);
    assert(b.len() == 76);
    assert(c.subrange(0, 76) =~= b);
    assert(c.subrange(0, 8) =~= le_bytes(r.turn_id as nat, 8));
    assert(c.subrange(8, 16) =~= le_bytes(r.parent_turn_id as nat, 8));
    assert(c.subrange(16, 20) =~= le_bytes(r.depth as nat, 4));
    assert(c.subrange(20, 24) =~= le_bytes(r.codec as nat, 4));
    assert(c.subrange(24, 32) =~= le_bytes(r.type_tag as nat, 8));
    assert(c.subrange(32, 64) =~= r.payload_hash@);
    assert(c.subrange(64, 68) =~= le_bytes(r.flags as nat, 4));
    assert(c.subrange(68, 76) =~= le_bytes(r.created_at_unix_ms as nat, 8));
    assert(c.subrange(76, 80) =~= le_bytes(crc32_of(b) as nat, 4));
    lemma_le_roundtrip(r.turn_id as nat, 8);
    lemma_le_roundtrip(r.parent_turn_id as nat, 8);
    lemma_le_roundtrip(r.depth as nat, 4);
    lemma_le_roundtrip(r.codec as nat, 4);
    lemma_le_roundtrip(r.type_tag as nat, 8);
    lemma_le_roundtrip(r.flags as nat, 4);
    lemma_le_roundtrip(r.created_at_unix_ms as nat, 8);
    lemma_le_roundtrip(crc32_of(b) as nat, 4);
    let h = arbitrary_hash(c.subrange(32, 64));
    assert(exists|x: [u8; 32]| x@ == c.subrange(32, 64)) by {
        assert(r.payload_hash@ == c.subrange(32, 64));
    }
    assert(h == r.payload_hash) by {
        assert(h@ =~= r.payload_hash@);
    }
}

/// A log written turn after turn: its chunks are the turns' records.
pub open spec fn log_of(rs: Seq<TurnRecord>) -> Seq<u8>
    decreases rs.len(),
{
    if rs.len() == 0 {
        seq![]
    } else {
        log_of(rs.drop_last()) + turn_record_spec(rs.last())
    }
}

/// Reading back a log of appended turns gives every turn back, in order:
/// each chunk of the log is the record of the turn appended at that place,
/// with a right CRC, and the log ends after the last.
pub proof fn law_log_roundtrip(rs: Seq<TurnRecord>)
    ensures
        log_of(rs).len() == 80 * rs.len(),
        forall|i: int|
            0 <= i < rs.len() ==> chunk_ok(#[trigger] log_chunk(log_of(rs), i)) && record_of(log_chunk(log_of(rs), i))
                == rs[i],
    decreases rs.len(),
{
    if rs.len() > 0 {
        let p = rs.drop_last();
        law_log_roundtrip(p);
        law_turn_record_roundtrip(rs.last());
        let l = log_of(rs);
        assert forall|i: int| 0 <= i < rs.len() implies chunk_ok(#[trigger] log_chunk(log_of(rs), i)) && record_of(
            log_chunk(log_of(rs), i),
        ) == rs[i] by {
            if i < p.len() {
                assert(log_chunk(l, i) =~= log_chunk(log_of(p), i));
                assert(chunk_ok(log_chunk(log_of(p), i)));
            } else {
                assert(log_chunk(l, i) =~= turn_record_spec(rs.last()));
            }
        }
    }
}

// ---------------------------------------------------------------------------
// The metadata file
// ---------------------------------------------------------------------------

/// The mathematical form of a [`TurnMeta`].
pub struct SpecTurnMeta {
    pub declared_type_id: Seq<char>,
    pub declared_type_version: u32,
    pub encoding: u32,
    pub compression: u32,
    pub uncompressed_len: u32,
}

impl View for TurnMeta {
    type V = SpecTurnMeta;

    open spec fn view(&self) -> SpecTurnMeta {
        SpecTurnMeta {
            declared_type_id: self.declared_type_id@,
            declared_type_version: self.declared_type_version,
            encoding: self.encoding,
            compression: self.compression,
            uncompressed_len: self.uncompressed_len,
        }
    }
}

/// The bytes of a turn's metadata: turn id (8 bytes), type id length in
/// bytes cut to 32 bits (4), the type id as UTF-8, type version, encoding,
/// compression and uncompressed length (4 each).
pub open spec fn meta_bytes_spec(turn_id: u64, m: SpecTurnMeta) -> Seq<u8> {
    le_bytes(turn_id as nat, 8) + le_bytes((encode_utf8(m.declared_type_id).len() as u32) as nat, 4) + encode_utf8(
        m.declared_type_id,
    ) + le_bytes(m.declared_type_version as nat, 4) + le_bytes(m.encoding as nat, 4) + le_bytes(
        m.compression as nat,
        4,
    ) + le_bytes(m.uncompressed_len as nat, 4)
}

/// Writes a turn's metadata.
pub fn encode_turn_meta(turn_id: u64, meta: &TurnMeta) -> (r: Vec<u8>)
    ensures
        r@ == meta_bytes_spec(turn_id, meta@),
{
    let mut buf: Vec<u8> = Vec::new();
    push_le(&mut buf, turn_id, 8);
    let bytes = meta.declared_type_id.as_str().as_bytes();
    push_le(&mut buf, (bytes.len() as u32) as u64, 4);
    push_bytes(&mut buf, bytes);
    push_le(&mut buf, meta.declared_type_version as u64, 4);
    push_le(&mut buf, meta.encoding as u64, 4);
    push_le(&mut buf, meta.compression as u64, 4);
    push_le(&mut buf, meta.uncompressed_len as u64, 4);
    assert(buf@ =~= meta_bytes_spec(turn_id, meta@));
    buf
}

/// What reading the metadata file from `pos` gives: the entries up to the
/// first that is cut short, and where the file is then to be cut (nowhere
/// when fewer than 8 bytes are left); an entry whose type id is not UTF-8
/// is an error.
pub open spec fn meta_scan(buf: Seq<u8>, pos: int) -> Result<(Seq<(u64, SpecTurnMeta)>, Option<int>), SpecStoreError>
    decreases buf.len() - pos,
{
    if buf.len() < pos + 8 {
        Ok((seq![], None))
    } else if buf.len() < pos + 12 {
        Ok((seq![], Some(pos)))
    } else {
        let len = le_value(buf.subrange(pos + 8, pos + 12));
        if buf.len() < pos + 12 + len {
            Ok((seq![], Some(pos)))
        } else if !valid_utf8(buf.subrange(pos + 12, pos + 12 + len)) {
            Err(SpecStoreError::Corrupt("invalid type id utf8"@))
        } else if buf.len() < pos + 28 + len {
            Ok((seq![], Some(pos)))
        } else {
            let q = pos + 12 + len;
            let entry = (
                le_value(buf.subrange(pos, pos + 8)) as u64,
                SpecTurnMeta {
                    declared_type_id: decode_utf8(buf.subrange(pos + 12, q)),
                    declared_type_version: le_value(buf.subrange(q, q + 4)) as u32,
                    encoding: le_value(buf.subrange(q + 4, q + 8)) as u32,
                    compression: le_value(buf.subrange(q + 8, q + 12)) as u32,
                    uncompressed_len: le_value(buf.subrange(q + 12, q + 16)) as u32,
                },
            );
            match meta_scan(buf, q + 16) {
                Ok((rest, cut)) => Ok((seq![entry] + rest, cut)),
                Err(e) => Err(e),
            }
        }
    }
}

/// `p` followed by what a scan found.
pub open spec fn scan_after<T, C, E>(p: Seq<T>, r: Result<(Seq<T>, C), E>) -> Result<(Seq<T>, C), E> {
    match r {
        Ok((s, c)) => Ok((p + s, c)),
        Err(e) => Err(e),
    }
}

/// The metadata entries viewed.
pub open spec fn metas_view(v: Seq<(u64, TurnMeta)>) -> Seq<(u64, SpecTurnMeta)> {
    v.map_values(|e: (u64, TurnMeta)| (e.0, e.1@))
}

/// Reads the metadata file: its entries in order, and where the file is to
/// be cut, if anywhere.
pub fn scan_turn_meta(buf: &[u8]) -> (r: Result<(Vec<(u64, TurnMeta)>, Option<u64>), StoreError>)
    ensures
        match (r, meta_scan(buf@, 0)) {
            (Ok((v, cut)), Ok((s, c))) => metas_view(v@) == s && match (cut, c) {
                (Some(x), Some(y)) => x == y,
                (None, None) => true,
                _ => false,
            },
            (Err(e), Err(m)) => e@ == m,
            _ => false,
        },
{
    proof {
        lemma_pow256_values();
    }
    let mut out: Vec<(u64, TurnMeta)> = Vec::new();
    let mut pos: usize = 0;
    assert(metas_view(out@) =~= seq![]);
    loop
        invariant
            pos <= buf@.len(),
            meta_scan(buf@, 0) == scan_after(metas_view(out@), meta_scan(buf@, pos as int)),
        decreases buf@.len() - pos,
    {
        let ghost here = meta_scan(buf@, pos as int);
        if buf.len() - pos < 8 {
            assert(here == Ok::<_, SpecStoreError>((Seq::<(u64, SpecTurnMeta)>::empty(), Option::<int>::None)));
            assert(metas_view(out@) + Seq::<(u64, SpecTurnMeta)>::empty() =~= metas_view(out@));
            return Ok((out, None));
        }
        if buf.len() - pos < 12 {
            assert(metas_view(out@) + Seq::<(u64, SpecTurnMeta)>::empty() =~= metas_view(out@));
            return Ok((out, Some(pos as u64)));
        }
        let len = read_le(buf, pos + 8, 4);
        proof {
            lemma_le_value_bound(buf@.subrange(pos + 8, pos + 12));
        }
        if ((buf.len() - pos - 12) as u64) < len {
            assert(metas_view(out@) + Seq::<(u64, SpecTurnMeta)>::empty() =~= metas_view(out@));
            return Ok((out, Some(pos as u64)));
        }
        let n = len as usize;
        let q = pos + 12 + n;
        let bytes = vstd::slice::slice_to_vec(vstd::slice::slice_subrange(buf, pos + 12, q));
        let type_id = match crate::text::string_from_utf8(bytes) {
            Some(t) => t,
            None => {
                return Err(StoreError::Corrupt(owned("invalid type id utf8")));
            },
        };
        if buf.len() - q < 16 {
            assert(metas_view(out@) + Seq::<(u64, SpecTurnMeta)>::empty() =~= metas_view(out@));
            return Ok((out, Some(pos as u64)));
        }
        let turn_id = read_le(buf, pos, 8);
        let version = read_le(buf, q, 4);
        let encoding = read_le(buf, q + 4, 4);
        let compression = read_le(buf, q + 8, 4);
        let ulen = read_le(buf, q + 12, 4);
        proof {
            lemma_le_value_bound(buf@.subrange(q as int, q + 4));
            lemma_le_value_bound(buf@.subrange(q + 4, q + 8));
            lemma_le_value_bound(buf@.subrange(q + 8, q + 12));
            lemma_le_value_bound(buf@.subrange(q + 12, q + 16));
        }
        let meta = TurnMeta {
            declared_type_id: type_id,
            declared_type_version: version as u32,
            encoding: encoding as u32,
            compression: compression as u32,
            uncompressed_len: ulen as u32,
        };
        let ghost before = metas_view(out@);
        let ghost entry = (turn_id, meta@);
        out.push((turn_id, meta));
        proof {
            assert(metas_view(out@) =~= before.push(entry));
            let rest = meta_scan(buf@, (q + 16) as int);
            assert(here == scan_after(seq![entry], rest));
            match rest {
                Ok((s, c)) => {
                    assert(before + (seq![entry] + s) =~= before.push(entry) + s);
                },
                Err(e) => {},
            }
        }
        pos = q + 16;
    }
}

// ---------------------------------------------------------------------------
// The head table
// ---------------------------------------------------------------------------

/// The 32 bytes of a head before its CRC.
pub open spec fn head_body_spec(h: ContextHead) -> Seq<u8> {
    le_bytes(h.context_id as nat, 8) + le_bytes(h.head_turn_id as nat, 8) + le_bytes(h.head_depth as nat, 4) + le_bytes(
        h.flags as nat,
        4,
    ) + le_bytes(h.created_at_unix_ms as nat, 8)
}

/// The 36 bytes of a head in the table: its body and the body's CRC-32.
pub open spec fn head_record_spec(h: ContextHead) -> Seq<u8> {
    head_body_spec(h) + le_bytes(crc32_of(head_body_spec(h)) as nat, 4)
}

/// The head that 36 bytes of the table describe.
pub open spec fn head_of(c: Seq<u8>) -> ContextHead {
    ContextHead {
        context_id: le_value(c.subrange(0, 8)) as u64,
        head_turn_id: le_value(c.subrange(8, 16)) as u64,
        head_depth: le_value(c.subrange(16, 20)) as u32,
        flags: le_value(c.subrange(20, 24)) as u32,
        created_at_unix_ms: le_value(c.subrange(24, 32)) as u64,
    }
}

/// What reading the head table from `pos` gives: the heads up to the first
/// that is cut short or has a wrong CRC, and where the table is then to be
/// cut (nowhere when fewer than 8 bytes are left).
pub open spec fn heads_scan(buf: Seq<u8>, pos: int) -> (Seq<ContextHead>, Option<int>)
    decreases buf.len() - pos,
{
    if buf.len() < pos + 8 {
        (seq![], None)
    } else if buf.len() < pos + 36 {
        (seq![], Some(pos))
    } else if le_value(buf.subrange(pos + 32, pos + 36)) != crc32_of(buf.subrange(pos, pos + 32)) {
        (seq![], Some(pos))
    } else {
        let rest = heads_scan(buf, pos + 36);
        (seq![head_of(buf.subrange(pos, pos + 36))] + rest.0, rest.1)
    }
}

/// Writes a head.
pub fn encode_head(head: &ContextHead) -> (r: Vec<u8>)
    ensures
        r@ == head_record_spec(*head),
{
    let mut buf: Vec<u8> = Vec::new();
    push_le(&mut buf, head.context_id, 8);
    push_le(&mut buf, head.head_turn_id, 8);
    push_le(&mut buf, head.head_depth as u64, 4);
    push_le(&mut buf, head.flags as u64, 4);
    push_le(&mut buf, head.created_at_unix_ms, 8);
    assert(buf@ =~= head_body_spec(*head));
    let empty: Vec<u8> = Vec::new();
    let crc = crc32_of_parts(buf.as_slice(), empty.as_slice());
    assert(buf@ + empty@ =~= buf@);
    push_le(&mut buf, crc as u64, 4);
    buf
}

/// Reads the head table: its heads in order, and where it is to be cut, if
/// anywhere.
pub fn scan_heads(buf: &[u8]) -> (r: (Vec<ContextHead>, Option<u64>))
    ensures
        r.0@ == heads_scan(buf@, 0).0,
        match (r.1, heads_scan(buf@, 0).1) {
            (Some(x), Some(y)) => x == y,
            (None, None) => true,
            _ => false,
        },
{
    proof {
        lemma_pow256_values();
    }
    let mut out: Vec<ContextHead> = Vec::new();
    let mut pos: usize = 0;
    loop
        invariant
            pos <= buf@.len(),
            heads_scan(buf@, 0) == (out@ + heads_scan(buf@, pos as int).0, heads_scan(buf@, pos as int).1),
        decreases buf@.len() - pos,
    {
        if buf.len() - pos < 8 {
            assert(out@ + Seq::<ContextHead>::empty() =~= out@);
            return (out, None);
        }
        if buf.len() - pos < 36 {
            assert(out@ + Seq::<ContextHead>::empty() =~= out@);
            return (out, Some(pos as u64));
        }
        let body = vstd::slice::slice_subrange(buf, pos, pos + 32);
        let empty: Vec<u8> = Vec::new();
        let actual = crc32_of_parts(body, empty.as_slice());
        let stored = read_le(buf, pos + 32, 4);
        proof {
            assert(body@ + empty@ =~= buf@.subrange(pos as int, pos + 32));
        }
        if stored != actual as u64 {
            assert(out@ + Seq::<ContextHead>::empty() =~= out@);
            return (out, Some(pos as u64));
        }
        let ghost c = buf@.subrange(pos as int, pos + 36);
        let context_id = read_le(buf, pos, 8);
        let head_turn_id = read_le(buf, pos + 8, 8);
        let depth = read_le(buf, pos + 16, 4);
        let flags = read_le(buf, pos + 20, 4);
        let created = read_le(buf, pos + 24, 8);
        proof {
            assert(buf@.subrange(pos as int, pos + 8) =~= c.subrange(0, 8));
            assert(buf@.subrange(pos + 8, pos + 16) =~= c.subrange(8, 16));
            assert(buf@.subrange(pos + 16, pos + 20) =~= c.subrange(16, 20));
            assert(buf@.subrange(pos + 20, pos + 24) =~= c.subrange(20, 24));
            assert(buf@.subrange(pos + 24, pos + 32) =~= c.subrange(24, 32));
            lemma_le_value_bound(c.subrange(16, 20));
            lemma_le_value_bound(c.subrange(20, 24));
        }
        let head = ContextHead {
            context_id,
            head_turn_id,
            head_depth: depth as u32,
            flags: flags as u32,
            created_at_unix_ms: created,
        };
        let ghost before = out@;
        out.push(head);
        proof {
            assert(head == head_of(c));
            let rest = heads_scan(buf@, (pos + 36) as int);
            assert(before + (seq![head] + rest.0) =~= out@ + rest.0);
        }
        pos = pos + 36;
    }
}


// ---------------------------------------------------------------------------
// The store in memory
// ---------------------------------------------------------------------------

/// A copy of a turn's metadata.
pub fn copy_meta(m: &TurnMeta) -> (r: TurnMeta)
    ensures
        r@ == m@,
{
    TurnMeta {
        declared_type_id: owned(m.declared_type_id.as_str()),
        declared_type_version: m.declared_type_version,
        encoding: m.encoding,
        compression: m.compression,
        uncompressed_len: m.uncompressed_len,
    }
}

/// The turns a context holds, walking back at most `n` turns from `cur`
/// (newest first); `None` when the walk reaches a turn the store lacks.
pub open spec fn chain_back(turns: Map<u64, TurnRecord>, cur: u64, n: nat) -> Option<Seq<TurnRecord>>
    decreases n,
{
    if n == 0 || cur == 0 {
        Some(seq![])
    } else if !turns.contains_key(cur) {
        None
    } else {
        match chain_back(turns, turns[cur].parent_turn_id, (n - 1) as nat) {
            Some(s) => Some(seq![turns[cur]] + s),
            None => None,
        }
    }
}

/// The first turn (depth 0) on the walk back from `cur`, looking at no more
/// than `fuel` turns.
pub open spec fn first_turn_spec(turns: Map<u64, TurnRecord>, cur: u64, fuel: nat) -> Result<TurnRecord, Seq<char>>
    decreases fuel,
{
    if cur == 0 || fuel == 0 {
        Err("first turn"@)
    } else if !turns.contains_key(cur) {
        Err("turn"@)
    } else if turns[cur].depth == 0 {
        Ok(turns[cur])
    } else {
        first_turn_spec(turns, turns[cur].parent_turn_id, (fuel - 1) as nat)
    }
}

/// The number after the largest key of a map (1 for an empty map).
pub open spec fn after_max_key<V>(m: Map<u64, V>, next: u64) -> bool {
    &&& forall|k: u64| #[trigger] m.contains_key(k) ==> k < next
    &&& (m.dom().len() == 0 && next == 1) || m.contains_key((next - 1) as u64)
}

/// The store of turns, metadata and heads.
pub struct TurnStore {
    turns: HashMap<u64, TurnRecord>,
    turn_index: HashMap<u64, u64>,
    turn_meta: HashMap<u64, TurnMeta>,
    heads: HashMap<u64, ContextHead>,
    next_turn_id: u64,
    next_context_id: u64,
}

fn next_after_keys<V>(m: &HashMap<u64, V>) -> (r: u64)
    requires
        forall|k: u64| #[trigger] m@.contains_key(k) ==> k < u64::MAX,
    ensures
        forall|k: u64| #[trigger] m@.contains_key(k) ==> k < r,
        (m@.dom().len() == 0 && r == 1) || (r > 0 && m@.contains_key((r - 1) as u64)),
{
    let mut best: Option<u64> = None;
    let ghost mut seen: Set<u64> = Set::empty();
    for k in it: m.keys()
        invariant
            it.seq().unref().to_set() == m@.dom(),
            seen == it.seq().unref().take(it.index() as int).to_set(),
            it.index() == it.seq().len() ==> seen == m@.dom(),
            forall|k: u64| #[trigger] m@.contains_key(k) ==> k < u64::MAX,
            match best {
                Some(b) => m@.contains_key(b) && seen.contains(b) && forall|j: u64| #[trigger] seen.contains(j) ==> j <= b,
                None => seen == Set::<u64>::empty(),
            },
    {
        proof {
            let sq = it.seq().unref();
            let i = it.index() as int;
            assert(sq[i] == *k);
            assert(sq.to_set().contains(sq[i]));
            assert(sq.take(i + 1) =~= sq.take(i).push(*k));
            sq.take(i).lemma_push_to_set_commute(*k);
            assert(sq.take(sq.len() as int) =~= sq);
            if i == 0 {
                assert(sq.take(0).to_set() =~= Set::<u64>::empty());
            }
        }
        match best {
            Some(b) => {
                if *k > b {
                    best = Some(*k);
                }
            },
            None => {
                best = Some(*k);
            },
        }
        proof {
            seen = seen.insert(*k);
        }
    }
    match best {
        Some(b) => {
            proof {
                assert forall|k: u64| #[trigger] m@.contains_key(k) implies k < b + 1 by {
                    assert(seen.contains(k));
                }
            }
            b + 1
        },
        None => {
            proof {
                assert(m@.dom() =~= Set::<u64>::empty());
            }
            1
        },
    }
}

/// The turns of a log read in order: a later record of an id replaces an
/// earlier one.
pub open spec fn turns_loaded(rs: Seq<(TurnRecord, u64)>) -> Map<u64, TurnRecord>
    decreases rs.len(),
{
    if rs.len() == 0 {
        Map::empty()
    } else {
        turns_loaded(rs.drop_last()).insert(rs.last().0.turn_id, rs.last().0)
    }
}

/// The log offsets of the turns of a log read in order.
pub open spec fn offsets_loaded(rs: Seq<(TurnRecord, u64)>) -> Map<u64, u64>
    decreases rs.len(),
{
    if rs.len() == 0 {
        Map::empty()
    } else {
        offsets_loaded(rs.drop_last()).insert(rs.last().0.turn_id, rs.last().1)
    }
}

/// The metadata of a metadata file read in order.
pub open spec fn metas_loaded(ms: Seq<(u64, SpecTurnMeta)>) -> Map<u64, SpecTurnMeta>
    decreases ms.len(),
{
    if ms.len() == 0 {
        Map::empty()
    } else {
        metas_loaded(ms.drop_last()).insert(ms.last().0, ms.last().1)
    }
}

/// The heads of a head table read in order.
pub open spec fn heads_loaded(hs: Seq<ContextHead>) -> Map<u64, ContextHead>
    decreases hs.len(),
{
    if hs.len() == 0 {
        Map::empty()
    } else {
        heads_loaded(hs.drop_last()).insert(hs.last().context_id, hs.last())
    }
}

impl TurnStore {
    /// The turns by id.
    pub closed spec fn turns(&self) -> Map<u64, TurnRecord> {
        self.turns@
    }

    /// The log offset of each turn.
    pub closed spec fn offsets(&self) -> Map<u64, u64> {
        self.turn_index@
    }

    /// The metadata of each turn.
    pub closed spec fn metas(&self) -> Map<u64, SpecTurnMeta> {
        self.turn_meta@.map_values(|m: TurnMeta| m@)
    }

    /// The head of each context.
    pub closed spec fn heads(&self) -> Map<u64, ContextHead> {
        self.heads@
    }

    /// The id the next appended turn gets.
    pub closed spec fn next_turn(&self) -> u64 {
        self.next_turn_id
    }

    /// The id the next created context gets.
    pub closed spec fn next_context(&self) -> u64 {
        self.next_context_id
    }

    /// An empty store.
    pub fn new() -> (r: TurnStore)
        ensures
            r.turns() == Map::<u64, TurnRecord>::empty(),
            r.offsets() == Map::<u64, u64>::empty(),
            r.metas() == Map::<u64, SpecTurnMeta>::empty(),
            r.heads() == Map::<u64, ContextHead>::empty(),
            r.next_turn() == 1,
            r.next_context() == 1,
    {
        let r = TurnStore {
            turns: HashMap::new(),
            turn_index: HashMap::new(),
            turn_meta: HashMap::new(),
            heads: HashMap::new(),
            next_turn_id: 1,
            next_context_id: 1,
        };
        assert(r.metas() =~= Map::<u64, SpecTurnMeta>::empty());
        r
    }

    /// The store that the files hold, as read by [`scan_turns_log`],
    /// [`scan_turn_meta`] and [`scan_heads`]: later records of an id replace
    /// earlier ones, and the next ids follow the largest ids present.
    pub fn load(records: Vec<(TurnRecord, u64)>, metas: Vec<(u64, TurnMeta)>, heads: Vec<ContextHead>) -> (r: TurnStore)
        requires
            forall|i: int| 0 <= i < records@.len() ==> (#[trigger] records@[i]).0.turn_id < u64::MAX,
            forall|i: int| 0 <= i < heads@.len() ==> (#[trigger] heads@[i]).context_id < u64::MAX,
        ensures
            r.turns() == turns_loaded(records@),
            r.offsets() == offsets_loaded(records@),
            r.metas() == metas_loaded(metas_view(metas@)),
            r.heads() == heads_loaded(heads@),
            after_max_key(r.turns(), r.next_turn()),
            after_max_key(r.heads(), r.next_context()),
    {
        let mut store = TurnStore {
            turns: HashMap::new(),
            turn_index: HashMap::new(),
            turn_meta: HashMap::new(),
            heads: HashMap::new(),
            next_turn_id: 1,
            next_context_id: 1,
        };
        assert(store.turn_meta@.map_values(|m: TurnMeta| m@) =~= metas_loaded(Seq::<(u64, SpecTurnMeta)>::empty()));
        let mut i: usize = 0;
        while i < records.len()
            invariant
                i <= records@.len(),
                store.turns@ == turns_loaded(records@.take(i as int)),
                store.turn_index@ == offsets_loaded(records@.take(i as int)),
                store.turn_meta@ == Map::<u64, TurnMeta>::empty(),
                store.heads@ == Map::<u64, ContextHead>::empty(),
                forall|k: u64| #[trigger] store.turns@.contains_key(k) ==> k < u64::MAX,
                forall|i: int| 0 <= i < records@.len() ==> (#[trigger] records@[i]).0.turn_id < u64::MAX,
            decreases records@.len() - i,
        {
            let (rec, off) = records[i];
            store.turns.insert(rec.turn_id, rec);
            store.turn_index.insert(rec.turn_id, off);
            assert(records@.take(i + 1).drop_last() =~= records@.take(i as int));
            i = i + 1;
        }
        assert(records@.take(records@.len() as int) =~= records@);
        let ghost all = metas_view(metas@);
        let mut j: usize = 0;
        while j < metas.len()
            invariant
                j <= metas@.len(),
                all == metas_view(metas@),
                store.turn_meta@.map_values(|m: TurnMeta| m@) == metas_loaded(all.take(j as int)),
                store.turns@ == turns_loaded(records@),
                store.turn_index@ == offsets_loaded(records@),
                store.heads@ == Map::<u64, ContextHead>::empty(),
                forall|k: u64| #[trigger] store.turns@.contains_key(k) ==> k < u64::MAX,
            decreases metas@.len() - j,
        {
            let id = metas[j].0;
            let m = copy_meta(&metas[j].1);
            let ghost before = store.turn_meta@;
            store.turn_meta.insert(id, m);
            proof {
                assert(all.take(j + 1).drop_last() =~= all.take(j as int));
                assert(all.take(j + 1).last() == (id, m@));
                assert(store.turn_meta@.map_values(|m: TurnMeta| m@) =~= before.map_values(|m: TurnMeta| m@).insert(
                    id,
                    m@,
                ));
            }
            j = j + 1;
        }
        assert(all.take(all.len() as int) =~= all);
        let mut h: usize = 0;
        while h < heads.len()
            invariant
                h <= heads@.len(),
                store.heads@ == heads_loaded(heads@.take(h as int)),
                store.turn_meta@.map_values(|m: TurnMeta| m@) == metas_loaded(all),
                store.turns@ == turns_loaded(records@),
                store.turn_index@ == offsets_loaded(records@),
                forall|k: u64| #[trigger] store.turns@.contains_key(k) ==> k < u64::MAX,
                forall|k: u64| #[trigger] store.heads@.contains_key(k) ==> k < u64::MAX,
                forall|i: int| 0 <= i < heads@.len() ==> (#[trigger] heads@[i]).context_id < u64::MAX,
            decreases heads@.len() - h,
        {
            let head = heads[h];
            store.heads.insert(head.context_id, head);
            assert(heads@.take(h + 1).drop_last() =~= heads@.take(h as int));
            h = h + 1;
        }
        assert(heads@.take(heads@.len() as int) =~= heads@);
        store.next_turn_id = next_after_keys(&store.turns);
        store.next_context_id = next_after_keys(&store.heads);
        store
    }

    /// How many turns the store holds.
    pub(crate) fn turn_count(&self) -> (r: usize)
        ensures
            r == self.turns().dom().len(),
    {
        self.turns.len()
    }

    /// The head of a context.
    pub fn get_head(&self, context_id: u64) -> (r: Result<ContextHead, StoreError>)
        ensures
            match r {
                Ok(h) => self.heads().contains_key(context_id) && h == self.heads()[context_id],
                Err(e) => !self.heads().contains_key(context_id) && e@ == SpecStoreError::NotFound("context"@),
            },
    {
        match self.heads.get(&context_id) {
            Some(h) => Ok(*h),
            None => Err(StoreError::NotFound(owned("context"))),
        }
    }

    /// A turn.
    pub fn get_turn(&self, turn_id: u64) -> (r: Result<TurnRecord, StoreError>)
        ensures
            match r {
                Ok(t) => self.turns().contains_key(turn_id) && t == self.turns()[turn_id],
                Err(e) => !self.turns().contains_key(turn_id) && e@ == SpecStoreError::NotFound("turn"@),
            },
    {
        match self.turns.get(&turn_id) {
            Some(t) => Ok(*t),
            None => Err(StoreError::NotFound(owned("turn"))),
        }
    }

    /// A turn's metadata.
    pub fn get_turn_meta(&self, turn_id: u64) -> (r: Result<TurnMeta, StoreError>)
        ensures
            match r {
                Ok(m) => self.metas().contains_key(turn_id) && m@ == self.metas()[turn_id],
                Err(e) => !self.metas().contains_key(turn_id) && e@ == SpecStoreError::NotFound("turn meta"@),
            },
    {
        match self.turn_meta.get(&turn_id) {
            Some(m) => Ok(copy_meta(m)),
            None => Err(StoreError::NotFound(owned("turn meta"))),
        }
    }

    /// Walks back at most `limit` turns from `start`, newest first.
    fn walk_back(&self, start: u64, limit: u32) -> (r: Result<Vec<TurnRecord>, StoreError>)
        ensures
            match (r, chain_back(self.turns(), start, limit as nat)) {
                (Ok(v), Some(s)) => v@ == s,
                (Err(e), None) => e@ == SpecStoreError::NotFound("turn"@),
                _ => false,
            },
    {
        let mut results: Vec<TurnRecord> = Vec::new();
        let mut current = start;
        while current != 0 && results.len() < limit as usize
            invariant
                results@.len() <= limit,
                chain_back(self.turns@, start, limit as nat) == match chain_back(
                    self.turns@,
                    current,
                    (limit - results@.len()) as nat,
                ) {
                    Some(s) => Some(results@ + s),
                    None => None,
                },
            decreases limit - results@.len(),
        {
            let rec = match self.turns.get(&current) {
                Some(t) => *t,
                None => {
                    return Err(StoreError::NotFound(owned("turn")));
                },
            };
            let ghost before = results@;
            results.push(rec);
            proof {
                let n = (limit - before.len()) as nat;
                match chain_back(self.turns@, rec.parent_turn_id, (n - 1) as nat) {
                    Some(t) => {
                        assert(before + (seq![rec] + t) =~= results@ + t);
                    },
                    None => {},
                }
            }
            current = rec.parent_turn_id;
        }
        proof {
            assert(results@ + Seq::<TurnRecord>::empty() =~= results@);
        }
        Ok(results)
    }

    /// The last `limit` turns of a context, oldest first.
    pub fn get_last(&self, context_id: u64, limit: u32) -> (r: Result<Vec<TurnRecord>, StoreError>)
        ensures
            !self.heads().contains_key(context_id) ==> (r matches Err(e) && e@ == SpecStoreError::NotFound("context"@)),
            self.heads().contains_key(context_id) ==> match (
                r,
                chain_back(self.turns(), self.heads()[context_id].head_turn_id, limit as nat),
            ) {
                (Ok(v), Some(s)) => v@ == s.reverse(),
                (Err(e), None) => e@ == SpecStoreError::NotFound("turn"@),
                _ => false,
            },
    {
        let head = match self.heads.get(&context_id) {
            Some(h) => *h,
            None => {
                return Err(StoreError::NotFound(owned("context")));
            },
        };
        let back = self.walk_back(head.head_turn_id, limit)?;
        Ok(reversed(&back))
    }

    /// Up to `limit` turns of a context before a turn, oldest first: the
    /// turns walking back from the turn's parent.  Without a turn, or when
    /// the context has no turn, the last turns.
    pub fn get_before(&self, context_id: u64, before_turn_id: u64, limit: u32) -> (r: Result<Vec<TurnRecord>, StoreError>)
        ensures
            !self.heads().contains_key(context_id) ==> (r matches Err(e) && e@ == SpecStoreError::NotFound("context"@)),
            self.heads().contains_key(context_id) && (before_turn_id == 0 || self.heads()[context_id].head_turn_id == 0)
                ==> match (r, chain_back(self.turns(), self.heads()[context_id].head_turn_id, limit as nat)) {
                (Ok(v), Some(s)) => v@ == s.reverse(),
                (Err(e), None) => e@ == SpecStoreError::NotFound("turn"@),
                _ => false,
            },
            self.heads().contains_key(context_id) && before_turn_id != 0 && self.heads()[context_id].head_turn_id != 0
                && !self.turns().contains_key(before_turn_id) ==> (r matches Err(e) && e@ == SpecStoreError::NotFound(
                "before turn"@,
            )),
            self.heads().contains_key(context_id) && before_turn_id != 0 && self.heads()[context_id].head_turn_id != 0
                && self.turns().contains_key(before_turn_id) ==> match (
                r,
                chain_back(self.turns(), self.turns()[before_turn_id].parent_turn_id, limit as nat),
            ) {
                (Ok(v), Some(s)) => v@ == s.reverse(),
                (Err(e), None) => e@ == SpecStoreError::NotFound("turn"@),
                _ => false,
            },
    {
        let head = match self.heads.get(&context_id) {
            Some(h) => *h,
            None => {
                return Err(StoreError::NotFound(owned("context")));
            },
        };
        if before_turn_id == 0 || head.head_turn_id == 0 {
            return self.get_last(context_id, limit);
        }
        let before = match self.turns.get(&before_turn_id) {
            Some(t) => *t,
            None => {
                return Err(StoreError::NotFound(owned("before turn")));
            },
        };
        let back = self.walk_back(before.parent_turn_id, limit)?;
        Ok(reversed(&back))
    }

    /// The first turn (depth 0) of a context, found walking back from its
    /// head; a walk longer than the number of turns stops there.
    pub fn get_first_turn(&self, context_id: u64) -> (r: Result<TurnRecord, StoreError>)
        ensures
            !self.heads().contains_key(context_id) ==> (r matches Err(e) && e@ == SpecStoreError::NotFound("context"@)),
            self.heads().contains_key(context_id) ==> match first_turn_spec(
                self.turns(),
                self.heads()[context_id].head_turn_id,
                (self.turns().dom().len() + 1) as nat,
            ) {
                Ok(t) => r == Ok::<TurnRecord, StoreError>(t),
                Err(m) => r matches Err(e) && e@ == SpecStoreError::NotFound(m),
            },
    {
        let head = match self.heads.get(&context_id) {
            Some(h) => *h,
            None => {
                return Err(StoreError::NotFound(owned("context")));
            },
        };
        let mut remaining: usize = self.turns.len();
        let mut current = head.head_turn_id;
        while current != 0
            invariant
                self.heads@.contains_key(context_id),
                head == self.heads@[context_id],
                first_turn_spec(self.turns@, head.head_turn_id, (self.turns@.dom().len() + 1) as nat)
                    == first_turn_spec(self.turns@, current, (remaining + 1) as nat),
            decreases remaining,
        {
            let rec = match self.turns.get(&current) {
                Some(t) => *t,
                None => {
                    return Err(StoreError::NotFound(owned("turn")));
                },
            };
            if rec.depth == 0 {
                return Ok(rec);
            }
            if remaining == 0 {
                assert(first_turn_spec(self.turns@, rec.parent_turn_id, 0) == Err::<TurnRecord, Seq<char>>(
                    "first turn"@,
                ));
                return Err(StoreError::NotFound(owned("first turn")));
            }
            current = rec.parent_turn_id;
            remaining = remaining - 1;
        }
        Err(StoreError::NotFound(owned("first turn")))
    }

    /// The heads of the most recently created contexts, newest first, at
    /// most `limit` of them.
    pub fn list_recent_contexts(&self, limit: u32) -> (r: Vec<ContextHead>)
        ensures
            r@.len() == if limit as nat <= self.heads().dom().len() {
                limit as nat
            } else {
                self.heads().dom().len()
            },
            forall|i: int, j: int|
                0 <= i < j < r@.len() ==> #[trigger] r@[i].created_at_unix_ms >= #[trigger] r@[j].created_at_unix_ms,
            forall|i: int| 0 <= i < r@.len() ==> self.heads().values().contains(#[trigger] r@[i]),
            forall|h: ContextHead|
                #[trigger] self.heads().values().contains(h) ==> (exists|i: int| 0 <= i < r@.len() && r@[i] == h) || (
                forall|i: int| 0 <= i < r@.len() ==> h.created_at_unix_ms <= #[trigger] r@[i].created_at_unix_ms),
    {
        let mut sorted: Vec<ContextHead> = Vec::new();
        for h in it: self.heads.values()
            invariant
                it.seq().unref().to_set() == self.heads@.values(),
                it.seq().len() == self.heads@.dom().len(),
                sorted@.len() == it.index(),
                forall|i: int, j: int|
                    0 <= i < j < sorted@.len() ==> #[trigger] sorted@[i].created_at_unix_ms
                        >= #[trigger] sorted@[j].created_at_unix_ms,
                forall|i: int| 0 <= i < sorted@.len() ==> self.heads@.values().contains(#[trigger] sorted@[i]),
                forall|j: int| 0 <= j < it.index() ==> sorted@.contains(#[trigger] it.seq().unref()[j]),
                it.index() == it.seq().len() ==> forall|g: ContextHead|
                    #[trigger] self.heads@.values().contains(g) ==> sorted@.contains(g),
        {
            proof {
                let sq = it.seq().unref();
                let idx = it.index() as int;
                assert(sq[idx] == *h);
                assert(sq.to_set().contains(sq[idx]));
            }
            let p = insert_position(&sorted, h.created_at_unix_ms);
            let ghost before = sorted@;
            sorted.insert(p, *h);
            proof {
                let sq = it.seq().unref();
                let idx = it.index() as int;
                let n = sorted@;
                assert forall|i: int, j: int|
                    0 <= i < j < n.len() implies #[trigger] n[i].created_at_unix_ms >= #[trigger] n[j].created_at_unix_ms by {
                    if j < p {
                        assert(n[i] == before[i] && n[j] == before[j]);
                    } else if j == p {
                        assert(n[i] == before[i]);
                    } else if i < p {
                        assert(n[i] == before[i] && n[j] == before[j - 1]);
                    } else if i == p {
                        assert(n[j] == before[j - 1]);
                        assert(before[p as int].created_at_unix_ms < h.created_at_unix_ms);
                        if j - 1 > p {
                            assert(before[p as int].created_at_unix_ms >= before[j - 1].created_at_unix_ms);
                        }
                    } else {
                        assert(n[i] == before[i - 1] && n[j] == before[j - 1]);
                    }
                }
                assert forall|i: int| 0 <= i < n.len() implies self.heads@.values().contains(#[trigger] n[i]) by {
                    if i < p {
                        assert(n[i] == before[i]);
                    } else if i > p {
                        assert(n[i] == before[i - 1]);
                    }
                }
                assert forall|j: int| 0 <= j < idx + 1 implies n.contains(#[trigger] sq[j]) by {
                    if j < idx {
                        assert(before.contains(sq[j]));
                        let k = choose|k: int| 0 <= k < before.len() && before[k] == sq[j];
                        if k < p {
                            assert(n[k] == before[k]);
                        } else {
                            assert(n[k + 1] == before[k]);
                        }
                    } else {
                        assert(n[p as int] == sq[j]);
                    }
                }
                assert forall|g: ContextHead|
                    idx + 1 == sq.len() && #[trigger] self.heads@.values().contains(g) implies n.contains(g) by {
                    assert(sq.to_set().contains(g));
                    let j = choose|j: int| 0 <= j < sq.len() && sq[j] == g;
                    assert(n.contains(sq[j]));
                }
            }
        }
        let ghost full = sorted@;
        sorted.truncate(limit as usize);
        proof {
            let r = sorted@;
            assert forall|h: ContextHead| #[trigger] self.heads@.values().contains(h) implies (exists|i: int|
                0 <= i < r.len() && r[i] == h) || (forall|i: int|
                0 <= i < r.len() ==> h.created_at_unix_ms <= #[trigger] r[i].created_at_unix_ms) by {
                assert(full.contains(h));
                let k = choose|k: int| 0 <= k < full.len() && full[k] == h;
                if k < r.len() {
                    assert(r[k] == h);
                } else {
                    assert forall|i: int| 0 <= i < r.len() implies h.created_at_unix_ms <= #[trigger] r[i].created_at_unix_ms by {
                        assert(r[i] == full[i]);
                    }
                }
            }
            assert forall|i: int, j: int|
                0 <= i < j < r.len() implies #[trigger] r[i].created_at_unix_ms >= #[trigger] r[j].created_at_unix_ms by {
                assert(r[i] == full[i] && r[j] == full[j]);
            }
            assert forall|i: int| 0 <= i < r.len() implies self.heads@.values().contains(#[trigger] r[i]) by {
                assert(r[i] == full[i]);
            }
        }
        sorted
    }

    /// Counts of the store, with the sizes of its files.
    pub fn stats(
        &self,
        turns_log_bytes: u64,
        turns_index_bytes: u64,
        turns_meta_bytes: u64,
        heads_table_bytes: u64,
    ) -> (r: TurnStoreStats)
        ensures
            r.turns_total == self.turns().dom().len(),
            r.contexts_total == self.heads().dom().len(),
            r.heads_total == self.heads().dom().len(),
            r.turns_log_bytes == turns_log_bytes,
            r.turns_index_bytes == turns_index_bytes,
            r.turns_meta_bytes == turns_meta_bytes,
            r.heads_table_bytes == heads_table_bytes,
    {
        TurnStoreStats {
            turns_total: self.turns.len(),
            contexts_total: self.heads.len(),
            heads_total: self.heads.len(),
            turns_log_bytes,
            turns_index_bytes,
            turns_meta_bytes,
            heads_table_bytes,
        }
    }

    /// Every turn with its log offset, once each, in no particular order:
    /// what the index file is rewritten with on opening.
    pub fn index_entries(&self) -> (r: Vec<(u64, u64)>)
        ensures
            r@.len() == self.offsets().dom().len(),
            forall|i: int| 0 <= i < r@.len() ==> self.offsets().contains_key((#[trigger] r@[i]).0) && r@[i].1
                == self.offsets()[r@[i].0],
            forall|k: u64| #[trigger] self.offsets().contains_key(k) ==> exists|i: int| 0 <= i < r@.len() && r@[i].0 == k,
    {
        let mut out: Vec<(u64, u64)> = Vec::new();
        for k in it: self.turn_index.keys()
            invariant
                it.seq().unref().to_set() == self.turn_index@.dom(),
                it.seq().len() == self.turn_index@.dom().len(),
                out@.len() == it.index(),
                forall|i: int| 0 <= i < out@.len() ==> out@[i].0 == #[trigger] it.seq().unref()[i],
                forall|i: int| 0 <= i < out@.len() ==> self.turn_index@.contains_key((#[trigger] out@[i]).0) && out@[i].1
                    == self.turn_index@[out@[i].0],
                it.index() == it.seq().len() ==> forall|g: u64| #[trigger] self.turn_index@.contains_key(g) ==> exists|i: int|
                    0 <= i < out@.len() && out@[i].0 == g,
        {
            proof {
                let sq = it.seq().unref();
                let idx = it.index() as int;
                assert(sq[idx] == *k);
                assert(sq.to_set().contains(sq[idx]));
            }
            let off = match self.turn_index.get(k) {
                Some(o) => *o,
                None => 0,
            };
            out.push((*k, off));
            proof {
                let sq = it.seq().unref();
                let idx = it.index() as int;
                assert forall|g: u64|
                    idx + 1 == sq.len() && #[trigger] self.turn_index@.contains_key(g) implies exists|i: int|
                        0 <= i < out@.len() && out@[i].0 == g by {
                    assert(sq.to_set().contains(g));
                    let j = choose|j: int| 0 <= j < sq.len() && sq[j] == g;
                    assert(out@[j].0 == sq[j]);
                }
            }
        }
        out
    }

    /// Starts a context: its id is the next context id, and its head is the
    /// base turn (none for 0).  The head is not stored yet (see
    /// [`TurnStore::install_head`]); a base turn the store lacks is refused.
    pub fn plan_context(&mut self, base_turn_id: u64, now_ms: u64) -> (r: Result<ContextHead, StoreError>)
        requires
            old(self).next_context() < u64::MAX,
        ensures
            final(self).turns() == old(self).turns(),
            final(self).offsets() == old(self).offsets(),
            final(self).metas() == old(self).metas(),
            final(self).heads() == old(self).heads(),
            final(self).next_turn() == old(self).next_turn(),
            base_turn_id != 0 && !old(self).turns().contains_key(base_turn_id) ==> (r matches Err(e) && e@
                == SpecStoreError::NotFound("base turn"@) && final(self).next_context() == old(self).next_context()),
            base_turn_id == 0 || old(self).turns().contains_key(base_turn_id) ==> r == Ok::<ContextHead, StoreError>(
                ContextHead {
                    context_id: old(self).next_context(),
                    head_turn_id: if base_turn_id == 0 {
                        0
                    } else {
                        old(self).turns()[base_turn_id].turn_id
                    },
                    head_depth: if base_turn_id == 0 {
                        0
                    } else {
                        old(self).turns()[base_turn_id].depth
                    },
                    created_at_unix_ms: now_ms,
                    flags: 0,
                },
            ) && final(self).next_context() == old(self).next_context() + 1,
    {
        let (head_turn_id, head_depth) = if base_turn_id == 0 {
            (0u64, 0u32)
        } else {
            match self.turns.get(&base_turn_id) {
                Some(t) => (t.turn_id, t.depth),
                None => {
                    return Err(StoreError::NotFound(owned("base turn")));
                },
            }
        };
        let context_id = self.next_context_id;
        self.next_context_id = self.next_context_id + 1;
        Ok(ContextHead { context_id, head_turn_id, head_depth, created_at_unix_ms: now_ms, flags: 0 })
    }

    /// Stores a head (written to the head table first), replacing the
    /// context's earlier head.
    pub fn install_head(&mut self, head: ContextHead)
        ensures
            final(self).heads() == old(self).heads().insert(head.context_id, head),
            final(self).turns() == old(self).turns(),
            final(self).offsets() == old(self).offsets(),
            final(self).metas() == old(self).metas(),
            final(self).next_turn() == old(self).next_turn(),
            final(self).next_context() == old(self).next_context(),
    {
        self.heads.insert(head.context_id, head);
    }

    /// Creates a context on a base turn (none for 0) and stores its head.
    pub fn create_context(&mut self, base_turn_id: u64, now_ms: u64) -> (r: Result<ContextHead, StoreError>)
        requires
            old(self).next_context() < u64::MAX,
        ensures
            final(self).turns() == old(self).turns(),
            final(self).next_turn() == old(self).next_turn(),
            base_turn_id != 0 && !old(self).turns().contains_key(base_turn_id) ==> (r matches Err(e) && e@
                == SpecStoreError::NotFound("base turn"@) && final(self).heads() == old(self).heads()),
            base_turn_id == 0 || old(self).turns().contains_key(base_turn_id) ==> (r matches Ok(h) && h.context_id
                == old(self).next_context() && h.head_turn_id == (if base_turn_id == 0 {
                0
            } else {
                old(self).turns()[base_turn_id].turn_id
            }) && h.created_at_unix_ms == now_ms && final(self).heads() == old(self).heads().insert(h.context_id, h)
                && final(self).next_context() == old(self).next_context() + 1),
    {
        let head = self.plan_context(base_turn_id, now_ms)?;
        self.install_head(head);
        Ok(head)
    }

    /// Creates a context whose history is that of a base turn.
    pub fn fork_context(&mut self, base_turn_id: u64, now_ms: u64) -> (r: Result<ContextHead, StoreError>)
        requires
            old(self).next_context() < u64::MAX,
        ensures
            final(self).turns() == old(self).turns(),
            base_turn_id != 0 && !old(self).turns().contains_key(base_turn_id) ==> (r matches Err(e) && e@
                == SpecStoreError::NotFound("base turn"@) && final(self).heads() == old(self).heads()),
            base_turn_id == 0 || old(self).turns().contains_key(base_turn_id) ==> (r matches Ok(h) && h.context_id
                == old(self).next_context() && h.head_turn_id == (if base_turn_id == 0 {
                0
            } else {
                old(self).turns()[base_turn_id].turn_id
            }) && final(self).heads() == old(self).heads().insert(h.context_id, h)),
    {
        self.create_context(base_turn_id, now_ms)
    }

    /// Whether a context can be planned: context ids are not used up.
    pub fn context_ids_left(&self) -> (r: bool)
        ensures
            r == (self.next_context() < u64::MAX),
    {
        self.next_context_id < u64::MAX
    }

    /// Whether a turn can be planned on this context and parent: turn ids
    /// are not used up and the new turn's depth fits in 32 bits.
    pub fn append_fits(&self, context_id: u64, parent_turn_id: u64) -> (r: bool)
        ensures
            r == (self.next_turn() < u64::MAX && parent_depth_fits(self.turns(), self.heads(), context_id, parent_turn_id)),
    {
        if self.next_turn_id == u64::MAX {
            return false;
        }
        if parent_turn_id != 0 {
            match self.turns.get(&parent_turn_id) {
                Some(p) => p.depth < u32::MAX,
                None => true,
            }
        } else {
            match self.heads.get(&context_id) {
                Some(h) => if h.head_turn_id == 0 {
                    true
                } else {
                    match self.turns.get(&h.head_turn_id) {
                        Some(p) => p.depth < u32::MAX,
                        None => true,
                    }
                },
                None => true,
            }
        }
    }

    /// Starts appending a turn to a context: resolves its parent (the given
    /// turn, or else the context's head turn), takes the next turn id, and
    /// returns the turn and its metadata, to be written to the log, index
    /// and metadata files and then stored with [`TurnStore::commit_append`].
    pub fn plan_append(
        &mut self,
        context_id: u64,
        parent_turn_id: u64,
        payload_hash: [u8; 32],
        encoding: u32,
        declared_type_id: String,
        declared_type_version: u32,
        compression: u32,
        uncompressed_len: u32,
        now_ms: u64,
    ) -> (r: Result<(TurnRecord, TurnMeta), StoreError>)
        requires
            old(self).next_turn() < u64::MAX,
            parent_depth_fits(old(self).turns(), old(self).heads(), context_id, parent_turn_id),
        ensures
            final(self).turns() == old(self).turns(),
            final(self).offsets() == old(self).offsets(),
            final(self).metas() == old(self).metas(),
            final(self).heads() == old(self).heads(),
            final(self).next_context() == old(self).next_context(),
            match parent_of(old(self).turns(), old(self).heads(), context_id, parent_turn_id) {
                Err(m) => r matches Err(e) && e@ == SpecStoreError::NotFound(m) && final(self).next_turn() == old(self).next_turn(),
                Ok((pid, depth)) => r matches Ok((rec, meta)) && rec == (TurnRecord {
                    turn_id: old(self).next_turn(),
                    parent_turn_id: pid,
                    depth: depth as u32,
                    codec: encoding,
                    type_tag: 0,
                    payload_hash,
                    flags: 0,
                    created_at_unix_ms: now_ms,
                }) && meta@ == (SpecTurnMeta {
                    declared_type_id: declared_type_id@,
                    declared_type_version,
                    encoding,
                    compression,
                    uncompressed_len,
                }) && final(self).next_turn() == old(self).next_turn() + 1,
            },
    {
        let (parent_id, depth) = if parent_turn_id != 0 {
            match self.turns.get(&parent_turn_id) {
                Some(p) => (p.turn_id, p.depth + 1),
                None => {
                    return Err(StoreError::NotFound(owned("parent turn")));
                },
            }
        } else {
            let head = match self.heads.get(&context_id) {
                Some(h) => *h,
                None => {
                    return Err(StoreError::NotFound(owned("context")));
                },
            };
            if head.head_turn_id == 0 {
                (0u64, 0u32)
            } else {
                match self.turns.get(&head.head_turn_id) {
                    Some(p) => (p.turn_id, p.depth + 1),
                    None => {
                        return Err(StoreError::NotFound(owned("head turn")));
                    },
                }
            }
        };
        let turn_id = self.next_turn_id;
        self.next_turn_id = self.next_turn_id + 1;
        let record = TurnRecord {
            turn_id,
            parent_turn_id: parent_id,
            depth,
            codec: encoding,
            type_tag: 0,
            payload_hash,
            flags: 0,
            created_at_unix_ms: now_ms,
        };
        let meta = TurnMeta { declared_type_id, declared_type_version, encoding, compression, uncompressed_len };
        Ok((record, meta))
    }

    /// Stores an appended turn (already written to the files) with its
    /// metadata and log offset, and returns the context's new head, to be
    /// written to the head table and then stored with
    /// [`TurnStore::install_head`].
    pub fn commit_append(&mut self, context_id: u64, record: TurnRecord, meta: TurnMeta, offset: u64) -> (h: ContextHead)
        ensures
            final(self).turns() == old(self).turns().insert(record.turn_id, record),
            final(self).offsets() == old(self).offsets().insert(record.turn_id, offset),
            final(self).metas() == old(self).metas().insert(record.turn_id, meta@),
            final(self).heads() == old(self).heads(),
            final(self).next_turn() == old(self).next_turn(),
            final(self).next_context() == old(self).next_context(),
            h == (ContextHead {
                context_id,
                head_turn_id: record.turn_id,
                head_depth: record.depth,
                created_at_unix_ms: record.created_at_unix_ms,
                flags: 0,
            }),
    {
        let ghost m = meta@;
        let ghost before = self.turn_meta@;
        self.turn_meta.insert(record.turn_id, meta);
        proof {
            assert(self.turn_meta@.map_values(|m: TurnMeta| m@) =~= before.map_values(|m: TurnMeta| m@).insert(
                record.turn_id,
                m,
            ));
        }
        self.turns.insert(record.turn_id, record);
        self.turn_index.insert(record.turn_id, offset);
        ContextHead {
            context_id,
            head_turn_id: record.turn_id,
            head_depth: record.depth,
            created_at_unix_ms: record.created_at_unix_ms,
            flags: 0,
        }
    }

    /// Appends a turn to a context and makes it the context's head: the
    /// steps of [`TurnStore::plan_append`], [`TurnStore::commit_append`] and
    /// [`TurnStore::install_head`] with nothing written between them.
    pub fn append_turn(
        &mut self,
        context_id: u64,
        parent_turn_id: u64,
        payload_hash: [u8; 32],
        encoding: u32,
        declared_type_id: String,
        declared_type_version: u32,
        compression: u32,
        uncompressed_len: u32,
        now_ms: u64,
        log_offset: u64,
    ) -> (r: Result<TurnRecord, StoreError>)
        requires
            old(self).next_turn() < u64::MAX,
            parent_depth_fits(old(self).turns(), old(self).heads(), context_id, parent_turn_id),
        ensures
            final(self).next_context() == old(self).next_context(),
            match parent_of(old(self).turns(), old(self).heads(), context_id, parent_turn_id) {
                Err(m) => r matches Err(e) && e@ == SpecStoreError::NotFound(m) && final(self).turns() == old(self).turns() && final(self).heads() == old(self).heads() && final(self).next_turn() == old(self).next_turn(),
                Ok((pid, depth)) => r matches Ok(rec) && rec == (TurnRecord {
                    turn_id: old(self).next_turn(),
                    parent_turn_id: pid,
                    depth: depth as u32,
                    codec: encoding,
                    type_tag: 0,
                    payload_hash,
                    flags: 0,
                    created_at_unix_ms: now_ms,
                }) && final(self).turns() == old(self).turns().insert(rec.turn_id, rec) && final(self).offsets() == old(self).offsets().insert(rec.turn_id, log_offset) && final(self).metas() == old(self).metas().insert(
                    rec.turn_id,
                    SpecTurnMeta {
                        declared_type_id: declared_type_id@,
                        declared_type_version,
                        encoding,
                        compression,
                        uncompressed_len,
                    },
                ) && final(self).heads() == old(self).heads().insert(
                    context_id,
                    ContextHead {
                        context_id,
                        head_turn_id: rec.turn_id,
                        head_depth: rec.depth,
                        created_at_unix_ms: now_ms,
                        flags: 0,
                    },
                ) && final(self).next_turn() == old(self).next_turn() + 1,
            },
    {
        let (record, meta) = self.plan_append(
            context_id,
            parent_turn_id,
            payload_hash,
            encoding,
            declared_type_id,
            declared_type_version,
            compression,
            uncompressed_len,
            now_ms,
        )?;
        let head = self.commit_append(context_id, record, meta, log_offset);
        self.install_head(head);
        Ok(record)
    }
}

/// Where a head created at `created` goes in heads ordered newest first:
/// after every head created at the same time or later.
fn insert_position(sorted: &Vec<ContextHead>, created: u64) -> (p: usize)
    ensures
        p <= sorted@.len(),
        forall|a: int| 0 <= a < p ==> #[trigger] sorted@[a].created_at_unix_ms >= created,
        p < sorted@.len() ==> sorted@[p as int].created_at_unix_ms < created,
{
    let mut p: usize = 0;
    while p < sorted.len() && sorted[p].created_at_unix_ms >= created
        invariant
            p <= sorted@.len(),
            forall|a: int| 0 <= a < p ==> #[trigger] sorted@[a].created_at_unix_ms >= created,
        decreases sorted@.len() - p,
    {
        p = p + 1;
    }
    p
}

/// Where a turn appended to a context hangs: the given parent, or else
/// the context's head turn; the parent's id and the new turn's depth, or
/// what is missing.
pub open spec fn parent_of(turns: Map<u64, TurnRecord>, heads: Map<u64, ContextHead>, context_id: u64, parent_turn_id: u64) -> Result<
    (u64, int),
    Seq<char>,
> {
    if parent_turn_id != 0 {
        if !turns.contains_key(parent_turn_id) {
            Err("parent turn"@)
        } else {
            Ok((turns[parent_turn_id].turn_id, turns[parent_turn_id].depth + 1))
        }
    } else if !heads.contains_key(context_id) {
        Err("context"@)
    } else if heads[context_id].head_turn_id == 0 {
        Ok((0, 0))
    } else if !turns.contains_key(heads[context_id].head_turn_id) {
        Err("head turn"@)
    } else {
        Ok((turns[heads[context_id].head_turn_id].turn_id, turns[heads[context_id].head_turn_id].depth + 1))
    }
}

/// The new turn's depth fits in 32 bits.
pub open spec fn parent_depth_fits(
    turns: Map<u64, TurnRecord>,
    heads: Map<u64, ContextHead>,
    context_id: u64,
    parent_turn_id: u64,
) -> bool {
    parent_of(turns, heads, context_id, parent_turn_id) matches Ok((_, d)) ==> d <= u32::MAX
}

/// The turns in the opposite order.
fn reversed(v: &Vec<TurnRecord>) -> (r: Vec<TurnRecord>)
    ensures
        r@ == v@.reverse(),
{
    let mut out: Vec<TurnRecord> = Vec::new();
    let mut i: usize = v.len();
    while i > 0
        invariant
            i <= v@.len(),
            out@ == v@.subrange(i as int, v@.len() as int).reverse(),
        decreases i,
    {
        i = i - 1;
        out.push(v[i]);
        assert(out@ =~= v@.subrange(i as int, v@.len() as int).reverse());
    }
    assert(v@.subrange(0, v@.len() as int) =~= v@);
    out
}


/// The bytes of an index entry: turn id and log offset (8 bytes each).
pub open spec fn index_entry_spec(turn_id: u64, offset: u64) -> Seq<u8> {
    le_bytes(turn_id as nat, 8) + le_bytes(offset as nat, 8)
}

/// The bytes of index entries in order.
pub open spec fn index_file_spec(es: Seq<(u64, u64)>) -> Seq<u8>
    decreases es.len(),
{
    if es.len() == 0 {
        seq![]
    } else {
        index_file_spec(es.drop_last()) + index_entry_spec(es.last().0, es.last().1)
    }
}

/// Writes an index entry.
pub fn encode_index_entry(turn_id: u64, offset: u64) -> (r: Vec<u8>)
    ensures
        r@ == index_entry_spec(turn_id, offset),
{
    let mut buf: Vec<u8> = Vec::new();
    push_le(&mut buf, turn_id, 8);
    push_le(&mut buf, offset, 8);
    assert(buf@ =~= index_entry_spec(turn_id, offset));
    buf
}

/// Writes index entries in order.
pub fn encode_index(entries: &Vec<(u64, u64)>) -> (r: Vec<u8>)
    ensures
        r@ == index_file_spec(entries@),
{
    let mut buf: Vec<u8> = Vec::new();
    let mut i: usize = 0;
    while i < entries.len()
        invariant
            i <= entries@.len(),
            buf@ == index_file_spec(entries@.take(i as int)),
        decreases entries@.len() - i,
    {
        let ghost before = buf@;
        push_le(&mut buf, entries[i].0, 8);
        push_le(&mut buf, entries[i].1, 8);
        proof {
            assert(entries@.take(i + 1).drop_last() =~= entries@.take(i as int));
            assert(buf@ =~= before + index_entry_spec(entries@[i as int].0, entries@[i as int].1));
        }
        i = i + 1;
    }
    assert(entries@.take(entries@.len() as int) =~= entries@);
    buf
}

// ---------------------------------------------------------------------------
// Laws of appending
// ---------------------------------------------------------------------------

/// Turns that hang in order: each is kept under its own id, and its parent
/// (if any) has a smaller id.  Appending keeps this ([`law_append_keeps_order`]).
pub open spec fn chain_wf(turns: Map<u64, TurnRecord>) -> bool {
    forall|k: u64| #[trigger] turns.contains_key(k) ==> turns[k].turn_id == k && turns[k].parent_turn_id < k
}

proof fn lemma_chain_unaffected(turns: Map<u64, TurnRecord>, r: TurnRecord, x: u64, n: nat)
    requires
        chain_wf(turns),
        x < r.turn_id,
    ensures
        chain_back(turns.insert(r.turn_id, r), x, n) == chain_back(turns, x, n),
    decreases n,
{
    if n > 0 && x != 0 && turns.contains_key(x) {
        lemma_chain_unaffected(turns, r, turns[x].parent_turn_id, (n - 1) as nat);
    }
}

/// Appending a turn after turns that hang in order extends the history that
/// the turn ends by that turn: walking back `n + 1` turns from it gives it,
/// then what walking back `n` turns from its parent gave before.
pub proof fn law_append_extends_chain(turns: Map<u64, TurnRecord>, r: TurnRecord, n: nat)
    requires
        chain_wf(turns),
        r.turn_id != 0,
        r.parent_turn_id < r.turn_id,
    ensures
        chain_back(turns.insert(r.turn_id, r), r.turn_id, n + 1) == match chain_back(turns, r.parent_turn_id, n) {
            Some(s) => Some(seq![r] + s),
            None => None,
        },
{
    lemma_chain_unaffected(turns, r, r.parent_turn_id, n);
}

/// The turn just appended is the last turn of its history: walking back one
/// turn from it gives exactly it.
pub proof fn law_last_turn_is_appended(turns: Map<u64, TurnRecord>, r: TurnRecord)
    requires
        r.turn_id != 0,
    ensures
        chain_back(turns.insert(r.turn_id, r), r.turn_id, 1) == Some(seq![r]),
{
    let t = turns.insert(r.turn_id, r);
    assert(chain_back(t, r.parent_turn_id, 0) == Some(Seq::<TurnRecord>::empty()));
    assert(seq![r] + Seq::<TurnRecord>::empty() =~= seq![r]);
}

/// Appending a turn whose id exceeds every id present and whose parent is
/// present (or none) keeps turns hanging in order.
pub proof fn law_append_keeps_order(turns: Map<u64, TurnRecord>, r: TurnRecord)
    requires
        chain_wf(turns),
        r.turn_id != 0,
        forall|k: u64| #[trigger] turns.contains_key(k) ==> k < r.turn_id,
        r.parent_turn_id == 0 || turns.contains_key(r.parent_turn_id),
    ensures
        chain_wf(turns.insert(r.turn_id, r)),
{
    if r.parent_turn_id != 0 {
        assert(r.parent_turn_id < r.turn_id);
    }
}

} // verus!
