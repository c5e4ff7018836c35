//! The blob store's file formats: the pack of blob records and the index of
//! where each blob lies.
//!
//! A pack record is a 48-byte header (magic, version, codec, raw length,
//! stored length, hash), the stored bytes, and a CRC-32 of header and stored
//! bytes.  An index entry is 52 bytes: hash, offset, raw length, stored
//! length, codec and two reserved bytes.  All numbers are little-endian.
//! Opening, reading and writing the files live with the program.
use vstd::prelude::*;
use crate::server::error::{SpecStoreError, StoreError};
use crate::server::protocol::read_hash;
use crate::server::wire::{copy_bytes, le_bytes, le_value, lemma_le_value_bound, lemma_pow256_values, push_bytes, push_le, read_le};
use crate::text::{concat, owned};
use crate::client::fstree::snapshot::same_hash;

verus! {

/// Magic number of a pack record, `BSLB` read as a little-endian word.
pub const BLOB_MAGIC: u32 = 0x42534C42;
/// Version of the pack record format.
pub const BLOB_VERSION: u16 = 1;
/// Size of an index entry.
pub const INDEX_ENTRY_SIZE: usize = 52;
/// Size of a pack record's header.
pub const BLOB_HEADER_SIZE: usize = 48;

/// How a blob's bytes are stored.
#[derive(Debug, Clone, Copy, PartialEq, Eq, Structural)]
pub enum BlobCodec {
    Plain,
    Zstd,
}

impl BlobCodec {
    /// The codec's number on disk: 0 for none, 1 for zstd.
    pub fn code(&self) -> (c: u16)
        ensures
            c == codec_number(*self),
    {
        match self {
            BlobCodec::Plain => 0,
            BlobCodec::Zstd => 1,
        }
    }
}

pub open spec fn codec_number(c: BlobCodec) -> u16 {
    match c {
        BlobCodec::Plain => 0,
        BlobCodec::Zstd => 1,
    }
}

/// The codec with this number, if any.
pub open spec fn codec_of(n: nat) -> Option<BlobCodec> {
    if n == 0 {
        Some(BlobCodec::Plain)
    } else if n == 1 {
        Some(BlobCodec::Zstd)
    } else {
        None
    }
}

/// Where a blob lies in the pack and how it is stored.
#[derive(Debug, Clone, Copy, PartialEq, Eq, Structural)]
pub struct BlobIndexEntry {
    pub offset: u64,
    pub raw_len: u32,
    pub stored_len: u32,
    pub codec: BlobCodec,
}

/// Counts of the blob store.
#[derive(Debug, Clone, Copy)]
pub struct BlobStoreStats {
    pub blobs_total: usize,
    pub pack_bytes: u64,
    pub idx_bytes: u64,
}

/// One entry of the index file.
#[derive(Debug, Clone, Copy)]
pub struct IndexRecord {
    pub hash: [u8; 32],
    pub entry: BlobIndexEntry,
}

// ---------------------------------------------------------------------------
// The index file
// ---------------------------------------------------------------------------

/// The bytes of an index entry.
pub open spec fn index_entry_spec(hash: Seq<u8>, e: BlobIndexEntry) -> Seq<u8> {
    hash + le_bytes(e.offset as nat, 8) + le_bytes(e.raw_len as nat, 4) + le_bytes(e.stored_len as nat, 4)
        + le_bytes(codec_number(e.codec) as nat, 2) + le_bytes(0, 2)
}

/// Writes an index entry.
pub fn index_entry_bytes(hash: &[u8; 32], e: &BlobIndexEntry) -> (r: Vec<u8>)
    ensures
        r@ == index_entry_spec(hash@, *e),
{
    let mut out: Vec<u8> = Vec::new();
    push_bytes(&mut out, hash);
    push_le(&mut out, e.offset, 8);
    push_le(&mut out, e.raw_len as u64, 4);
    push_le(&mut out, e.stored_len as u64, 4);
    push_le(&mut out, e.codec.code() as u64, 2);
    push_le(&mut out, 0, 2);
    assert(out@ =~= index_entry_spec(hash@, *e));
    out
}

/// The entry stored in the 52 bytes of `c`, or the number of an unknown
/// codec.
pub open spec fn index_entry_of(c: Seq<u8>) -> Result<(Seq<u8>, BlobIndexEntry), nat> {
    let codec = le_value(c.subrange(48, 50));
    match codec_of(codec) {
        Some(k) => Ok(
            (
                c.subrange(0, 32),
                BlobIndexEntry {
                    offset: le_value(c.subrange(32, 40)) as u64,
                    raw_len: le_value(c.subrange(40, 44)) as u32,
                    stored_len: le_value(c.subrange(44, 48)) as u32,
                    codec: k,
                },
            ),
        ),
        None => Err(codec),
    }
}

/// The entries of the first `n` complete 52-byte chunks of an index file,
/// in order; `None` when one of them names an unknown codec.
pub open spec fn index_prefix(buf: Seq<u8>, n: nat) -> Option<Seq<(Seq<u8>, BlobIndexEntry)>>
    decreases n,
{
    if n == 0 {
        Some(Seq::empty())
    } else {
        match index_prefix(buf, (n - 1) as nat) {
            Some(s) => match index_entry_of(buf.subrange(52 * (n - 1), (52 * n) as int)) {
                Ok(e) => Some(s.push(e)),
                Err(_) => None,
            },
            None => None,
        }
    }
}

/// The records of an index file: those of its complete entries, and the
/// length they span (a partial entry at the end is ignored); an error when
/// an entry names an unknown codec.
pub open spec fn index_file_spec(buf: Seq<u8>) -> Result<(Seq<(Seq<u8>, BlobIndexEntry)>, nat), SpecStoreError> {
    let n = buf.len() / 52;
    match index_prefix(buf, n) {
        Some(s) => Ok((s, 52 * n)),
        None => Err(SpecStoreError::Corrupt("unknown blob codec"@)),
    }
}

pub open spec fn records_view(v: Seq<IndexRecord>) -> Seq<(Seq<u8>, BlobIndexEntry)> {
    v.map_values(|r: IndexRecord| (r.hash@, r.entry))
}

/// Reads an index file: the records of its complete entries, in order (a
/// later record of a hash replaces an earlier one), and the length they
/// span, to which the file is to be cut.
pub fn parse_index(buf: &[u8]) -> (r: Result<(Vec<IndexRecord>, u64), StoreError>)
    ensures
        match (r, index_file_spec(buf@)) {
            (Ok((v, len)), Ok((s, n))) => records_view(v@) == s && len == n,
            (Err(e), Err(m)) => e@ == m,
            _ => false,
        },
{
    proof {
        lemma_pow256_values();
    }
    let n: usize = buf.len() / 52;
    let mut out: Vec<IndexRecord> = Vec::new();
    let mut k: usize = 0;
    while k < n
        invariant
            n == buf@.len() / 52,
            k <= n,
            index_prefix(buf@, k as nat) == Some(records_view(out@)),
        decreases n - k,
    {
        let p = k * 52;
        assert(p + 52 <= buf.len()) by (nonlinear_arith)
            requires
                p == k * 52,
                k < n,
                n == buf.len() / 52,
        ;
        let ghost c = buf@.subrange(p as int, p + 52);
        let codec_raw = read_le(buf, p + 48, 2);
        let offset = read_le(buf, p + 32, 8);
        let raw_len = read_le(buf, p + 40, 4);
        let stored_len = read_le(buf, p + 44, 4);
        proof {
            assert(c.subrange(48, 50) =~= buf@.subrange(p + 48, p + 50));
            assert(c.subrange(32, 40) =~= buf@.subrange(p + 32, p + 40));
            assert(c.subrange(40, 44) =~= buf@.subrange(p + 40, p + 44));
            assert(c.subrange(44, 48) =~= buf@.subrange(p + 44, p + 48));
            assert(c.subrange(0, 32) =~= buf@.subrange(p as int, p + 32));
            lemma_le_value_bound(c.subrange(40, 44));
            lemma_le_value_bound(c.subrange(44, 48));
            assert(52 * (k + 1 - 1) == p && 52 * (k + 1) == p + 52);
        }
        let codec = if codec_raw == 0 {
            BlobCodec::Plain
        } else if codec_raw == 1 {
            BlobCodec::Zstd
        } else {
            proof {
                assert(index_prefix(buf@, (k + 1) as nat) is None);
                lemma_index_prefix_none(buf@, (k + 1) as nat, n as nat);
            }
            return Err(StoreError::Corrupt(owned("unknown blob codec")));
        };
        let hash = read_hash(buf, p);
        let ghost before = out@;
        out.push(
            IndexRecord {
                hash,
                entry: BlobIndexEntry { offset, raw_len: raw_len as u32, stored_len: stored_len as u32, codec },
            },
        );
        proof {
            assert(records_view(out@) =~= records_view(before).push((hash@, out@.last().entry)));
        }
        k = k + 1;
    }
    let len: u64 = (n as u64) * 52;
    Ok((out, len))
}

proof fn lemma_index_prefix_none(buf: Seq<u8>, k: nat, n: nat)
    requires
        index_prefix(buf, k) is None,
        k <= n,
    ensures
        index_prefix(buf, n) is None,
    decreases n - k,
{
    if k < n {
        lemma_index_prefix_none(buf, k + 1, n);
    }
}

// ---------------------------------------------------------------------------
// Pack records
// ---------------------------------------------------------------------------

/// The header of a pack record.
pub open spec fn blob_header_spec(codec: BlobCodec, raw_len: u32, stored_len: u32, hash: Seq<u8>) -> Seq<u8> {
    le_bytes(BLOB_MAGIC as nat, 4) + le_bytes(BLOB_VERSION as nat, 2) + le_bytes(codec_number(codec) as nat, 2)
        + le_bytes(raw_len as nat, 4) + le_bytes(stored_len as nat, 4) + hash
}

/// Writes the header of a pack record.
pub fn blob_header_bytes(codec: BlobCodec, raw_len: u32, stored_len: u32, hash: &[u8; 32]) -> (r: Vec<u8>)
    ensures
        r@ == blob_header_spec(codec, raw_len, stored_len, hash@),
{
    let mut out: Vec<u8> = Vec::new();
    push_le(&mut out, BLOB_MAGIC as u64, 4);
    push_le(&mut out, BLOB_VERSION as u64, 2);
    push_le(&mut out, codec.code() as u64, 2);
    push_le(&mut out, raw_len as u64, 4);
    push_le(&mut out, stored_len as u64, 4);
    push_bytes(&mut out, hash);
    assert(out@ =~= blob_header_spec(codec, raw_len, stored_len, hash@));
    out
}

/// CRC-32 (IEEE) of a byte sequence, as `crc32fast` computes it.
pub uninterp spec fn crc32_of(data: Seq<u8>) -> u32;

/// The CRC-32 of `a` followed by `b`, with `crc32fast::Hasher` fed `a`
/// then `b`; the result is named by [`crc32_of`] of the concatenation.
#[verifier::external_body]
pub(crate) fn crc32_of_parts(a: &[u8], b: &[u8]) -> (r: u32)
    ensures
        r == crc32_of(a@ + b@),
{
    let mut hasher = crc32fast::Hasher::new();
    hasher.update(a);
    hasher.update(b);
    hasher.finalize()
}

/// The whole pack record of a blob: header, stored bytes, CRC.
pub open spec fn blob_record_spec(header: Seq<u8>, stored: Seq<u8>) -> Seq<u8> {
    header + stored + le_bytes(crc32_of(header + stored) as nat, 4)
}

/// Writes a pack record: the header, the stored bytes and their CRC-32.
pub fn blob_record_bytes(header: &[u8], stored: &[u8]) -> (r: Vec<u8>)
    ensures
        r@ == blob_record_spec(header@, stored@),
{
    let crc = crc32_of_parts(header, stored);
    let mut out: Vec<u8> = Vec::new();
    push_bytes(&mut out, header);
    push_bytes(&mut out, stored);
    push_le(&mut out, crc as u64, 4);
    assert(out@ =~= blob_record_spec(header@, stored@));
    out
}

/// What `zstd::encode_all` at level 1 writes for these bytes.
pub uninterp spec fn zstd_frame(data: Seq<u8>) -> Seq<u8>;

/// What `zstd::decode_all` reads from these bytes: the data, or the text
/// of its error.
pub uninterp spec fn zstd_decoded(data: Seq<u8>) -> Result<Seq<u8>, Seq<char>>;

/// Compresses with `zstd::encode_all` at level 1.  Into a `Vec` it reports
/// an error only where it cannot set up its compression context, so the
/// result is taken as always present; the frame is named by [`zstd_frame`].
#[verifier::external_body]
fn zstd_compress(data: &[u8]) -> (r: Option<Vec<u8>>)
    ensures
        r is Some,
        r matches Some(v) ==> v@ == zstd_frame(data@),
{
    zstd::encode_all(data, 1).ok()
}

/// Decompresses with `zstd::decode_all`; the result, data or the error's
/// text, is named by [`zstd_decoded`].
#[verifier::external_body]
fn zstd_decompress(data: &[u8]) -> (r: Result<Vec<u8>, String>)
    ensures
        match (r, zstd_decoded(data@)) {
            (Ok(v), Ok(d)) => v@ == d,
            (Err(m), Err(t)) => m@ == t,
            _ => false,
        },
{
    match zstd::decode_all(data) {
        Ok(v) => Ok(v),
        Err(e) => Err(e.to_string()),
    }
}

/// How a blob is stored: compressed where the compressed form is shorter,
/// else as is.
pub open spec fn stored_form(raw: Seq<u8>, compressed: Option<Seq<u8>>) -> (Seq<u8>, BlobCodec) {
    match compressed {
        Some(c) => if c.len() < raw.len() {
            (c, BlobCodec::Zstd)
        } else {
            (raw, BlobCodec::Plain)
        },
        None => (raw, BlobCodec::Plain),
    }
}

/// Picks how to store a blob given its compressed form, if compression
/// worked.
pub fn choose_stored(raw: &[u8], compressed: Option<Vec<u8>>) -> (r: (Vec<u8>, BlobCodec))
    ensures
        (r.0@, r.1) == stored_form(
            raw@,
            match compressed {
                Some(c) => Some(c@),
                None => None,
            },
        ),
{
    match compressed {
        Some(c) => {
            if c.len() < raw.len() {
                (c, BlobCodec::Zstd)
            } else {
                (copy_bytes(raw, 0, raw.len()), BlobCodec::Plain)
            }
        },
        None => (copy_bytes(raw, 0, raw.len()), BlobCodec::Plain),
    }
}

/// The stored form of a blob: compressed with zstd where that is shorter.
pub fn encode_for_store(raw: &[u8]) -> (r: (Vec<u8>, BlobCodec))
    ensures
        (r.0@, r.1) == stored_form(raw@, Some(zstd_frame(raw@))),
        r.1 == BlobCodec::Zstd ==> r.0@ == zstd_frame(raw@) && r.0@.len() < raw@.len(),
        r.1 == BlobCodec::Plain ==> r.0@ == raw@,
{
    choose_stored(raw, zstd_compress(raw))
}

/// The stored length and position of a record's body (stored bytes and
/// CRC), from its index entry.
pub open spec fn body_location_spec(e: BlobIndexEntry) -> Result<(nat, nat), SpecStoreError> {
    if e.offset + 48 > u64::MAX {
        Err(SpecStoreError::Corrupt("blob offset overflow"@))
    } else if e.stored_len + 4 > usize::MAX {
        Err(SpecStoreError::Corrupt("blob length overflow"@))
    } else {
        Ok(((e.offset + 48) as nat, (e.stored_len + 4) as nat))
    }
}

/// Where a record's body lies and how long it is.
pub fn body_location(e: &BlobIndexEntry) -> (r: Result<(u64, usize), StoreError>)
    ensures
        match (r, body_location_spec(*e)) {
            (Ok((o, n)), Ok((so, sn))) => o == so && n == sn,
            (Err(x), Err(y)) => x@ == y,
            _ => false,
        },
{
    match e.offset.checked_add(48) {
        Some(o) => match (e.stored_len as usize).checked_add(4) {
            Some(n) => Ok((o, n)),
            None => Err(StoreError::Corrupt(owned("blob length overflow"))),
        },
        None => Err(StoreError::Corrupt(owned("blob offset overflow"))),
    }
}

/// What reading a blob gives, from its hash, its index entry, the 48-byte
/// header at its offset and the body after it (stored bytes and CRC):
/// checks in this order, each with its error.
pub open spec fn blob_from_record_spec(hash: Seq<u8>, e: BlobIndexEntry, header: Seq<u8>, body: Seq<u8>) -> Result<Seq<u8>, SpecStoreError> {
    let stored_len = le_value(header.subrange(12, 16));
    let raw_len = le_value(header.subrange(8, 12));
    if le_value(header.subrange(0, 4)) != BLOB_MAGIC {
        Err(SpecStoreError::Corrupt("invalid blob magic"@))
    } else if le_value(header.subrange(4, 6)) != BLOB_VERSION {
        Err(SpecStoreError::Corrupt("unsupported blob version"@))
    } else if header.subrange(16, 48) != hash {
        Err(SpecStoreError::Corrupt("blob hash mismatch"@))
    } else if stored_len != e.stored_len || raw_len != e.raw_len {
        Err(SpecStoreError::Corrupt("blob index/header length mismatch"@))
    } else {
        let stored = body.subrange(0, stored_len as int);
        if le_value(body.subrange(stored_len as int, (stored_len + 4) as int)) != crc32_of(header + stored) {
            Err(SpecStoreError::Corrupt("blob crc mismatch"@))
        } else {
            match codec_of(le_value(header.subrange(6, 8))) {
                None => Err(SpecStoreError::Corrupt("unknown blob codec"@)),
                Some(BlobCodec::Plain) => if stored.len() != raw_len {
                    Err(SpecStoreError::Corrupt("blob length mismatch"@))
                } else {
                    Ok(stored)
                },
                Some(BlobCodec::Zstd) => match zstd_decoded(stored) {
                    Err(m) => Err(SpecStoreError::Corrupt("zstd decode failed: "@ + m)),
                    Ok(d) => if d.len() % 0x1_0000_0000 != raw_len {
                        Err(SpecStoreError::Corrupt("blob length mismatch"@))
                    } else {
                        Ok(d)
                    },
                },
            }
        }
    }
}

/// Checks a pack record read for a blob and gives the blob's bytes.
pub fn blob_from_record(hash: &[u8; 32], e: &BlobIndexEntry, header: &[u8], body: &[u8]) -> (r: Result<Vec<u8>, StoreError>)
    requires
        header@.len() == 48,
        body@.len() == e.stored_len + 4,
    ensures
        match (r, blob_from_record_spec(hash@, *e, header@, body@)) {
            (Ok(v), Ok(s)) => v@ == s,
            (Err(x), Err(y)) => x@ == y,
            _ => false,
        },
{
    proof {
        lemma_pow256_values();
        lemma_le_value_bound(header@.subrange(8, 12));
        lemma_le_value_bound(header@.subrange(12, 16));
    }
    let magic = read_le(header, 0, 4);
    if magic != BLOB_MAGIC as u64 {
        return Err(StoreError::Corrupt(owned("invalid blob magic")));
    }
    let version = read_le(header, 4, 2);
    if version != BLOB_VERSION as u64 {
        return Err(StoreError::Corrupt(owned("unsupported blob version")));
    }
    let codec_raw = read_le(header, 6, 2);
    let raw_len = read_le(header, 8, 4);
    let stored_len = read_le(header, 12, 4);
    let mut i: usize = 0;
    while i < 32
        invariant
            i <= 32,
            header@.len() == 48,
            le_value(header@.subrange(0, 4)) == BLOB_MAGIC,
            le_value(header@.subrange(4, 6)) == BLOB_VERSION,
            forall|j: int| 0 <= j < i ==> header@[16 + j] == hash@[j],
        decreases 32 - i,
    {
        if header[16 + i] != hash[i] {
            proof {
                assert(header@.subrange(16, 48)[i as int] != hash@[i as int]);
            }
            return Err(StoreError::Corrupt(owned("blob hash mismatch")));
        }
        i = i + 1;
    }
    assert(header@.subrange(16, 48) =~= hash@);
    if stored_len != e.stored_len as u64 || raw_len != e.raw_len as u64 {
        return Err(StoreError::Corrupt(owned("blob index/header length mismatch")));
    }
    let n = stored_len as usize;
    let stored = vstd::slice::slice_subrange(body, 0, n);
    let crc = read_le(body, n, 4);
    let actual = crc32_of_parts(header, stored);
    if crc != actual as u64 {
        return Err(StoreError::Corrupt(owned("blob crc mismatch")));
    }
    if codec_raw == 0 {
        if stored.len() as u64 != raw_len {
            return Err(StoreError::Corrupt(owned("blob length mismatch")));
        }
        Ok(copy_bytes(stored, 0, stored.len()))
    } else if codec_raw == 1 {
        match zstd_decompress(stored) {
            Err(m) => Err(StoreError::Corrupt(concat("zstd decode failed: ", m.as_str()))),
            Ok(d) => {
                let len32: u64 = (d.len() as u64) % 0x1_0000_0000;
                if len32 != raw_len {
                    Err(StoreError::Corrupt(owned("blob length mismatch")))
                } else {
                    Ok(d)
                }
            },
        }
    } else {
        Err(StoreError::Corrupt(owned("unknown blob codec")))
    }
}

/// A blob written with [`blob_header_bytes`] and [`blob_record_bytes`] is
/// read back unchanged by [`blob_from_record`] when stored as is.
pub proof fn law_blob_record_roundtrip(hash: Seq<u8>, raw: Seq<u8>)
    requires
        hash.len() == 32,
        raw.len() < 0x1_0000_0000,
    ensures
        ({
            let header = blob_header_spec(BlobCodec::Plain, raw.len() as u32, raw.len() as u32, hash);
            let rec = blob_record_spec(header, raw);
            blob_from_record_spec(
                hash,
                BlobIndexEntry { offset: 0, raw_len: raw.len() as u32, stored_len: raw.len() as u32, codec: BlobCodec::Plain },
                rec.subrange(0, 48),
                rec.subrange(48, rec.len() as int),
            ) == Ok::<Seq<u8>, SpecStoreError>(raw)
        }),
{
    lemma_pow256_values();
    let header = blob_header_spec(BlobCodec::Plain, raw.len() as u32, raw.len() as u32, hash);
    let rec = blob_record_spec(header, raw);
    crate::server::wire::lemma_le_roundtrip(BLOB_MAGIC as nat, 4);
    crate::server::wire::lemma_le_roundtrip(BLOB_VERSION as nat, 2);
    crate::server::wire::lemma_le_roundtrip(0, 2);
    let rl: nat = (raw.len() as u32) as nat;
    assert(rl == raw.len());
    crate::server::wire::lemma_le_roundtrip(rl, 4);
    crate::server::wire::lemma_le_roundtrip(crc32_of(header + raw) as nat, 4);
    let h = rec.subrange(0, 48);
    assert(h =~= header);
    assert(h.subrange(0, 4) =~= le_bytes(BLOB_MAGIC as nat, 4));
    assert(h.subrange(4, 6) =~= le_bytes(BLOB_VERSION as nat, 2));
    assert(h.subrange(6, 8) =~= le_bytes(0, 2));
    assert(h.subrange(8, 12) =~= le_bytes(rl, 4));
    assert(h.subrange(12, 16) =~= le_bytes(rl, 4));
    assert(h.subrange(16, 48) =~= hash);
    let b = rec.subrange(48, rec.len() as int);
    assert(b.subrange(0, raw.len() as int) =~= raw);
    assert(b.subrange(raw.len() as int, (raw.len() + 4) as int) =~= le_bytes(crc32_of(header + raw) as nat, 4));
}

/// An index entry written with [`index_entry_bytes`] reads back unchanged.
pub proof fn law_index_entry_roundtrip(hash: Seq<u8>, e: BlobIndexEntry)
    requires
        hash.len() == 32,
    ensures
        index_entry_of(index_entry_spec(hash, e)) == Ok::<(Seq<u8>, BlobIndexEntry), nat>((hash, e)),
{
    lemma_pow256_values();
    let c = index_entry_spec(hash, e);
    crate::server::wire::lemma_le_roundtrip(e.offset as nat, 8);
    crate::server::wire::lemma_le_roundtrip(e.raw_len as nat, 4);
    crate::server::wire::lemma_le_roundtrip(e.stored_len as nat, 4);
    crate::server::wire::lemma_le_roundtrip(codec_number(e.codec) as nat, 2);
    assert(c.subrange(0, 32) =~= hash);
    assert(c.subrange(32, 40) =~= le_bytes(e.offset as nat, 8));
    assert(c.subrange(40, 44) =~= le_bytes(e.raw_len as nat, 4));
    assert(c.subrange(44, 48) =~= le_bytes(e.stored_len as nat, 4));
    assert(c.subrange(48, 50) =~= le_bytes(codec_number(e.codec) as nat, 2));
}


// ---------------------------------------------------------------------------
// The index in memory
// ---------------------------------------------------------------------------

/// The entries of index records by hash; a later record for a hash
/// replaces an earlier one.
pub open spec fn index_map(s: Seq<IndexRecord>) -> Map<Seq<u8>, BlobIndexEntry>
    decreases s.len(),
{
    if s.len() == 0 {
        Map::empty()
    } else {
        index_map(s.drop_last()).insert(s.last().hash@, s.last().entry)
    }
}

/// The blobs the store holds: where each lies in the pack, by hash.
pub struct BlobIndex {
    records: Vec<IndexRecord>,
}

impl View for BlobIndex {
    type V = Map<Seq<u8>, BlobIndexEntry>;

    closed spec fn view(&self) -> Map<Seq<u8>, BlobIndexEntry> {
        index_map(self.records@)
    }
}

impl BlobIndex {
    /// An index of the records read from the index file, in file order.
    pub fn from_records(records: Vec<IndexRecord>) -> (x: BlobIndex)
        ensures
            x@ == index_map(records@),
    {
        BlobIndex { records }
    }

    /// An empty index.
    pub fn new() -> (x: BlobIndex)
        ensures
            x@ == Map::<Seq<u8>, BlobIndexEntry>::empty(),
    {
        BlobIndex { records: Vec::new() }
    }

    /// Records where a blob lies.
    pub fn insert(&mut self, hash: [u8; 32], entry: BlobIndexEntry)
        ensures
            final(self)@ == old(self)@.insert(hash@, entry),
    {
        let ghost before = self.records@;
        self.records.push(IndexRecord { hash, entry });
        assert(self.records@.drop_last() =~= before);
    }

    /// Where the blob with this hash lies, if the store holds it.
    pub fn get(&self, hash: &[u8; 32]) -> (r: Option<BlobIndexEntry>)
        ensures
            r == (if self@.dom().contains(hash@) {
                Some(self@[hash@])
            } else {
                None
            }),
    {
        let ghost s = self.records@;
        let mut i: usize = self.records.len();
        assert(s.take(s.len() as int) =~= s);
        while i > 0
            invariant
                i <= s.len(),
                s == self.records@,
                index_map(s).dom().contains(hash@) == index_map(s.take(i as int)).dom().contains(hash@),
                index_map(s).dom().contains(hash@) ==> index_map(s)[hash@] == index_map(s.take(i as int))[hash@],
            decreases i,
        {
            let ghost t = s.take(i as int);
            assert(t.drop_last() =~= s.take(i - 1));
            assert(t.last() == s[i - 1]);
            if same_hash(&self.records[i - 1].hash, hash) {
                return Some(self.records[i - 1].entry);
            }
            i = i - 1;
        }
        assert(s.take(0) =~= Seq::<IndexRecord>::empty());
        None
    }

    /// Whether the store holds the blob with this hash.
    pub fn contains(&self, hash: &[u8; 32]) -> (r: bool)
        ensures
            r == self@.dom().contains(hash@),
    {
        self.get(hash).is_some()
    }
}

} // verus!
