use cxdb::server::blob_store::{
    BlobIndex, IndexRecord,
    blob_from_record, blob_header_bytes, blob_record_bytes, body_location, encode_for_store, index_entry_bytes,
    parse_index, BlobCodec, BlobIndexEntry,
};
use cxdb::server::error::StoreError;

fn record_for(hash: [u8; 32], raw: &[u8]) -> (BlobIndexEntry, Vec<u8>) {
    let (stored, codec) = encode_for_store(raw);
    let header = blob_header_bytes(codec, raw.len() as u32, stored.len() as u32, &hash);
    let rec = blob_record_bytes(&header, &stored);
    (BlobIndexEntry { offset: 0, raw_len: raw.len() as u32, stored_len: stored.len() as u32, codec }, rec)
}

#[test]
fn blob_roundtrip_plain_and_compressed() {
    let hash = [7u8; 32];
    for raw in [b"short".to_vec(), vec![b'a'; 4096]] {
        let (entry, rec) = record_for(hash, &raw);
        if raw.len() > 100 {
            assert_eq!(entry.codec, BlobCodec::Zstd);
        } else {
            assert_eq!(entry.codec, BlobCodec::Plain);
        }
        let (off, len) = body_location(&entry).unwrap();
        assert_eq!(off, 48);
        let back = blob_from_record(&hash, &entry, &rec[0..48], &rec[48..48 + len]).unwrap();
        assert_eq!(back, raw);
    }
}

#[test]
fn get_returns_corrupt_when_index_lengths_mismatch_pack_header() {
    let hash = [1u8; 32];
    let (mut entry, rec) = record_for(hash, b"hello world");
    entry.raw_len += 1;
    let err = blob_from_record(&hash, &entry, &rec[0..48], &rec[48..]).unwrap_err();
    assert_eq!(err, StoreError::Corrupt("blob index/header length mismatch".to_string()));
}

#[test]
fn corrupt_records_are_reported() {
    let hash = [2u8; 32];
    let (entry, rec) = record_for(hash, b"payload");
    let mut bad = rec.clone();
    bad[0] ^= 1;
    assert_eq!(
        blob_from_record(&hash, &entry, &bad[0..48], &bad[48..]).unwrap_err(),
        StoreError::Corrupt("invalid blob magic".to_string())
    );
    let mut bad = rec.clone();
    let n = bad.len();
    bad[n - 1] ^= 1;
    assert_eq!(
        blob_from_record(&hash, &entry, &bad[0..48], &bad[48..]).unwrap_err(),
        StoreError::Corrupt("blob crc mismatch".to_string())
    );
    assert_eq!(
        blob_from_record(&[3u8; 32], &entry, &rec[0..48], &rec[48..]).unwrap_err(),
        StoreError::Corrupt("blob hash mismatch".to_string())
    );
    let overflow = BlobIndexEntry { offset: u64::MAX, raw_len: 1, stored_len: 1, codec: BlobCodec::Plain };
    assert_eq!(body_location(&overflow).unwrap_err(), StoreError::Corrupt("blob offset overflow".to_string()));
}

#[test]
fn index_file_roundtrip_and_partial_tail() {
    let e1 = BlobIndexEntry { offset: 0, raw_len: 5, stored_len: 5, codec: BlobCodec::Plain };
    let e2 = BlobIndexEntry { offset: 57, raw_len: 4096, stored_len: 20, codec: BlobCodec::Zstd };
    let mut buf = index_entry_bytes(&[1u8; 32], &e1);
    assert_eq!(buf.len(), 52);
    buf.extend(index_entry_bytes(&[2u8; 32], &e2));
    buf.extend([9u8; 10]);
    let (records, valid) = parse_index(&buf).unwrap();
    assert_eq!(valid, 104);
    assert_eq!(records.len(), 2);
    assert_eq!(records[0].hash, [1u8; 32]);
    assert_eq!(records[1].entry, e2);
    let mut bad = index_entry_bytes(&[1u8; 32], &e1);
    bad[48] = 7;
    assert_eq!(parse_index(&bad).unwrap_err(), StoreError::Corrupt("unknown blob codec".to_string()));
}

#[test]
fn compressible_blob_is_stored_compressed() {
    let raw = vec![b'a'; 4096];
    let (stored, codec) = encode_for_store(&raw);
    assert!(matches!(codec, BlobCodec::Zstd));
    assert!(stored.len() < raw.len());
    assert_eq!(zstd::decode_all(&stored[..]).unwrap(), raw);
}

#[test]
fn blob_index_later_record_wins() {
    let e1 = BlobIndexEntry { offset: 0, raw_len: 3, stored_len: 3, codec: BlobCodec::Plain };
    let e2 = BlobIndexEntry { offset: 55, raw_len: 3, stored_len: 3, codec: BlobCodec::Plain };
    let idx = BlobIndex::from_records(vec![IndexRecord { hash: [1; 32], entry: e1 }, IndexRecord { hash: [1; 32], entry: e2 }]);
    assert_eq!(idx.get(&[1; 32]), Some(e2));
    assert!(!idx.contains(&[2; 32]));
    let mut idx = BlobIndex::new();
    idx.insert([2; 32], e1);
    assert_eq!(idx.get(&[2; 32]), Some(e1));
}
