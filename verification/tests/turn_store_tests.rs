use cxdb::server::error::StoreError;
use cxdb::server::turn_store::{
    encode_head, encode_index, encode_index_entry, encode_turn_meta, encode_turn_record, scan_heads, scan_turn_meta,
    scan_turns_log, ContextHead, TurnMeta, TurnRecord, TurnStore,
};

fn hash(b: u8) -> [u8; 32] {
    [b; 32]
}

fn append(store: &mut TurnStore, ctx: u64, parent: u64, now: u64) -> Result<TurnRecord, StoreError> {
    store.append_turn(ctx, parent, hash(7), 1, "com.example.Msg".to_string(), 2, 0, 10, now, 0)
}

#[test]
fn append_builds_a_chain_and_moves_the_head() {
    let mut store = TurnStore::new();
    let head = store.create_context(0, 100).unwrap();
    assert_eq!((head.context_id, head.head_turn_id, head.head_depth, head.created_at_unix_ms), (1, 0, 0, 100));
    let t1 = append(&mut store, 1, 0, 101).unwrap();
    let t2 = append(&mut store, 1, 0, 102).unwrap();
    let t3 = append(&mut store, 1, 0, 103).unwrap();
    assert_eq!((t1.turn_id, t1.parent_turn_id, t1.depth), (1, 0, 0));
    assert_eq!((t2.turn_id, t2.parent_turn_id, t2.depth), (2, 1, 1));
    assert_eq!((t3.turn_id, t3.parent_turn_id, t3.depth), (3, 2, 2));
    let h = store.get_head(1).unwrap();
    assert_eq!((h.head_turn_id, h.head_depth), (3, 2));
    let last: Vec<u64> = store.get_last(1, 10).unwrap().iter().map(|t| t.turn_id).collect();
    assert_eq!(last, vec![1, 2, 3]);
    let last2: Vec<u64> = store.get_last(1, 2).unwrap().iter().map(|t| t.turn_id).collect();
    assert_eq!(last2, vec![2, 3]);
    let before: Vec<u64> = store.get_before(1, 3, 10).unwrap().iter().map(|t| t.turn_id).collect();
    assert_eq!(before, vec![1, 2]);
    assert_eq!(store.get_first_turn(1).unwrap().turn_id, 1);
    let meta = store.get_turn_meta(2).unwrap();
    assert_eq!(meta.declared_type_id, "com.example.Msg");
    assert_eq!(meta.declared_type_version, 2);
    assert_eq!(store.get_turn(3).unwrap().created_at_unix_ms, 103);
}

#[test]
fn fork_shares_history_and_branches() {
    let mut store = TurnStore::new();
    store.create_context(0, 1).unwrap();
    append(&mut store, 1, 0, 2).unwrap();
    append(&mut store, 1, 0, 3).unwrap();
    let fork = store.fork_context(1, 4).unwrap();
    assert_eq!((fork.context_id, fork.head_turn_id, fork.head_depth), (2, 1, 0));
    let b = append(&mut store, 2, 0, 5).unwrap();
    assert_eq!((b.parent_turn_id, b.depth), (1, 1));
    let fork_last: Vec<u64> = store.get_last(2, 10).unwrap().iter().map(|t| t.turn_id).collect();
    assert_eq!(fork_last, vec![1, 3]);
    let main_last: Vec<u64> = store.get_last(1, 10).unwrap().iter().map(|t| t.turn_id).collect();
    assert_eq!(main_last, vec![1, 2]);
    // an explicit parent wins over the head
    let c = append(&mut store, 1, 1, 6).unwrap();
    assert_eq!((c.parent_turn_id, c.depth), (1, 1));
}

#[test]
fn missing_things_are_not_found() {
    let mut store = TurnStore::new();
    assert_eq!(store.get_head(9).unwrap_err(), StoreError::NotFound("context".to_string()));
    assert_eq!(store.get_turn(9).unwrap_err(), StoreError::NotFound("turn".to_string()));
    assert_eq!(store.get_turn_meta(9).unwrap_err(), StoreError::NotFound("turn meta".to_string()));
    assert_eq!(store.create_context(5, 1).unwrap_err(), StoreError::NotFound("base turn".to_string()));
    assert_eq!(append(&mut store, 9, 0, 1).unwrap_err(), StoreError::NotFound("context".to_string()));
    assert_eq!(append(&mut store, 9, 4, 1).unwrap_err(), StoreError::NotFound("parent turn".to_string()));
    store.create_context(0, 1).unwrap();
    assert_eq!(store.get_first_turn(1).unwrap_err(), StoreError::NotFound("first turn".to_string()));
    assert!(store.get_last(1, 5).unwrap().is_empty());
    assert_eq!(store.get_before(1, 7, 5).unwrap().len(), 0);
}

#[test]
fn recent_contexts_are_newest_first() {
    let mut store = TurnStore::new();
    store.create_context(0, 30).unwrap();
    store.create_context(0, 10).unwrap();
    store.create_context(0, 20).unwrap();
    let all: Vec<u64> = store.list_recent_contexts(10).iter().map(|h| h.created_at_unix_ms).collect();
    assert_eq!(all, vec![30, 20, 10]);
    let two: Vec<u64> = store.list_recent_contexts(2).iter().map(|h| h.context_id).collect();
    assert_eq!(two, vec![1, 3]);
    assert!(store.list_recent_contexts(0).is_empty());
    let stats = store.stats(1, 2, 3, 4);
    assert_eq!((stats.turns_total, stats.contexts_total, stats.heads_total), (0, 3, 3));
    assert_eq!(stats.heads_table_bytes, 4);
}

#[test]
fn turn_log_round_trips_and_stops_at_damage() {
    let r1 = TurnRecord {
        turn_id: 1,
        parent_turn_id: 0,
        depth: 0,
        codec: 1,
        type_tag: 0,
        payload_hash: hash(1),
        flags: 0,
        created_at_unix_ms: 5,
    };
    let r2 = TurnRecord { turn_id: 2, parent_turn_id: 1, depth: 1, payload_hash: hash(2), ..r1 };
    let mut log = encode_turn_record(&r1);
    assert_eq!(log.len(), 80);
    log.extend(encode_turn_record(&r2));
    let (recs, len) = scan_turns_log(&log);
    assert_eq!(len, 160);
    assert_eq!(recs, vec![(r1, 0), (r2, 80)]);
    // a torn tail is cut
    let mut torn = log.clone();
    torn.extend_from_slice(&[1, 2, 3]);
    assert_eq!(scan_turns_log(&torn).1, 160);
    // a damaged record ends the log
    let mut bad = log.clone();
    bad[90] ^= 0xff;
    let (recs, len) = scan_turns_log(&bad);
    assert_eq!((recs.len(), len), (1, 80));
}

#[test]
fn meta_and_heads_files_round_trip() {
    let meta = TurnMeta {
        declared_type_id: "t.é".to_string(),
        declared_type_version: 3,
        encoding: 1,
        compression: 2,
        uncompressed_len: 99,
    };
    let mut buf = encode_turn_meta(7, &meta);
    assert_eq!(buf.len(), 8 + 4 + 4 + 16);
    let (metas, cut) = scan_turn_meta(&buf).unwrap();
    assert_eq!(cut, None);
    assert_eq!(metas.len(), 1);
    assert_eq!(metas[0].0, 7);
    assert_eq!(metas[0].1.declared_type_id, "t.é");
    assert_eq!(metas[0].1.uncompressed_len, 99);
    buf.extend_from_slice(&[1, 2, 3]);
    assert_eq!(scan_turn_meta(&buf).unwrap().1, None);
    buf.extend_from_slice(&[0; 6]);
    assert_eq!(scan_turn_meta(&buf).unwrap().1, Some(32));
    let mut bad = encode_turn_meta(1, &TurnMeta { declared_type_id: "ab".to_string(), ..meta.clone() });
    bad[12] = 0xff;
    assert_eq!(scan_turn_meta(&bad).unwrap_err(), StoreError::Corrupt("invalid type id utf8".to_string()));

    let h1 = ContextHead { context_id: 1, head_turn_id: 4, head_depth: 3, created_at_unix_ms: 8, flags: 0 };
    let h2 = ContextHead { head_turn_id: 5, head_depth: 4, ..h1 };
    let mut heads = encode_head(&h1);
    assert_eq!(heads.len(), 36);
    heads.extend(encode_head(&h2));
    let (hs, cut) = scan_heads(&heads);
    assert_eq!((hs, cut), (vec![h1, h2], None));
    heads.extend_from_slice(&[0; 10]);
    assert_eq!(scan_heads(&heads).1, Some(72));
}

#[test]
fn loading_keeps_later_records_and_next_ids() {
    let r = |id: u64, parent: u64, depth: u32| TurnRecord {
        turn_id: id,
        parent_turn_id: parent,
        depth,
        codec: 0,
        type_tag: 0,
        payload_hash: hash(0),
        flags: 0,
        created_at_unix_ms: 0,
    };
    let h = |ctx: u64, head: u64, depth: u32| ContextHead {
        context_id: ctx,
        head_turn_id: head,
        head_depth: depth,
        created_at_unix_ms: 0,
        flags: 0,
    };
    let mut store = TurnStore::load(vec![(r(1, 0, 0), 0), (r(4, 1, 1), 80)], vec![], vec![h(2, 1, 0), h(2, 4, 1)]);
    assert_eq!(store.get_head(2).unwrap().head_turn_id, 4);
    let t = store.append_turn(2, 0, hash(1), 0, String::new(), 0, 0, 0, 9, 160).unwrap();
    assert_eq!((t.turn_id, t.parent_turn_id, t.depth), (5, 4, 2));
    assert_eq!(store.create_context(0, 1).unwrap().context_id, 3);
    let mut entries = store.index_entries();
    entries.sort();
    assert_eq!(entries, vec![(1, 0), (4, 80), (5, 160)]);
    let bytes = encode_index(&entries);
    assert_eq!(bytes.len(), 48);
    assert_eq!(&bytes[16..32], &encode_index_entry(4, 80)[..]);
}
