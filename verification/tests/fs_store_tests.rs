use cxdb::server::error::StoreError;
use cxdb::server::fs_store::{
    encode_root_record, file_step, parse_tree_entries, path_parts, resolve_step, scan_roots, EntryKind, FileStep,
    FsRootsIndex, PathStep, TreeEntry,
};
use cxdb::server::turn_store::TurnStore;
use rmpv::Value;

/// An index backed by bytes standing for its file.
struct DiskIndex {
    file: Vec<u8>,
    index: FsRootsIndex,
}

impl DiskIndex {
    fn open(file: Vec<u8>) -> DiskIndex {
        let (records, cut) = scan_roots(&file);
        let mut file = file;
        if let Some(len) = cut {
            file.truncate(len as usize);
        }
        DiskIndex { file, index: FsRootsIndex::load(records) }
    }

    fn attach(&mut self, turn_id: u64, hash: [u8; 32]) {
        self.file.extend(encode_root_record(turn_id, &hash));
        self.index.attach(turn_id, hash);
    }
}

#[test]
fn test_fs_roots_index() {
    let mut index = DiskIndex::open(Vec::new());
    assert!(index.index.get(1).is_none());
    let hash = [0xabu8; 32];
    index.attach(1, hash);
    assert_eq!(index.index.get(1), Some(hash));
    let reopened = DiskIndex::open(index.file.clone());
    assert_eq!(reopened.index.get(1), Some(hash));
}

#[test]
fn test_fs_roots_overwrite() {
    let mut index = DiskIndex::open(Vec::new());
    let hash1 = [0x11u8; 32];
    let hash2 = [0x22u8; 32];
    index.attach(1, hash1);
    index.attach(1, hash2);
    assert_eq!(index.index.get(1), Some(hash2));
    let reopened = DiskIndex::open(index.file.clone());
    assert_eq!(reopened.index.get(1), Some(hash2));
}

#[test]
fn torn_and_damaged_records_are_cut() {
    let mut file = encode_root_record(1, &[1; 32]);
    file.extend(encode_root_record(2, &[2; 32]));
    let mut torn = file.clone();
    torn.extend_from_slice(&[9; 20]);
    let (records, cut) = scan_roots(&torn);
    assert_eq!(records.len(), 2);
    assert_eq!(cut, Some(88));
    let mut bad = file.clone();
    bad[50] ^= 1;
    let (records, cut) = scan_roots(&bad);
    assert_eq!(records, vec![(1, [1; 32])]);
    assert_eq!(cut, Some(44));
    let short = vec![0u8; 5];
    assert_eq!(scan_roots(&short), (vec![], None));
}

#[test]
fn snapshots_are_inherited_from_ancestors() {
    let mut store = TurnStore::new();
    store.create_context(0, 0).unwrap();
    let t1 = store.append_turn(1, 0, [0; 32], 0, String::new(), 0, 0, 0, 0, 0).unwrap();
    let t2 = store.append_turn(1, 0, [0; 32], 0, String::new(), 0, 0, 0, 0, 80).unwrap();
    let t3 = store.append_turn(1, 0, [0; 32], 0, String::new(), 0, 0, 0, 0, 160).unwrap();
    let mut index = FsRootsIndex::new();
    assert!(!index.has_snapshot(t3.turn_id, &store));
    index.attach(t1.turn_id, [7; 32]);
    assert_eq!(index.get_inherited(t3.turn_id, &store), Some([7; 32]));
    index.attach(t2.turn_id, [8; 32]);
    assert_eq!(index.get_inherited(t3.turn_id, &store), Some([8; 32]));
    assert_eq!(index.get_inherited(t1.turn_id, &store), Some([7; 32]));
    assert!(index.get(t3.turn_id).is_none());
    assert!(index.has_snapshot(t3.turn_id, &store));
    assert_eq!(index.stats(88).entries_total, 2);
    index.attach(t3.turn_id, [7; 32]);
    let mut roots = index.unique_roots();
    roots.sort();
    assert_eq!(roots, vec![[7; 32], [8; 32]]);
}

fn tree_bytes(entries: Vec<Vec<(Value, Value)>>) -> Vec<u8> {
    let value = Value::Array(entries.into_iter().map(Value::Map).collect());
    let mut buf = Vec::new();
    rmpv::encode::write_value(&mut buf, &value).unwrap();
    buf
}

fn entry(name: &str, kind: u64, hash: u8) -> Vec<(Value, Value)> {
    vec![
        (Value::from(1), Value::from(name)),
        (Value::from(2), Value::from(kind)),
        (Value::from(3), Value::from(0o644)),
        (Value::from(4), Value::from(12)),
        (Value::from(5), Value::Binary(vec![hash; 32])),
    ]
}

#[test]
fn trees_are_read_with_integer_or_string_keys() {
    let bytes = tree_bytes(vec![
        entry("a.txt", 0, 1),
        vec![
            (Value::from("1"), Value::from("dir")),
            (Value::from("2"), Value::from(1)),
            (Value::from("5"), Value::Binary(vec![2; 32])),
            (Value::from("x"), Value::from(9)),
        ],
    ]);
    let entries = parse_tree_entries(&bytes).unwrap();
    assert_eq!(entries.len(), 2);
    assert_eq!(entries[0].name, "a.txt");
    assert_eq!((entries[0].kind, entries[0].mode, entries[0].size), (0, 0o644, 12));
    assert_eq!(entries[1].name, "dir");
    assert_eq!(entries[1].kind_enum(), EntryKind::Directory);
    assert_eq!(entries[1].hash_array().unwrap(), [2; 32]);
    let mut one = Vec::new();
    rmpv::encode::write_value(&mut one, &Value::from(1)).unwrap();
    assert_eq!(parse_tree_entries(&one).unwrap_err(), StoreError::Corrupt("tree is not an array".to_string()));
    let mut arr = Vec::new();
    rmpv::encode::write_value(&mut arr, &Value::Array(vec![Value::from(1)])).unwrap();
    assert_eq!(parse_tree_entries(&arr).unwrap_err(), StoreError::Corrupt("tree entry is not a map".to_string()));
    match parse_tree_entries(&[0x92, 0x01]) {
        Err(StoreError::Corrupt(m)) => assert!(m.starts_with("invalid tree msgpack: ")),
        other => panic!("unexpected {other:?}"),
    }
}

#[test]
fn paths_are_walked_one_name_at_a_time() {
    assert_eq!(path_parts("/a//./b/"), vec!["a".to_string(), "b".to_string()]);
    assert_eq!(path_parts("a/../b"), vec!["a".to_string(), "..".to_string(), "b".to_string()]);
    assert!(path_parts("/").is_empty());
    let entries = vec![
        TreeEntry { name: "src".into(), kind: 1, mode: 0o755, size: 0, hash: vec![3; 32] },
        TreeEntry { name: "README".into(), kind: 0, mode: 0o644, size: 5, hash: vec![4; 32] },
        TreeEntry { name: "bad".into(), kind: 0, mode: 0, size: 0, hash: vec![1; 3] },
    ];
    assert_eq!(resolve_step(&entries, "src", false).unwrap(), PathStep::Descend([3; 32]));
    assert_eq!(resolve_step(&entries, "src", true).unwrap(), PathStep::Found([3; 32], true));
    assert_eq!(resolve_step(&entries, "README", true).unwrap(), PathStep::Found([4; 32], false));
    assert_eq!(
        resolve_step(&entries, "README", false).unwrap_err(),
        StoreError::InvalidInput("not a directory: README".to_string())
    );
    assert_eq!(
        resolve_step(&entries, "nope", true).unwrap_err(),
        StoreError::NotFound("path component not found: nope".to_string())
    );
    assert_eq!(resolve_step(&entries, "bad", true).unwrap_err(), StoreError::Corrupt("invalid hash length: 3".to_string()));
    match file_step(&entries, "README", true, "/README").unwrap() {
        FileStep::Fetch(h, e) => {
            assert_eq!(h, [4; 32]);
            assert_eq!(e.size, 5);
        },
        other => panic!("unexpected {other:?}"),
    }
    assert_eq!(
        file_step(&entries, "src", true, "/src").unwrap_err(),
        StoreError::InvalidInput("path is a directory: /src".to_string())
    );
    assert!(matches!(file_step(&entries, "src", false, "/src/x").unwrap(), FileStep::Descend(h) if h == [3; 32]));
    assert_eq!(EntryKind::from(2u8), EntryKind::Symlink);
    assert_eq!(EntryKind::from(9u8), EntryKind::File);
}
