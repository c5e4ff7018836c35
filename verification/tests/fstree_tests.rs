use cxdb::client::fstree::builder::{entry_mode, ChildAction, ChildKind, TreeBuilder};
use cxdb::client::fstree::options::{
    options_from, with_exclude, with_follow_symlinks, with_max_file_size, with_max_files, Options, SnapshotOption,
};
use cxdb::client::fstree::snapshot::{hash_prefix, split_path, FstreeErrorKind};
use cxdb::client::fstree::tracker::Tracker;
use cxdb::client::fstree::types::{
    name_le_exec, sort_by_name, tree_bytes, EntryKindDirectory, EntryKindFile, TreeEntry,
};

fn entry(name: &str, kind: u8, size: u64, h: u8) -> TreeEntry {
    TreeEntry { name: name.to_string(), kind, mode: 0o644, size, hash: [h; 32] }
}

#[test]
fn tree_bytes_layout() {
    let bytes = tree_bytes(&vec![entry("a", EntryKindFile, 5, 1)]);
    let mut expected = vec![0x91, 0x85, 0xa1, b'1', 0xa1, b'a', 0xa1, b'2', 0xcc, 0, 0xa1, b'3', 0xce, 0, 0, 1, 0xa4];
    expected.extend([0xa1, b'4', 0xcf, 0, 0, 0, 0, 0, 0, 0, 5, 0xa1, b'5', 0xc4, 0x20]);
    expected.extend([1u8; 32]);
    assert_eq!(bytes, expected);
    assert_eq!(tree_bytes(&vec![]), vec![0x90]);
}

#[test]
fn sort_orders_by_name() {
    let sorted = sort_by_name(vec![entry("b", 0, 0, 0), entry("a", 0, 0, 0), entry("B", 0, 0, 0), entry("ab", 0, 0, 0)]);
    let names: Vec<&str> = sorted.iter().map(|e| e.name.as_str()).collect();
    assert_eq!(names, vec!["B", "a", "ab", "b"]);
    assert!(name_le_exec("a", "ab"));
    assert!(!name_le_exec("b", "ab"));
}

#[test]
fn exclusion_rules() {
    let mut o = Options::default();
    with_exclude(vec!["*.log".to_string(), "node_modules/**".to_string(), "build".to_string()]).apply(&mut o);
    assert!(o.should_exclude("app.log", false));
    assert!(o.should_exclude("dir/app.log", false));
    assert!(o.should_exclude("node_modules", true));
    assert!(o.should_exclude("node_modules/x", true));
    assert!(!o.should_exclude("node_modules_x", true));
    assert!(o.should_exclude("src/build", true));
    assert!(!o.should_exclude("src/main.rs", false));
    assert!(o.should_exclude("dir\\app.log", false));
}

#[test]
fn builder_and_snapshot_queries() {
    let mut b = TreeBuilder::new(Options::default());
    b.enter_dir("/root").unwrap();
    b.enter_dir("/root/sub").unwrap();
    assert_eq!(b.enter_dir("/root").unwrap_err().kind, FstreeErrorKind::CyclicLink);
    b.check_file("sub/f.txt", 3).unwrap();
    let f = b.add_file("/root/sub/f.txt", "f.txt", 0o644, 3, [9u8; 32]);
    let sub_hash = b.finish_dir(vec![f]);
    b.leave_dir("/root/sub");
    let link = b.symlink_entry("link", 0o777, "sub/f.txt");
    assert_eq!(link.size, 9);
    let d = TreeBuilder::dir_entry("sub", 0o755, sub_hash);
    let root = b.finish_dir(vec![link, d]);
    b.leave_dir("/root");
    let snap = b.into_snapshot(root, 1000, 5);
    assert_eq!(snap.stats.file_count, 1);
    assert_eq!(snap.stats.dir_count, 2);
    assert_eq!(snap.stats.symlink_count, 1);
    let names: Vec<String> = snap.get_root_entries().unwrap().into_iter().map(|e| e.name).collect();
    assert_eq!(names, vec!["link".to_string(), "sub".to_string()]);
    let walked: Vec<String> = snap.walk().unwrap().into_iter().map(|(p, _)| p).collect();
    assert_eq!(walked, vec!["link", "sub", "sub/f.txt"]);
    assert_eq!(snap.list_files().unwrap(), vec!["sub/f.txt".to_string()]);
    let (e, file) = snap.get_file_at_path("sub/f.txt").unwrap().unwrap();
    assert_eq!(e.kind, EntryKindFile);
    assert_eq!(file.unwrap().path, "/root/sub/f.txt");
    let (e, file) = snap.get_file_at_path("./sub/").unwrap().unwrap();
    assert_eq!(e.kind, EntryKindDirectory);
    assert!(file.is_none());
    assert_eq!(snap.get_file_at_path("").unwrap_err().detail, "empty path");
    assert_eq!(snap.get_file_at_path("nope").unwrap_err().detail, "path not found: nope");
    assert_eq!(snap.get_file_at_path("link/x").unwrap_err().detail, "not a directory: link");
    assert!(snap.get_tree([0u8; 32]).unwrap_err().detail.starts_with("tree not found: 0000"));
}

#[test]
fn limits_and_diff_and_tracker() {
    let mut o = Options::default();
    with_max_files(0).apply(&mut o);
    let b = TreeBuilder::new(o);
    assert_eq!(b.check_file("a", 1).unwrap_err().kind, FstreeErrorKind::TooManyFiles);
    let mut o = Options::default();
    SnapshotOption::MaxFileSize(2).apply(&mut o);
    let b = TreeBuilder::new(o);
    let err = b.check_file("big.bin", 3).unwrap_err();
    assert_eq!(err.kind, FstreeErrorKind::FileTooLarge);
    assert_eq!(err.detail, "file too large: big.bin (3 bytes)");
    assert_eq!(err.to_display_string(), "fstree: file too large: big.bin (3 bytes)");

    let capture = |files: &[(&str, u8)]| {
        let mut b = TreeBuilder::new(Options::default());
        let mut es = Vec::new();
        for (n, h) in files {
            es.push(b.add_file(n, n, 0o644, 1, [*h; 32]));
        }
        let root = b.finish_dir(es);
        b.into_snapshot(root, 0, 0)
    };
    let s1 = capture(&[("a", 1), ("b", 2)]);
    let s2 = capture(&[("a", 1), ("b", 3), ("c", 4)]);
    let d = s2.diff(Some(&s1)).unwrap();
    assert_eq!(d.added, vec!["c".to_string()]);
    assert_eq!(d.modified, vec!["b".to_string()]);
    assert!(d.removed.is_empty());
    assert_eq!(d.total_changes(), 2);
    let d = s1.diff(Some(&s2)).unwrap();
    assert_eq!(d.removed, vec!["c".to_string()]);
    let d = s1.diff(None).unwrap();
    assert_eq!(d.added.len(), 2);
    assert!(s1.diff(Some(&s1)).unwrap().is_empty());

    let mut t = Tracker::new("/x", vec![]);
    let (_, changed) = t.snapshot(Ok(capture(&[("a", 1)]))).unwrap();
    assert!(changed);
    let (none, changed) = t.snapshot_if_changed(Ok(capture(&[("a", 1)]))).unwrap();
    assert!(none.is_none() && !changed);
    let cur = capture(&[("a", 2)]);
    assert_eq!(t.diff_from_last(&cur).unwrap().modified, vec!["a".to_string()]);
    assert!(t.last_snapshot().is_some());
}

#[test]
fn paths_and_prefixes() {
    assert_eq!(split_path("a//b/./c/../d\\e"), vec!["a", "b", "c", "d", "e"]);
    assert_eq!(split_path("/"), Vec::<String>::new());
    let mut h = [0u8; 32];
    h[0] = 0xab;
    h[3] = 0x0f;
    assert_eq!(hash_prefix(&h), "ab00000f");
}

#[test]
fn options_from_applies_in_order() {
    let opts = vec![
        with_exclude(vec!["*.log".to_string()]),
        with_max_files(10),
        with_exclude(vec!["target/**".to_string()]),
        with_follow_symlinks(),
        with_max_files(20),
        with_max_file_size(512),
    ];
    let o = options_from(&opts);
    assert_eq!(o.exclude_patterns, vec!["*.log".to_string(), "target/**".to_string()]);
    assert!(o.follow_symlinks);
    assert_eq!(o.max_files, 20);
    assert_eq!(o.max_file_size, 512);

    let d = options_from(&Vec::new());
    assert!(d.exclude_patterns.is_empty());
    assert!(!d.follow_symlinks);
    assert_eq!(d.max_file_size, 100 * 1024 * 1024);
    assert_eq!(d.max_files, 100_000);
}

#[test]
fn exclude_with_callback_answer() {
    let mut o = Options::default();
    o.exclude_patterns = vec!["*.log".to_string(), "node_modules".to_string(), "build/**".to_string()];
    assert!(o.should_exclude_with("debug.log", false, None));
    assert!(o.should_exclude_with("build/out", true, None));
    assert!(!o.should_exclude_with("main.js", false, None));
    assert!(o.should_exclude_with("main.js", false, Some(true)));
    assert!(!o.should_exclude_with("main.js", false, Some(false)));
    assert!(!Options::default().should_exclude_with("anything", true, None));
}

#[test]
fn plan_child_decisions() {
    let mut o = Options::default();
    o.exclude_patterns = vec!["*.log".to_string()];
    o.max_file_size = 10;
    let b = TreeBuilder::new(o);
    assert!(matches!(b.plan_child("a.log", false, None, ChildKind::File, 1), ChildAction::Skip));
    assert!(matches!(b.plan_child("a.txt", false, Some(true), ChildKind::File, 1), ChildAction::Skip));
    assert!(matches!(b.plan_child("link", false, None, ChildKind::Symlink, 1), ChildAction::ReadLink));
    assert!(matches!(b.plan_child("dir", true, None, ChildKind::Directory, 0), ChildAction::Descend));
    assert!(matches!(b.plan_child("a.txt", false, None, ChildKind::File, 10), ChildAction::HashFile));
    match b.plan_child("big.txt", false, None, ChildKind::File, 11) {
        ChildAction::Fail(e) => {
            assert_eq!(e.kind, FstreeErrorKind::FileTooLarge);
            assert_eq!(e.detail, "file too large: big.txt (11 bytes)");
        },
        _ => panic!("expected a failure"),
    }
    assert_eq!(entry_mode(0o100755), 0o755);
}

#[test]
fn identical_trees_are_kept_once() {
    let mut b = TreeBuilder::new(Options::default());
    let h1 = b.finish_dir(vec![]);
    let h2 = b.finish_dir(vec![]);
    assert_eq!(h1, h2);
    let f1 = b.add_file("/a/x.txt", "x.txt", 0o644, 1, [7u8; 32]);
    let f2 = b.add_file("/b/x.txt", "x.txt", 0o644, 1, [7u8; 32]);
    assert_eq!(f1.hash, f2.hash);
    let s = b.into_snapshot(h1, 0, 0);
    assert_eq!(s.trees.len(), 1);
    assert_eq!(s.stats.dir_count, 2);
    assert_eq!(s.files.len(), 1);
    assert_eq!(s.files[0].path, "/b/x.txt");
    assert_eq!(s.stats.file_count, 2);
}
