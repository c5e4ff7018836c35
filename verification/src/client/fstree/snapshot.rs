//! A captured snapshot and what can be read from it: a directory's entries,
//! every path in walking order, the entry at a path, and what changed since
//! another snapshot.
#![allow(non_upper_case_globals)]
use vstd::prelude::*;
use crate::client::fstree::types::{
    copy_entry, entries_view, EntryKindDirectory, EntryKindFile, EntryKindSymlink, EntryView, SnapshotDiff,
    SnapshotStats, TreeEntry,
};
use crate::text::{chars_of, concat, owned, push_str, string_from_chars};

verus! {

/// What kind of failure a snapshot operation met.
#[derive(Debug, Clone, Copy, PartialEq, Eq, Structural)]
pub enum FstreeErrorKind {
    TooManyFiles,
    FileTooLarge,
    CyclicLink,
    Io,
    Msgpack,
    Client,
    Other,
}

pub const ErrTooManyFiles: FstreeErrorKind = FstreeErrorKind::TooManyFiles;
pub const ErrFileTooLarge: FstreeErrorKind = FstreeErrorKind::FileTooLarge;
pub const ErrCyclicLink: FstreeErrorKind = FstreeErrorKind::CyclicLink;

/// A failure, with its kind and a description.
#[derive(Debug, Clone)]
pub struct FstreeError {
    pub kind: FstreeErrorKind,
    pub detail: String,
}

impl FstreeError {
    pub fn new(kind: FstreeErrorKind, detail: String) -> (e: FstreeError)
        ensures
            e.kind == kind,
            e.detail@ == detail@,
    {
        FstreeError { kind, detail }
    }

    /// The error as shown: `fstree: ` and the description.
    pub fn to_display_string(&self) -> (r: String)
        ensures
            r@ == "fstree: "@ + self.detail@,
    {
        concat("fstree: ", self.detail.as_str())
    }
}

/// A directory's tree object: its hash, its bytes, and the entries they
/// hold.
#[derive(Debug, Clone)]
pub struct TreeRecord {
    pub hash: [u8; 32],
    pub data: Vec<u8>,
    pub entries: Vec<TreeEntry>,
}

/// A captured directory tree.
#[derive(Debug, Clone)]
pub struct Snapshot {
    pub root_hash: [u8; 32],
    pub trees: Vec<TreeRecord>,
    pub files: Vec<crate::client::fstree::types::FileRef>,
    /// Hash of each link target, and the target.
    pub symlinks: Vec<([u8; 32], String)>,
    pub stats: SnapshotStats,
    /// Unix milliseconds when the capture began.
    pub captured_at_ms: u64,
}

/// The first tree with this hash.
pub open spec fn tree_index(trees: Seq<TreeRecord>, hash: Seq<u8>) -> Option<int>
    decreases trees.len(),
{
    if trees.len() == 0 {
        None
    } else {
        match tree_index(trees.drop_last(), hash) {
            Some(i) => Some(i),
            None => if trees.last().hash@ == hash {
                Some(trees.len() - 1)
            } else {
                None
            },
        }
    }
}

/// The lower-case hexadecimal text of the first four bytes of a hash.
pub open spec fn hash_prefix_spec(h: Seq<u8>) -> Seq<char> {
    seq![
        hex_digit(h[0] as int / 16),
        hex_digit(h[0] as int % 16),
        hex_digit(h[1] as int / 16),
        hex_digit(h[1] as int % 16),
        hex_digit(h[2] as int / 16),
        hex_digit(h[2] as int % 16),
        hex_digit(h[3] as int / 16),
        hex_digit(h[3] as int % 16),
    ]
}

pub open spec fn hex_digit(d: int) -> char {
    if d < 10 {
        (('0' as u32) + d) as char
    } else {
        (('a' as u32) + d - 10) as char
    }
}

pub(crate) fn hex_char(d: u8) -> (c: char)
    requires
        d < 16,
    ensures
        c == hex_digit(d as int),
{
    let table: [char; 16] = ['0', '1', '2', '3', '4', '5', '6', '7', '8', '9', 'a', 'b', 'c', 'd', 'e', 'f'];
    let c = table[d as usize];
    assert(c == hex_digit(d as int)) by {
        assert(table@[d as int] == table[d as int]);
    }
    c
}

/// The first four bytes of a hash in hexadecimal.
pub fn hash_prefix(h: &[u8; 32]) -> (r: String)
    ensures
        r@ == hash_prefix_spec(h@),
{
    let mut out: Vec<char> = Vec::new();
    let mut i: usize = 0;
    while i < 4
        invariant
            i <= 4,
            out@.len() == 2 * i,
            forall|j: int|
                0 <= j < i ==> out@[2 * j] == hex_digit(h@[j] as int / 16) && out@[2 * j + 1] == hex_digit(h@[j] as int % 16),
        decreases 4 - i,
    {
        out.push(hex_char(h[i] / 16));
        out.push(hex_char(h[i] % 16));
        i = i + 1;
    }
    assert(out@ =~= hash_prefix_spec(h@));
    string_from_chars(out.as_slice())
}

pub(crate) fn same_hash(a: &[u8; 32], b: &[u8; 32]) -> (r: bool)
    ensures
        r == (a@ == b@),
{
    let mut i: usize = 0;
    while i < 32
        invariant
            i <= 32,
            forall|j: int| 0 <= j < i ==> a@[j] == b@[j],
        decreases 32 - i,
    {
        if a[i] != b[i] {
            return false;
        }
        i = i + 1;
    }
    assert(a@ =~= b@);
    true
}

/// The error of a hash that names no tree.
pub open spec fn tree_not_found(h: Seq<u8>) -> Seq<char> {
    "tree not found: "@ + hash_prefix_spec(h)
}

/// What walking from `start` below `prefix` meets: each entry with its
/// path, a directory's own entries right after it, or the error of the
/// first tree missing; `fuel` bounds the depth.
pub open spec fn walk_spec(trees: Seq<TreeRecord>, hash: Seq<u8>, prefix: Seq<char>, fuel: nat) -> Result<Seq<(Seq<char>, EntryView)>, (FstreeErrorKind, Seq<char>)>
    decreases fuel, 0nat, 0nat,
{
    if fuel == 0 {
        Err((FstreeErrorKind::Other, "tree nesting too deep"@))
    } else {
        match tree_index(trees, hash) {
            None => Err((FstreeErrorKind::Other, tree_not_found(hash))),
            Some(i) => walk_entries_spec(
                trees,
                entries_view(trees[i].entries@),
                prefix,
                (fuel - 1) as nat,
            ),
        }
    }
}

/// The path of a child: its name under the prefix (the name alone at the
/// root).
pub open spec fn child_path(prefix: Seq<char>, name: Seq<char>) -> Seq<char> {
    if prefix.len() == 0 {
        name
    } else {
        prefix + "/"@ + name
    }
}

pub open spec fn walk_entries_spec(trees: Seq<TreeRecord>, es: Seq<EntryView>, prefix: Seq<char>, fuel: nat) -> Result<Seq<(Seq<char>, EntryView)>, (FstreeErrorKind, Seq<char>)>
    decreases fuel, 1nat, es.len(),
{
    if es.len() == 0 {
        Ok(Seq::empty())
    } else {
        match walk_entries_spec(trees, es.drop_last(), prefix, fuel) {
            Err(e) => Err(e),
            Ok(before) => {
                let e = es.last();
                let p = child_path(prefix, e.name);
                if e.kind == EntryKindDirectory {
                    match walk_spec(trees, e.hash, p, fuel) {
                        Err(x) => Err(x),
                        Ok(below) => Ok(before.push((p, e)) + below),
                    }
                } else {
                    Ok(before.push((p, e)))
                }
            }
        }
    }
}

pub open spec fn walked_view(v: Seq<(String, TreeEntry)>) -> Seq<(Seq<char>, EntryView)> {
    v.map_values(|p: (String, TreeEntry)| (p.0@, p.1@))
}

pub open spec fn err_view(e: FstreeError) -> (FstreeErrorKind, Seq<char>) {
    (e.kind, e.detail@)
}

fn child_path_exec(prefix: &str, name: &str) -> (r: String)
    ensures
        r@ == child_path(prefix@, name@),
{
    if prefix.is_empty() {
        owned(name)
    } else {
        let mut out = chars_of(prefix);
        out.push('/');
        push_str(&mut out, name);
        proof {
            reveal_strlit("/");
            assert(out@ =~= prefix@ + "/"@ + name@);
        }
        string_from_chars(out.as_slice())
    }
}

/// The index of the first tree with this hash.
pub(crate) fn find_tree_in(trees: &Vec<TreeRecord>, hash: &[u8; 32]) -> (r: Option<usize>)
    ensures
        match r {
            Some(i) => tree_index(trees@, hash@) == Some(i as int),
            None => tree_index(trees@, hash@) is None,
        },
{
    let mut i: usize = 0;
    while i < trees.len()
        invariant
            i <= trees@.len(),
            tree_index(trees@.take(i as int), hash@) is None,
        decreases trees@.len() - i,
    {
        let ghost t = trees@.take(i + 1);
        assert(t.drop_last() =~= trees@.take(i as int));
        if same_hash(&trees[i].hash, hash) {
            proof {
                lemma_tree_index_prefix(trees@, hash@, i + 1);
            }
            return Some(i);
        }
        i = i + 1;
    }
    assert(trees@.take(trees@.len() as int) =~= trees@);
    None
}

/// The index of the first file with this content hash.
pub(crate) fn find_file_in(files: &Vec<crate::client::fstree::types::FileRef>, hash: &[u8; 32]) -> (r: Option<usize>)
    ensures
        match r {
            Some(i) => file_index(files@, hash@) == Some(i as int),
            None => file_index(files@, hash@) is None,
        },
{
    let mut i: usize = 0;
    while i < files.len()
        invariant
            i <= files@.len(),
            file_index(files@.take(i as int), hash@) is None,
        decreases files@.len() - i,
    {
        assert(files@.take(i + 1).drop_last() =~= files@.take(i as int));
        if same_hash(&files[i].hash, hash) {
            proof {
                lemma_file_index_prefix(files@, hash@, i + 1);
            }
            return Some(i);
        }
        i = i + 1;
    }
    assert(files@.take(files@.len() as int) =~= files@);
    None
}

impl Snapshot {
    /// The index of the first tree with this hash.
    pub fn find_tree(&self, hash: &[u8; 32]) -> (r: Option<usize>)
        ensures
            match r {
                Some(i) => tree_index(self.trees@, hash@) == Some(i as int),
                None => tree_index(self.trees@, hash@) is None,
            },
    {
        find_tree_in(&self.trees, hash)
    }

    /// A directory's entries, by the tree's hash.
    pub fn get_tree(&self, hash: [u8; 32]) -> (r: Result<Vec<TreeEntry>, FstreeError>)
        ensures
            match tree_index(self.trees@, hash@) {
                Some(i) => r matches Ok(v) && entries_view(v@) == entries_view(self.trees@[i].entries@),
                None => r matches Err(e) && err_view(e) == (FstreeErrorKind::Other, tree_not_found(hash@)),
            },
    {
        match self.find_tree(&hash) {
            Some(i) => {
                proof {
                    lemma_tree_index_bound(self.trees@, hash@);
                }
                let es = &self.trees[i].entries;
                let mut out: Vec<TreeEntry> = Vec::new();
                let mut j: usize = 0;
                while j < es.len()
                    invariant
                        j <= es@.len(),
                        out@.len() == j,
                        forall|k: int| 0 <= k < j ==> out@[k]@ == es@[k]@,
                    decreases es@.len() - j,
                {
                    out.push(copy_entry(&es[j]));
                    j = j + 1;
                }
                assert(entries_view(out@) =~= entries_view(es@));
                Ok(out)
            },
            None => Err(FstreeError::new(FstreeErrorKind::Other, concat("tree not found: ", hash_prefix(&hash).as_str()))),
        }
    }

    /// The root directory's entries.
    pub fn get_root_entries(&self) -> (r: Result<Vec<TreeEntry>, FstreeError>)
        ensures
            match tree_index(self.trees@, self.root_hash@) {
                Some(i) => r matches Ok(v) && entries_view(v@) == entries_view(self.trees@[i].entries@),
                None => r matches Err(e) && err_view(e) == (FstreeErrorKind::Other, tree_not_found(self.root_hash@)),
            },
    {
        self.get_tree(self.root_hash)
    }

    fn walk_tree(&self, hash: &[u8; 32], prefix: &str, fuel: usize, out: &mut Vec<(String, TreeEntry)>) -> (r: Result<(), FstreeError>)
        ensures
            match walk_spec(self.trees@, hash@, prefix@, fuel as nat) {
                Ok(s) => r is Ok && walked_view(final(out)@) == walked_view(old(out)@) + s,
                Err(e) => r matches Err(x) && err_view(x) == e,
            },
        decreases fuel, 0nat, 0nat,
    {
        if fuel == 0 {
            return Err(FstreeError::new(FstreeErrorKind::Other, owned("tree nesting too deep")));
        }
        match self.find_tree(hash) {
            None => Err(FstreeError::new(FstreeErrorKind::Other, concat("tree not found: ", hash_prefix(hash).as_str()))),
            Some(i) => {
                proof {
                    lemma_tree_index_bound(self.trees@, hash@);
                }
                let es = &self.trees[i].entries;
                assert(es@.take(es@.len() as int) =~= es@);
                self.walk_entries(es, es.len(), prefix, fuel - 1, out)
            },
        }
    }

    fn walk_entries(&self, es: &Vec<TreeEntry>, n: usize, prefix: &str, fuel: usize, out: &mut Vec<(String, TreeEntry)>) -> (r: Result<(), FstreeError>)
        requires
            n <= es@.len(),
        ensures
            match walk_entries_spec(self.trees@, entries_view(es@.take(n as int)), prefix@, fuel as nat) {
                Ok(s) => r is Ok && walked_view(final(out)@) == walked_view(old(out)@) + s,
                Err(e) => r matches Err(x) && err_view(x) == e,
            },
        decreases fuel, 1nat, n,
    {
        let ghost ev = entries_view(es@.take(n as int));
        if n == 0 {
            assert(walked_view(out@) =~= walked_view(old(out)@) + Seq::<(Seq<char>, EntryView)>::empty());
            return Ok(());
        }
        assert(ev.drop_last() =~= entries_view(es@.take(n - 1)));
        assert(ev.last() == es@[n - 1]@);
        match self.walk_entries(es, n - 1, prefix, fuel, out) {
            Err(e) => {
                return Err(e);
            },
            Ok(()) => {},
        }
        let ghost mid = walked_view(out@);
        let e = &es[n - 1];
        let p = child_path_exec(prefix, e.name.as_str());
        let ghost pv = p@;
        out.push((owned(p.as_str()), copy_entry(e)));
        assert(walked_view(out@) =~= mid.push((pv, e@)));
        if e.kind == EntryKindDirectory {
            let ghost mid2 = walked_view(out@);
            match self.walk_tree(&e.hash, p.as_str(), fuel, out) {
                Err(x) => Err(x),
                Ok(()) => {
                    proof {
                        let s = walk_spec(self.trees@, e.hash@, pv, fuel as nat);
                        assert(walked_view(out@) =~= mid2 + s->Ok_0);
                    }
                    Ok(())
                },
            }
        } else {
            Ok(())
        }
    }

    /// Every entry with its path, each directory's entries right after it,
    /// in the order of its tree; the depth is bounded by the number of
    /// trees, which only a cycle of trees can exceed.
    pub fn walk(&self) -> (r: Result<Vec<(String, TreeEntry)>, FstreeError>)
        requires
            self.trees@.len() < usize::MAX,
        ensures
            match walk_spec(self.trees@, self.root_hash@, Seq::empty(), (self.trees@.len() + 1) as nat) {
                Ok(s) => r matches Ok(v) && walked_view(v@) == s,
                Err(e) => r matches Err(x) && err_view(x) == e,
            },
    {
        let mut out: Vec<(String, TreeEntry)> = Vec::new();
        assert(walked_view(out@) =~= Seq::<(Seq<char>, EntryView)>::empty());
        let root = String::new();
        match self.walk_tree(&self.root_hash, root.as_str(), self.trees.len() + 1, &mut out) {
            Ok(()) => {
                proof {
                    let s = walk_spec(self.trees@, self.root_hash@, Seq::empty(), (self.trees@.len() + 1) as nat);
                    assert(walked_view(out@) =~= s->Ok_0);
                }
                Ok(out)
            },
            Err(e) => Err(e),
        }
    }

    /// The paths of the files, in walking order.
    pub fn list_files(&self) -> (r: Result<Vec<String>, FstreeError>)
        requires
            self.trees@.len() < usize::MAX,
        ensures
            match walk_spec(self.trees@, self.root_hash@, Seq::empty(), (self.trees@.len() + 1) as nat) {
                Ok(s) => r matches Ok(v) && v@.map_values(|p: String| p@) == files_of(s),
                Err(e) => r matches Err(x) && err_view(x) == e,
            },
    {
        let all = match self.walk() {
            Ok(a) => a,
            Err(e) => {
                return Err(e);
            },
        };
        let ghost s = walked_view(all@);
        let mut paths: Vec<String> = Vec::new();
        let mut i: usize = 0;
        while i < all.len()
            invariant
                i <= all@.len(),
                s == walked_view(all@),
                paths@.map_values(|p: String| p@) == files_of(s.take(i as int)),
            decreases all@.len() - i,
        {
            assert(s.take(i + 1).drop_last() =~= s.take(i as int));
            assert(s[i as int] == (all@[i as int].0@, all@[i as int].1@));
            let ghost before = paths@;
            if all[i].1.kind == EntryKindFile {
                paths.push(owned(all[i].0.as_str()));
                assert(paths@.map_values(|p: String| p@) =~= before.map_values(|p: String| p@).push(all@[i as int].0@));
            }
            assert(paths@.map_values(|p: String| p@) =~= files_of(s.take(i + 1)));
            i = i + 1;
        }
        assert(s.take(s.len() as int) =~= s);
        Ok(paths)
    }
}


// ---------------------------------------------------------------------------
// Paths
// ---------------------------------------------------------------------------

/// The pieces of a path between slashes (backslashes count as slashes),
/// empty ones included.
pub open spec fn segments(p: Seq<char>) -> Seq<Seq<char>>
    decreases p.len(),
{
    if p.len() == 0 {
        seq![Seq::empty()]
    } else {
        let s = segments(p.drop_last());
        let c = p.last();
        if c == '/' || c == '\\' {
            s.push(Seq::empty())
        } else {
            s.update(s.len() - 1, s.last().push(c))
        }
    }
}

/// Whether a piece names a directory entry: not empty, `.` or `..`.
pub open spec fn normal_part(x: Seq<char>) -> bool {
    x.len() > 0 && x != seq!['.'] && x != seq!['.', '.']
}

/// The pieces that name entries, in order.
pub open spec fn normal_parts(s: Seq<Seq<char>>) -> Seq<Seq<char>>
    decreases s.len(),
{
    if s.len() == 0 {
        Seq::empty()
    } else {
        normal_parts(s.drop_last()) + if normal_part(s.last()) {
            seq![s.last()]
        } else {
            Seq::empty()
        }
    }
}

proof fn lemma_segments_nonempty(p: Seq<char>)
    ensures
        segments(p).len() >= 1,
    decreases p.len(),
{
    if p.len() > 0 {
        lemma_segments_nonempty(p.drop_last());
    }
}

fn is_normal(cur: &Vec<char>) -> (r: bool)
    ensures
        r == normal_part(cur@),
{
    if cur.len() == 0 {
        return false;
    }
    if cur.len() == 1 && cur[0] == '.' {
        assert(cur@ =~= seq!['.']);
        return false;
    }
    if cur.len() == 2 && cur[0] == '.' && cur[1] == '.' {
        assert(cur@ =~= seq!['.', '.']);
        return false;
    }
    proof {
        if cur@ == seq!['.'] {
            assert(cur@.len() == 1);
        }
        if cur@ == seq!['.', '.'] {
            assert(cur@.len() == 2);
        }
    }
    true
}

/// The names along a path.
pub fn split_path(path: &str) -> (r: Vec<String>)
    ensures
        r@.map_values(|x: String| x@) == normal_parts(segments(path@)),
{
    let cs = chars_of(path);
    let mut out: Vec<String> = Vec::new();
    let mut cur: Vec<char> = Vec::new();
    let mut i: usize = 0;
    proof {
        assert(cs@.take(0) =~= Seq::<char>::empty());
        assert(segments(Seq::<char>::empty()).drop_last() =~= Seq::<Seq<char>>::empty());
        assert(out@.map_values(|x: String| x@) =~= Seq::<Seq<char>>::empty());
    }
    while i < cs.len()
        invariant
            cs@ == path@,
            i <= cs@.len(),
            segments(cs@.take(i as int)).len() >= 1,
            cur@ == segments(cs@.take(i as int)).last(),
            out@.map_values(|x: String| x@) == normal_parts(segments(cs@.take(i as int)).drop_last()),
        decreases cs@.len() - i,
    {
        let ghost t = cs@.take(i + 1);
        let ghost s0 = segments(cs@.take(i as int));
        assert(t.drop_last() =~= cs@.take(i as int));
        let c = cs[i];
        proof {
            lemma_segments_nonempty(cs@.take(i as int));
        }
        if c == '/' || c == '\\' {
            let ghost before = out@.map_values(|x: String| x@);
            if is_normal(&cur) {
                out.push(string_from_chars(cur.as_slice()));
            }
            proof {
                let s1 = segments(t);
                assert(s1 == s0.push(Seq::<char>::empty()));
                assert(s1.drop_last() =~= s0);
                assert(s0 =~= s0.drop_last().push(s0.last()));
                assert(out@.map_values(|x: String| x@) =~= normal_parts(s0));
            }
            cur = Vec::new();
            assert(cur@ =~= segments(t).last());
        } else {
            cur.push(c);
            proof {
                let s1 = segments(t);
                assert(s1.drop_last() =~= s0.drop_last());
                assert(cur@ =~= s1.last());
            }
        }
        i = i + 1;
    }
    assert(cs@.take(cs@.len() as int) =~= cs@);
    let ghost s = segments(cs@);
    if is_normal(&cur) {
        out.push(string_from_chars(cur.as_slice()));
    }
    proof {
        assert(s =~= s.drop_last().push(s.last()));
        assert(out@.map_values(|x: String| x@) =~= normal_parts(s));
    }
    out
}

/// The first file reference with this hash.
pub open spec fn file_index(files: Seq<crate::client::fstree::types::FileRef>, hash: Seq<u8>) -> Option<int>
    decreases files.len(),
{
    if files.len() == 0 {
        None
    } else {
        match file_index(files.drop_last(), hash) {
            Some(i) => Some(i),
            None => if files.last().hash@ == hash {
                Some(files.len() - 1)
            } else {
                None
            },
        }
    }
}

proof fn lemma_file_index_bound(files: Seq<crate::client::fstree::types::FileRef>, hash: Seq<u8>)
    ensures
        file_index(files, hash) matches Some(i) ==> 0 <= i < files.len() && files[i].hash@ == hash,
    decreases files.len(),
{
    if files.len() > 0 {
        lemma_file_index_bound(files.drop_last(), hash);
    }
}

/// The first entry with this name.
pub open spec fn entry_named(es: Seq<EntryView>, name: Seq<char>) -> Option<int>
    decreases es.len(),
{
    if es.len() == 0 {
        None
    } else {
        match entry_named(es.drop_last(), name) {
            Some(i) => Some(i),
            None => if es.last().name == name {
                Some(es.len() - 1)
            } else {
                None
            },
        }
    }
}

proof fn lemma_entry_named_bound(es: Seq<EntryView>, name: Seq<char>)
    ensures
        entry_named(es, name) matches Some(i) ==> 0 <= i < es.len() && es[i].name == name,
    decreases es.len(),
{
    if es.len() > 0 {
        lemma_entry_named_bound(es.drop_last(), name);
    }
}

/// What a path names, from the tree `hash`, along `parts` from `i`: the
/// entry and, for a file, the index of its reference; or the error met.
pub open spec fn lookup_spec(
    trees: Seq<TreeRecord>,
    files: Seq<crate::client::fstree::types::FileRef>,
    hash: Seq<u8>,
    parts: Seq<Seq<char>>,
    i: int,
    path: Seq<char>,
) -> Result<(EntryView, Option<int>), (FstreeErrorKind, Seq<char>)>
    decreases parts.len() - i,
{
    if i < 0 || i >= parts.len() {
        Err((FstreeErrorKind::Other, "empty path"@))
    } else {
        match tree_index(trees, hash) {
            None => Err((FstreeErrorKind::Other, tree_not_found(hash))),
            Some(t) => {
                let es = entries_view(trees[t].entries@);
                match entry_named(es, parts[i]) {
                    None => Err((FstreeErrorKind::Other, "path not found: "@ + path)),
                    Some(k) => {
                        let e = es[k];
                        if i == parts.len() - 1 {
                            if e.kind == EntryKindFile {
                                match file_index(files, e.hash) {
                                    None => Err((FstreeErrorKind::Other, "file not found: "@ + hash_prefix_spec(e.hash))),
                                    Some(f) => Ok((e, Some(f))),
                                }
                            } else {
                                Ok((e, None))
                            }
                        } else if e.kind != EntryKindDirectory {
                            Err((FstreeErrorKind::Other, "not a directory: "@ + parts[i]))
                        } else {
                            lookup_spec(trees, files, e.hash, parts, i + 1, path)
                        }
                    },
                }
            },
        }
    }
}

fn copy_file_ref(f: &crate::client::fstree::types::FileRef) -> (r: crate::client::fstree::types::FileRef)
    ensures
        r.path@ == f.path@,
        r.size == f.size,
        r.hash@ == f.hash@,
{
    crate::client::fstree::types::FileRef { path: owned(f.path.as_str()), size: f.size, hash: f.hash }
}

/// The index of the first entry with this name.
fn find_entry(entries: &Vec<TreeEntry>, name: &str) -> (r: Option<usize>)
    ensures
        match r {
            Some(k) => entry_named(entries_view(entries@), name@) == Some(k as int),
            None => entry_named(entries_view(entries@), name@) is None,
        },
{
    let ghost ev = entries_view(entries@);
    let mut k: usize = 0;
    while k < entries.len()
        invariant
            k <= entries@.len(),
            ev == entries_view(entries@),
            entry_named(ev.take(k as int), name@) is None,
        decreases entries@.len() - k,
    {
        assert(ev.take(k + 1).drop_last() =~= ev.take(k as int));
        if crate::text::str_eq(entries[k].name.as_str(), name) {
            proof {
                lemma_entry_named_prefix(ev, name@, k + 1);
            }
            return Some(k);
        }
        k = k + 1;
    }
    assert(ev.take(ev.len() as int) =~= ev);
    None
}

impl Snapshot {
    /// The reference of the file with this content hash.
    pub fn get_file(&self, hash: &[u8; 32]) -> (r: Result<crate::client::fstree::types::FileRef, FstreeError>)
        ensures
            match file_index(self.files@, hash@) {
                Some(i) => r matches Ok(f) && f.path@ == self.files@[i].path@ && f.size == self.files@[i].size
                    && f.hash@ == hash@,
                None => r matches Err(e) && err_view(e) == (FstreeErrorKind::Other, "file not found: "@ + hash_prefix_spec(hash@)),
            },
    {
        let mut i: usize = 0;
        while i < self.files.len()
            invariant
                i <= self.files@.len(),
                file_index(self.files@.take(i as int), hash@) is None,
            decreases self.files@.len() - i,
        {
            assert(self.files@.take(i + 1).drop_last() =~= self.files@.take(i as int));
            if same_hash(&self.files[i].hash, hash) {
                proof {
                    lemma_file_index_prefix(self.files@, hash@, i + 1);
                }
                return Ok(copy_file_ref(&self.files[i]));
            }
            i = i + 1;
        }
        assert(self.files@.take(self.files@.len() as int) =~= self.files@);
        Err(FstreeError::new(FstreeErrorKind::Other, concat("file not found: ", hash_prefix(hash).as_str())))
    }

    /// The entry a path names and, for a file, its reference.
    pub fn get_file_at_path(&self, path: &str) -> (r: Result<Option<(TreeEntry, Option<crate::client::fstree::types::FileRef>)>, FstreeError>)
        ensures
            match lookup_spec(self.trees@, self.files@, self.root_hash@, normal_parts(segments(path@)), 0, path@) {
                Ok((e, f)) => r matches Ok(Some((x, fr))) && x@ == e && match f {
                    Some(k) => fr matches Some(g) && g.path@ == self.files@[k].path@,
                    None => fr is None,
                },
                Err(err) => r matches Err(x) && err_view(x) == err,
            },
    {
        let parts = split_path(path);
        let ghost ps = normal_parts(segments(path@));
        assert(parts@.map_values(|x: String| x@) == ps);
        if parts.len() == 0 {
            return Err(FstreeError::new(FstreeErrorKind::Other, owned("empty path")));
        }
        let mut current: [u8; 32] = self.root_hash;
        let mut idx: usize = 0;
        while idx < parts.len()
            invariant
                idx < parts@.len(),
                ps == parts@.map_values(|x: String| x@),
                ps == normal_parts(segments(path@)),
                ps.len() == parts@.len(),
                lookup_spec(self.trees@, self.files@, current@, ps, idx as int, path@) == lookup_spec(
                    self.trees@,
                    self.files@,
                    self.root_hash@,
                    ps,
                    0,
                    path@,
                ),
            decreases parts@.len() - idx,
        {
            assert(ps[idx as int] == parts@[idx as int]@);
            let entries = match self.get_tree(current) {
                Ok(es) => es,
                Err(e) => {
                    return Err(e);
                },
            };
            proof {
                lemma_tree_index_bound(self.trees@, current@);
            }
            let ghost ev = entries_view(entries@);
            let ghost t = tree_index(self.trees@, current@)->0;
            assert(tree_index(self.trees@, current@) == Some(t));
            assert(ev == entries_view(self.trees@[t].entries@));
            let ghost target = lookup_spec(self.trees@, self.files@, current@, ps, idx as int, path@);
            let k = match find_entry(&entries, parts[idx].as_str()) {
                Some(k) => k,
                None => {
                    assert(target == Err::<(EntryView, Option<int>), (FstreeErrorKind, Seq<char>)>((FstreeErrorKind::Other, "path not found: "@ + path@)));
                    return Err(FstreeError::new(FstreeErrorKind::Other, concat("path not found: ", path)));
                },
            };
            proof {
                lemma_entry_named_bound(ev, ps[idx as int]);
                assert(ev[k as int] == entries@[k as int]@);
            }
            let e = &entries[k];
            if idx == parts.len() - 1 {
                if e.kind == EntryKindFile {
                    match self.get_file(&e.hash) {
                        Ok(f) => {
                            proof {
                                lemma_file_index_bound(self.files@, e.hash@);
                            }
                            return Ok(Some((copy_entry(e), Some(f))));
                        },
                        Err(x) => {
                            return Err(x);
                        },
                    }
                }
                return Ok(Some((copy_entry(e), None)));
            }
            if e.kind != EntryKindDirectory {
                return Err(FstreeError::new(FstreeErrorKind::Other, concat("not a directory: ", parts[idx].as_str())));
            }
            current = e.hash;
            idx = idx + 1;
        }
        Ok(None)
    }
}

proof fn lemma_file_index_prefix(files: Seq<crate::client::fstree::types::FileRef>, hash: Seq<u8>, k: int)
    requires
        0 < k <= files.len(),
        file_index(files.take(k - 1), hash) is None,
        files[k - 1].hash@ == hash,
    ensures
        file_index(files, hash) == Some(k - 1),
    decreases files.len(),
{
    if files.len() == k {
        assert(files.drop_last() =~= files.take(k - 1));
    } else {
        assert(files.drop_last().take(k - 1) =~= files.take(k - 1));
        lemma_file_index_prefix(files.drop_last(), hash, k);
    }
}

proof fn lemma_entry_named_prefix(es: Seq<EntryView>, name: Seq<char>, k: int)
    requires
        0 < k <= es.len(),
        entry_named(es.take(k - 1), name) is None,
        es[k - 1].name == name,
    ensures
        entry_named(es, name) == Some(k - 1),
    decreases es.len(),
{
    if es.len() == k {
        assert(es.drop_last() =~= es.take(k - 1));
    } else {
        assert(es.drop_last().take(k - 1) =~= es.take(k - 1));
        lemma_entry_named_prefix(es.drop_last(), name, k);
    }
}


// ---------------------------------------------------------------------------
// Comparing snapshots
// ---------------------------------------------------------------------------

/// The files and links met on a walk, with their hashes, in order.
pub open spec fn tracked_of(s: Seq<(Seq<char>, EntryView)>) -> Seq<(Seq<char>, Seq<u8>)>
    decreases s.len(),
{
    if s.len() == 0 {
        Seq::empty()
    } else {
        let e = s.last().1;
        tracked_of(s.drop_last()) + if e.kind == EntryKindFile || e.kind == EntryKindSymlink {
            seq![(s.last().0, e.hash)]
        } else {
            Seq::empty()
        }
    }
}

/// The hash recorded for a path, the last one where it occurs twice.
pub open spec fn hash_at(ps: Seq<(Seq<char>, Seq<u8>)>, p: Seq<char>) -> Option<Seq<u8>>
    decreases ps.len(),
{
    if ps.len() == 0 {
        None
    } else if ps.last().0 == p {
        Some(ps.last().1)
    } else {
        hash_at(ps.drop_last(), p)
    }
}

/// Paths of `newp` that `oldp` lacks, in order.
pub open spec fn added_spec(newp: Seq<(Seq<char>, Seq<u8>)>, oldp: Seq<(Seq<char>, Seq<u8>)>) -> Seq<Seq<char>>
    decreases newp.len(),
{
    if newp.len() == 0 {
        Seq::empty()
    } else {
        added_spec(newp.drop_last(), oldp) + if hash_at(oldp, newp.last().0) is None {
            seq![newp.last().0]
        } else {
            Seq::empty()
        }
    }
}

/// Paths of `newp` whose hash in `oldp` differs, in order.
pub open spec fn modified_spec(newp: Seq<(Seq<char>, Seq<u8>)>, oldp: Seq<(Seq<char>, Seq<u8>)>) -> Seq<Seq<char>>
    decreases newp.len(),
{
    if newp.len() == 0 {
        Seq::empty()
    } else {
        modified_spec(newp.drop_last(), oldp) + match hash_at(oldp, newp.last().0) {
            Some(h) => if h != newp.last().1 {
                seq![newp.last().0]
            } else {
                Seq::empty()
            },
            None => Seq::empty(),
        }
    }
}

pub open spec fn all_paths(ps: Seq<(Seq<char>, Seq<u8>)>) -> Seq<Seq<char>> {
    ps.map_values(|x: (Seq<char>, Seq<u8>)| x.0)
}

pub open spec fn names_view(v: Seq<String>) -> Seq<Seq<char>> {
    v.map_values(|x: String| x@)
}

pub open spec fn pairs_view(v: Seq<(String, [u8; 32])>) -> Seq<(Seq<char>, Seq<u8>)> {
    v.map_values(|x: (String, [u8; 32])| (x.0@, x.1@))
}

fn collect_tracked(all: &Vec<(String, TreeEntry)>) -> (r: Vec<(String, [u8; 32])>)
    ensures
        pairs_view(r@) == tracked_of(walked_view(all@)),
{
    let ghost s = walked_view(all@);
    let mut out: Vec<(String, [u8; 32])> = Vec::new();
    let mut i: usize = 0;
    while i < all.len()
        invariant
            i <= all@.len(),
            s == walked_view(all@),
            pairs_view(out@) == tracked_of(s.take(i as int)),
        decreases all@.len() - i,
    {
        assert(s.take(i + 1).drop_last() =~= s.take(i as int));
        assert(s[i as int] == (all@[i as int].0@, all@[i as int].1@));
        let ghost before = out@;
        let k = all[i].1.kind;
        if k == EntryKindFile || k == EntryKindSymlink {
            out.push((owned(all[i].0.as_str()), all[i].1.hash));
            assert(pairs_view(out@) =~= pairs_view(before).push((all@[i as int].0@, all@[i as int].1.hash@)));
        }
        assert(pairs_view(out@) =~= tracked_of(s.take(i + 1)));
        i = i + 1;
    }
    assert(s.take(s.len() as int) =~= s);
    out
}

fn lookup_path(ps: &Vec<(String, [u8; 32])>, p: &str) -> (r: Option<[u8; 32]>)
    ensures
        match r {
            Some(h) => hash_at(pairs_view(ps@), p@) == Some(h@),
            None => hash_at(pairs_view(ps@), p@) is None,
        },
{
    let ghost v = pairs_view(ps@);
    let mut i: usize = ps.len();
    assert(v.take(i as int) =~= v);
    while i > 0
        invariant
            i <= ps@.len(),
            v == pairs_view(ps@),
            hash_at(v, p@) == hash_at(v.take(i as int), p@),
        decreases i,
    {
        assert(v.take(i as int).drop_last() =~= v.take(i - 1));
        assert(v[i - 1] == (ps@[i - 1].0@, ps@[i - 1].1@));
        if crate::text::str_eq(ps[i - 1].0.as_str(), p) {
            return Some(ps[i - 1].1);
        }
        i = i - 1;
    }
    None
}

/// What comparing `new` with `old` gives (see [`Snapshot::diff`]).
pub open spec fn diff_spec(new: Snapshot, old: Option<Snapshot>, r: Result<SnapshotDiff, FstreeError>) -> bool {
                let nw = walk_spec(new.trees@, new.root_hash@, Seq::empty(), (new.trees@.len() + 1) as nat);
                match old {
                    Some(o) => if o.root_hash@ == new.root_hash@ {
                        r matches Ok(d) && d.added@.len() == 0 && d.removed@.len() == 0 && d.modified@.len() == 0
                            && d.old_root@ == o.root_hash@ && d.new_root@ == new.root_hash@
                    } else {
                        let ow = walk_spec(o.trees@, o.root_hash@, Seq::empty(), (o.trees@.len() + 1) as nat);
                        match (nw, ow) {
                            (Err(e), _) => r matches Err(x) && err_view(x) == e,
                            (Ok(_), Err(e)) => r matches Err(x) && err_view(x) == e,
                            (Ok(ns), Ok(os)) => r matches Ok(d) && d.old_root@ == o.root_hash@ && d.new_root@
                                == new.root_hash@ && names_view(d.added@) == added_spec(tracked_of(ns), tracked_of(os))
                                && names_view(d.modified@) == modified_spec(tracked_of(ns), tracked_of(os))
                                && names_view(d.removed@) == added_spec(tracked_of(os), tracked_of(ns)),
                        }
                    },
                    None => match nw {
                        Err(e) => r matches Err(x) && err_view(x) == e,
                        Ok(ns) => r matches Ok(d) && d.new_root@ == new.root_hash@ && d.old_root@ == seq![0u8; 32]
                            && names_view(d.added@) == all_paths(tracked_of(ns)) && d.removed@.len() == 0
                            && d.modified@.len() == 0,
                    },
                }
            }

impl Snapshot {
    /// What changed since `old`: nothing when the roots are equal; with no
    /// old snapshot, every file and link is added; else the files and links
    /// added, removed, and whose content changed, in walking order.
    pub fn diff(&self, old: Option<&Snapshot>) -> (r: Result<SnapshotDiff, FstreeError>)
        requires
            self.trees@.len() < usize::MAX,
            old matches Some(o) ==> o.trees@.len() < usize::MAX,
        ensures
            diff_spec(*self, match old {
                Some(o) => Some(*o),
                None => None,
            }, r),
    {
        let mut diff = SnapshotDiff {
            added: Vec::new(),
            removed: Vec::new(),
            modified: Vec::new(),
            old_root: [0u8; 32],
            new_root: self.root_hash,
        };
        assert(diff.old_root@ =~= seq![0u8; 32]);
        match old {
            Some(o) => {
                diff.old_root = o.root_hash;
                if same_hash(&self.root_hash, &o.root_hash) {
                    return Ok(diff);
                }
            },
            None => {},
        }
        let new_all = match self.walk() {
            Ok(a) => a,
            Err(e) => {
                return Err(e);
            },
        };
        let newp = collect_tracked(&new_all);
        let o = match old {
            None => {
                let mut i: usize = 0;
                while i < newp.len()
                    invariant
                        i <= newp@.len(),
                        diff.added@.len() == i,
                        forall|k: int| 0 <= k < i ==> diff.added@[k]@ == newp@[k].0@,
                        diff.removed@.len() == 0,
                        diff.modified@.len() == 0,
                        diff.new_root@ == self.root_hash@,
                        diff.old_root@ == seq![0u8; 32],
                    decreases newp@.len() - i,
                {
                    diff.added.push(owned(newp[i].0.as_str()));
                    i = i + 1;
                }
                assert(names_view(diff.added@) =~= all_paths(pairs_view(newp@)));
                return Ok(diff);
            },
            Some(o) => o,
        };
        let old_all = match o.walk() {
            Ok(a) => a,
            Err(e) => {
                return Err(e);
            },
        };
        let oldp = collect_tracked(&old_all);
        let ghost nv = pairs_view(newp@);
        let ghost ov = pairs_view(oldp@);
        let mut i: usize = 0;
        while i < newp.len()
            invariant
                i <= newp@.len(),
                nv == pairs_view(newp@),
                ov == pairs_view(oldp@),
                names_view(diff.added@) == added_spec(nv.take(i as int), ov),
                names_view(diff.modified@) == modified_spec(nv.take(i as int), ov),
                diff.removed@.len() == 0,
                diff.new_root@ == self.root_hash@,
                diff.old_root@ == o.root_hash@,
            decreases newp@.len() - i,
        {
            assert(nv.take(i + 1).drop_last() =~= nv.take(i as int));
            assert(nv[i as int] == (newp@[i as int].0@, newp@[i as int].1@));
            let ghost a0 = names_view(diff.added@);
            let ghost m0 = names_view(diff.modified@);
            match lookup_path(&oldp, newp[i].0.as_str()) {
                None => {
                    diff.added.push(owned(newp[i].0.as_str()));
                    assert(names_view(diff.added@) =~= a0.push(newp@[i as int].0@));
                },
                Some(h) => {
                    if !same_hash(&h, &newp[i].1) {
                        diff.modified.push(owned(newp[i].0.as_str()));
                        assert(names_view(diff.modified@) =~= m0.push(newp@[i as int].0@));
                    }
                },
            }
            assert(names_view(diff.added@) =~= added_spec(nv.take(i + 1), ov));
            assert(names_view(diff.modified@) =~= modified_spec(nv.take(i + 1), ov));
            i = i + 1;
        }
        assert(nv.take(nv.len() as int) =~= nv);
        let mut j: usize = 0;
        while j < oldp.len()
            invariant
                j <= oldp@.len(),
                nv == pairs_view(newp@),
                ov == pairs_view(oldp@),
                names_view(diff.added@) == added_spec(nv, ov),
                names_view(diff.modified@) == modified_spec(nv, ov),
                names_view(diff.removed@) == added_spec(ov.take(j as int), nv),
                diff.new_root@ == self.root_hash@,
                diff.old_root@ == o.root_hash@,
            decreases oldp@.len() - j,
        {
            assert(ov.take(j + 1).drop_last() =~= ov.take(j as int));
            assert(ov[j as int] == (oldp@[j as int].0@, oldp@[j as int].1@));
            let ghost r0 = names_view(diff.removed@);
            if lookup_path(&newp, oldp[j].0.as_str()).is_none() {
                diff.removed.push(owned(oldp[j].0.as_str()));
                assert(names_view(diff.removed@) =~= r0.push(oldp@[j as int].0@));
            }
            assert(names_view(diff.removed@) =~= added_spec(ov.take(j + 1), nv));
            j = j + 1;
        }
        assert(ov.take(ov.len() as int) =~= ov);
        Ok(diff)
    }
}

/// A snapshot compared with itself has no changes, and every change
/// counted once: a path is never both added and modified.
pub proof fn law_added_and_modified_disjoint(newp: Seq<(Seq<char>, Seq<u8>)>, oldp: Seq<(Seq<char>, Seq<u8>)>, p: Seq<char>)
    ensures
        added_spec(newp, oldp).contains(p) ==> hash_at(oldp, p) is None,
        modified_spec(newp, oldp).contains(p) ==> hash_at(oldp, p) is Some,
    decreases newp.len(),
{
    if newp.len() > 0 {
        law_added_and_modified_disjoint(newp.drop_last(), oldp, p);
        let a = added_spec(newp.drop_last(), oldp);
        let m = modified_spec(newp.drop_last(), oldp);
        if added_spec(newp, oldp).contains(p) {
            let k = choose|k: int| 0 <= k < added_spec(newp, oldp).len() && added_spec(newp, oldp)[k] == p;
            if k >= a.len() {
                assert(p == newp.last().0);
            } else {
                assert(a[k] == p);
            }
        }
        if modified_spec(newp, oldp).contains(p) {
            let k = choose|k: int| 0 <= k < modified_spec(newp, oldp).len() && modified_spec(newp, oldp)[k] == p;
            if k >= m.len() {
                assert(p == newp.last().0);
            } else {
                assert(m[k] == p);
            }
        }
    }
}

/// Comparing a path list with itself finds nothing added.
pub proof fn law_nothing_added_against_itself(ps: Seq<(Seq<char>, Seq<u8>)>, extra: Seq<(Seq<char>, Seq<u8>)>)
    requires
        forall|i: int| 0 <= i < ps.len() ==> hash_at(extra, #[trigger] ps[i].0) is Some,
    ensures
        added_spec(ps, extra).len() == 0,
    decreases ps.len(),
{
    if ps.len() > 0 {
        law_nothing_added_against_itself(ps.drop_last(), extra);
        assert(hash_at(extra, ps[ps.len() - 1].0) is Some);
    }
}

/// The paths of the file entries, in order.
pub open spec fn files_of(s: Seq<(Seq<char>, EntryView)>) -> Seq<Seq<char>>
    decreases s.len(),
{
    if s.len() == 0 {
        Seq::empty()
    } else {
        files_of(s.drop_last()) + if s.last().1.kind == EntryKindFile {
            seq![s.last().0]
        } else {
            Seq::empty()
        }
    }
}

proof fn lemma_tree_index_bound(trees: Seq<TreeRecord>, hash: Seq<u8>)
    ensures
        tree_index(trees, hash) matches Some(i) ==> 0 <= i < trees.len() && trees[i].hash@ == hash,
    decreases trees.len(),
{
    if trees.len() > 0 {
        lemma_tree_index_bound(trees.drop_last(), hash);
    }
}

proof fn lemma_tree_index_prefix(trees: Seq<TreeRecord>, hash: Seq<u8>, k: int)
    requires
        0 < k <= trees.len(),
        tree_index(trees.take(k - 1), hash) is None,
        trees[k - 1].hash@ == hash,
    ensures
        tree_index(trees, hash) == Some(k - 1),
    decreases trees.len(),
{
    if trees.len() == k {
        assert(trees.drop_last() =~= trees.take(k - 1));
    } else {
        assert(trees.drop_last().take(k - 1) =~= trees.take(k - 1));
        lemma_tree_index_prefix(trees.drop_last(), hash, k);
    }
}


/// Comparing a snapshot with itself finds no change, and both roots are its
/// own; a comparison is empty exactly when it counts no change.
pub proof fn law_diff_with_itself(s: Snapshot, r: Result<SnapshotDiff, FstreeError>, d: SnapshotDiff)
    requires
        diff_spec(s, Some(s), r),
    ensures
        r matches Ok(x) && x.added@.len() == 0 && x.removed@.len() == 0 && x.modified@.len() == 0 && x.old_root@
            == s.root_hash@ && x.new_root@ == s.root_hash@,
        (d.added@.len() == 0 && d.removed@.len() == 0 && d.modified@.len() == 0) <==> (d.added@.len() + d.removed@.len()
            + d.modified@.len() == 0),
{
}

} // verus!
