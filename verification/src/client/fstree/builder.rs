//! Building a snapshot while a directory tree is walked: the limits and
//! cycle check applied to each entry, the tree object written for each
//! directory, and the counts kept.
//!
//! The walk itself (listing directories, reading metadata, links and file
//! contents) lives with the program, which hands each entry's facts here.
use vstd::prelude::*;
use crate::client::fstree::options::{excluded, strings_view, Options};
use crate::client::fstree::snapshot::{
    file_index, find_file_in, find_tree_in, same_hash, tree_index, FstreeError, FstreeErrorKind, Snapshot, TreeRecord,
};
use crate::client::fstree::types::{
    entries_view, names_fit, sort_by_name, sorted_by_name, tree_bytes, tree_bytes_spec, EntryKindDirectory,
    EntryKindFile, EntryKindSymlink, EntryView, FileRef, SnapshotStats, TreeEntry,
};
use crate::hashing::{blake3_digest, blake3_hash};
use crate::text::{chars_of, concat, owned, push_decimal, push_str, str_eq, string_from_chars};

verus! {

proof fn lemma_file_index_bounds(files: Seq<FileRef>, h: Seq<u8>)
    ensures
        file_index(files, h) matches Some(i) ==> 0 <= i < files.len() && files[i].hash@ == h,
    decreases files.len(),
{
    if files.len() > 0 {
        lemma_file_index_bounds(files.drop_last(), h);
    }
}

/// The state of a capture in progress.
pub struct TreeBuilder {
    options: Options,
    trees: Vec<TreeRecord>,
    files: Vec<FileRef>,
    symlinks: Vec<([u8; 32], String)>,
    visited: Vec<String>,
    file_count: usize,
    dir_count: usize,
    symlink_count: usize,
    total_bytes: u64,
}

/// What a directory entry is, as its metadata says.
#[derive(Debug, Clone, Copy, PartialEq, Eq, Structural)]
pub enum ChildKind {
    Symlink,
    Directory,
    File,
}

/// What the walk does with a directory entry.
#[derive(Debug)]
pub enum ChildAction {
    /// Leave it out: excluded.
    Skip,
    /// Read the link's target and record it ([`TreeBuilder::symlink_entry`]).
    ReadLink,
    /// Walk into the directory.
    Descend,
    /// Hash the file's content and record it ([`TreeBuilder::add_file`]).
    HashFile,
    /// The file breaks a limit: this error, fatal or not ([`TreeBuilder::is_fatal`]).
    Fail(FstreeError),
}

/// The permission bits kept of a mode.
pub fn entry_mode(mode: u32) -> (m: u32)
    ensures
        m == mode & 0o7777,
{
    mode & 0o7777
}

impl TreeBuilder {
    /// Decides on one entry of a directory being walked, from its path
    /// relative to the root, whether its directory entry says it is a
    /// directory, what the caller's exclusion function answered (if any),
    /// its kind by its metadata (links not followed unless the options say
    /// so) and its size: excluded entries are skipped; a link that is not
    /// followed is read; a directory is walked into; a file is checked
    /// against the limits.
    pub fn plan_child(
        &self,
        rel_path: &str,
        is_dir_hint: bool,
        exclude_fn_answer: Option<bool>,
        kind: ChildKind,
        size: u64,
    ) -> (a: ChildAction)
        ensures
            (excluded(strings_view(self.options_spec().exclude_patterns@), rel_path@, is_dir_hint) || exclude_fn_answer
                == Some(true)) ==> a is Skip,
            !(excluded(strings_view(self.options_spec().exclude_patterns@), rel_path@, is_dir_hint) || exclude_fn_answer
                == Some(true)) ==> if kind == ChildKind::Symlink && !self.options_spec().follow_symlinks {
                a is ReadLink
            } else if kind == ChildKind::Directory {
                a is Descend
            } else if self.file_count_spec() >= self.options_spec().max_files {
                a matches ChildAction::Fail(e) && e.kind == FstreeErrorKind::TooManyFiles && e.detail@ == "too many files"@
            } else if (size as i64) > self.options_spec().max_file_size {
                a matches ChildAction::Fail(e) && e.kind == FstreeErrorKind::FileTooLarge && e.detail@ == too_large_text(
                    rel_path@,
                    size,
                )
            } else {
                a is HashFile
            },
    {
        if self.options.should_exclude_with(rel_path, is_dir_hint, exclude_fn_answer) {
            return ChildAction::Skip;
        }
        if kind == ChildKind::Symlink && !self.options.follow_symlinks {
            return ChildAction::ReadLink;
        }
        if kind == ChildKind::Directory {
            return ChildAction::Descend;
        }
        match self.check_file(rel_path, size) {
            Ok(()) => ChildAction::HashFile,
            Err(e) => ChildAction::Fail(e),
        }
    }
}

/// The error of a file over the size limit.
pub open spec fn too_large_text(rel: Seq<char>, size: u64) -> Seq<char> {
    "file too large: "@ + rel + " ("@ + crate::text::decimal(size as nat) + " bytes)"@
}

impl TreeBuilder {
    pub closed spec fn options_spec(&self) -> Options {
        self.options
    }

    pub closed spec fn file_count_spec(&self) -> usize {
        self.file_count
    }

    pub closed spec fn dir_count_spec(&self) -> usize {
        self.dir_count
    }

    pub closed spec fn symlink_count_spec(&self) -> usize {
        self.symlink_count
    }

    pub closed spec fn total_bytes_spec(&self) -> u64 {
        self.total_bytes
    }

    /// The directories being walked, outermost first.
    pub closed spec fn open_dirs(&self) -> Seq<Seq<char>> {
        self.visited@.map_values(|s: String| s@)
    }

    /// The tree objects written so far.
    pub closed spec fn trees_spec(&self) -> Seq<TreeRecord> {
        self.trees@
    }

    /// The files recorded so far.
    pub closed spec fn files_spec(&self) -> Seq<FileRef> {
        self.files@
    }

    /// A capture with these settings, nothing recorded.
    pub fn new(options: Options) -> (b: TreeBuilder)
        ensures
            b.options_spec() == options,
            b.file_count_spec() == 0,
            b.dir_count_spec() == 0,
            b.symlink_count_spec() == 0,
            b.total_bytes_spec() == 0,
            b.open_dirs().len() == 0,
            b.trees_spec().len() == 0,
            b.files_spec().len() == 0,
    {
        let b = TreeBuilder {
            options,
            trees: Vec::new(),
            files: Vec::new(),
            symlinks: Vec::new(),
            visited: Vec::new(),
            file_count: 0,
            dir_count: 0,
            symlink_count: 0,
            total_bytes: 0,
        };
        assert(b.open_dirs() =~= Seq::<Seq<char>>::empty());
        b
    }

    /// The capture's settings.
    pub fn options(&self) -> (o: &Options)
        ensures
            *o == self.options_spec(),
    {
        &self.options
    }

    /// The counts so far: files, directories, links, bytes of files.
    pub fn counts(&self) -> (c: (usize, usize, usize, u64))
        ensures
            c == (self.file_count_spec(), self.dir_count_spec(), self.symlink_count_spec(), self.total_bytes_spec()),
    {
        (self.file_count, self.dir_count, self.symlink_count, self.total_bytes)
    }

    /// Enters a directory, by its resolved path; a directory already being
    /// walked means a cycle of links.
    pub fn enter_dir(&mut self, real_path: &str) -> (r: Result<(), FstreeError>)
        ensures
            old(self).open_dirs().contains(real_path@) ==> (r matches Err(e) && e.kind == FstreeErrorKind::CyclicLink
                && e.detail@ == "cyclic symbolic link detected"@ && final(self).open_dirs() == old(self).open_dirs()),
            !old(self).open_dirs().contains(real_path@) ==> r is Ok && final(self).open_dirs() == old(self).open_dirs().push(
                real_path@,
            ),
            final(self).options_spec() == old(self).options_spec(),
            final(self).file_count_spec() == old(self).file_count_spec(),
            final(self).trees_spec() == old(self).trees_spec(),
    {
        let ghost dirs = self.open_dirs();
        let mut i: usize = 0;
        while i < self.visited.len()
            invariant
                i <= self.visited@.len(),
                dirs == self.visited@.map_values(|s: String| s@),
                forall|j: int| 0 <= j < i ==> dirs[j] != real_path@,
            decreases self.visited@.len() - i,
        {
            if str_eq(self.visited[i].as_str(), real_path) {
                assert(dirs[i as int] == real_path@);
                return Err(FstreeError::new(FstreeErrorKind::CyclicLink, owned("cyclic symbolic link detected")));
            }
            i = i + 1;
        }
        assert(!dirs.contains(real_path@));
        self.visited.push(owned(real_path));
        assert(self.open_dirs() =~= dirs.push(real_path@));
        Ok(())
    }

    /// Leaves a directory.
    pub fn leave_dir(&mut self, real_path: &str)
        ensures
            !final(self).open_dirs().contains(real_path@),
            forall|p: Seq<char>| p != real_path@ ==> (final(self).open_dirs().contains(p) <==> old(self).open_dirs().contains(p)),
            final(self).options_spec() == old(self).options_spec(),
            final(self).file_count_spec() == old(self).file_count_spec(),
            final(self).trees_spec() == old(self).trees_spec(),
    {
        let ghost dirs = self.open_dirs();
        let mut kept: Vec<String> = Vec::new();
        let mut i: usize = 0;
        while i < self.visited.len()
            invariant
                i <= self.visited@.len(),
                dirs == self.visited@.map_values(|s: String| s@),
                forall|j: int| 0 <= j < kept@.len() ==> kept@[j]@ != real_path@ && dirs.contains(#[trigger] kept@[j]@),
                forall|j: int|
                    0 <= j < i && dirs[j] != real_path@ ==> exists|k: int| 0 <= k < kept@.len() && #[trigger] kept@[k]@ == dirs[j],
            decreases self.visited@.len() - i,
        {
            if !str_eq(self.visited[i].as_str(), real_path) {
                let ghost before = kept@;
                kept.push(owned(self.visited[i].as_str()));
                assert(kept@[kept@.len() - 1]@ == dirs[i as int]);
                assert(forall|k: int| 0 <= k < before.len() ==> kept@[k] == before[k]);
            }
            i = i + 1;
        }
        self.visited = kept;
        proof {
            let nd = self.open_dirs();
            assert forall|p: Seq<char>| p != real_path@ implies (nd.contains(p) <==> dirs.contains(p)) by {
                if nd.contains(p) {
                    let k = choose|k: int| 0 <= k < nd.len() && nd[k] == p;
                    assert(self.visited@[k]@ == p);
                }
                if dirs.contains(p) {
                    let j = choose|j: int| 0 <= j < dirs.len() && dirs[j] == p;
                    let k = choose|k: int| 0 <= k < self.visited@.len() && self.visited@[k]@ == dirs[j];
                    assert(nd[k] == p);
                }
            }
            if nd.contains(real_path@) {
                let k = choose|k: int| 0 <= k < nd.len() && nd[k] == real_path@;
                assert(self.visited@[k]@ == real_path@);
            }
        }
    }

    /// The entry of a symbolic link recorded as such: its target's bytes
    /// hashed, its size the target's length.
    pub fn symlink_entry(&mut self, name: &str, mode: u32, target: &str) -> (e: TreeEntry)
        requires
            old(self).symlink_count_spec() < usize::MAX,
        ensures
            e.name@ == name@,
            e.kind == EntryKindSymlink,
            e.mode == mode,
            e.size == vstd::utf8::encode_utf8(target@).len(),
            e.hash@ == blake3_digest(vstd::utf8::encode_utf8(target@)),
            final(self).symlink_count_spec() == old(self).symlink_count_spec() + 1,
            final(self).options_spec() == old(self).options_spec(),
            final(self).file_count_spec() == old(self).file_count_spec(),
            final(self).dir_count_spec() == old(self).dir_count_spec(),
            final(self).total_bytes_spec() == old(self).total_bytes_spec(),
            final(self).open_dirs() == old(self).open_dirs(),
            final(self).trees_spec() == old(self).trees_spec(),
            final(self).files_spec() == old(self).files_spec(),
    {
        let bytes = target.as_bytes();
        let hash = blake3_hash(bytes);
        self.symlink_count = self.symlink_count + 1;
        let mut known = false;
        let mut i: usize = 0;
        while i < self.symlinks.len()
            invariant
                i <= self.symlinks@.len(),
            decreases self.symlinks@.len() - i,
        {
            if same_hash(&self.symlinks[i].0, &hash) {
                known = true;
            }
            i = i + 1;
        }
        if !known {
            self.symlinks.push((hash, owned(target)));
        }
        TreeEntry { name: owned(name), kind: EntryKindSymlink, mode, size: bytes.len() as u64, hash }
    }

    /// The entry of a subdirectory whose tree has this hash.
    pub fn dir_entry(name: &str, mode: u32, hash: [u8; 32]) -> (e: TreeEntry)
        ensures
            e@ == (EntryView { name: name@, kind: EntryKindDirectory, mode, size: 0, hash: hash@ }),
    {
        TreeEntry { name: owned(name), kind: EntryKindDirectory, mode, size: 0, hash }
    }

    /// Checks a file against the limits before it is read: too many files
    /// already, or larger than allowed (its size read as a signed number).
    pub fn check_file(&self, rel_path: &str, size: u64) -> (r: Result<(), FstreeError>)
        ensures
            self.file_count_spec() >= self.options_spec().max_files ==> (r matches Err(e) && e.kind
                == FstreeErrorKind::TooManyFiles && e.detail@ == "too many files"@),
            self.file_count_spec() < self.options_spec().max_files && (size as i64) > self.options_spec().max_file_size
                ==> (r matches Err(e) && e.kind == FstreeErrorKind::FileTooLarge && e.detail@ == too_large_text(
                rel_path@,
                size,
            )),
            self.file_count_spec() < self.options_spec().max_files && (size as i64) <= self.options_spec().max_file_size
                ==> r is Ok,
    {
        if self.file_count >= self.options.max_files {
            return Err(FstreeError::new(FstreeErrorKind::TooManyFiles, owned("too many files")));
        }
        if (size as i64) > self.options.max_file_size {
            let mut d = chars_of("file too large: ");
            push_str(&mut d, rel_path);
            push_str(&mut d, " (");
            push_decimal(&mut d, size);
            push_str(&mut d, " bytes)");
            assert(d@ =~= too_large_text(rel_path@, size));
            return Err(FstreeError::new(FstreeErrorKind::FileTooLarge, string_from_chars(d.as_slice())));
        }
        Ok(())
    }

    /// Records a file whose content hashed to `hash`.
    pub fn add_file(&mut self, abs_path: &str, name: &str, mode: u32, size: u64, hash: [u8; 32]) -> (e: TreeEntry)
        requires
            old(self).file_count_spec() < usize::MAX,
            old(self).total_bytes_spec() + size <= u64::MAX,
        ensures
            e@ == (EntryView { name: name@, kind: EntryKindFile, mode, size, hash: hash@ }),
            final(self).file_count_spec() == old(self).file_count_spec() + 1,
            final(self).total_bytes_spec() == old(self).total_bytes_spec() + size,
            match file_index(old(self).files_spec(), hash@) {
                Some(i) => final(self).files_spec().len() == old(self).files_spec().len() && (forall|j: int|
                    0 <= j < old(self).files_spec().len() && j != i ==> #[trigger] final(self).files_spec()[j] == old(
                        self,
                    ).files_spec()[j]) && final(self).files_spec()[i].path@ == abs_path@ && final(self).files_spec()[i].size
                    == size && final(self).files_spec()[i].hash@ == hash@,
                None => final(self).files_spec().len() == old(self).files_spec().len() + 1 && final(self).files_spec().drop_last()
                    == old(self).files_spec() && final(self).files_spec().last().path@ == abs_path@
                    && final(self).files_spec().last().size == size && final(self).files_spec().last().hash@ == hash@,
            },
            final(self).options_spec() == old(self).options_spec(),
            final(self).dir_count_spec() == old(self).dir_count_spec(),
            final(self).symlink_count_spec() == old(self).symlink_count_spec(),
            final(self).open_dirs() == old(self).open_dirs(),
            final(self).trees_spec() == old(self).trees_spec(),
    {
        let fr = FileRef { path: owned(abs_path), size, hash };
        match find_file_in(&self.files, &hash) {
            Some(i) => {
                proof {
                    lemma_file_index_bounds(self.files@, hash@);
                }
                self.files.set(i, fr);
            },
            None => {
                self.files.push(fr);
                assert(self.files@.drop_last() =~= old(self).files@);
            },
        }
        self.file_count = self.file_count + 1;
        self.total_bytes = self.total_bytes + size;
        TreeEntry { name: owned(name), kind: EntryKindFile, mode, size, hash }
    }

    /// Whether an entry's error ends the capture (too many files, or a
    /// cycle); other errors only leave the entry out.
    pub fn is_fatal(kind: FstreeErrorKind) -> (r: bool)
        ensures
            r == (kind == FstreeErrorKind::TooManyFiles || kind == FstreeErrorKind::CyclicLink),
    {
        kind == FstreeErrorKind::TooManyFiles || kind == FstreeErrorKind::CyclicLink
    }

    /// Finishes a directory: its entries sorted by name are written as a
    /// tree object, recorded under its hash, which is returned.
    pub fn finish_dir(&mut self, entries: Vec<TreeEntry>) -> (h: [u8; 32])
        requires
            entries@.len() < 0x1_0000_0000,
            names_fit(entries_view(entries@)),
            old(self).dir_count_spec() < usize::MAX,
        ensures
            exists|t: TreeRecord|
                {
                    &&& t.hash@ == h@
                    &&& #[trigger] sorted_by_name(t.entries@)
                    &&& t.entries@.to_multiset() == entries@.to_multiset()
                    &&& t.data@ == tree_bytes_spec(entries_view(t.entries@))
                    &&& h@ == blake3_digest(t.data@)
                    &&& tree_index(old(self).trees_spec(), h@) is None ==> final(self).trees_spec() == old(
                        self,
                    ).trees_spec().push(t)
                },
            tree_index(old(self).trees_spec(), h@) is Some ==> final(self).trees_spec() == old(self).trees_spec(),
            final(self).dir_count_spec() == old(self).dir_count_spec() + 1,
            final(self).options_spec() == old(self).options_spec(),
            final(self).file_count_spec() == old(self).file_count_spec(),
            final(self).symlink_count_spec() == old(self).symlink_count_spec(),
            final(self).total_bytes_spec() == old(self).total_bytes_spec(),
            final(self).open_dirs() == old(self).open_dirs(),
            final(self).files_spec() == old(self).files_spec(),
    {
        let ghost orig = entries@;
        let sorted = sort_by_name(entries);
        proof {
            broadcast use vstd::seq_lib::group_to_multiset_ensures;
            assert(sorted@.len() == orig.len()) by {
                assert(sorted@.to_multiset().len() == orig.to_multiset().len());
            }
            assert forall|i: int| 0 <= i < sorted@.len() implies (#[trigger] vstd::utf8::encode_utf8(
                entries_view(sorted@)[i].name,
            )).len() < 0x1_0000_0000 by {
                let x = sorted@[i];
                assert(sorted@.to_multiset().count(x) > 0);
                assert(orig.contains(x));
                let j = choose|j: int| 0 <= j < orig.len() && orig[j] == x;
                assert(entries_view(orig)[j] == x@);
                assert(vstd::utf8::encode_utf8(entries_view(orig)[j].name).len() < 0x1_0000_0000);
            }
        }
        let data = tree_bytes(&sorted);
        let hash = blake3_hash(data.as_slice());
        let ghost sorted_v = sorted@;
        let ghost data_v = data@;
        let rec = TreeRecord { hash, data, entries: sorted };
        let ghost t = rec;
        let found = find_tree_in(&self.trees, &hash);
        if found.is_none() {
            self.trees.push(rec);
        }
        self.dir_count = self.dir_count + 1;
        proof {
            assert(t.entries@ == sorted_v);
            assert(t.data@ == data_v);
            assert(t.hash@ == hash@);
            assert(sorted_by_name(t.entries@));
            assert(t.entries@.to_multiset() == entries@.to_multiset());
            assert(t.data@ == tree_bytes_spec(entries_view(t.entries@)));
            assert(hash@ == blake3_digest(t.data@));
            assert(tree_index(old(self).trees_spec(), hash@) is None ==> self.trees_spec() == old(self).trees_spec().push(t));
        }
        hash
    }

    /// The snapshot of the capture, with the root tree's hash.
    pub fn into_snapshot(self, root_hash: [u8; 32], captured_at_ms: u64, duration_ms: u64) -> (s: Snapshot)
        ensures
            s.root_hash == root_hash,
            s.trees@ == self.trees_spec(),
            s.files@ == self.files_spec(),
            s.stats.file_count == self.file_count_spec(),
            s.stats.dir_count == self.dir_count_spec(),
            s.stats.symlink_count == self.symlink_count_spec(),
            s.stats.total_bytes == self.total_bytes_spec(),
            s.stats.duration_ms == duration_ms,
            s.captured_at_ms == captured_at_ms,
    {
        Snapshot {
            root_hash,
            trees: self.trees,
            files: self.files,
            symlinks: self.symlinks,
            stats: SnapshotStats {
                file_count: self.file_count,
                dir_count: self.dir_count,
                symlink_count: self.symlink_count,
                total_bytes: self.total_bytes,
                duration_ms,
            },
            captured_at_ms,
        }
    }
}

/// Counts of an upload of a snapshot.
#[derive(Debug, Clone, Copy)]
pub struct UploadResult {
    pub root_hash: [u8; 32],
    pub trees_uploaded: usize,
    pub trees_skipped: usize,
    pub files_uploaded: usize,
    pub files_skipped: usize,
    pub bytes_uploaded: i64,
}

impl UploadResult {
    /// Nothing uploaded yet for this root.
    pub fn new(root_hash: [u8; 32]) -> (r: UploadResult)
        ensures
            r.root_hash == root_hash,
            r.trees_uploaded == 0 && r.trees_skipped == 0 && r.files_uploaded == 0 && r.files_skipped == 0
                && r.bytes_uploaded == 0,
    {
        UploadResult { root_hash, trees_uploaded: 0, trees_skipped: 0, files_uploaded: 0, files_skipped: 0, bytes_uploaded: 0 }
    }

    /// Counts a blob offered to the server: uploaded when the server did
    /// not have it (and its bytes counted), else skipped; trees and files
    /// (link targets count as files) are counted apart.
    pub fn count(&mut self, is_tree: bool, was_new: bool, len: usize)
        requires
            old(self).trees_uploaded < usize::MAX,
            old(self).trees_skipped < usize::MAX,
            old(self).files_uploaded < usize::MAX,
            old(self).files_skipped < usize::MAX,
            old(self).bytes_uploaded + len <= i64::MAX,
            len <= i64::MAX,
        ensures
            final(self).root_hash == old(self).root_hash,
            final(self).trees_uploaded == old(self).trees_uploaded + if is_tree && was_new { 1int } else { 0int },
            final(self).trees_skipped == old(self).trees_skipped + if is_tree && !was_new { 1int } else { 0int },
            final(self).files_uploaded == old(self).files_uploaded + if !is_tree && was_new { 1int } else { 0int },
            final(self).files_skipped == old(self).files_skipped + if !is_tree && !was_new { 1int } else { 0int },
            final(self).bytes_uploaded == old(self).bytes_uploaded + if was_new { len as int } else { 0int },
    {
        if was_new {
            if is_tree {
                self.trees_uploaded = self.trees_uploaded + 1;
            } else {
                self.files_uploaded = self.files_uploaded + 1;
            }
            self.bytes_uploaded = self.bytes_uploaded + len as i64;
        } else if is_tree {
            self.trees_skipped = self.trees_skipped + 1;
        } else {
            self.files_skipped = self.files_skipped + 1;
        }
    }
}

} // verus!
