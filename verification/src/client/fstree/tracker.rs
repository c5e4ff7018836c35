//! Tracking a directory across captures: the last snapshot kept, whether a
//! new capture changed anything, and what changed since the last one.
use vstd::prelude::*;
use crate::client::fstree::options::{options_after, options_from, options_view, Options, SnapshotOption};
use crate::client::fstree::snapshot::{diff_spec, FstreeError, Snapshot, TreeRecord};
use crate::client::fstree::types::{copy_entry, entries_view, FileRef, SnapshotDiff, TreeEntry};
use crate::server::wire::copy_bytes;
use crate::text::owned;

verus! {

/// Whether two tree records hold the same hash, bytes and entries.
pub open spec fn same_record(a: TreeRecord, b: TreeRecord) -> bool {
    a.hash@ == b.hash@ && a.data@ == b.data@ && entries_view(a.entries@) == entries_view(b.entries@)
}

/// Whether two snapshots hold the same root, trees, files, links and
/// counts.
pub open spec fn same_snapshot(a: Snapshot, b: Snapshot) -> bool {
    &&& a.root_hash@ == b.root_hash@
    &&& a.trees@.len() == b.trees@.len()
    &&& forall|i: int| 0 <= i < a.trees@.len() ==> same_record(#[trigger] a.trees@[i], b.trees@[i])
    &&& a.files@.len() == b.files@.len()
    &&& forall|i: int|
        0 <= i < a.files@.len() ==> (#[trigger] a.files@[i]).path@ == b.files@[i].path@ && a.files@[i].size
            == b.files@[i].size && a.files@[i].hash@ == b.files@[i].hash@
    &&& a.symlinks@.len() == b.symlinks@.len()
    &&& forall|i: int|
        0 <= i < a.symlinks@.len() ==> (#[trigger] a.symlinks@[i]).0@ == b.symlinks@[i].0@ && a.symlinks@[i].1@
            == b.symlinks@[i].1@
    &&& a.stats == b.stats
    &&& a.captured_at_ms == b.captured_at_ms
}

fn copy_record(r: &TreeRecord) -> (c: TreeRecord)
    ensures
        same_record(c, *r),
{
    let mut entries: Vec<TreeEntry> = Vec::new();
    let mut i: usize = 0;
    while i < r.entries.len()
        invariant
            i <= r.entries@.len(),
            entries@.len() == i,
            forall|k: int| 0 <= k < i ==> entries@[k]@ == r.entries@[k]@,
        decreases r.entries@.len() - i,
    {
        entries.push(copy_entry(&r.entries[i]));
        i = i + 1;
    }
    assert(entries_view(entries@) =~= entries_view(r.entries@));
    let data = copy_bytes(r.data.as_slice(), 0, r.data.len());
    assert(data@ =~= r.data@);
    TreeRecord { hash: r.hash, data, entries }
}

/// A copy of a snapshot.
pub fn copy_snapshot(s: &Snapshot) -> (c: Snapshot)
    ensures
        same_snapshot(c, *s),
{
    let mut trees: Vec<TreeRecord> = Vec::new();
    let mut i: usize = 0;
    while i < s.trees.len()
        invariant
            i <= s.trees@.len(),
            trees@.len() == i,
            forall|k: int| 0 <= k < i ==> same_record(#[trigger] trees@[k], s.trees@[k]),
        decreases s.trees@.len() - i,
    {
        trees.push(copy_record(&s.trees[i]));
        i = i + 1;
    }
    let mut files: Vec<FileRef> = Vec::new();
    let mut j: usize = 0;
    while j < s.files.len()
        invariant
            j <= s.files@.len(),
            files@.len() == j,
            forall|k: int|
                0 <= k < j ==> (#[trigger] files@[k]).path@ == s.files@[k].path@ && files@[k].size == s.files@[k].size
                    && files@[k].hash@ == s.files@[k].hash@,
        decreases s.files@.len() - j,
    {
        let f = &s.files[j];
        files.push(FileRef { path: owned(f.path.as_str()), size: f.size, hash: f.hash });
        j = j + 1;
    }
    let mut links: Vec<([u8; 32], String)> = Vec::new();
    let mut k: usize = 0;
    while k < s.symlinks.len()
        invariant
            k <= s.symlinks@.len(),
            links@.len() == k,
            forall|m: int|
                0 <= m < k ==> (#[trigger] links@[m]).0@ == s.symlinks@[m].0@ && links@[m].1@ == s.symlinks@[m].1@,
        decreases s.symlinks@.len() - k,
    {
        links.push((s.symlinks[k].0, owned(s.symlinks[k].1.as_str())));
        k = k + 1;
    }
    Snapshot { root_hash: s.root_hash, trees, files, symlinks: links, stats: s.stats, captured_at_ms: s.captured_at_ms }
}

/// Captures of one directory, remembering the last.
pub struct Tracker {
    root: String,
    opts: Vec<SnapshotOption>,
    last: Option<Snapshot>,
}

impl Tracker {
    /// The last snapshot kept.
    pub closed spec fn last_spec(&self) -> Option<Snapshot> {
        self.last
    }

    /// The directory tracked.
    pub closed spec fn root_spec(&self) -> Seq<char> {
        self.root@
    }

    /// The options it captures with.
    pub closed spec fn opts_spec(&self) -> Seq<SnapshotOption> {
        self.opts@
    }

    /// Tracks a directory, captured with these options; nothing captured
    /// yet.
    pub fn new(root: &str, opts: Vec<SnapshotOption>) -> (t: Tracker)
        ensures
            t.root_spec() == root@,
            t.opts_spec() == opts@,
            t.last_spec() is None,
    {
        Tracker { root: owned(root), opts, last: None }
    }

    /// The directory tracked.
    pub fn root(&self) -> (r: String)
        ensures
            r@ == self.root_spec(),
    {
        owned(self.root.as_str())
    }

    /// The capture settings.
    pub fn options(&self) -> (o: Options)
        ensures
            options_view(o) == options_after(self.opts_spec()),
    {
        options_from(&self.opts)
    }

    /// Takes in a new capture: it is kept as the last one, and returned
    /// with whether it differs from the previous one (always, when there
    /// was none).  A failed capture is passed on and changes nothing.
    pub fn snapshot(&mut self, captured: Result<Snapshot, FstreeError>) -> (r: Result<(Snapshot, bool), FstreeError>)
        ensures
            match captured {
                Err(e) => r matches Err(x) && x.kind == e.kind && x.detail@ == e.detail@ && final(self).last_spec()
                    == old(self).last_spec(),
                Ok(s) => r matches Ok((snap, changed)) && same_snapshot(snap, s) && changed == (match old(self).last_spec() {
                    Some(p) => p.root_hash@ != s.root_hash@,
                    None => true,
                }) && (final(self).last_spec() matches Some(k) && same_snapshot(k, s)),
            },
            final(self).root_spec() == old(self).root_spec(),
    {
        let snap = match captured {
            Ok(s) => s,
            Err(e) => {
                return Err(e);
            },
        };
        let changed = match &self.last {
            Some(prev) => {
                let mut same = true;
                let mut i: usize = 0;
                while i < 32
                    invariant
                        i <= 32,
                        same == (forall|j: int| 0 <= j < i ==> prev.root_hash@[j] == snap.root_hash@[j]),
                    decreases 32 - i,
                {
                    if prev.root_hash[i] != snap.root_hash[i] {
                        same = false;
                    }
                    i = i + 1;
                }
                proof {
                    if same {
                        assert(prev.root_hash@ =~= snap.root_hash@);
                    }
                }
                !same
            },
            None => true,
        };
        self.last = Some(copy_snapshot(&snap));
        proof {
            assert forall|i: int| 0 <= i < snap.trees@.len() implies same_record(#[trigger] snap.trees@[i], snap.trees@[i]) by {}
        }
        Ok((snap, changed))
    }

    /// A copy of the last snapshot kept.
    pub fn last_snapshot(&self) -> (r: Option<Snapshot>)
        ensures
            match self.last_spec() {
                Some(s) => r matches Some(c) && same_snapshot(c, s),
                None => r is None,
            },
    {
        match &self.last {
            Some(s) => Some(copy_snapshot(s)),
            None => None,
        }
    }

    /// Takes in a new capture as [`Tracker::snapshot`] does, and hands it
    /// out only when it changed.
    pub fn snapshot_if_changed(&mut self, captured: Result<Snapshot, FstreeError>) -> (r: Result<(Option<Snapshot>, bool), FstreeError>)
        ensures
            match captured {
                Err(e) => r matches Err(x) && x.kind == e.kind && x.detail@ == e.detail@ && final(self).last_spec()
                    == old(self).last_spec(),
                Ok(s) => {
                    let changed = match old(self).last_spec() {
                        Some(p) => p.root_hash@ != s.root_hash@,
                        None => true,
                    };
                    &&& r matches Ok((o, c)) && c == changed && (changed ==> (o matches Some(x) && same_snapshot(x, s)))
                        && (!changed ==> o is None)
                    &&& final(self).last_spec() matches Some(k) && same_snapshot(k, s)
                },
            },
            final(self).root_spec() == old(self).root_spec(),
    {
        let (snap, changed) = match self.snapshot(captured) {
            Ok(p) => p,
            Err(e) => {
                return Err(e);
            },
        };
        if changed {
            Ok((Some(snap), true))
        } else {
            Ok((None, false))
        }
    }

    /// What changed from the last snapshot kept to `current`.
    pub fn diff_from_last(&self, current: &Snapshot) -> (r: Result<SnapshotDiff, FstreeError>)
        requires
            current.trees@.len() < usize::MAX,
            self.last_spec() matches Some(p) ==> p.trees@.len() < usize::MAX,
        ensures
            diff_spec(*current, self.last_spec(), r),
    {
        current.diff(self.last.as_ref())
    }
}

} // verus!
