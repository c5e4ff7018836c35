//! Filesystem snapshots: tree entries, their encoding, and the snapshot and
//! diff types.
//!
//! A directory is stored as a tree object: its entries sorted by name,
//! written as a MessagePack array of maps whose keys are `"1"` to `"5"`
//! (name, kind, mode, size, hash), each value in a fixed form (kind as
//! `u8`, mode as `u32`, size as `u64`, hash as 32 bytes of binary).  Its
//! BLAKE3 hash names it.
#![allow(non_upper_case_globals)]
use vstd::prelude::*;

verus! {

pub const EntryKindFile: u8 = 0;
pub const EntryKindDirectory: u8 = 1;
pub const EntryKindSymlink: u8 = 2;

/// One entry of a directory.
#[derive(Debug, Clone)]
pub struct TreeEntry {
    pub name: String,
    /// File, directory or symbolic link.
    pub kind: u8,
    /// Permission bits.
    pub mode: u32,
    /// Bytes of a file, of a link's target, 0 for a directory.
    pub size: u64,
    /// Hash of the content, target or tree.
    pub hash: [u8; 32],
}

/// The mathematical form of a [`TreeEntry`].
pub struct EntryView {
    pub name: Seq<char>,
    pub kind: u8,
    pub mode: u32,
    pub size: u64,
    pub hash: Seq<u8>,
}

impl View for TreeEntry {
    type V = EntryView;

    open spec fn view(&self) -> EntryView {
        EntryView { name: self.name@, kind: self.kind, mode: self.mode, size: self.size, hash: self.hash@ }
    }
}

pub open spec fn entries_view(v: Seq<TreeEntry>) -> Seq<EntryView> {
    v.map_values(|e: TreeEntry| e@)
}

/// A copy of an entry.
pub fn copy_entry(e: &TreeEntry) -> (r: TreeEntry)
    ensures
        r@ == e@,
{
    TreeEntry { name: crate::text::owned(e.name.as_str()), kind: e.kind, mode: e.mode, size: e.size, hash: e.hash }
}

/// A directory's entries.
#[derive(Debug, Clone)]
pub struct TreeObject {
    pub entries: Vec<TreeEntry>,
}

/// A file of a snapshot: where it is and what it holds.
#[derive(Debug, Clone)]
pub struct FileRef {
    pub path: String,
    pub size: u64,
    pub hash: [u8; 32],
}

/// Counts of a snapshot.
#[derive(Debug, Clone, Copy)]
pub struct SnapshotStats {
    pub file_count: usize,
    pub dir_count: usize,
    pub symlink_count: usize,
    pub total_bytes: u64,
    /// How long the capture took.
    pub duration_ms: u64,
}

/// What changed between two snapshots: paths of files and links added,
/// removed and modified.
#[derive(Debug, Clone)]
pub struct SnapshotDiff {
    pub added: Vec<String>,
    pub removed: Vec<String>,
    pub modified: Vec<String>,
    pub old_root: [u8; 32],
    pub new_root: [u8; 32],
}

impl SnapshotDiff {
    /// Whether nothing changed.
    pub fn is_empty(&self) -> (r: bool)
        ensures
            r == (self.added@.len() == 0 && self.removed@.len() == 0 && self.modified@.len() == 0),
    {
        self.added.len() == 0 && self.removed.len() == 0 && self.modified.len() == 0
    }

    /// The number of changed paths.
    pub fn total_changes(&self) -> (n: usize)
        requires
            self.added@.len() + self.removed@.len() + self.modified@.len() <= usize::MAX,
        ensures
            n == self.added@.len() + self.removed@.len() + self.modified@.len(),
    {
        self.added.len() + self.removed.len() + self.modified.len()
    }
}

// ---------------------------------------------------------------------------
// Encoding
// ---------------------------------------------------------------------------

/// `v` in `n` big-endian bytes.
pub open spec fn be_bytes(v: nat, n: nat) -> Seq<u8>
    decreases n,
{
    if n == 0 {
        Seq::empty()
    } else {
        be_bytes(v / 256, (n - 1) as nat).push((v % 256) as u8)
    }
}

/// Appends `v` in `n` big-endian bytes.
pub fn push_be(out: &mut Vec<u8>, v: u64, n: usize)
    requires
        n <= 8,
    ensures
        final(out)@ == old(out)@ + be_bytes(v as nat, n as nat),
    decreases n,
{
    if n > 0 {
        push_be(out, v / 256, n - 1);
        out.push((v % 256) as u8);
        assert(be_bytes(v as nat, n as nat) == be_bytes((v / 256) as nat, (n - 1) as nat).push((v % 256) as u8));
        assert(final(out)@ =~= old(out)@ + be_bytes(v as nat, n as nat)) by {
            assert(out@ =~= old(out)@ + be_bytes((v / 256) as nat, (n - 1) as nat) + seq![(v % 256) as u8]);
        }
    } else {
        assert(out@ =~= old(out)@ + be_bytes(v as nat, 0));
    }
}

/// The MessagePack header of a string of `n` bytes.
pub open spec fn str_header(n: nat) -> Seq<u8> {
    if n < 32 {
        seq![(0xa0 + n) as u8]
    } else if n < 256 {
        seq![0xd9u8] + be_bytes(n, 1)
    } else if n < 65536 {
        seq![0xdau8] + be_bytes(n, 2)
    } else {
        seq![0xdbu8] + be_bytes(n, 4)
    }
}

/// The MessagePack header of an array of `n` items.
pub open spec fn array_header(n: nat) -> Seq<u8> {
    if n < 16 {
        seq![(0x90 + n) as u8]
    } else if n < 65536 {
        seq![0xdcu8] + be_bytes(n, 2)
    } else {
        seq![0xddu8] + be_bytes(n, 4)
    }
}

/// The encoding of one entry: a map of five members.
pub open spec fn entry_bytes(e: EntryView) -> Seq<u8> {
    let name = vstd::utf8::encode_utf8(e.name);
    seq![0x85u8, 0xa1u8, 0x31u8] + str_header(name.len()) + name + seq![0xa1u8, 0x32u8, 0xccu8, e.kind]
        + seq![0xa1u8, 0x33u8, 0xceu8] + be_bytes(e.mode as nat, 4) + seq![0xa1u8, 0x34u8, 0xcfu8] + be_bytes(
        e.size as nat,
        8,
    ) + seq![0xa1u8, 0x35u8, 0xc4u8, 0x20u8] + e.hash
}

/// The encodings of entries, one after another.
pub open spec fn entries_bytes(es: Seq<EntryView>) -> Seq<u8>
    decreases es.len(),
{
    if es.len() == 0 {
        Seq::empty()
    } else {
        entries_bytes(es.drop_last()) + entry_bytes(es.last())
    }
}

/// A tree object's bytes.
pub open spec fn tree_bytes_spec(es: Seq<EntryView>) -> Seq<u8> {
    array_header(es.len()) + entries_bytes(es)
}

fn push_str_header(out: &mut Vec<u8>, n: usize)
    requires
        n < 0x1_0000_0000,
    ensures
        final(out)@ == old(out)@ + str_header(n as nat),
{
    if n < 32 {
        out.push((0xa0 + n) as u8);
        assert(out@ =~= old(out)@ + str_header(n as nat));
    } else if n < 256 {
        out.push(0xd9);
        push_be(out, n as u64, 1);
        assert(out@ =~= old(out)@ + str_header(n as nat));
    } else if n < 65536 {
        out.push(0xda);
        push_be(out, n as u64, 2);
        assert(out@ =~= old(out)@ + str_header(n as nat));
    } else {
        out.push(0xdb);
        push_be(out, n as u64, 4);
        assert(out@ =~= old(out)@ + str_header(n as nat));
    }
}

fn push_array_header(out: &mut Vec<u8>, n: usize)
    requires
        n < 0x1_0000_0000,
    ensures
        final(out)@ == old(out)@ + array_header(n as nat),
{
    if n < 16 {
        out.push((0x90 + n) as u8);
        assert(out@ =~= old(out)@ + array_header(n as nat));
    } else if n < 65536 {
        out.push(0xdc);
        push_be(out, n as u64, 2);
        assert(out@ =~= old(out)@ + array_header(n as nat));
    } else {
        out.push(0xdd);
        push_be(out, n as u64, 4);
        assert(out@ =~= old(out)@ + array_header(n as nat));
    }
}

fn push_seq(out: &mut Vec<u8>, bytes: &[u8])
    ensures
        final(out)@ == old(out)@ + bytes@,
{
    crate::server::wire::push_bytes(out, bytes);
}

/// Whether every entry's name fits in a MessagePack string.
pub open spec fn names_fit(es: Seq<EntryView>) -> bool {
    forall|i: int| 0 <= i < es.len() ==> (#[trigger] vstd::utf8::encode_utf8(es[i].name)).len() < 0x1_0000_0000
}

/// Writes an entry.
pub fn push_entry(out: &mut Vec<u8>, e: &TreeEntry)
    requires
        vstd::utf8::encode_utf8(e.name@).len() < 0x1_0000_0000,
    ensures
        final(out)@ == old(out)@ + entry_bytes(e@),
{
    let name = e.name.as_str().as_bytes();
    push_seq(out, &[0x85u8, 0xa1u8, 0x31u8]);
    push_str_header(out, name.len());
    push_seq(out, name);
    push_seq(out, &[0xa1u8, 0x32u8, 0xccu8, e.kind]);
    push_seq(out, &[0xa1u8, 0x33u8, 0xceu8]);
    push_be(out, e.mode as u64, 4);
    push_seq(out, &[0xa1u8, 0x34u8, 0xcfu8]);
    push_be(out, e.size, 8);
    push_seq(out, &[0xa1u8, 0x35u8, 0xc4u8, 0x20u8]);
    push_seq(out, &e.hash);
    assert(out@ =~= old(out)@ + entry_bytes(e@));
}

/// A tree object's bytes.
pub fn tree_bytes(entries: &Vec<TreeEntry>) -> (r: Vec<u8>)
    requires
        entries@.len() < 0x1_0000_0000,
        names_fit(entries_view(entries@)),
    ensures
        r@ == tree_bytes_spec(entries_view(entries@)),
{
    let mut out: Vec<u8> = Vec::new();
    push_array_header(&mut out, entries.len());
    let ghost head = out@;
    let mut i: usize = 0;
    while i < entries.len()
        invariant
            i <= entries@.len(),
            names_fit(entries_view(entries@)),
            out@ == head + entries_bytes(entries_view(entries@.take(i as int))),
        decreases entries@.len() - i,
    {
        assert(entries_view(entries@)[i as int] == entries@[i as int]@);
        assert(vstd::utf8::encode_utf8(entries_view(entries@)[i as int].name).len() < 0x1_0000_0000);
        push_entry(&mut out, &entries[i]);
        proof {
            let t = entries_view(entries@.take(i + 1));
            assert(t.drop_last() =~= entries_view(entries@.take(i as int)));
            assert(t.last() == entries@[i as int]@);
            assert(out@ =~= head + entries_bytes(t));
        }
        i = i + 1;
    }
    assert(entries@.take(entries@.len() as int) =~= entries@);
    assert(out@ =~= tree_bytes_spec(entries_view(entries@)));
    out
}

// ---------------------------------------------------------------------------
// Sorting by name
// ---------------------------------------------------------------------------

/// Lexicographic order of names (by character, which is the order of
/// their UTF-8 bytes).
pub open spec fn name_le(a: Seq<char>, b: Seq<char>) -> bool
    decreases a.len(),
{
    if a.len() == 0 {
        true
    } else if b.len() == 0 {
        false
    } else if a[0] != b[0] {
        (a[0] as u32) < (b[0] as u32)
    } else {
        name_le(a.drop_first(), b.drop_first())
    }
}

pub proof fn lemma_name_le_total(a: Seq<char>, b: Seq<char>)
    ensures
        name_le(a, b) || name_le(b, a),
    decreases a.len(),
{
    if a.len() > 0 && b.len() > 0 {
        if a[0] == b[0] {
            lemma_name_le_total(a.drop_first(), b.drop_first());
        } else {
            vstd::utf8::char_u32_cast(a[0], a[0] as u32);
            vstd::utf8::char_u32_cast(b[0], b[0] as u32);
        }
    }
}

pub proof fn lemma_name_le_trans(a: Seq<char>, b: Seq<char>, c: Seq<char>)
    requires
        name_le(a, b),
        name_le(b, c),
    ensures
        name_le(a, c),
    decreases a.len(),
{
    if a.len() > 0 && b.len() > 0 && c.len() > 0 && a[0] == b[0] && b[0] == c[0] {
        lemma_name_le_trans(a.drop_first(), b.drop_first(), c.drop_first());
    }
}

/// Compares two names.
pub fn name_le_exec(a: &str, b: &str) -> (r: bool)
    ensures
        r == name_le(a@, b@),
{
    let ca = crate::text::chars_of(a);
    let cb = crate::text::chars_of(b);
    let mut i: usize = 0;
    assert(ca@.skip(0) =~= ca@);
    assert(cb@.skip(0) =~= cb@);
    while i < ca.len() && i < cb.len()
        invariant
            ca@ == a@,
            cb@ == b@,
            i <= ca@.len(),
            i <= cb@.len(),
            forall|j: int| 0 <= j < i ==> ca@[j] == cb@[j],
            name_le(ca@, cb@) == name_le(ca@.skip(i as int), cb@.skip(i as int)),
        decreases ca@.len() - i,
    {
        if ca[i] != cb[i] {
            assert(ca@.skip(i as int)[0] == ca@[i as int]);
            assert(cb@.skip(i as int)[0] == cb@[i as int]);
            let x: u32 = ca[i] as u32;
            let y: u32 = cb[i] as u32;
            return x < y;
        }
        assert(ca@.skip(i as int).drop_first() =~= ca@.skip(i + 1));
        assert(cb@.skip(i as int).drop_first() =~= cb@.skip(i + 1));
        i = i + 1;
    }
    i == ca.len()
}

/// Whether entries are sorted by name.
pub open spec fn sorted_by_name(es: Seq<TreeEntry>) -> bool {
    forall|i: int, j: int| 0 <= i < j < es.len() ==> name_le(es[i].name@, es[j].name@)
}

/// Sorts entries by name.
pub fn sort_by_name(entries: Vec<TreeEntry>) -> (r: Vec<TreeEntry>)
    ensures
        sorted_by_name(r@),
        r@.to_multiset() == entries@.to_multiset(),
{
    broadcast use vstd::seq_lib::group_to_multiset_ensures;

    let ghost all = entries@;
    let mut rest = entries;
    let mut out: Vec<TreeEntry> = Vec::new();
    assert(all.len() == rest.len());
    let mut k: usize = 0;
    assert(all.take(0) =~= Seq::<TreeEntry>::empty());
    while rest.len() > 0
        invariant
            all.len() <= usize::MAX,
            k + rest@.len() == all.len(),
            rest@ == all.skip(k as int),
            sorted_by_name(out@),
            out@.to_multiset() == all.take(k as int).to_multiset(),
        decreases rest@.len(),
    {
        let x = rest.remove(0);
        assert(all.take(k + 1) =~= all.take(k as int).push(x));
        let mut p: usize = out.len();
        while p > 0 && !name_le_exec(out[p - 1].name.as_str(), x.name.as_str())
            invariant
                p <= out@.len(),
                sorted_by_name(out@),
                forall|j: int| p <= j < out@.len() ==> !name_le(out@[j].name@, x.name@),
            decreases p,
        {
            p = p - 1;
        }
        proof {
            assert forall|j: int| p <= j < out@.len() implies name_le(x.name@, out@[j].name@) by {
                lemma_name_le_total(x.name@, out@[j].name@);
            }
            assert forall|j: int| 0 <= j < p implies name_le(out@[j].name@, x.name@) by {
                if j < p - 1 {
                    lemma_name_le_trans(out@[j].name@, out@[p - 1].name@, x.name@);
                }
            }
        }
        let ghost before = out@;
        out.insert(p, x);
        proof {
            assert(out@ == before.insert(p as int, x));
            vstd::seq_lib::to_multiset_insert(before, p as int, x);
            vstd::seq_lib::to_multiset_build(all.take(k as int), x);
            assert forall|i: int, j: int| 0 <= i < j < out@.len() implies name_le(out@[i].name@, out@[j].name@) by {
                if i < p && j > p {
                    lemma_name_le_trans(out@[i].name@, x.name@, out@[j].name@);
                }
            }
        }
        assert(rest@ =~= all.skip(k + 1));
        k = k + 1;
    }
    assert(all.take(all.len() as int) =~= all);
    out
}

/// The big-endian bytes of a number read back give the number.
pub proof fn lemma_be_bytes_len(v: nat, n: nat)
    ensures
        be_bytes(v, n).len() == n,
    decreases n,
{
    if n > 0 {
        lemma_be_bytes_len(v / 256, (n - 1) as nat);
    }
}

} // verus!
