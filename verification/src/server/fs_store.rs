//! Filesystem snapshots attached to turns.
//!
//! The roots index maps a turn to the hash of the root tree of a snapshot.
//! On disk it is an append-only file of 44-byte records (turn id, root
//! hash, CRC-32 of both); a later record of a turn replaces an earlier one.
//! A turn without a snapshot of its own inherits the nearest one up its
//! chain of parents.
//!
//! Tree objects are MessagePack arrays of maps from field numbers (1 name,
//! 2 kind, 3 mode, 4 size, 5 hash) to values, kept in the blob store;
//! [`parse_tree_entries`] reads one, and [`resolve_step`] and
//! [`file_step`] walk a path through them one tree at a time.
use vstd::prelude::*;
use std::collections::HashMap;
use crate::server::blob_store::{crc32_of, crc32_of_parts};
use crate::server::error::{SpecStoreError, StoreError};
use crate::server::msgpack::{msgpack_decoded, msgpack_error, read_msgpack, MsgValue, SpecMsg};
use crate::server::protocol::read_hash;
use crate::server::turn_store::{TurnRecord, TurnStore};
use crate::server::wire::{le_bytes, le_value, lemma_pow256_values, push_bytes, push_le, read_le};
use crate::text::{chars_of, concat, decimal, owned, parse_u64, push_decimal, push_str, str_eq, string_from_chars, u64_text_value};

verus! {

broadcast use vstd::std_specs::hash::group_hash_axioms;

/// What a tree entry is.
#[derive(Debug, Clone, Copy, PartialEq, Eq, Structural)]
pub enum EntryKind {
    File,
    Directory,
    Symlink,
}

/// The kind a number stands for: 1 a directory, 2 a symlink, anything else
/// a file.
pub open spec fn kind_of(v: u8) -> EntryKind {
    if v == 1 {
        EntryKind::Directory
    } else if v == 2 {
        EntryKind::Symlink
    } else {
        EntryKind::File
    }
}

impl From<u8> for EntryKind {
    fn from(v: u8) -> (r: EntryKind) {
        if v == 1 {
            EntryKind::Directory
        } else if v == 2 {
            EntryKind::Symlink
        } else {
            EntryKind::File
        }
    }
}

impl vstd::std_specs::convert::FromSpecImpl<u8> for EntryKind {
    open spec fn obeys_from_spec() -> bool {
        true
    }

    open spec fn from_spec(v: u8) -> EntryKind {
        kind_of(v)
    }
}

/// An entry of a tree object.
#[derive(Debug, Clone)]
pub struct TreeEntry {
    /// The name, without separators.
    pub name: String,
    /// 0 file, 1 directory, 2 symlink.
    pub kind: u8,
    /// POSIX permission bits.
    pub mode: u32,
    /// Size in bytes (0 for directories).
    pub size: u64,
    /// The hash of the content, subtree or link target.
    pub hash: Vec<u8>,
}

/// The mathematical form of a [`TreeEntry`].
pub struct SpecTreeEntry {
    pub name: Seq<char>,
    pub kind: u8,
    pub mode: u32,
    pub size: u64,
    pub hash: Seq<u8>,
}

impl View for TreeEntry {
    type V = SpecTreeEntry;

    open spec fn view(&self) -> SpecTreeEntry {
        SpecTreeEntry { name: self.name@, kind: self.kind, mode: self.mode, size: self.size, hash: self.hash@ }
    }
}

/// The message of a hash of the wrong length.
pub open spec fn bad_hash_text(len: nat) -> Seq<char> {
    "invalid hash length: "@ + decimal(len)
}

impl TreeEntry {
    /// The hash as 32 bytes; another length is corrupt.
    pub fn hash_array(&self) -> (r: Result<[u8; 32], StoreError>)
        ensures
            self.hash@.len() == 32 ==> (r matches Ok(h) && h@ == self.hash@),
            self.hash@.len() != 32 ==> (r matches Err(e) && e@ == SpecStoreError::Corrupt(
                bad_hash_text(self.hash@.len()),
            )),
    {
        if self.hash.len() != 32 {
            let mut out = chars_of("invalid hash length: ");
            push_decimal(&mut out, self.hash.len() as u64);
            return Err(StoreError::Corrupt(string_from_chars(out.as_slice())));
        }
        Ok(read_hash(self.hash.as_slice(), 0))
    }

    /// The kind of the entry.
    pub fn kind_enum(&self) -> (r: EntryKind)
        ensures
            r == kind_of(self.kind),
    {
        EntryKind::from(self.kind)
    }

    /// A copy of the entry.
    pub fn copy(&self) -> (r: TreeEntry)
        ensures
            r@ == self@,
    {
        TreeEntry {
            name: owned(self.name.as_str()),
            kind: self.kind,
            mode: self.mode,
            size: self.size,
            hash: vstd::slice::slice_to_vec(self.hash.as_slice()),
        }
    }
}

// ---------------------------------------------------------------------------
// The roots file
// ---------------------------------------------------------------------------

/// The 44 bytes of a roots record: turn id, root hash, and the CRC-32 of
/// both.
pub open spec fn root_record_spec(turn_id: u64, hash: Seq<u8>) -> Seq<u8> {
    le_bytes(turn_id as nat, 8) + hash + le_bytes(crc32_of(le_bytes(turn_id as nat, 8) + hash) as nat, 4)
}

/// Writes a roots record.
pub fn encode_root_record(turn_id: u64, fs_root_hash: &[u8; 32]) -> (r: Vec<u8>)
    ensures
        r@ == root_record_spec(turn_id, fs_root_hash@),
{
    let mut head: Vec<u8> = Vec::new();
    push_le(&mut head, turn_id, 8);
    let crc = crc32_of_parts(head.as_slice(), fs_root_hash);
    let mut buf = head;
    push_bytes(&mut buf, fs_root_hash);
    push_le(&mut buf, crc as u64, 4);
    buf
}

/// What reading the roots file from `pos` gives: the records up to the
/// first that is cut short or has a wrong CRC, and where the file is then
/// to be cut (nowhere when fewer than 8 bytes are left).
pub open spec fn roots_scan(buf: Seq<u8>, pos: int) -> (Seq<(u64, Seq<u8>)>, Option<int>)
    decreases buf.len() - pos,
{
    if buf.len() < pos + 8 {
        (seq![], None)
    } else if buf.len() < pos + 44 {
        (seq![], Some(pos))
    } else if le_value(buf.subrange(pos + 40, pos + 44)) != crc32_of(buf.subrange(pos, pos + 40)) {
        (seq![], Some(pos))
    } else {
        let rest = roots_scan(buf, pos + 44);
        (seq![(le_value(buf.subrange(pos, pos + 8)) as u64, buf.subrange(pos + 8, pos + 40))] + rest.0, rest.1)
    }
}

/// The records viewed.
pub open spec fn roots_view(v: Seq<(u64, [u8; 32])>) -> Seq<(u64, Seq<u8>)> {
    v.map_values(|e: (u64, [u8; 32])| (e.0, e.1@))
}

/// Reads the roots file: its records in order, and where it is to be cut,
/// if anywhere.
pub fn scan_roots(buf: &[u8]) -> (r: (Vec<(u64, [u8; 32])>, Option<u64>))
    ensures
        roots_view(r.0@) == roots_scan(buf@, 0).0,
        match (r.1, roots_scan(buf@, 0).1) {
            (Some(x), Some(y)) => x == y,
            (None, None) => true,
            _ => false,
        },
{
    proof {
        lemma_pow256_values();
    }
    let mut out: Vec<(u64, [u8; 32])> = Vec::new();
    let mut pos: usize = 0;
    assert(roots_view(out@) =~= seq![]);
    loop
        invariant
            pos <= buf@.len(),
            roots_scan(buf@, 0) == (roots_view(out@) + roots_scan(buf@, pos as int).0, roots_scan(buf@, pos as int).1),
        decreases buf@.len() - pos,
    {
        if buf.len() - pos < 8 {
            assert(roots_view(out@) + Seq::<(u64, Seq<u8>)>::empty() =~= roots_view(out@));
            return (out, None);
        }
        if buf.len() - pos < 44 {
            assert(roots_view(out@) + Seq::<(u64, Seq<u8>)>::empty() =~= roots_view(out@));
            return (out, Some(pos as u64));
        }
        let head = vstd::slice::slice_subrange(buf, pos, pos + 8);
        let hash = read_hash(buf, pos + 8);
        let actual = crc32_of_parts(head, &hash);
        let stored = read_le(buf, pos + 40, 4);
        proof {
            assert(head@ + hash@ =~= buf@.subrange(pos as int, pos + 40));
        }
        if stored != actual as u64 {
            assert(roots_view(out@) + Seq::<(u64, Seq<u8>)>::empty() =~= roots_view(out@));
            return (out, Some(pos as u64));
        }
        let turn_id = read_le(buf, pos, 8);
        let ghost before = roots_view(out@);
        out.push((turn_id, hash));
        proof {
            let rest = roots_scan(buf@, (pos + 44) as int);
            let e = (turn_id, hash@);
            assert(roots_view(out@) =~= before.push(e));
            assert(before + (seq![e] + rest.0) =~= before.push(e) + rest.0);
        }
        pos = pos + 44;
    }
}

// ---------------------------------------------------------------------------
// The roots index
// ---------------------------------------------------------------------------

/// Counts of the roots index.
#[derive(Debug, Clone, Copy)]
pub struct FsRootsStats {
    pub entries_total: usize,
    pub file_bytes: u64,
    /// The size of the blobs the snapshots refer to, which the store adds.
    pub content_bytes: u64,
}

/// The snapshot a turn has or inherits: its own, else that of the first
/// turn up its chain of parents that has one, looking at no more than
/// `fuel` turns.
pub open spec fn inherited_spec(roots: Map<u64, [u8; 32]>, turns: Map<u64, TurnRecord>, cur: u64, fuel: nat) -> Option<
    [u8; 32],
>
    decreases fuel,
{
    if cur == 0 || fuel == 0 || !turns.contains_key(cur) {
        None
    } else if roots.contains_key(turns[cur].turn_id) {
        Some(roots[turns[cur].turn_id])
    } else {
        inherited_spec(roots, turns, turns[cur].parent_turn_id, (fuel - 1) as nat)
    }
}

/// The turns that have a snapshot, and their roots.
pub struct FsRootsIndex {
    roots: HashMap<u64, [u8; 32]>,
}

impl FsRootsIndex {
    /// The root of each turn with a snapshot.
    pub closed spec fn roots(&self) -> Map<u64, [u8; 32]> {
        self.roots@
    }

    /// An empty index.
    pub fn new() -> (r: FsRootsIndex)
        ensures
            r.roots() == Map::<u64, [u8; 32]>::empty(),
    {
        FsRootsIndex { roots: HashMap::new() }
    }

    /// The index that records read by [`scan_roots`] make: a later record
    /// of a turn replaces an earlier one.
    pub fn load(records: Vec<(u64, [u8; 32])>) -> (r: FsRootsIndex)
        ensures
            r.roots() == roots_loaded(records@),
    {
        let mut idx = FsRootsIndex::new();
        let mut i: usize = 0;
        while i < records.len()
            invariant
                i <= records@.len(),
                idx.roots@ == roots_loaded(records@.take(i as int)),
            decreases records@.len() - i,
        {
            let (t, h) = records[i];
            idx.roots.insert(t, h);
            assert(records@.take(i + 1).drop_last() =~= records@.take(i as int));
            i = i + 1;
        }
        assert(records@.take(records@.len() as int) =~= records@);
        idx
    }

    /// Attaches a snapshot to a turn (its record written to the file
    /// first), replacing an earlier one.
    pub fn attach(&mut self, turn_id: u64, fs_root_hash: [u8; 32])
        ensures
            final(self).roots() == old(self).roots().insert(turn_id, fs_root_hash),
    {
        self.roots.insert(turn_id, fs_root_hash);
    }

    /// The snapshot attached to the turn itself.
    pub fn get(&self, turn_id: u64) -> (r: Option<[u8; 32]>)
        ensures
            r == (if self.roots().contains_key(turn_id) {
                Some(self.roots()[turn_id])
            } else {
                None
            }),
    {
        match self.roots.get(&turn_id) {
            Some(h) => Some(*h),
            None => None,
        }
    }

    /// The snapshot a turn has or inherits from the nearest ancestor with
    /// one; the walk looks at no more turns than the store holds.
    pub fn get_inherited(&self, turn_id: u64, turn_store: &TurnStore) -> (r: Option<[u8; 32]>)
        ensures
            r == (if self.roots().contains_key(turn_id) {
                Some(self.roots()[turn_id])
            } else {
                inherited_spec(self.roots(), turn_store.turns(), turn_id, (turn_store.turns().dom().len() + 1) as nat)
            }),
    {
        if let Some(h) = self.roots.get(&turn_id) {
            return Some(*h);
        }
        let mut remaining: usize = turn_store.turn_count();
        let mut current = turn_id;
        while current != 0
            invariant
                !self.roots@.contains_key(turn_id),
                inherited_spec(self.roots@, turn_store.turns(), turn_id, (turn_store.turns().dom().len() + 1) as nat)
                    == inherited_spec(self.roots@, turn_store.turns(), current, (remaining + 1) as nat),
            decreases remaining,
        {
            match turn_store.get_turn(current) {
                Ok(turn) => {
                    if let Some(h) = self.roots.get(&turn.turn_id) {
                        return Some(*h);
                    }
                    if remaining == 0 {
                        assert(inherited_spec(self.roots@, turn_store.turns(), turn.parent_turn_id, 0) is None);
                        return None;
                    }
                    current = turn.parent_turn_id;
                    remaining = remaining - 1;
                },
                Err(_) => {
                    return None;
                },
            }
        }
        None
    }

    /// Whether a turn has or inherits a snapshot.
    pub fn has_snapshot(&self, turn_id: u64, turn_store: &TurnStore) -> (r: bool)
        ensures
            r == (self.roots().contains_key(turn_id) || inherited_spec(
                self.roots(),
                turn_store.turns(),
                turn_id,
                (turn_store.turns().dom().len() + 1) as nat,
            ) is Some),
    {
        self.get_inherited(turn_id, turn_store).is_some()
    }

    /// Counts of the index, with the size of its file.
    pub fn stats(&self, file_bytes: u64) -> (r: FsRootsStats)
        ensures
            r.entries_total == self.roots().dom().len(),
            r.file_bytes == file_bytes,
            r.content_bytes == 0,
    {
        FsRootsStats { entries_total: self.roots.len(), file_bytes, content_bytes: 0 }
    }

    /// The distinct roots, each once, in no particular order.
    pub fn unique_roots(&self) -> (r: Vec<[u8; 32]>)
        ensures
            forall|i: int| 0 <= i < r@.len() ==> self.roots().values().contains(#[trigger] r@[i]),
            forall|h: [u8; 32]| #[trigger] self.roots().values().contains(h) ==> r@.contains(h),
            forall|i: int, j: int| 0 <= i < j < r@.len() ==> r@[i] != r@[j],
    {
        let mut out: Vec<[u8; 32]> = Vec::new();
        for h in it: self.roots.values()
            invariant
                it.seq().unref().to_set() == self.roots@.values(),
                forall|i: int| 0 <= i < out@.len() ==> self.roots@.values().contains(#[trigger] out@[i]),
                forall|j: int| 0 <= j < it.index() ==> out@.contains(#[trigger] it.seq().unref()[j]),
                it.index() == it.seq().len() ==> forall|g: [u8; 32]|
                    #[trigger] self.roots@.values().contains(g) ==> out@.contains(g),
                forall|i: int, j: int| 0 <= i < j < out@.len() ==> out@[i] != out@[j],
        {
            proof {
                let sq = it.seq().unref();
                let idx = it.index() as int;
                assert(sq[idx] == *h);
                assert(sq.to_set().contains(sq[idx]));
            }
            let ghost before = out@;
            if !contains_hash(&out, h) {
                out.push(*h);
                proof {
                    assert(out@[out@.len() - 1] == *h);
                    assert forall|i: int, j: int| 0 <= i < j < out@.len() implies out@[i] != out@[j] by {
                        if j == out@.len() - 1 {
                            assert(out@[i] == before[i]);
                        }
                    }
                }
            }
            proof {
                let sq = it.seq().unref();
                let idx = it.index() as int;
                assert(out@.contains(*h));
                assert forall|j: int| 0 <= j < idx + 1 implies out@.contains(#[trigger] sq[j]) by {
                    if j < idx {
                        assert(before.contains(sq[j]));
                        let k = choose|k: int| 0 <= k < before.len() && before[k] == sq[j];
                        assert(out@[k] == before[k]);
                    }
                }
                assert forall|g: [u8; 32]|
                    idx + 1 == sq.len() && #[trigger] self.roots@.values().contains(g) implies out@.contains(g) by {
                    assert(sq.to_set().contains(g));
                    let j = choose|j: int| 0 <= j < sq.len() && sq[j] == g;
                    assert(out@.contains(sq[j]));
                }
                assert forall|i: int| 0 <= i < out@.len() implies self.roots@.values().contains(#[trigger] out@[i]) by {
                    if i < before.len() {
                        assert(out@[i] == before[i]);
                    }
                }
            }
        }
        out
    }
}

fn contains_hash(v: &Vec<[u8; 32]>, h: &[u8; 32]) -> (r: bool)
    ensures
        r == v@.contains(*h),
{
    let mut i: usize = 0;
    while i < v.len()
        invariant
            i <= v@.len(),
            forall|j: int| 0 <= j < i ==> v@[j] != *h,
        decreases v@.len() - i,
    {
        if array_eq(&v[i], h) {
            assert(v@[i as int] == *h);
            return true;
        }
        i = i + 1;
    }
    false
}

fn array_eq(a: &[u8; 32], b: &[u8; 32]) -> (r: bool)
    ensures
        r == (*a == *b),
{
    let mut i: usize = 0;
    while i < 32
        invariant
            i <= 32,
            forall|j: int| 0 <= j < i ==> a@[j] == b@[j],
        decreases 32 - i,
    {
        if a[i] != b[i] {
            return false;
        }
        i = i + 1;
    }
    assert(*a == *b) by {
        assert(a@ =~= b@);
    }
    true
}

/// The roots that records read in order make.
pub open spec fn roots_loaded(rs: Seq<(u64, [u8; 32])>) -> Map<u64, [u8; 32]>
    decreases rs.len(),
{
    if rs.len() == 0 {
        Map::empty()
    } else {
        roots_loaded(rs.drop_last()).insert(rs.last().0, rs.last().1)
    }
}

// ---------------------------------------------------------------------------
// Tree objects
// ---------------------------------------------------------------------------

/// The field number a map key stands for: an integer (a negative one
/// counts as 0), or a string read as a number (0 when it is not one); other
/// keys are skipped.
pub open spec fn key_number(k: SpecMsg) -> Option<u64> {
    match k {
        SpecMsg::UInt(u) => Some(u as u64),
        SpecMsg::NegInt(_) => Some(0),
        SpecMsg::Str(t) => match u64_text_value(t) {
            Some(n) => Some(n),
            None => Some(0),
        },
        SpecMsg::BadStr => Some(0),
        _ => None,
    }
}

/// The integer a value holds as a `u64`, a negative one as 0.
pub open spec fn int_value(v: SpecMsg) -> Option<u64> {
    match v {
        SpecMsg::UInt(u) => Some(u as u64),
        SpecMsg::NegInt(_) => Some(0),
        _ => None,
    }
}

/// The entry that a map's fields describe, taken in order: 1 the name (a
/// string), 2 the kind, 3 the mode (integers, cut to their widths), 4 the
/// size (an integer), 5 the hash (binary); a later field replaces an
/// earlier one, and a value of another type leaves the field as it was.
pub open spec fn entry_fields(es: Seq<(SpecMsg, SpecMsg)>) -> SpecTreeEntry
    decreases es.len(),
{
    if es.len() == 0 {
        SpecTreeEntry { name: seq![], kind: 0, mode: 0, size: 0, hash: seq![] }
    } else {
        let e = entry_fields(es.drop_last());
        let (k, v) = es.last();
        match key_number(k) {
            Some(1) => match v {
                SpecMsg::Str(t) => SpecTreeEntry { name: t, ..e },
                SpecMsg::BadStr => SpecTreeEntry { name: seq![], ..e },
                _ => e,
            },
            Some(2) => match int_value(v) {
                Some(n) => SpecTreeEntry { kind: n as u8, ..e },
                None => e,
            },
            Some(3) => match int_value(v) {
                Some(n) => SpecTreeEntry { mode: n as u32, ..e },
                None => e,
            },
            Some(4) => match int_value(v) {
                Some(n) => SpecTreeEntry { size: n, ..e },
                None => e,
            },
            Some(5) => match v {
                SpecMsg::Binary(b) => SpecTreeEntry { hash: b, ..e },
                _ => e,
            },
            _ => e,
        }
    }
}

/// The entries of a tree object: an array of maps.
pub open spec fn tree_of(v: SpecMsg) -> Result<Seq<SpecTreeEntry>, Seq<char>> {
    match v {
        SpecMsg::Array(items) => if forall|i: int| 0 <= i < items.len() ==> (#[trigger] items[i]) is Table {
            Ok(Seq::new(items.len(), |i: int| entry_fields(items[i]->Table_0)))
        } else {
            Err("tree entry is not a map"@)
        },
        _ => Err("tree is not an array"@),
    }
}

/// The entries viewed.
pub open spec fn entries_view(v: Seq<TreeEntry>) -> Seq<SpecTreeEntry> {
    v.map_values(|e: TreeEntry| e@)
}

fn key_number_exec(k: &MsgValue) -> (r: Option<u64>)
    ensures
        r == key_number(k@),
{
    match k {
        MsgValue::UInt(u) => Some(*u),
        MsgValue::NegInt(_) => Some(0),
        MsgValue::Str(Some(t)) => match parse_u64(t.as_str()) {
            Some(n) => Some(n),
            None => Some(0),
        },
        MsgValue::Str(None) => Some(0),
        _ => None,
    }
}

fn int_value_exec(v: &MsgValue) -> (r: Option<u64>)
    ensures
        r == int_value(v@),
{
    match v {
        MsgValue::UInt(u) => Some(*u),
        MsgValue::NegInt(_) => Some(0),
        _ => None,
    }
}

/// Reads one entry from a map's keys and values.
fn entry_of_fields(keys: &Vec<MsgValue>, values: &Vec<MsgValue>) -> (r: TreeEntry)
    ensures
        r@ == entry_fields(
            Seq::new(
                if keys@.len() <= values@.len() { keys@.len() } else { values@.len() },
                |i: int| (keys@[i]@, values@[i]@),
            ),
        ),
{
    let n = if keys.len() <= values.len() { keys.len() } else { values.len() };
    let ghost es = Seq::new(n as nat, |i: int| (keys@[i]@, values@[i]@));
    let mut e = TreeEntry { name: String::new(), kind: 0, mode: 0, size: 0, hash: Vec::new() };
    let mut i: usize = 0;
    proof {
        assert(es.take(0) =~= seq![]);
        assert(e@.name =~= seq![]);
        assert(e@.hash =~= seq![]);
    }
    while i < n
        invariant
            i <= n,
            n <= keys@.len(),
            n <= values@.len(),
            es == Seq::new(n as nat, |i: int| (keys@[i]@, values@[i]@)),
            e@ == entry_fields(es.take(i as int)),
        decreases n - i,
    {
        proof {
            assert(es.take(i + 1).drop_last() =~= es.take(i as int));
            assert(es.take(i + 1).last() == (keys@[i as int]@, values@[i as int]@));
        }
        let v = &values[i];
        match key_number_exec(&keys[i]) {
            Some(1) => match v {
                MsgValue::Str(t) => {
                    e.name = match t {
                        Some(x) => owned(x.as_str()),
                        None => String::new(),
                    };
                },
                _ => {},
            },
            Some(2) => match int_value_exec(v) {
                Some(k) => {
                    e.kind = k as u8;
                },
                None => {},
            },
            Some(3) => match int_value_exec(v) {
                Some(k) => {
                    e.mode = k as u32;
                },
                None => {},
            },
            Some(4) => match int_value_exec(v) {
                Some(k) => {
                    e.size = k;
                },
                None => {},
            },
            Some(5) => match v {
                MsgValue::Binary(b) => {
                    e.hash = vstd::slice::slice_to_vec(b.as_slice());
                },
                _ => {},
            },
            _ => {},
        }
        i = i + 1;
    }
    assert(es.take(n as int) =~= es);
    e
}

/// The entries of a tree object read by [`read_msgpack`].
pub fn tree_entries_of(v: &MsgValue) -> (r: Result<Vec<TreeEntry>, StoreError>)
    ensures
        match (r, tree_of(v@)) {
            (Ok(es), Ok(s)) => entries_view(es@) == s,
            (Err(e), Err(m)) => e@ == SpecStoreError::Corrupt(m),
            _ => false,
        },
{
    match v {
        MsgValue::Array(items) => {
            let ghost sitems = Seq::new(
                items@.len(),
                |i: int|
                    if 0 <= i < items@.len() {
                        items@[i]@
                    } else {
                        SpecMsg::Nil
                    },
            );
            assert(v@ == SpecMsg::Array(sitems)) by {
                assert(sitems =~= match v@ {
                    SpecMsg::Array(s) => s,
                    _ => Seq::empty(),
                });
            }
            let mut out: Vec<TreeEntry> = Vec::new();
            let mut i: usize = 0;
            while i < items.len()
                invariant
                    i <= items@.len(),
                    sitems == Seq::new(
                        items@.len(),
                        |i: int|
                            if 0 <= i < items@.len() {
                                items@[i]@
                            } else {
                                SpecMsg::Nil
                            },
                    ),
                    v@ == SpecMsg::Array(sitems),
                    out@.len() == i,
                    forall|j: int| 0 <= j < i ==> (#[trigger] sitems[j]) is Table && out@[j]@ == entry_fields(sitems[j]->Table_0),
                decreases items@.len() - i,
            {
                proof {
                    assert(sitems[i as int] == items@[i as int]@);
                }
                match &items[i] {
                    MsgValue::Table(keys, values) => {
                        let e = entry_of_fields(keys, values);
                        proof {
                            let n = if keys@.len() <= values@.len() { keys@.len() } else { values@.len() };
                            let m = Seq::new(n, |k: int| (keys@[k]@, values@[k]@));
                            assert(m =~= match items@[i as int]@ {
                                SpecMsg::Table(s) => s,
                                _ => Seq::empty(),
                            });
                            assert(sitems[i as int]->Table_0 == m);
                        }
                        out.push(e);
                    },
                    _ => {
                        proof {
                            assert(!(sitems[i as int] is Table));
                            assert(!(forall|j: int| 0 <= j < sitems.len() ==> (#[trigger] sitems[j]) is Table));
                        }
                        return Err(StoreError::Corrupt(owned("tree entry is not a map")));
                    },
                }
                i = i + 1;
            }
            proof {
                assert(entries_view(out@) =~= Seq::new(sitems.len(), |i: int| entry_fields(sitems[i]->Table_0)));
            }
            Ok(out)
        },
        _ => Err(StoreError::Corrupt(owned("tree is not an array"))),
    }
}

/// Reads a tree object from its bytes; bytes that are not MessagePack are
/// corrupt.
pub fn parse_tree_entries(bytes: &[u8]) -> (r: Result<Vec<TreeEntry>, StoreError>)
    ensures
        match msgpack_decoded(bytes@) {
            None => r matches Err(e) && e@ == SpecStoreError::Corrupt("invalid tree msgpack: "@ + msgpack_error(bytes@)),
            Some(v) => match (r, tree_of(v)) {
                (Ok(es), Ok(s)) => entries_view(es@) == s,
                (Err(e), Err(m)) => e@ == SpecStoreError::Corrupt(m),
                _ => false,
            },
        },
{
    match read_msgpack(bytes) {
        Ok(v) => tree_entries_of(&v),
        Err(m) => Err(StoreError::Corrupt(concat("invalid tree msgpack: ", m.as_str()))),
    }
}

// ---------------------------------------------------------------------------
// Walking a path
// ---------------------------------------------------------------------------

/// The pieces of a path between slashes, empty ones included.
pub open spec fn slash_pieces(p: Seq<char>) -> Seq<Seq<char>>
    decreases p.len(),
{
    if p.len() == 0 {
        seq![Seq::empty()]
    } else {
        let s = slash_pieces(p.drop_last());
        if p.last() == '/' {
            s.push(Seq::empty())
        } else {
            s.update(s.len() - 1, s.last().push(p.last()))
        }
    }
}

/// Whether a piece names an entry: not empty and not `.`.
pub open spec fn named_piece(x: Seq<char>) -> bool {
    x.len() > 0 && x != seq!['.']
}

/// The pieces that name entries, in order.
pub open spec fn named_pieces(s: Seq<Seq<char>>) -> Seq<Seq<char>>
    decreases s.len(),
{
    if s.len() == 0 {
        Seq::empty()
    } else {
        named_pieces(s.drop_last()) + if named_piece(s.last()) {
            seq![s.last()]
        } else {
            Seq::empty()
        }
    }
}

proof fn lemma_slash_pieces_nonempty(p: Seq<char>)
    ensures
        slash_pieces(p).len() >= 1,
    decreases p.len(),
{
    if p.len() > 0 {
        lemma_slash_pieces_nonempty(p.drop_last());
    }
}

/// The names along a path: the pieces between slashes, without empty ones
/// and `.`.
pub fn path_parts(path: &str) -> (r: Vec<String>)
    ensures
        r@.map_values(|x: String| x@) == named_pieces(slash_pieces(path@)),
{
    let cs = chars_of(path);
    let mut out: Vec<String> = Vec::new();
    let mut cur: Vec<char> = Vec::new();
    let mut i: usize = 0;
    proof {
        assert(cs@.take(0) =~= Seq::<char>::empty());
        assert(out@.map_values(|x: String| x@) =~= Seq::<Seq<char>>::empty());
    }
    while i < cs.len()
        invariant
            cs@ == path@,
            i <= cs@.len(),
            slash_pieces(cs@.take(i as int)).len() >= 1,
            cur@ == slash_pieces(cs@.take(i as int)).last(),
            out@.map_values(|x: String| x@) == named_pieces(slash_pieces(cs@.take(i as int)).drop_last()),
        decreases cs@.len() - i,
    {
        let c = cs[i];
        let ghost pre = slash_pieces(cs@.take(i as int));
        proof {
            assert(cs@.take(i + 1).drop_last() =~= cs@.take(i as int));
            assert(cs@.take(i + 1).last() == c);
        }
        if c == '/' {
            let ghost before = out@.map_values(|x: String| x@);
            if cur.len() > 0 && !(cur.len() == 1 && cur[0] == '.') {
                proof {
                    if cur@ == seq!['.'] {
                        assert(cur@.len() == 1 && cur@[0] == '.');
                    }
                }
                out.push(string_from_chars(cur.as_slice()));
                proof {
                    assert(out@.map_values(|x: String| x@) =~= before.push(cur@));
                }
            } else {
                proof {
                    if cur.len() == 1 && cur[0] == '.' {
                        assert(cur@ =~= seq!['.']);
                    }
                }
            }
            proof {
                let post = pre.push(Seq::empty());
                assert(post.drop_last() =~= pre);
                assert(pre =~= pre.drop_last().push(pre.last()));
                assert(named_pieces(pre) == named_pieces(pre.drop_last()) + if named_piece(pre.last()) {
                    seq![pre.last()]
                } else {
                    Seq::<Seq<char>>::empty()
                });
                if named_piece(pre.last()) {
                    assert(out@.map_values(|x: String| x@) =~= named_pieces(pre.drop_last()) + seq![pre.last()]);
                } else {
                    assert(out@.map_values(|x: String| x@) =~= named_pieces(pre.drop_last()) + Seq::<Seq<char>>::empty());
                }
            }
            cur = Vec::new();
            proof {
                assert(cur@ =~= Seq::<char>::empty());
            }
        } else {
            cur.push(c);
            proof {
                let post = pre.update(pre.len() - 1, pre.last().push(c));
                assert(post.drop_last() =~= pre.drop_last());
            }
        }
        i = i + 1;
    }
    proof {
        assert(cs@.take(cs@.len() as int) =~= cs@);
    }
    let ghost all = slash_pieces(cs@);
    let ghost before = out@.map_values(|x: String| x@);
    if cur.len() > 0 && !(cur.len() == 1 && cur[0] == '.') {
        out.push(string_from_chars(cur.as_slice()));
        proof {
            assert(out@.map_values(|x: String| x@) =~= before.push(cur@));
            if cur@ == seq!['.'] {
                assert(cur@.len() == 1 && cur@[0] == '.');
            }
        }
    } else {
        proof {
            if cur.len() == 1 && cur[0] == '.' {
                assert(cur@ =~= seq!['.']);
            }
        }
    }
    proof {
        assert(all =~= all.drop_last().push(all.last()));
        if named_piece(all.last()) {
            assert(out@.map_values(|x: String| x@) =~= named_pieces(all.drop_last()) + seq![all.last()]);
        } else {
            assert(out@.map_values(|x: String| x@) =~= named_pieces(all.drop_last()) + Seq::<Seq<char>>::empty());
        }
    }
    out
}

/// The index of the first entry with this name.
pub open spec fn entry_named(es: Seq<SpecTreeEntry>, name: Seq<char>) -> Option<int>
    decreases es.len(),
{
    if es.len() == 0 {
        None
    } else {
        match entry_named(es.drop_last(), name) {
            Some(i) => Some(i),
            None => if es.last().name == name {
                Some(es.len() - 1)
            } else {
                None
            },
        }
    }
}

proof fn lemma_entry_named(es: Seq<SpecTreeEntry>, name: Seq<char>, i: int)
    requires
        0 <= i < es.len(),
        es[i].name == name,
        forall|j: int| 0 <= j < i ==> es[j].name != name,
    ensures
        entry_named(es, name) == Some(i),
    decreases es.len(),
{
    if es.len() - 1 > i {
        lemma_entry_named(es.drop_last(), name, i);
    } else {
        lemma_entry_named_none(es.drop_last(), name);
    }
}

proof fn lemma_entry_named_none(es: Seq<SpecTreeEntry>, name: Seq<char>)
    requires
        forall|j: int| 0 <= j < es.len() ==> es[j].name != name,
    ensures
        entry_named(es, name) is None,
    decreases es.len(),
{
    if es.len() > 0 {
        lemma_entry_named_none(es.drop_last(), name);
    }
}

fn find_named(entries: &Vec<TreeEntry>, name: &str) -> (r: Option<usize>)
    ensures
        match r {
            Some(i) => entry_named(entries_view(entries@), name@) == Some(i as int) && i < entries@.len(),
            None => entry_named(entries_view(entries@), name@) is None,
        },
{
    let ghost es = entries_view(entries@);
    let mut i: usize = 0;
    while i < entries.len()
        invariant
            es == entries_view(entries@),
            i <= entries@.len(),
            forall|j: int| 0 <= j < i ==> es[j].name != name@,
        decreases entries@.len() - i,
    {
        if str_eq(entries[i].name.as_str(), name) {
            proof {
                lemma_entry_named(es, name@, i as int);
            }
            return Some(i);
        }
        i = i + 1;
    }
    proof {
        lemma_entry_named_none(es, name@);
    }
    None
}

/// What walking one name of a path through a tree gives: the hash at the
/// end, with whether it is a directory, or the directory to go on into.
#[derive(Debug, Clone, Copy, PartialEq, Eq)]
pub enum PathStep {
    Found([u8; 32], bool),
    Descend([u8; 32]),
}

/// The message of a name no entry has.
pub open spec fn not_found_text(part: Seq<char>) -> Seq<char> {
    "path component not found: "@ + part
}

/// Walks one name of a path through a tree's entries: the first entry with
/// that name is taken; at the last name it is the answer, before it it must
/// be a directory.
pub fn resolve_step(entries: &Vec<TreeEntry>, part: &str, is_last: bool) -> (r: Result<PathStep, StoreError>)
    ensures
        match entry_named(entries_view(entries@), part@) {
            None => r matches Err(e) && e@ == SpecStoreError::NotFound(not_found_text(part@)),
            Some(i) => {
                let e = entries@[i]@;
                if e.hash.len() != 32 {
                    r matches Err(x) && x@ == SpecStoreError::Corrupt(bad_hash_text(e.hash.len()))
                } else if is_last {
                    r matches Ok(PathStep::Found(h, d)) && h@ == e.hash && d == (kind_of(e.kind) == EntryKind::Directory)
                } else if kind_of(e.kind) != EntryKind::Directory {
                    r matches Err(x) && x@ == SpecStoreError::InvalidInput("not a directory: "@ + part@)
                } else {
                    r matches Ok(PathStep::Descend(h)) && h@ == e.hash
                }
            },
        },
{
    let i = match find_named(entries, part) {
        Some(i) => i,
        None => {
            return Err(StoreError::NotFound(concat("path component not found: ", part)));
        },
    };
    let entry = &entries[i];
    let hash = entry.hash_array()?;
    let kind = entry.kind_enum();
    if is_last {
        return Ok(PathStep::Found(hash, kind == EntryKind::Directory));
    }
    if kind != EntryKind::Directory {
        return Err(StoreError::InvalidInput(concat("not a directory: ", part)));
    }
    Ok(PathStep::Descend(hash))
}

/// What walking one name of a file's path through a tree gives: the file
/// (or symlink) at the end with its hash, or the directory to go on into.
#[derive(Debug, Clone)]
pub enum FileStep {
    Fetch([u8; 32], TreeEntry),
    Descend([u8; 32]),
}

/// Walks one name of a file's path through a tree's entries, as
/// [`resolve_step`] does, except that the last name must not be a
/// directory.
pub fn file_step(entries: &Vec<TreeEntry>, part: &str, is_last: bool, path: &str) -> (r: Result<FileStep, StoreError>)
    ensures
        match entry_named(entries_view(entries@), part@) {
            None => r matches Err(e) && e@ == SpecStoreError::NotFound(not_found_text(part@)),
            Some(i) => {
                let e = entries@[i]@;
                if e.hash.len() != 32 {
                    r matches Err(x) && x@ == SpecStoreError::Corrupt(bad_hash_text(e.hash.len()))
                } else if is_last && kind_of(e.kind) == EntryKind::Directory {
                    r matches Err(x) && x@ == SpecStoreError::InvalidInput("path is a directory: "@ + path@)
                } else if is_last {
                    r matches Ok(FileStep::Fetch(h, t)) && h@ == e.hash && t@ == e
                } else if kind_of(e.kind) != EntryKind::Directory {
                    r matches Err(x) && x@ == SpecStoreError::InvalidInput("not a directory: "@ + part@)
                } else {
                    r matches Ok(FileStep::Descend(h)) && h@ == e.hash
                }
            },
        },
{
    let i = match find_named(entries, part) {
        Some(i) => i,
        None => {
            return Err(StoreError::NotFound(concat("path component not found: ", part)));
        },
    };
    let entry = &entries[i];
    let hash = entry.hash_array()?;
    let kind = entry.kind_enum();
    if is_last {
        if kind == EntryKind::Directory {
            return Err(StoreError::InvalidInput(concat("path is a directory: ", path)));
        }
        return Ok(FileStep::Fetch(hash, entry.copy()));
    }
    if kind != EntryKind::Directory {
        return Err(StoreError::InvalidInput(concat("not a directory: ", part)));
    }
    Ok(FileStep::Descend(hash))
}

/// A roots record written and read back gives the turn and root it was
/// written with, and nothing to cut.
pub proof fn law_root_record_roundtrip(turn_id: u64, hash: Seq<u8>)
    requires
        hash.len() == 32,
    ensures
        roots_scan(root_record_spec(turn_id, hash), 0) == (seq![(turn_id, hash)], Option::<int>::None),
{
    lemma_pow256_values();
    let b = root_record_spec(turn_id, hash);
    let head = le_bytes(turn_id as nat, 8);
    crate::server::wire::lemma_le_bytes_len(turn_id as nat, 8);
    crate::server::wire::lemma_le_bytes_len(crc32_of(head + hash) as nat, 4);
    crate::server::wire::lemma_le_roundtrip(turn_id as nat, 8);
    crate::server::wire::lemma_le_roundtrip(crc32_of(head + hash) as nat, 4);
    assert(b.len() == 44);
    assert(b.subrange(0, 40) =~= head + hash);
    assert(b.subrange(40, 44) =~= le_bytes(crc32_of(head + hash) as nat, 4));
    assert(b.subrange(0, 8) =~= head);
    assert(b.subrange(8, 40) =~= hash);
    assert(roots_scan(b, 44) == (Seq::<(u64, Seq<u8>)>::empty(), Option::<int>::None));
    assert(seq![(turn_id, hash)] + Seq::<(u64, Seq<u8>)>::empty() =~= seq![(turn_id, hash)]);
}

} // verus!
