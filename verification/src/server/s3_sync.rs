//! Backup of the store's files to S3: configuration, object keys, and the
//! record of what was uploaded.
//!
//! A file is uploaded when it has grown since its last upload (registry
//! bundles: when their size changed); after an upload its size is recorded.
//! The S3 client, the timer and the file system live with the program.
use vstd::prelude::*;
use crate::text::{
    chars_of, lowercase, owned, std_parse_u64, str_eq, str_starts_with, string_from_chars,
    to_lowercase, u64_text_value, has_prefix,
};

verus! {

/// S3 backup configuration.
#[derive(Debug, Clone)]
pub struct S3SyncConfig {
    /// Bucket name.
    pub bucket: String,
    /// Key prefix, such as `cxdb/prod/`.
    pub prefix: String,
    /// AWS region.
    pub region: String,
    /// Seconds between two uploads.
    pub sync_interval_secs: u64,
    /// Whether backup is on.
    pub enabled: bool,
}

/// Whether a setting reads as "on": `1`, or `true` in any case.
pub open spec fn enabled_text(v: Seq<char>) -> bool {
    v == "1"@ || lowercase(v) == "true"@
}

/// The configuration read from the settings `CXDB_S3_SYNC_ENABLED`,
/// `CXDB_S3_BUCKET`, `CXDB_S3_PREFIX`, `CXDB_S3_REGION` and
/// `CXDB_S3_SYNC_INTERVAL_SECS` (each `None` when unset).
pub open spec fn config_from(
    enabled: Option<Seq<char>>,
    bucket: Option<Seq<char>>,
    prefix: Option<Seq<char>>,
    region: Option<Seq<char>>,
    interval: Option<Seq<char>>,
) -> Option<(Seq<char>, Seq<char>, Seq<char>, u64)> {
    if !(enabled matches Some(e) && enabled_text(e)) {
        None
    } else if bucket is None {
        None
    } else {
        Some(
            (
                bucket->0,
                match prefix {
                    Some(p) => p,
                    None => Seq::empty(),
                },
                match region {
                    Some(r) => r,
                    None => "us-west-2"@,
                },
                match interval {
                    Some(i) => match u64_text_value(i) {
                        Some(v) => v,
                        None => 60,
                    },
                    None => 60,
                },
            ),
        )
    }
}

pub open spec fn opt_str_view(s: Option<String>) -> Option<Seq<char>> {
    match s {
        Some(t) => Some(t@),
        None => None,
    }
}

impl S3SyncConfig {
    /// The configuration these settings give, `None` when backup is off or
    /// no bucket is named; an interval that does not parse is 60 seconds.
    pub fn from_settings(
        enabled: Option<String>,
        bucket: Option<String>,
        prefix: Option<String>,
        region: Option<String>,
        interval: Option<String>,
    ) -> (r: Option<S3SyncConfig>)
        ensures
            match config_from(
                opt_str_view(enabled),
                opt_str_view(bucket),
                opt_str_view(prefix),
                opt_str_view(region),
                opt_str_view(interval),
            ) {
                None => r is None,
                Some((b, p, g, i)) => r matches Some(c) && c.bucket@ == b && c.prefix@ == p && c.region@ == g
                    && c.sync_interval_secs == i && c.enabled,
            },
    {
        let on = match &enabled {
            Some(v) => str_eq(v.as_str(), "1") || str_eq(to_lowercase(v.as_str()).as_str(), "true"),
            None => false,
        };
        if !on {
            return None;
        }
        let bucket = match bucket {
            Some(b) => b,
            None => {
                return None;
            },
        };
        let prefix = match prefix {
            Some(p) => p,
            None => String::new(),
        };
        let region = match region {
            Some(r) => r,
            None => owned("us-west-2"),
        };
        let sync_interval_secs = match &interval {
            Some(i) => match std_parse_u64(i.as_str()) {
                Ok(v) => v,
                Err(_) => 60,
            },
            None => 60,
        };
        Some(S3SyncConfig { bucket, prefix, region, sync_interval_secs, enabled: true })
    }
}

/// The files that are backed up, relative to the data directory.
pub fn sync_files() -> (v: Vec<&'static str>)
    ensures
        v@ == seq![
            "blobs/blobs.pack",
            "blobs/blobs.idx",
            "turns/turns.log",
            "turns/turns.idx",
            "turns/turns.meta",
            "turns/heads.tbl",
        ],
{
    vec![
        "blobs/blobs.pack",
        "blobs/blobs.idx",
        "turns/turns.log",
        "turns/turns.idx",
        "turns/turns.meta",
        "turns/heads.tbl",
    ]
}

// ---------------------------------------------------------------------------
// Object keys
// ---------------------------------------------------------------------------

/// `s` without its trailing slashes.
pub open spec fn trim_slashes(s: Seq<char>) -> Seq<char>
    decreases s.len(),
{
    if s.len() > 0 && s.last() == '/' {
        trim_slashes(s.drop_last())
    } else {
        s
    }
}

/// The object key of a file: the path itself without a prefix, else the
/// prefix without its trailing slashes, a slash and the path.
pub open spec fn s3_key_spec(prefix: Seq<char>, relative: Seq<char>) -> Seq<char> {
    if prefix.len() == 0 {
        relative
    } else {
        trim_slashes(prefix) + "/"@ + relative
    }
}

fn trim_trailing_slashes(s: &str) -> (r: Vec<char>)
    ensures
        r@ == trim_slashes(s@),
{
    let mut cs = chars_of(s);
    while cs.len() > 0 && cs[cs.len() - 1] == '/'
        invariant
            trim_slashes(cs@) == trim_slashes(s@),
        decreases cs@.len(),
    {
        cs.pop();
    }
    cs
}

/// The object key of a file under a prefix.
pub fn s3_key(prefix: &str, relative_path: &str) -> (k: String)
    ensures
        k@ == s3_key_spec(prefix@, relative_path@),
{
    if chars_of(prefix).len() == 0 {
        return owned(relative_path);
    }
    let mut out = trim_trailing_slashes(prefix);
    out.push('/');
    let rest = chars_of(relative_path);
    let ghost before = out@;
    let mut i: usize = 0;
    while i < rest.len()
        invariant
            i <= rest@.len(),
            out@ == before + rest@.take(i as int),
        decreases rest@.len() - i,
    {
        out.push(rest[i]);
        i = i + 1;
        assert(rest@.take(i as int) =~= rest@.take(i - 1) + seq![rest@[i - 1]]);
    }
    proof {
        reveal_strlit("/");
        assert(rest@.take(rest@.len() as int) =~= rest@);
        assert(out@ =~= s3_key_spec(prefix@, relative_path@));
    }
    string_from_chars(out.as_slice())
}

/// The file path that an object key under a prefix names: the key itself
/// without a prefix; else the key without the prefix's directory part, or
/// the whole key where it does not start with it.
pub open spec fn relative_path_spec(prefix: Seq<char>, key: Seq<char>) -> Seq<char> {
    if prefix.len() == 0 {
        key
    } else {
        let dir = trim_slashes(prefix) + "/"@;
        if has_prefix(key, dir) {
            key.skip(dir.len() as int)
        } else {
            key
        }
    }
}

/// The file path that an object key names.
pub fn relative_path_of(prefix: &str, key: &str) -> (r: String)
    ensures
        r@ == relative_path_spec(prefix@, key@),
{
    if chars_of(prefix).len() == 0 {
        return owned(key);
    }
    let mut dir = trim_trailing_slashes(prefix);
    dir.push('/');
    proof {
        reveal_strlit("/");
        assert(dir@ =~= trim_slashes(prefix@) + "/"@);
    }
    let ks = chars_of(key);
    let dn = dir.len();
    if dn > ks.len() {
        return owned(key);
    }
    let mut i: usize = 0;
    while i < dn
        invariant
            dn == dir@.len(),
            dir@ == trim_slashes(prefix@) + "/"@,
            ks@ == key@,
            dn <= ks@.len(),
            i <= dn,
            forall|j: int| 0 <= j < i ==> ks@[j] == dir@[j],
        decreases dn - i,
    {
        if ks[i] != dir[i] {
            proof {
                assert(ks@.subrange(0, dn as int)[i as int] != dir@[i as int]);
                assert(!has_prefix(key@, dir@));
            }
            return owned(key);
        }
        i = i + 1;
    }
    let mut out: Vec<char> = Vec::new();
    let mut j: usize = dn;
    while j < ks.len()
        invariant
            dn <= j <= ks@.len(),
            out@ == ks@.subrange(dn as int, j as int),
        decreases ks@.len() - j,
    {
        out.push(ks[j]);
        j = j + 1;
        assert(ks@.subrange(dn as int, j as int) =~= ks@.subrange(dn as int, j - 1) + seq![ks@[j - 1]]);
    }
    proof {
        reveal_strlit("/");
        assert(dir@ =~= trim_slashes(prefix@) + "/"@);
        assert(ks@.subrange(0, dn as int) =~= dir@);
        assert(has_prefix(key@, dir@));
        assert(out@ =~= key@.skip(dn as int));
    }
    string_from_chars(out.as_slice())
}

// ---------------------------------------------------------------------------
// Sync state
// ---------------------------------------------------------------------------

/// The size recorded last for a path, if any.
pub open spec fn recorded_size(entries: Seq<(String, u64)>, path: Seq<char>) -> Option<u64>
    decreases entries.len(),
{
    if entries.len() == 0 {
        None
    } else if entries.last().0@ == path {
        Some(entries.last().1)
    } else {
        recorded_size(entries.drop_last(), path)
    }
}

/// What was uploaded: the size of each file at its last upload, and when
/// the last upload round ended (Unix seconds).
#[derive(Debug, Clone)]
pub struct SyncState {
    /// Path and size of each uploaded file, one entry per path.
    pub file_sizes: Vec<(String, u64)>,
    /// Unix time of the last successful round.
    pub last_sync_time: u64,
}

impl Default for SyncState {
    fn default() -> (s: SyncState)
        ensures
            s.file_sizes@.len() == 0,
            s.last_sync_time == 0,
    {
        SyncState { file_sizes: Vec::new(), last_sync_time: 0 }
    }
}

/// Entries without those for `path`, in their order.
pub open spec fn without_path(entries: Seq<(String, u64)>, path: Seq<char>) -> Seq<(String, u64)>
    decreases entries.len(),
{
    if entries.len() == 0 {
        Seq::empty()
    } else {
        without_path(entries.drop_last(), path) + (if entries.last().0@ == path {
            Seq::empty()
        } else {
            seq![entries.last()]
        })
    }
}

proof fn lemma_without_path(entries: Seq<(String, u64)>, path: Seq<char>, other: Seq<char>)
    ensures
        recorded_size(without_path(entries, path), other) == if other == path {
            None
        } else {
            recorded_size(entries, other)
        },
    decreases entries.len(),
{
    if entries.len() > 0 {
        lemma_without_path(entries.drop_last(), path, other);
        let w = without_path(entries.drop_last(), path);
        if entries.last().0@ != path {
            assert((w + seq![entries.last()]).drop_last() =~= w);
        } else {
            assert(w + Seq::<(String, u64)>::empty() =~= w);
        }
    }
}

impl SyncState {
    /// The size recorded for a path at its last upload, 0 if never.
    pub fn last_size(&self, path: &str) -> (n: u64)
        ensures
            n == match recorded_size(self.file_sizes@, path@) {
                Some(v) => v,
                None => 0,
            },
    {
        let mut i: usize = self.file_sizes.len();
        assert(self.file_sizes@.take(i as int) =~= self.file_sizes@);
        while i > 0
            invariant
                i <= self.file_sizes@.len(),
                recorded_size(self.file_sizes@, path@) == recorded_size(self.file_sizes@.take(i as int), path@),
            decreases i,
        {
            let ghost t = self.file_sizes@.take(i as int);
            assert(t.drop_last() =~= self.file_sizes@.take(i - 1));
            if str_eq(self.file_sizes[i - 1].0.as_str(), path) {
                return self.file_sizes[i - 1].1;
            }
            i = i - 1;
        }
        0
    }

    /// Records that a path was uploaded at this size, replacing what was
    /// recorded for it.
    pub fn record_upload(&mut self, path: &str, size: u64)
        ensures
            final(self).last_sync_time == old(self).last_sync_time,
            forall|p: Seq<char>|
                #[trigger] recorded_size(final(self).file_sizes@, p) == if p == path@ {
                    Some(size)
                } else {
                    recorded_size(old(self).file_sizes@, p)
                },
    {
        let ghost all = self.file_sizes@;
        let mut kept: Vec<(String, u64)> = Vec::new();
        let mut rest: Vec<(String, u64)> = Vec::new();
        std::mem::swap(&mut rest, &mut self.file_sizes);
        let mut i: usize = 0;
        assert(all.len() == rest.len());
        while rest.len() > 0
            invariant
                all.len() <= usize::MAX,
                i + rest@.len() == all.len(),
                rest@ == all.skip(i as int),
                kept@ == without_path(all.take(i as int), path@),
            decreases rest@.len(),
        {
            let e = rest.remove(0);
            proof {
                assert(all.take(i + 1).drop_last() =~= all.take(i as int));
                assert(all.take(i + 1).last() == e);
            }
            if !str_eq(e.0.as_str(), path) {
                kept.push(e);
            }
            assert(kept@ =~= without_path(all.take(i + 1), path@));
            assert(rest@ =~= all.skip(i + 1));
            i = i + 1;
        }
        assert(all.take(all.len() as int) =~= all);
        let ghost w = kept@;
        kept.push((owned(path), size));
        self.file_sizes = kept;
        proof {
            assert forall|p: Seq<char>|
                #[trigger] recorded_size(self.file_sizes@, p) == if p == path@ {
                    Some(size)
                } else {
                    recorded_size(all, p)
                } by {
                assert(self.file_sizes@.drop_last() =~= w);
                lemma_without_path(all, path@, p);
            }
        }
    }

    /// Whether a tracked file of this size is to be uploaded: it has grown
    /// since its last upload.
    pub fn needs_upload(&self, path: &str, current_size: u64) -> (r: bool)
        ensures
            r == (current_size > match recorded_size(self.file_sizes@, path@) {
                Some(v) => v,
                None => 0,
            }),
    {
        current_size > self.last_size(path)
    }

    /// Whether a registry bundle of this size is to be uploaded: its size
    /// differs from the one last uploaded.
    pub fn registry_needs_upload(&self, path: &str, current_size: u64) -> (r: bool)
        ensures
            r == (current_size != match recorded_size(self.file_sizes@, path@) {
                Some(v) => v,
                None => 0,
            }),
    {
        current_size != self.last_size(path)
    }
}

/// The manifest kept beside the backup.
#[derive(Debug, Clone)]
pub struct S3Manifest {
    /// Path and size of each file.
    pub files: Vec<(String, u64)>,
    /// Unix time the manifest was written.
    pub created_at: u64,
    /// Format version.
    pub version: u32,
}

impl S3Manifest {
    /// The manifest of a sync state, written at `created_at`, version 1.
    pub fn of_state(state: &SyncState, created_at: u64) -> (m: S3Manifest)
        ensures
            m.files@.len() == state.file_sizes@.len(),
            forall|i: int| 0 <= i < m.files@.len() ==> m.files@[i].0@ == state.file_sizes@[i].0@
                && m.files@[i].1 == state.file_sizes@[i].1,
            m.created_at == created_at,
            m.version == 1,
    {
        let mut files: Vec<(String, u64)> = Vec::new();
        let mut i: usize = 0;
        while i < state.file_sizes.len()
            invariant
                i <= state.file_sizes@.len(),
                files@.len() == i,
                forall|j: int| 0 <= j < i ==> files@[j].0@ == state.file_sizes@[j].0@
                    && files@[j].1 == state.file_sizes@[j].1,
            decreases state.file_sizes@.len() - i,
        {
            files.push((owned(state.file_sizes[i].0.as_str()), state.file_sizes[i].1));
            i = i + 1;
        }
        S3Manifest { files, created_at, version: 1 }
    }
}

/// After an upload is recorded, the next check finds nothing to upload
/// until the file grows again, and other paths keep what they had.
pub proof fn law_recorded_upload_is_current(before: Seq<(String, u64)>, after: Seq<(String, u64)>, path: Seq<char>, size: u64, other: Seq<char>)
    requires
        forall|p: Seq<char>|
            #[trigger] recorded_size(after, p) == if p == path { Some(size) } else { recorded_size(before, p) },
    ensures
        !(size > match recorded_size(after, path) {
            Some(v) => v,
            None => 0,
        }),
        other != path ==> recorded_size(after, other) == recorded_size(before, other),
{
    assert(recorded_size(after, path) == Some(size));
    assert(recorded_size(after, other) == if other == path { Some(size) } else { recorded_size(before, other) });
}

} // verus!
