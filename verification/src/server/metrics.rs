//! Connected clients and the contexts they created, and the server's error
//! log.
//!
//! A context is live while the session that created it is connected; when
//! the session goes, its contexts stop being live.
use std::collections::{HashMap, HashSet};
use vstd::prelude::*;
use crate::cql::dates::unix_time_ms;
use crate::text::{owned, str_eq};

verus! {

broadcast use vstd::std_specs::hash::group_hash_axioms;

/// A connected client.
#[derive(Debug)]
pub struct ClientSession {
    pub session_id: u64,
    pub client_tag: String,
    /// The peer's address, `ip:port`.
    pub peer_addr: Option<String>,
    /// Unix milliseconds.
    pub connected_at: u64,
    /// Unix milliseconds.
    pub last_activity_at: u64,
    /// The contexts this session created, each once.
    pub contexts_created: Vec<u64>,
}

/// The mathematical form of a [`ClientSession`].
pub struct SessionView {
    pub session_id: u64,
    pub client_tag: Seq<char>,
    pub peer_addr: Option<Seq<char>>,
    pub connected_at: u64,
    pub last_activity_at: u64,
    pub contexts_created: Seq<u64>,
}

impl View for ClientSession {
    type V = SessionView;

    open spec fn view(&self) -> SessionView {
        SessionView {
            session_id: self.session_id,
            client_tag: self.client_tag@,
            peer_addr: match &self.peer_addr {
                Some(p) => Some(p@),
                None => None,
            },
            connected_at: self.connected_at,
            last_activity_at: self.last_activity_at,
            contexts_created: self.contexts_created@,
        }
    }
}

fn copy_opt_string(s: &Option<String>) -> (r: Option<String>)
    ensures
        match (r, s) {
            (Some(a), Some(b)) => a@ == b@,
            (None, None) => true,
            _ => false,
        },
{
    match s {
        Some(t) => Some(owned(t.as_str())),
        None => None,
    }
}

impl ClientSession {
    /// A copy of the session.
    pub fn copy(&self) -> (r: ClientSession)
        ensures
            r@ == self@,
    {
        let peer_addr = copy_opt_string(&self.peer_addr);
        let r = ClientSession {
            session_id: self.session_id,
            client_tag: owned(self.client_tag.as_str()),
            peer_addr,
            connected_at: self.connected_at,
            last_activity_at: self.last_activity_at,
            contexts_created: self.contexts_created.clone(),
        };
        assert(r.contexts_created@ =~= self.contexts_created@);
        r
    }
}

/// Whether some session of `m` looks like `v`.
pub open spec fn has_session(m: Map<u64, ClientSession>, v: SessionView) -> bool {
    exists|k: u64| #[trigger] m.contains_key(k) && m[k]@ == v
}

/// Whether some session of `m` has this client tag.
pub open spec fn has_tag(m: Map<u64, ClientSession>, tag: Seq<char>) -> bool {
    exists|k: u64| #[trigger] m.contains_key(k) && m[k].client_tag@ == tag
}

/// The sessions that are connected and the contexts they created.
pub struct SessionTracker {
    sessions: HashMap<u64, ClientSession>,
    context_to_session: HashMap<u64, u64>,
}

/// A list that copies, one for one, a walk over all the values of `m`
/// holds each of them.
proof fn lemma_values_listed(sq: Seq<ClientSession>, out: Seq<ClientSession>, m: Map<u64, ClientSession>)
    requires
        sq.to_set() == m.values(),
        out.len() <= sq.len(),
        forall|i: int| 0 <= i < out.len() ==> #[trigger] out[i]@ == sq[i]@,
    ensures
        out.len() == sq.len() ==> forall|k: u64|
            #[trigger] m.contains_key(k) ==> exists|i: int| 0 <= i < out.len() && #[trigger] out[i]@ == m[k]@,
{
    if out.len() == sq.len() {
        assert forall|k: u64| #[trigger] m.contains_key(k) implies exists|i: int|
            0 <= i < out.len() && #[trigger] out[i]@ == m[k]@ by {
            let x = m[k];
            assert(m.values().contains(x));
            assert(sq.to_set().contains(x));
            assert(sq.contains(x));
            let j = choose|j: int| 0 <= j < sq.len() && sq[j] == x;
            assert(out[j]@ == sq[j]@);
        }
    }
}

impl SessionTracker {
    /// The connected sessions by id.
    pub closed spec fn sessions(&self) -> Map<u64, ClientSession> {
        self.sessions@
    }

    /// The live contexts and the session that created each.
    pub closed spec fn owners(&self) -> Map<u64, u64> {
        self.context_to_session@
    }

    /// No session is connected.
    pub fn new() -> (t: SessionTracker)
        ensures
            t.sessions() == Map::<u64, ClientSession>::empty(),
            t.owners() == Map::<u64, u64>::empty(),
    {
        SessionTracker { sessions: HashMap::new(), context_to_session: HashMap::new() }
    }

    /// Registers a session that connected at `now_ms`, replacing one with
    /// the same id.
    pub fn register_at(&mut self, session_id: u64, client_tag: String, peer_addr: Option<String>, now_ms: u64)
        ensures
            final(self).owners() == old(self).owners(),
            final(self).sessions().dom() == old(self).sessions().dom().insert(session_id),
            forall|k: u64| k != session_id && old(self).sessions().contains_key(k)
                ==> #[trigger] final(self).sessions()[k] == old(self).sessions()[k],
            final(self).sessions()[session_id]@ == (SessionView {
                session_id,
                client_tag: client_tag@,
                peer_addr: match peer_addr {
                    Some(p) => Some(p@),
                    None => None,
                },
                connected_at: now_ms,
                last_activity_at: now_ms,
                contexts_created: Seq::empty(),
            }),
    {
        let session = ClientSession {
            session_id,
            client_tag,
            peer_addr,
            connected_at: now_ms,
            last_activity_at: now_ms,
            contexts_created: Vec::new(),
        };
        self.sessions.insert(session_id, session);
        assert(self.sessions@.dom() =~= old(self).sessions@.dom().insert(session_id));
    }

    /// Registers a session that connected now.
    pub fn register(&mut self, session_id: u64, client_tag: String, peer_addr: Option<String>)
        ensures
            final(self).owners() == old(self).owners(),
            final(self).sessions().dom() == old(self).sessions().dom().insert(session_id),
            forall|k: u64| k != session_id && old(self).sessions().contains_key(k)
                ==> #[trigger] final(self).sessions()[k] == old(self).sessions()[k],
            final(self).sessions()[session_id].client_tag@ == client_tag@,
            final(self).sessions()[session_id].contexts_created@.len() == 0,
    {
        self.register_at(session_id, client_tag, peer_addr, unix_time_ms());
    }

    /// The peer address of a session, if it is connected and has one.
    pub fn get_peer_addr(&self, session_id: u64) -> (r: Option<String>)
        ensures
            match r {
                Some(a) => self.sessions().contains_key(session_id)
                    && (self.sessions()[session_id].peer_addr matches Some(p) && p@ == a@),
                None => !self.sessions().contains_key(session_id) || self.sessions()[session_id].peer_addr is None,
            },
    {
        match self.sessions.get(&session_id) {
            Some(s) => copy_opt_string(&s.peer_addr),
            None => None,
        }
    }

    /// Records activity of a session at `now_ms`; an unknown session is
    /// ignored.
    pub fn record_activity_at(&mut self, session_id: u64, now_ms: u64)
        ensures
            final(self).owners() == old(self).owners(),
            final(self).sessions().dom() == old(self).sessions().dom(),
            forall|k: u64| k != session_id && old(self).sessions().contains_key(k)
                ==> #[trigger] final(self).sessions()[k] == old(self).sessions()[k],
            old(self).sessions().contains_key(session_id) ==> final(self).sessions()[session_id]@ == (SessionView {
                last_activity_at: now_ms,
                ..old(self).sessions()[session_id]@
            }),
    {
        match self.sessions.remove(&session_id) {
            Some(mut s) => {
                s.last_activity_at = now_ms;
                self.sessions.insert(session_id, s);
                assert(self.sessions@.dom() =~= old(self).sessions@.dom());
            },
            None => {},
        }
    }

    /// Records activity of a session now.
    pub fn record_activity(&mut self, session_id: u64)
        ensures
            final(self).owners() == old(self).owners(),
            final(self).sessions().dom() == old(self).sessions().dom(),
            forall|k: u64| k != session_id && old(self).sessions().contains_key(k)
                ==> #[trigger] final(self).sessions()[k] == old(self).sessions()[k],
    {
        self.record_activity_at(session_id, unix_time_ms())
    }

    /// Makes a context live, owned by a session; the session, if connected,
    /// lists the context once.
    pub fn add_context(&mut self, session_id: u64, context_id: u64)
        ensures
            final(self).owners() == old(self).owners().insert(context_id, session_id),
            final(self).sessions().dom() == old(self).sessions().dom(),
            forall|k: u64| k != session_id && old(self).sessions().contains_key(k)
                ==> #[trigger] final(self).sessions()[k] == old(self).sessions()[k],
            old(self).sessions().contains_key(session_id) ==> {
                let s0 = old(self).sessions()[session_id]@;
                final(self).sessions()[session_id]@ == (SessionView {
                    contexts_created: if s0.contexts_created.contains(context_id) {
                        s0.contexts_created
                    } else {
                        s0.contexts_created.push(context_id)
                    },
                    ..s0
                })
            },
    {
        self.context_to_session.insert(context_id, session_id);
        match self.sessions.remove(&session_id) {
            Some(mut s) => {
                let ghost c0 = s.contexts_created@;
                let mut found = false;
                let mut i: usize = 0;
                while i < s.contexts_created.len()
                    invariant
                        i <= s.contexts_created@.len(),
                        found <==> exists|j: int| 0 <= j < i && s.contexts_created@[j] == context_id,
                    decreases s.contexts_created@.len() - i,
                {
                    if s.contexts_created[i] == context_id {
                        found = true;
                    }
                    i = i + 1;
                }
                if !found {
                    s.contexts_created.push(context_id);
                }
                proof {
                    if found {
                        let j = choose|j: int| 0 <= j < c0.len() && c0[j] == context_id;
                        assert(c0.contains(context_id));
                    } else {
                        assert(!c0.contains(context_id));
                    }
                }
                self.sessions.insert(session_id, s);
                assert(self.sessions@.dom() =~= old(self).sessions@.dom());
            },
            None => {},
        }
    }

    /// Disconnects a session: its contexts stop being live; returns them.
    /// An unknown session gives none.
    pub fn unregister(&mut self, session_id: u64) -> (orphaned: Vec<u64>)
        ensures
            final(self).sessions() == old(self).sessions().remove(session_id),
            old(self).sessions().contains_key(session_id) ==> orphaned@ == old(self).sessions()[session_id].contexts_created@
                && final(self).owners() == old(self).owners().remove_keys(orphaned@.to_set()),
            !old(self).sessions().contains_key(session_id) ==> orphaned@.len() == 0 && final(self).owners()
                == old(self).owners(),
    {
        match self.sessions.remove(&session_id) {
            Some(s) => {
                let ctx = s.contexts_created;
                let mut i: usize = 0;
                while i < ctx.len()
                    invariant
                        i <= ctx@.len(),
                        self.sessions@ == old(self).sessions@.remove(session_id),
                        self.context_to_session@ == old(self).context_to_session@.remove_keys(ctx@.take(i as int).to_set()),
                    decreases ctx@.len() - i,
                {
                    let ghost before = self.context_to_session@;
                    self.context_to_session.remove(&ctx[i]);
                    proof {
                        assert(ctx@.take(i + 1) =~= ctx@.take(i as int).push(ctx@[i as int]));
                        ctx@.take(i as int).lemma_push_to_set_commute(ctx@[i as int]);
                        assert(self.context_to_session@ =~= old(self).context_to_session@.remove_keys(
                            ctx@.take(i + 1).to_set(),
                        ));
                    }
                    i = i + 1;
                }
                assert(ctx@.take(ctx@.len() as int) =~= ctx@);
                ctx
            },
            None => Vec::new(),
        }
    }

    /// The session that created a live context, while it is connected.
    pub fn get_session_for_context(&self, context_id: u64) -> (r: Option<ClientSession>)
        ensures
            match r {
                Some(s) => self.owners().contains_key(context_id) && self.sessions().contains_key(
                    self.owners()[context_id],
                ) && s@ == self.sessions()[self.owners()[context_id]]@,
                None => !self.owners().contains_key(context_id) || !self.sessions().contains_key(
                    self.owners()[context_id],
                ),
            },
    {
        match self.context_to_session.get(&context_id) {
            Some(sid) => match self.sessions.get(sid) {
                Some(s) => Some(s.copy()),
                None => None,
            },
            None => None,
        }
    }

    /// Every connected session, in no particular order.
    pub fn get_active_sessions(&self) -> (r: Vec<ClientSession>)
        ensures
            r@.len() == self.sessions().dom().len(),
            forall|i: int| 0 <= i < r@.len() ==> has_session(self.sessions(), #[trigger] r@[i]@),
            forall|k: u64|
                #[trigger] self.sessions().contains_key(k) ==> exists|i: int|
                    0 <= i < r@.len() && #[trigger] r@[i]@ == self.sessions()[k]@,
    {
        let mut out: Vec<ClientSession> = Vec::new();
        for s in it: self.sessions.values()
            invariant
                it.seq().unref().to_set() == self.sessions@.values(),
                it.seq().len() == self.sessions@.dom().len(),
                out@.len() == it.index(),
                forall|i: int| 0 <= i < out@.len() ==> has_session(self.sessions@, #[trigger] out@[i]@),
                forall|i: int| 0 <= i < out@.len() ==> #[trigger] out@[i]@ == it.seq().unref()[i]@,
                it.index() == it.seq().len() ==> forall|k: u64|
                    #[trigger] self.sessions@.contains_key(k) ==> exists|i: int|
                        0 <= i < out@.len() && #[trigger] out@[i]@ == self.sessions@[k]@,
        {
            proof {
                let v = *s;
                assert(it.seq().unref()[it.index() as int] == v);
                assert(it.seq().unref().to_set().contains(v));
                assert(self.sessions@.values().contains(v));
            }
            out.push(s.copy());
            proof {
                lemma_values_listed(it.seq().unref(), out@, self.sessions@);
            }
        }
        out
    }

    /// The live contexts.
    pub fn get_live_context_ids(&self) -> (r: HashSet<u64>)
        ensures
            r@ == self.owners().dom(),
    {
        let mut out: HashSet<u64> = HashSet::new();
        for k in it: self.context_to_session.keys()
            invariant
                it.seq().unref().to_set() == self.context_to_session@.dom(),
                out@ == it.seq().unref().take(it.index() as int).to_set(),
                it.index() == it.seq().len() ==> out@ == self.context_to_session@.dom(),
        {
            out.insert(*k);
            proof {
                let s = it.seq().unref();
                assert(s[it.index() as int] == *k);
                assert(s.take(it.index() + 1) =~= s.take(it.index() as int).push(*k));
                s.take(it.index() as int).lemma_push_to_set_commute(*k);
                assert(s.take(s.len() as int) =~= s);
            }
        }
        out
    }

    /// The client tag of a connected session.
    pub fn get_client_tag(&self, session_id: u64) -> (r: Option<String>)
        ensures
            match r {
                Some(t) => self.sessions().contains_key(session_id) && t@ == self.sessions()[session_id].client_tag@,
                None => !self.sessions().contains_key(session_id),
            },
    {
        match self.sessions.get(&session_id) {
            Some(s) => Some(owned(s.client_tag.as_str())),
            None => None,
        }
    }

    /// Whether a context is live.
    pub fn is_context_live(&self, context_id: u64) -> (r: bool)
        ensures
            r == self.owners().contains_key(context_id),
    {
        self.context_to_session.contains_key(&context_id)
    }

    /// The distinct non-empty client tags of the connected sessions, in no
    /// particular order.
    pub fn get_active_tags(&self) -> (r: Vec<String>)
        ensures
            forall|i: int| 0 <= i < r@.len() ==> (#[trigger] r@[i]@).len() > 0 && has_tag(self.sessions(), r@[i]@),
            forall|k: u64| #[trigger]
                self.sessions().contains_key(k) && self.sessions()[k].client_tag@.len() > 0 ==> exists|i: int|
                    0 <= i < r@.len() && r@[i]@ == self.sessions()[k].client_tag@,
            forall|i: int, j: int| 0 <= i < j < r@.len() ==> r@[i]@ != r@[j]@,
    {
        let mut tags: Vec<String> = Vec::new();
        for s in it: self.sessions.values()
            invariant
                it.seq().unref().to_set() == self.sessions@.values(),
                forall|i: int| 0 <= i < tags@.len() ==> (#[trigger] tags@[i]@).len() > 0 && has_tag(self.sessions@, tags@[i]@),
                forall|j: int|
                    0 <= j < it.index() && (#[trigger] it.seq().unref()[j]).client_tag@.len() > 0 ==> exists|i: int|
                        0 <= i < tags@.len() && tags@[i]@ == it.seq().unref()[j].client_tag@,
                forall|i: int, j: int| 0 <= i < j < tags@.len() ==> tags@[i]@ != tags@[j]@,
        {
            proof {
                let v = *s;
                assert(it.seq().unref()[it.index() as int] == v);
                assert(it.seq().unref().to_set().contains(v));
                assert(self.sessions@.values().contains(v));
            }
            let ghost old_tags = tags@;
            if !s.client_tag.as_str().is_empty() {
                let mut seen = false;
                let mut i: usize = 0;
                while i < tags.len()
                    invariant
                        i <= tags@.len(),
                        seen <==> exists|j: int| 0 <= j < i && tags@[j]@ == s.client_tag@,
                    decreases tags@.len() - i,
                {
                    if str_eq(tags[i].as_str(), s.client_tag.as_str()) {
                        seen = true;
                    }
                    i = i + 1;
                }
                if !seen {
                    tags.push(owned(s.client_tag.as_str()));
                    assert(tags@[tags@.len() - 1]@ == s.client_tag@);
                }
                assert(exists|i: int| 0 <= i < tags@.len() && tags@[i]@ == s.client_tag@);
            }
            proof {
                let sq = it.seq().unref();
                assert(forall|i: int| 0 <= i < old_tags.len() ==> tags@[i] == old_tags[i]);
                assert forall|j: int| 0 <= j < it.index() + 1 && (#[trigger] sq[j]).client_tag@.len() > 0 implies exists|i: int|
                    0 <= i < tags@.len() && tags@[i]@ == sq[j].client_tag@ by {
                    if j < it.index() {
                        let i = choose|i: int| 0 <= i < old_tags.len() && old_tags[i]@ == sq[j].client_tag@;
                        assert(tags@[i] == old_tags[i]);
                    } else {
                        assert(sq[j] == *s);
                    }
                }
            }
        }
        proof {
            assert forall|k: u64| #[trigger]
                self.sessions@.contains_key(k) && self.sessions@[k].client_tag@.len() > 0 implies exists|i: int|
                    0 <= i < tags@.len() && tags@[i]@ == self.sessions@[k].client_tag@ by {
                assert(self.sessions@.values().contains(self.sessions@[k]));
            }
        }
        tags
    }
}

impl Default for SessionTracker {
    fn default() -> (t: SessionTracker)
        ensures
            t.sessions() == Map::<u64, ClientSession>::empty(),
            t.owners() == Map::<u64, u64>::empty(),
    {
        SessionTracker::new()
    }
}


// ---------------------------------------------------------------------------
// Reported figures and the error log
// ---------------------------------------------------------------------------

/// Sessions of the binary protocol.
#[derive(Debug, Clone, Copy)]
pub struct SessionMetrics {
    pub total: u64,
    pub active: u64,
    pub idle: u64,
    pub last_activity_unix_ms: u64,
}

/// How many objects the store holds.
#[derive(Debug, Clone, Copy)]
pub struct ObjectMetrics {
    pub contexts_total: usize,
    pub turns_total: usize,
    pub blobs_total: usize,
    pub registry_types_total: usize,
    pub registry_bundles_total: usize,
    pub heads_total: usize,
}

/// Sizes of the store's files and of the data directory's disk.
#[derive(Debug, Clone, Copy)]
pub struct StorageMetrics {
    pub turns_log_bytes: u64,
    pub turns_index_bytes: u64,
    pub turns_meta_bytes: u64,
    pub heads_table_bytes: u64,
    pub blobs_pack_bytes: u64,
    pub blobs_index_bytes: u64,
    pub data_dir_total_bytes: u64,
    pub data_dir_free_bytes: u64,
}

/// Size of the filesystem snapshots.
#[derive(Debug, Clone, Copy)]
pub struct FilesystemMetrics {
    pub snapshots_total: usize,
    pub index_bytes: u64,
    pub content_bytes: u64,
}

/// Errors counted, in all and by kind.
#[derive(Debug, Clone)]
pub struct ErrorMetrics {
    pub total: u64,
    /// Kind and count, one entry per kind.
    pub by_type: Vec<(String, u64)>,
}

/// One recorded error.
#[derive(Debug, Clone)]
pub struct ErrorEntry {
    pub timestamp_ms: u64,
    pub kind: String,
    pub status_code: u16,
    pub message: String,
    pub path: Option<String>,
}

/// Most errors the log keeps; older ones leave first.
pub const MAX_ERROR_ENTRIES: usize = 256;

/// The count recorded for a kind, 0 if none.
pub open spec fn kind_count(entries: Seq<(String, u64)>, kind: Seq<char>) -> nat
    decreases entries.len(),
{
    if entries.len() == 0 {
        0
    } else if entries.last().0@ == kind {
        entries.last().1 as nat
    } else {
        kind_count(entries.drop_last(), kind)
    }
}

/// The errors the server has seen: a total, a count per kind, and the most
/// recent ones.
pub struct ErrorLog {
    total: u64,
    by_type: Vec<(String, u64)>,
    recent: Vec<ErrorEntry>,
}

impl ErrorLog {
    pub closed spec fn total_spec(&self) -> u64 {
        self.total
    }

    /// How many errors of a kind were recorded.
    pub closed spec fn count_of(&self, kind: Seq<char>) -> nat {
        kind_count(self.by_type@, kind)
    }

    /// The kept errors, oldest first.
    pub closed spec fn kept(&self) -> Seq<ErrorEntry> {
        self.recent@
    }

    pub closed spec fn well_formed(&self) -> bool {
        self.recent@.len() <= MAX_ERROR_ENTRIES
    }

    /// A log with nothing recorded.
    pub fn new() -> (l: ErrorLog)
        ensures
            l.well_formed(),
            l.total_spec() == 0,
            l.kept().len() == 0,
            forall|k: Seq<char>| l.count_of(k) == 0,
    {
        ErrorLog { total: 0, by_type: Vec::new(), recent: Vec::new() }
    }

    /// Records an error seen at `now_ms`: counts it in all and under its
    /// kind, and keeps it, dropping the oldest kept error when
    /// [`MAX_ERROR_ENTRIES`] are kept.
    pub fn record_error_at(&mut self, kind: &str, status_code: u16, message: &str, path: Option<&str>, now_ms: u64)
        requires
            old(self).well_formed(),
            old(self).total_spec() < u64::MAX,
            old(self).count_of(kind@) < u64::MAX,
        ensures
            final(self).well_formed(),
            final(self).total_spec() == old(self).total_spec() + 1,
            final(self).count_of(kind@) == old(self).count_of(kind@) + 1,
            forall|k: Seq<char>| k != kind@ ==> #[trigger] final(self).count_of(k) == old(self).count_of(k),
            final(self).kept() == (if old(self).kept().len() >= MAX_ERROR_ENTRIES {
                old(self).kept().drop_first()
            } else {
                old(self).kept()
            }).push(final(self).kept().last()),
            final(self).kept().last().timestamp_ms == now_ms,
            final(self).kept().last().kind@ == kind@,
            final(self).kept().last().status_code == status_code,
            final(self).kept().last().message@ == message@,
            match (final(self).kept().last().path, path) {
                (Some(a), Some(b)) => a@ == b@,
                (None, None) => true,
                _ => false,
            },
    {
        self.total = self.total + 1;
        let ghost old_types = self.by_type@;
        let prev: u64 = self.count_for(kind);
        let entry_kind = owned(kind);
        self.by_type.push((entry_kind, prev + 1));
        proof {
            assert(self.by_type@.drop_last() =~= old_types);
            assert forall|k: Seq<char>| k != kind@ implies #[trigger] kind_count(self.by_type@, k) == kind_count(old_types, k) by {}
        }
        let entry = ErrorEntry {
            timestamp_ms: now_ms,
            kind: owned(kind),
            status_code,
            message: owned(message),
            path: match path {
                Some(p) => Some(owned(p)),
                None => None,
            },
        };
        if self.recent.len() >= MAX_ERROR_ENTRIES {
            let _ = self.recent.remove(0);
        }
        self.recent.push(entry);
    }

    /// Records an error seen now.
    pub fn record_error(&mut self, kind: &str, status_code: u16, message: &str, path: Option<&str>)
        requires
            old(self).well_formed(),
            old(self).total_spec() < u64::MAX,
            old(self).count_of(kind@) < u64::MAX,
        ensures
            final(self).well_formed(),
            final(self).total_spec() == old(self).total_spec() + 1,
            final(self).count_of(kind@) == old(self).count_of(kind@) + 1,
            forall|k: Seq<char>| k != kind@ ==> #[trigger] final(self).count_of(k) == old(self).count_of(k),
            final(self).kept() == (if old(self).kept().len() >= MAX_ERROR_ENTRIES {
                old(self).kept().drop_first()
            } else {
                old(self).kept()
            }).push(final(self).kept().last()),
            final(self).kept().last().kind@ == kind@,
            final(self).kept().last().status_code == status_code,
            final(self).kept().last().message@ == message@,
            match (final(self).kept().last().path, path) {
                (Some(a), Some(b)) => a@ == b@,
                (None, None) => true,
                _ => false,
            },
    {
        self.record_error_at(kind, status_code, message, path, unix_time_ms());
    }

    /// The number of errors recorded.
    pub fn total(&self) -> (n: u64)
        ensures
            n == self.total_spec(),
    {
        self.total
    }

    /// How many errors of a kind were recorded.
    pub fn count_for(&self, kind: &str) -> (n: u64)
        ensures
            n == self.count_of(kind@),
    {
        let mut i: usize = self.by_type.len();
        assert(self.by_type@.take(i as int) =~= self.by_type@);
        while i > 0
            invariant
                i <= self.by_type@.len(),
                kind_count(self.by_type@, kind@) == kind_count(self.by_type@.take(i as int), kind@),
            decreases i,
        {
            assert(self.by_type@.take(i as int).drop_last() =~= self.by_type@.take(i - 1));
            if str_eq(self.by_type[i - 1].0.as_str(), kind) {
                return self.by_type[i - 1].1;
            }
            i = i - 1;
        }
        0
    }

    /// The most recent errors, newest first, at most `limit` of them; the
    /// entries are those kept, as copies.
    pub fn recent_errors(&self, limit: usize) -> (r: Vec<ErrorEntry>)
        ensures
            r@.len() == if limit < self.kept().len() { limit as nat } else { self.kept().len() },
            forall|i: int| 0 <= i < r@.len() ==> {
                let e = #[trigger] r@[i];
                let k = self.kept()[self.kept().len() - 1 - i];
                e.timestamp_ms == k.timestamp_ms && e.kind@ == k.kind@ && e.status_code == k.status_code
                    && e.message@ == k.message@
            },
    {
        let n = self.recent.len();
        let mut out: Vec<ErrorEntry> = Vec::new();
        let mut i: usize = 0;
        while i < n && i < limit
            invariant
                n == self.recent@.len(),
                i <= n,
                i <= limit,
                out@.len() == i,
                forall|j: int| 0 <= j < i ==> {
                    let e = #[trigger] out@[j];
                    let k = self.recent@[n - 1 - j];
                    e.timestamp_ms == k.timestamp_ms && e.kind@ == k.kind@ && e.status_code == k.status_code
                        && e.message@ == k.message@
                },
            decreases n - i,
        {
            let k = &self.recent[n - 1 - i];
            out.push(
                ErrorEntry {
                    timestamp_ms: k.timestamp_ms,
                    kind: owned(k.kind.as_str()),
                    status_code: k.status_code,
                    message: owned(k.message.as_str()),
                    path: copy_opt_string(&k.path),
                },
            );
            i = i + 1;
        }
        out
    }
}

/// A context stops being live when the session that created it
/// disconnects, and other contexts keep their owners.
pub proof fn law_unregister_ends_liveness(owners: Map<u64, u64>, created: Seq<u64>, context_id: u64)
    ensures
        created.contains(context_id) ==> !owners.remove_keys(created.to_set()).contains_key(context_id),
        !created.contains(context_id) && owners.contains_key(context_id) ==> owners.remove_keys(
            created.to_set(),
        ).contains_key(context_id) && owners.remove_keys(created.to_set())[context_id] == owners[context_id],
{
}

} // verus!
