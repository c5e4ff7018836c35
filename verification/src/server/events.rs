//! Store events and the bus that fans them out to server-sent-event
//! subscribers.
//!
//! Each subscriber reads from a bounded channel of its own.  Publishing
//! offers the event to every subscriber: a full channel loses this event and
//! keeps its subscriber, a subscriber whose receiving end is gone is removed.
use std::sync::mpsc::{Receiver, SyncSender, TrySendError};
use std::time::Duration;
use vstd::prelude::*;
use crate::text::{chars_of, decimal, owned, push_decimal, push_str, string_from_chars};

verus! {

/// Events of the store, as subscribers receive them.
#[derive(Debug, Clone)]
pub enum StoreEvent {
    /// A context was created.
    ContextCreated { context_id: String, session_id: String, client_tag: String, created_at: u64 },
    /// Metadata was read from a context's first turn.
    ContextMetadataUpdated {
        context_id: String,
        client_tag: Option<String>,
        title: Option<String>,
        labels: Option<Vec<String>>,
        has_provenance: bool,
    },
    /// A context was linked to the context that spawned it.
    ContextLinked {
        child_context_id: String,
        parent_context_id: String,
        root_context_id: Option<String>,
        spawn_reason: Option<String>,
    },
    /// A turn was appended to a context.
    TurnAppended {
        context_id: String,
        turn_id: String,
        parent_turn_id: String,
        depth: u32,
        declared_type_id: Option<String>,
        declared_type_version: Option<u32>,
    },
    /// A client of the binary protocol connected.
    ClientConnected { session_id: String, client_tag: String },
    /// A client of the binary protocol disconnected.
    ClientDisconnected { session_id: String, client_tag: String, contexts: Vec<String> },
    /// A request failed.
    ErrorOccurred { timestamp_ms: u64, kind: String, status_code: u16, message: String, path: Option<String> },
}

// ---------------------------------------------------------------------------
// Server-sent-event form
// ---------------------------------------------------------------------------

/// What `serde_json` writes for a string: the JSON string literal.
pub uninterp spec fn json_quoted(s: Seq<char>) -> Seq<char>;

/// Writes `s` as a JSON string literal with `serde_json`.  Writing a string
/// into memory cannot fail; the text is named by [`json_quoted`].
#[verifier::external_body]
pub(crate) fn json_quote(s: &str) -> (r: String)
    ensures
        r@ == json_quoted(s@),
{
    match serde_json::to_string(s) {
        Ok(t) => t,
        Err(_) => String::new(),
    }
}

/// The members of a JSON object, `"key":value` separated by commas.
pub open spec fn members_text(fields: Seq<(Seq<char>, Seq<char>)>) -> Seq<char>
    decreases fields.len(),
{
    if fields.len() == 0 {
        Seq::empty()
    } else {
        let last = fields.last();
        members_text(fields.drop_last()) + (if fields.len() > 1 { ","@ } else { Seq::empty() }) + "\""@
            + last.0 + "\":"@ + last.1
    }
}

/// A JSON object with these members, in this order.
pub open spec fn object_text(fields: Seq<(Seq<char>, Seq<char>)>) -> Seq<char> {
    "{"@ + members_text(fields) + "}"@
}

/// The elements of a JSON array of strings, separated by commas.
pub open spec fn string_items_text(items: Seq<Seq<char>>) -> Seq<char>
    decreases items.len(),
{
    if items.len() == 0 {
        Seq::empty()
    } else {
        string_items_text(items.drop_last()) + (if items.len() > 1 { ","@ } else { Seq::empty() })
            + json_quoted(items.last())
    }
}

/// A JSON array of these strings.
pub open spec fn string_array_text(items: Seq<Seq<char>>) -> Seq<char> {
    "["@ + string_items_text(items) + "]"@
}

pub open spec fn bool_text(b: bool) -> Seq<char> {
    if b { "true"@ } else { "false"@ }
}

pub open spec fn strings_view(v: Seq<String>) -> Seq<Seq<char>> {
    v.map_values(|s: String| s@)
}

pub open spec fn fields_view(v: Seq<(String, String)>) -> Seq<(Seq<char>, Seq<char>)> {
    v.map_values(|p: (String, String)| (p.0@, p.1@))
}

/// A member that is present only when the value is.
pub open spec fn opt_member(key: Seq<char>, value: Option<Seq<char>>) -> Seq<(Seq<char>, Seq<char>)> {
    match value {
        Some(v) => seq![(key, v)],
        None => Seq::empty(),
    }
}

pub open spec fn opt_quoted(s: Option<String>) -> Option<Seq<char>> {
    match s {
        Some(t) => Some(json_quoted(t@)),
        None => None,
    }
}

/// The type name an event is sent under.
pub open spec fn sse_event_name(e: StoreEvent) -> Seq<char> {
    match e {
        StoreEvent::ContextCreated { .. } => "context_created"@,
        StoreEvent::ContextMetadataUpdated { .. } => "context_metadata_updated"@,
        StoreEvent::ContextLinked { .. } => "context_linked"@,
        StoreEvent::TurnAppended { .. } => "turn_appended"@,
        StoreEvent::ClientConnected { .. } => "client_connected"@,
        StoreEvent::ClientDisconnected { .. } => "client_disconnected"@,
        StoreEvent::ErrorOccurred { .. } => "error_occurred"@,
    }
}

/// The members of an event's JSON data, keys in the order `serde_json`'s
/// map sorts them; absent optional fields are left out.
pub open spec fn sse_fields(e: StoreEvent) -> Seq<(Seq<char>, Seq<char>)> {
    match e {
        StoreEvent::ContextCreated { context_id, session_id, client_tag, created_at } => seq![
            ("client_tag"@, json_quoted(client_tag@)),
            ("context_id"@, json_quoted(context_id@)),
            ("created_at"@, decimal(created_at as nat)),
            ("session_id"@, json_quoted(session_id@)),
        ],
        StoreEvent::ContextMetadataUpdated { context_id, client_tag, title, labels, has_provenance } =>
            opt_member("client_tag"@, opt_quoted(client_tag))
                + seq![("context_id"@, json_quoted(context_id@)), ("has_provenance"@, bool_text(has_provenance))]
                + opt_member(
                "labels"@,
                match labels {
                    Some(l) => Some(string_array_text(strings_view(l@))),
                    None => None,
                },
            ) + opt_member("title"@, opt_quoted(title)),
        StoreEvent::ContextLinked { child_context_id, parent_context_id, root_context_id, spawn_reason } =>
            seq![
                ("child_context_id"@, json_quoted(child_context_id@)),
                ("parent_context_id"@, json_quoted(parent_context_id@)),
            ] + opt_member("root_context_id"@, opt_quoted(root_context_id)) + opt_member(
                "spawn_reason"@,
                opt_quoted(spawn_reason),
            ),
        StoreEvent::TurnAppended {
            context_id,
            turn_id,
            parent_turn_id,
            depth,
            declared_type_id,
            declared_type_version,
        } => seq![("context_id"@, json_quoted(context_id@))] + opt_member(
            "declared_type_id"@,
            opt_quoted(declared_type_id),
        ) + opt_member(
            "declared_type_version"@,
            match declared_type_version {
                Some(v) => Some(decimal(v as nat)),
                None => None,
            },
        ) + seq![
            ("depth"@, decimal(depth as nat)),
            ("parent_turn_id"@, json_quoted(parent_turn_id@)),
            ("turn_id"@, json_quoted(turn_id@)),
        ],
        StoreEvent::ClientConnected { session_id, client_tag } => seq![
            ("client_tag"@, json_quoted(client_tag@)),
            ("session_id"@, json_quoted(session_id@)),
        ],
        StoreEvent::ClientDisconnected { session_id, client_tag, contexts } => seq![
            ("client_tag"@, json_quoted(client_tag@)),
            ("contexts"@, string_array_text(strings_view(contexts@))),
            ("session_id"@, json_quoted(session_id@)),
        ],
        StoreEvent::ErrorOccurred { timestamp_ms, kind, status_code, message, path } => seq![
            ("kind"@, json_quoted(kind@)),
            ("message"@, json_quoted(message@)),
        ] + opt_member("path"@, opt_quoted(path)) + seq![
            ("status_code"@, decimal(status_code as nat)),
            ("timestamp_ms"@, decimal(timestamp_ms as nat)),
        ],
    }
}

fn push_field(fields: &mut Vec<(String, String)>, key: &str, value: String)
    ensures
        fields_view(final(fields)@) == fields_view(old(fields)@).push((key@, value@)),
{
    fields.push((owned(key), value));
    proof {
        assert(fields_view(fields@) =~= fields_view(old(fields)@).push((key@, value@)));
    }
}

fn push_opt_quoted(fields: &mut Vec<(String, String)>, key: &str, value: &Option<String>)
    ensures
        fields_view(final(fields)@) == fields_view(old(fields)@) + opt_member(key@, opt_quoted(*value)),
{
    match value {
        Some(v) => push_field(fields, key, json_quote(v.as_str())),
        None => {
            assert(fields_view(fields@) =~= fields_view(old(fields)@) + opt_member(key@, opt_quoted(*value)));
        },
    }
}

fn decimal_string(n: u64) -> (r: String)
    ensures
        r@ == decimal(n as nat),
{
    let mut out: Vec<char> = Vec::new();
    push_decimal(&mut out, n);
    assert(out@ =~= decimal(n as nat));
    string_from_chars(out.as_slice())
}

/// A JSON array of these strings, each written by `serde_json`.
fn string_array(items: &Vec<String>) -> (r: String)
    ensures
        r@ == string_array_text(strings_view(items@)),
{
    let mut out: Vec<char> = Vec::new();
    out.push('[');
    proof {
        reveal_strlit("[");
        assert(strings_view(items@.take(0)) =~= Seq::empty());
        assert(out@ =~= "["@ + string_items_text(strings_view(items@.take(0))));
    }
    let mut i: usize = 0;
    while i < items.len()
        invariant
            i <= items@.len(),
            out@ == "["@ + string_items_text(strings_view(items@.take(i as int))),
        decreases items@.len() - i,
    {
        let q = json_quote(items[i].as_str());
        if i > 0 {
            out.push(',');
        }
        let qs = chars_of(q.as_str());
        let mut j: usize = 0;
        let ghost before = out@;
        while j < qs.len()
            invariant
                j <= qs@.len(),
                out@ == before + qs@.take(j as int),
            decreases qs@.len() - j,
        {
            out.push(qs[j]);
            j = j + 1;
            assert(qs@.take(j as int) =~= qs@.take(j - 1) + seq![qs@[j - 1]]);
        }
        proof {
            let t = strings_view(items@.take(i + 1));
            assert(t.drop_last() =~= strings_view(items@.take(i as int)));
            assert(t.last() == items@[i as int]@);
            assert(qs@.take(qs@.len() as int) =~= qs@);
            reveal_strlit(",");
            assert(out@ =~= "["@ + string_items_text(t));
        }
        i = i + 1;
    }
    out.push(']');
    proof {
        assert(items@.take(items@.len() as int) =~= items@);
        reveal_strlit("[");
        reveal_strlit("]");
    }
    assert(out@ =~= string_array_text(strings_view(items@)));
    string_from_chars(out.as_slice())
}

/// The JSON object with these members, in this order.
pub fn object_json(fields: &Vec<(String, String)>) -> (r: String)
    ensures
        r@ == object_text(fields_view(fields@)),
{
    let mut out: Vec<char> = Vec::new();
    out.push('{');
    proof {
        reveal_strlit("{");
        assert(fields_view(fields@.take(0)) =~= Seq::empty());
        assert(out@ =~= "{"@ + members_text(fields_view(fields@.take(0))));
    }
    let mut i: usize = 0;
    while i < fields.len()
        invariant
            i <= fields@.len(),
            out@ == "{"@ + members_text(fields_view(fields@.take(i as int))),
        decreases fields@.len() - i,
    {
        let ghost before = out@;
        if i > 0 {
            out.push(',');
        }
        out.push('"');
        push_str(&mut out, fields[i].0.as_str());
        out.push('"');
        out.push(':');
        push_str(&mut out, fields[i].1.as_str());
        proof {
            let t = fields_view(fields@.take(i + 1));
            assert(t.drop_last() =~= fields_view(fields@.take(i as int)));
            assert(t.last() == (fields@[i as int].0@, fields@[i as int].1@));
            reveal_strlit(",");
            reveal_strlit("\"");
            reveal_strlit("\":");
            assert(out@ =~= "{"@ + members_text(t));
        }
        i = i + 1;
    }
    out.push('}');
    proof {
        assert(fields@.take(fields@.len() as int) =~= fields@);
        reveal_strlit("{");
        reveal_strlit("}");
    }
    assert(out@ =~= object_text(fields_view(fields@)));
    string_from_chars(out.as_slice())
}

impl StoreEvent {
    /// The members of this event's JSON data, in the order they are written.
    pub fn sse_field_list(&self) -> (fields: Vec<(String, String)>)
        ensures
            fields_view(fields@) == sse_fields(*self),
    {
        let mut f: Vec<(String, String)> = Vec::new();
        assert(fields_view(f@) =~= Seq::empty());
        match self {
            StoreEvent::ContextCreated { context_id, session_id, client_tag, created_at } => {
                push_field(&mut f, "client_tag", json_quote(client_tag.as_str()));
                push_field(&mut f, "context_id", json_quote(context_id.as_str()));
                push_field(&mut f, "created_at", decimal_string(*created_at));
                push_field(&mut f, "session_id", json_quote(session_id.as_str()));
                assert(fields_view(f@) =~= sse_fields(*self));
            },
            StoreEvent::ContextMetadataUpdated { context_id, client_tag, title, labels, has_provenance } => {
                push_opt_quoted(&mut f, "client_tag", client_tag);
                push_field(&mut f, "context_id", json_quote(context_id.as_str()));
                push_field(&mut f, "has_provenance", if *has_provenance { owned("true") } else { owned("false") });
                let ghost mid = fields_view(f@);
                match labels {
                    Some(l) => push_field(&mut f, "labels", string_array(l)),
                    None => {},
                }
                push_opt_quoted(&mut f, "title", title);
                assert(fields_view(f@) =~= sse_fields(*self));
            },
            StoreEvent::ContextLinked { child_context_id, parent_context_id, root_context_id, spawn_reason } => {
                push_field(&mut f, "child_context_id", json_quote(child_context_id.as_str()));
                push_field(&mut f, "parent_context_id", json_quote(parent_context_id.as_str()));
                push_opt_quoted(&mut f, "root_context_id", root_context_id);
                push_opt_quoted(&mut f, "spawn_reason", spawn_reason);
                assert(fields_view(f@) =~= sse_fields(*self));
            },
            StoreEvent::TurnAppended {
                context_id,
                turn_id,
                parent_turn_id,
                depth,
                declared_type_id,
                declared_type_version,
            } => {
                push_field(&mut f, "context_id", json_quote(context_id.as_str()));
                push_opt_quoted(&mut f, "declared_type_id", declared_type_id);
                match declared_type_version {
                    Some(v) => push_field(&mut f, "declared_type_version", decimal_string(*v as u64)),
                    None => {},
                }
                push_field(&mut f, "depth", decimal_string(*depth as u64));
                push_field(&mut f, "parent_turn_id", json_quote(parent_turn_id.as_str()));
                push_field(&mut f, "turn_id", json_quote(turn_id.as_str()));
                assert(fields_view(f@) =~= sse_fields(*self));
            },
            StoreEvent::ClientConnected { session_id, client_tag } => {
                push_field(&mut f, "client_tag", json_quote(client_tag.as_str()));
                push_field(&mut f, "session_id", json_quote(session_id.as_str()));
                assert(fields_view(f@) =~= sse_fields(*self));
            },
            StoreEvent::ClientDisconnected { session_id, client_tag, contexts } => {
                push_field(&mut f, "client_tag", json_quote(client_tag.as_str()));
                push_field(&mut f, "contexts", string_array(contexts));
                push_field(&mut f, "session_id", json_quote(session_id.as_str()));
                assert(fields_view(f@) =~= sse_fields(*self));
            },
            StoreEvent::ErrorOccurred { timestamp_ms, kind, status_code, message, path } => {
                push_field(&mut f, "kind", json_quote(kind.as_str()));
                push_field(&mut f, "message", json_quote(message.as_str()));
                push_opt_quoted(&mut f, "path", path);
                push_field(&mut f, "status_code", decimal_string(*status_code as u64));
                push_field(&mut f, "timestamp_ms", decimal_string(*timestamp_ms));
                assert(fields_view(f@) =~= sse_fields(*self));
            },
        }
        f
    }

    /// The event as a server-sent event: its type name and its JSON data,
    /// a flat object of its fields without a type tag.
    pub fn to_sse(&self) -> (r: (&'static str, String))
        ensures
            r.0@ == sse_event_name(*self),
            r.1@ == object_text(sse_fields(*self)),
    {
        let name: &'static str = match self {
            StoreEvent::ContextCreated { .. } => "context_created",
            StoreEvent::ContextMetadataUpdated { .. } => "context_metadata_updated",
            StoreEvent::ContextLinked { .. } => "context_linked",
            StoreEvent::TurnAppended { .. } => "turn_appended",
            StoreEvent::ClientConnected { .. } => "client_connected",
            StoreEvent::ClientDisconnected { .. } => "client_disconnected",
            StoreEvent::ErrorOccurred { .. } => "error_occurred",
        };
        let fields = self.sse_field_list();
        (name, object_json(&fields))
    }
}

// ---------------------------------------------------------------------------
// The bus
// ---------------------------------------------------------------------------

/// Maximum number of events buffered for one subscriber; beyond it, new
/// events are dropped for that subscriber.
pub const SUBSCRIBER_CHANNEL_BOUND: usize = 4096;

#[verifier::external_type_specification]
#[verifier::external_body]
#[verifier::reject_recursive_types(T)]
pub struct ExSyncSender<T>(SyncSender<T>);

#[verifier::external_type_specification]
#[verifier::external_body]
#[verifier::reject_recursive_types(T)]
pub struct ExReceiver<T>(Receiver<T>);

/// What became of an event offered to a subscriber's channel.
#[derive(Debug, Clone, Copy, PartialEq, Eq, Structural)]
pub enum Delivery {
    /// The event was queued.
    Queued,
    /// The channel was full; the event was dropped for this subscriber.
    Full,
    /// The receiving end is gone.
    Disconnected,
}

/// Opens a bounded channel with `std::sync::mpsc::sync_channel`.
#[verifier::external_body]
fn open_channel(bound: usize) -> (r: (SyncSender<StoreEvent>, Receiver<StoreEvent>)) {
    std::sync::mpsc::sync_channel(bound)
}

/// Offers an event with `SyncSender::try_send`, which never blocks.  The
/// outcome depends on the receiving side and is not stated.
#[verifier::external_body]
fn offer(tx: &SyncSender<StoreEvent>, event: StoreEvent) -> (r: Delivery) {
    match tx.try_send(event) {
        Ok(()) => Delivery::Queued,
        Err(TrySendError::Full(_)) => Delivery::Full,
        Err(TrySendError::Disconnected(_)) => Delivery::Disconnected,
    }
}

/// `Receiver::recv`, which blocks until an event arrives or every sender
/// is gone (`None`).
#[verifier::external_body]
fn channel_recv(rx: &Receiver<StoreEvent>) -> (r: Option<StoreEvent>) {
    rx.recv().ok()
}

/// `Receiver::try_recv`, which returns at once.
#[verifier::external_body]
fn channel_try_recv(rx: &Receiver<StoreEvent>) -> (r: Option<StoreEvent>) {
    rx.try_recv().ok()
}

/// `Receiver::recv_timeout`, which waits at most `timeout`.
#[verifier::external_body]
fn channel_recv_timeout(rx: &Receiver<StoreEvent>, timeout: Duration) -> (r: Option<StoreEvent>) {
    rx.recv_timeout(timeout).ok()
}

/// A subscriber to the bus.
pub struct EventSubscriber {
    rx: Receiver<StoreEvent>,
}

impl EventSubscriber {
    /// The next event, waiting for it; `None` once the bus is gone.
    pub fn recv(&self) -> Option<StoreEvent> {
        channel_recv(&self.rx)
    }

    /// The next event if one is waiting.
    pub fn try_recv(&self) -> Option<StoreEvent> {
        channel_try_recv(&self.rx)
    }

    /// The next event, waiting at most `timeout`.
    pub fn recv_timeout(&self, timeout: Duration) -> Option<StoreEvent> {
        channel_recv_timeout(&self.rx, timeout)
    }
}

/// Whether a subscriber stays after an offer: only a disconnected one
/// leaves.
pub open spec fn stays(d: Delivery) -> bool {
    d != Delivery::Disconnected
}

/// The items whose flag is set, in their order.
pub open spec fn kept<T>(items: Seq<T>, keep: Seq<bool>) -> Seq<T>
    decreases items.len(),
{
    if items.len() == 0 {
        Seq::empty()
    } else {
        kept(items.drop_last(), keep) + (if keep[items.len() - 1] { seq![items.last()] } else { Seq::empty() })
    }
}

/// Keeps the items whose flag is set, in their order.
pub fn retain_flagged<T>(items: Vec<T>, keep: &Vec<bool>) -> (r: Vec<T>)
    requires
        keep@.len() == items@.len(),
    ensures
        r@ == kept(items@, keep@),
{
    let ghost all = items@;
    assert(all.len() == items.len());
    let mut rest = items;
    let mut out: Vec<T> = Vec::new();
    let mut i: usize = 0;
    while rest.len() > 0
        invariant
            keep@.len() == all.len(),
            all.len() <= usize::MAX,
            i + rest@.len() == all.len(),
            rest@ == all.skip(i as int),
            out@ == kept(all.take(i as int), keep@),
        decreases rest@.len(),
    {
        let x = rest.remove(0);
        proof {
            assert(all.take(i + 1).drop_last() =~= all.take(i as int));
            assert(all.take(i + 1).last() == x);
        }
        if keep[i] {
            out.push(x);
        }
        assert(out@ =~= kept(all.take(i + 1), keep@));
        assert(rest@ =~= all.skip(i + 1));
        i = i + 1;
    }
    assert(all.take(all.len() as int) =~= all);
    out
}

/// Fans events out to its subscribers.
pub struct EventBus {
    subscribers: Vec<SyncSender<StoreEvent>>,
}

impl EventBus {
    /// The number of subscribers, as the model counts them.
    pub closed spec fn count(&self) -> nat {
        self.subscribers@.len()
    }

    /// The subscribers' sending ends, oldest subscription first.
    pub closed spec fn senders(&self) -> Seq<SyncSender<StoreEvent>> {
        self.subscribers@
    }

    /// A bus with no subscribers.
    pub fn new() -> (b: EventBus)
        ensures
            b.count() == 0,
    {
        EventBus { subscribers: Vec::new() }
    }

    /// Adds a subscriber that receives every event published after this.
    pub fn subscribe(&mut self) -> (s: EventSubscriber)
        ensures
            final(self).count() == old(self).count() + 1,
    {
        let (tx, rx) = open_channel(SUBSCRIBER_CHANNEL_BOUND);
        self.subscribers.push(tx);
        EventSubscriber { rx }
    }

    /// Offers the event to every subscriber; those whose receiving end is
    /// gone are removed, the others stay, in their order, whether their
    /// channel took the event or was full.  Returns what became of the
    /// offer to each subscriber, in their order before the call.
    pub fn publish(&mut self, event: StoreEvent) -> (outcomes: Vec<Delivery>)
        ensures
            outcomes@.len() == old(self).count(),
            final(self).senders() == kept(old(self).senders(), outcomes@.map_values(|d: Delivery| stays(d))),
    {
        let n = self.subscribers.len();
        let mut outcomes: Vec<Delivery> = Vec::new();
        let mut keep: Vec<bool> = Vec::new();
        let mut i: usize = 0;
        while i < n
            invariant
                n == self.subscribers@.len(),
                i <= n,
                outcomes@.len() == i,
                keep@ == outcomes@.map_values(|d: Delivery| stays(d)),
            decreases n - i,
        {
            let d = offer(&self.subscribers[i], event.clone());
            outcomes.push(d);
            keep.push(d != Delivery::Disconnected);
            assert(keep@ =~= outcomes@.map_values(|d: Delivery| stays(d)));
            i = i + 1;
        }
        let mut subs: Vec<SyncSender<StoreEvent>> = Vec::new();
        std::mem::swap(&mut subs, &mut self.subscribers);
        self.subscribers = retain_flagged(subs, &keep);
        outcomes
    }

    /// The number of subscribers.
    pub fn subscriber_count(&self) -> (n: usize)
        ensures
            n == self.count(),
    {
        self.subscribers.len()
    }
}

impl Default for EventBus {
    fn default() -> (b: EventBus)
        ensures
            b.count() == 0,
    {
        EventBus::new()
    }
}

/// Publishing never adds a subscriber, and removes exactly those that were
/// found disconnected: a bus on which every offer reached a live channel
/// keeps all its subscribers.
pub proof fn law_publish_keeps_live<T>(subs: Seq<T>, keep: Seq<bool>)
    requires
        subs.len() <= keep.len(),
    ensures
        kept(subs, keep).len() <= subs.len(),
        (forall|i: int| 0 <= i < subs.len() ==> keep[i]) ==> kept(subs, keep) == subs,
        (forall|i: int| 0 <= i < subs.len() ==> !keep[i]) ==> kept(subs, keep).len() == 0,
    decreases subs.len(),
{
    if subs.len() > 0 {
        law_publish_keeps_live(subs.drop_last(), keep);
        if forall|i: int| 0 <= i < subs.len() ==> keep[i] {
            assert(kept(subs, keep) =~= subs);
        }
    }
}

} // verus!
