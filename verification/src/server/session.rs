//! One client connection of the binary protocol, as decisions: which
//! request a frame holds and what it does to the session, the check of an
//! uploaded blob's hash, and the encodings of the GET_LAST and GET_BLOB
//! responses.  The program reads and writes the frames and does the store
//! work each decision names.
use vstd::prelude::*;
use vstd::utf8::encode_utf8;
use crate::client::fstree::snapshot::same_hash;
use crate::hashing::{blake3_digest, blake3_hash};
use crate::server::error::{SpecStoreError, StoreError};
use crate::server::protocol::{
    parse_append_turn, parse_append_turn_spec, parse_attach_fs, parse_attach_fs_spec, parse_ctx_create,
    parse_ctx_create_spec, parse_ctx_fork, parse_get_blob, parse_get_blob_spec, parse_get_head, parse_get_last,
    parse_get_last_spec, parse_hello, parse_hello_spec, parse_put_blob, parse_put_blob_spec, AppendTurnRequest,
    AttachFsRequest, GetLastRequest, HelloRequest, PutBlobRequest,
};
use crate::server::turn_store::{SpecTurnMeta, TurnMeta, TurnRecord};
use crate::server::wire::{le_bytes, push_bytes, push_le};
use crate::text::owned;

verus! {

// ---------------------------------------------------------------------------
// PUT_BLOB
// ---------------------------------------------------------------------------

/// An uploaded blob must hash (BLAKE3) to the hash it was sent with.
pub fn check_put_blob(req: &PutBlobRequest) -> (r: Result<(), StoreError>)
    ensures
        r is Ok <==> blake3_digest(req.data@) == req.hash@,
        r matches Err(e) ==> e@ == SpecStoreError::InvalidInput("blob hash mismatch"@),
{
    let actual = blake3_hash(req.data.as_slice());
    if same_hash(&actual, &req.hash) {
        Ok(())
    } else {
        Err(StoreError::InvalidInput(owned("blob hash mismatch")))
    }
}

// ---------------------------------------------------------------------------
// GET_LAST and GET_BLOB responses
// ---------------------------------------------------------------------------

/// A turn as GET_LAST returns it: its record, its metadata and, when asked
/// for, its payload.
pub struct TurnItem {
    pub record: TurnRecord,
    pub meta: TurnMeta,
    pub payload: Option<Vec<u8>>,
}

pub open spec fn opt_bytes(p: Option<Vec<u8>>) -> Option<Seq<u8>> {
    match p {
        Some(v) => Some(v@),
        None => None,
    }
}

/// One turn of a GET_LAST response: turn id (8 bytes), parent id (8),
/// depth (4), type id length (4) and type id (UTF-8), type version (4),
/// encoding (4), compression (4; 0 when the payload is included), length
/// uncompressed (4; the payload's length when it is included), payload hash
/// (32), and, with a payload, its length (4) and bytes.  Lengths are cut to
/// 32 bits.
pub open spec fn turn_item_bytes(rec: TurnRecord, meta: SpecTurnMeta, payload: Option<Seq<u8>>) -> Seq<u8> {
    let tid = encode_utf8(meta.declared_type_id);
    let compression: u32 = if payload is Some {
        0
    } else {
        meta.compression
    };
    let ulen: u32 = match payload {
        Some(p) => p.len() as u32,
        None => meta.uncompressed_len,
    };
    le_bytes(rec.turn_id as nat, 8) + le_bytes(rec.parent_turn_id as nat, 8) + le_bytes(rec.depth as nat, 4)
        + le_bytes((tid.len() as u32) as nat, 4) + tid + le_bytes(meta.declared_type_version as nat, 4) + le_bytes(
        meta.encoding as nat,
        4,
    ) + le_bytes(compression as nat, 4) + le_bytes(ulen as nat, 4) + rec.payload_hash@ + match payload {
        Some(p) => le_bytes((p.len() as u32) as nat, 4) + p,
        None => Seq::empty(),
    }
}

/// The turns of a GET_LAST response, one after another.
pub open spec fn items_bytes(s: Seq<TurnItem>) -> Seq<u8>
    decreases s.len(),
{
    if s.len() == 0 {
        Seq::empty()
    } else {
        items_bytes(s.drop_last()) + turn_item_bytes(s.last().record, s.last().meta@, opt_bytes(s.last().payload))
    }
}

/// A GET_LAST response: the number of turns (4 bytes, cut to 32 bits), then
/// the turns.
pub open spec fn get_last_resp_bytes(s: Seq<TurnItem>) -> Seq<u8> {
    le_bytes((s.len() as u32) as nat, 4) + items_bytes(s)
}

fn push_item(buf: &mut Vec<u8>, item: &TurnItem)
    ensures
        final(buf)@ == old(buf)@ + turn_item_bytes(item.record, item.meta@, opt_bytes(item.payload)),
{
    let rec = &item.record;
    push_le(buf, rec.turn_id, 8);
    push_le(buf, rec.parent_turn_id, 8);
    push_le(buf, rec.depth as u64, 4);
    let tid = item.meta.declared_type_id.as_str().as_bytes();
    push_le(buf, (tid.len() as u32) as u64, 4);
    push_bytes(buf, tid);
    push_le(buf, item.meta.declared_type_version as u64, 4);
    push_le(buf, item.meta.encoding as u64, 4);
    let compression: u32 = if item.payload.is_some() {
        0
    } else {
        item.meta.compression
    };
    push_le(buf, compression as u64, 4);
    let ulen: u32 = match &item.payload {
        Some(p) => p.len() as u32,
        None => item.meta.uncompressed_len,
    };
    push_le(buf, ulen as u64, 4);
    push_bytes(buf, rec.payload_hash.as_slice());
    match &item.payload {
        Some(p) => {
            push_le(buf, (p.len() as u32) as u64, 4);
            push_bytes(buf, p.as_slice());
        },
        None => {},
    }
    assert(buf@ =~= old(buf)@ + turn_item_bytes(item.record, item.meta@, opt_bytes(item.payload)));
}

/// Encodes a GET_LAST response.
pub fn encode_get_last_resp(items: &Vec<TurnItem>) -> (r: Result<Vec<u8>, StoreError>)
    ensures
        r matches Ok(b) && b@ == get_last_resp_bytes(items@),
{
    let mut buf: Vec<u8> = Vec::new();
    push_le(&mut buf, (items.len() as u32) as u64, 4);
    let ghost head = buf@;
    let mut i: usize = 0;
    while i < items.len()
        invariant
            i <= items@.len(),
            head == le_bytes((items@.len() as u32) as nat, 4),
            buf@ == head + items_bytes(items@.take(i as int)),
        decreases items@.len() - i,
    {
        let ghost t = items@.take(i + 1);
        assert(t.drop_last() =~= items@.take(i as int));
        assert(t.last() == items@[i as int]);
        push_item(&mut buf, &items[i]);
        assert(buf@ =~= head + items_bytes(t));
        i = i + 1;
    }
    assert(items@.take(items@.len() as int) =~= items@);
    Ok(buf)
}

/// A GET_BLOB response: the blob's length (4 bytes, cut to 32 bits) and its
/// bytes.
pub open spec fn get_blob_resp_bytes(b: Seq<u8>) -> Seq<u8> {
    le_bytes((b.len() as u32) as nat, 4) + b
}

/// Encodes a GET_BLOB response.
pub fn encode_get_blob_resp(bytes: &[u8]) -> (r: Result<Vec<u8>, StoreError>)
    ensures
        r matches Ok(b) && b@ == get_blob_resp_bytes(bytes@),
{
    let mut buf: Vec<u8> = Vec::new();
    push_le(&mut buf, (bytes.len() as u32) as u64, 4);
    push_bytes(&mut buf, bytes);
    Ok(buf)
}

// ---------------------------------------------------------------------------
// Dispatch
// ---------------------------------------------------------------------------

/// What a connection remembers: whether the session was registered (by
/// HELLO, or with an empty tag by the first context request) and its
/// client tag.
pub struct SessionState {
    pub client_tag_received: bool,
    pub client_tag: String,
}

impl View for SessionState {
    type V = (bool, Seq<char>);

    open spec fn view(&self) -> (bool, Seq<char>) {
        (self.client_tag_received, self.client_tag@)
    }
}

impl SessionState {
    /// A connection that has not said HELLO.
    pub fn new() -> (s: SessionState)
        ensures
            s@ == (false, Seq::<char>::empty()),
    {
        SessionState { client_tag_received: false, client_tag: String::new() }
    }
}

/// A request read from a frame.
pub enum Request {
    Hello(HelloRequest),
    CtxCreate(u64),
    CtxFork(u64),
    GetHead(u64),
    AppendTurn(AppendTurnRequest),
    AttachFs(AttachFsRequest),
    PutBlob(PutBlobRequest),
    GetLast(GetLastRequest),
    GetBlob([u8; 32]),
}

/// What the connection does with a frame: serve the request; answer an
/// error frame and go on; or end the connection with an error.
pub enum Outcome {
    Proceed(Request),
    Reject(StoreError),
    Abort(StoreError),
}

/// The decision on one frame: the tag to register the session under, if it
/// is registered now, and what to do.
pub struct Step {
    pub register: Option<String>,
    pub outcome: Outcome,
}

/// Whether a frame's message type is one the connection serves.
pub open spec fn served(msg_type: u16) -> bool {
    msg_type == 1 || msg_type == 2 || msg_type == 3 || msg_type == 4 || msg_type == 5 || msg_type == 6
        || msg_type == 9 || msg_type == 10 || msg_type == 11
}

/// Whether a context request registers the session, with an empty tag,
/// when nothing registered it before.
pub open spec fn registers_empty(old: (bool, Seq<char>), new: (bool, Seq<char>), register: Option<String>) -> bool {
    if old.0 {
        new == old && register is None
    } else {
        new == (true, Seq::<char>::empty()) && (register matches Some(t) && t@ == Seq::<char>::empty())
    }
}

/// Decides on a frame of the connection: reads the request its payload
/// holds (HELLO registers the session under its tag, a context request
/// under an empty tag, the first time); a payload that does not read, or a
/// blob whose hash does not match, ends the connection; an unknown type is
/// answered with an error frame.
pub fn dispatch(state: &mut SessionState, msg_type: u16, flags: u16, payload: &[u8]) -> (s: Step)
    ensures
        msg_type == 1 ==> match parse_hello_spec(payload@) {
            Err(e) => s.outcome matches Outcome::Abort(x) && x@ == e && s.register is None && final(state)@ == old(state)@,
            Ok(h) => s.outcome matches Outcome::Proceed(Request::Hello(r)) && r@ == h && if old(state).client_tag_received {
                s.register is None && final(state)@ == old(state)@
            } else {
                s.register matches Some(t) && t@ == h.client_tag && final(state)@ == (true, h.client_tag)
            },
        },
        msg_type == 2 || msg_type == 3 ==> registers_empty(old(state)@, final(state)@, s.register) && match parse_ctx_create_spec(
            payload@,
        ) {
            Err(e) => s.outcome matches Outcome::Abort(x) && x@ == e,
            Ok(v) => if msg_type == 2 {
                s.outcome matches Outcome::Proceed(Request::CtxCreate(b)) && b == v
            } else {
                s.outcome matches Outcome::Proceed(Request::CtxFork(b)) && b == v
            },
        },
        msg_type != 1 && msg_type != 2 && msg_type != 3 ==> final(state)@ == old(state)@ && s.register is None,
        msg_type == 4 ==> match parse_ctx_create_spec(payload@) {
            Err(e) => s.outcome matches Outcome::Abort(x) && x@ == e,
            Ok(v) => s.outcome matches Outcome::Proceed(Request::GetHead(c)) && c == v,
        },
        msg_type == 5 ==> match parse_append_turn_spec(payload@, flags) {
            Err(e) => s.outcome matches Outcome::Abort(x) && x@ == e,
            Ok(a) => s.outcome matches Outcome::Proceed(Request::AppendTurn(r)) && r@ == a,
        },
        msg_type == 6 ==> match parse_get_last_spec(payload@) {
            Err(e) => s.outcome matches Outcome::Abort(x) && x@ == e,
            Ok(g) => s.outcome matches Outcome::Proceed(Request::GetLast(r)) && r == g,
        },
        msg_type == 9 ==> match parse_get_blob_spec(payload@) {
            Err(e) => s.outcome matches Outcome::Abort(x) && x@ == e,
            Ok(h) => s.outcome matches Outcome::Proceed(Request::GetBlob(r)) && r@ == h,
        },
        msg_type == 10 ==> match parse_attach_fs_spec(payload@) {
            Err(e) => s.outcome matches Outcome::Abort(x) && x@ == e,
            Ok(a) => s.outcome matches Outcome::Proceed(Request::AttachFs(r)) && r@ == a,
        },
        msg_type == 11 ==> match parse_put_blob_spec(payload@) {
            Err(e) => s.outcome matches Outcome::Abort(x) && x@ == e,
            Ok(p) => if blake3_digest(p.data) == p.hash {
                s.outcome matches Outcome::Proceed(Request::PutBlob(r)) && r@ == p
            } else {
                s.outcome matches Outcome::Abort(x) && x@ == SpecStoreError::InvalidInput("blob hash mismatch"@)
            },
        },
        !served(msg_type) ==> (s.outcome matches Outcome::Reject(x) && x@ == SpecStoreError::InvalidInput(
            "unknown msg_type"@,
        )),
{
    if msg_type == 1 {
        match parse_hello(payload) {
            Err(e) => Step { register: None, outcome: Outcome::Abort(e) },
            Ok(h) => {
                if state.client_tag_received {
                    Step { register: None, outcome: Outcome::Proceed(Request::Hello(h)) }
                } else {
                    state.client_tag = owned(h.client_tag.as_str());
                    state.client_tag_received = true;
                    let tag = owned(h.client_tag.as_str());
                    Step { register: Some(tag), outcome: Outcome::Proceed(Request::Hello(h)) }
                }
            },
        }
    } else if msg_type == 2 || msg_type == 3 {
        let register = if state.client_tag_received {
            None
        } else {
            state.client_tag_received = true;
            state.client_tag = String::new();
            Some(String::new())
        };
        let parsed = if msg_type == 2 {
            parse_ctx_create(payload)
        } else {
            parse_ctx_fork(payload)
        };
        match parsed {
            Err(e) => Step { register, outcome: Outcome::Abort(e) },
            Ok(v) => if msg_type == 2 {
                Step { register, outcome: Outcome::Proceed(Request::CtxCreate(v)) }
            } else {
                Step { register, outcome: Outcome::Proceed(Request::CtxFork(v)) }
            },
        }
    } else if msg_type == 4 {
        match parse_get_head(payload) {
            Err(e) => Step { register: None, outcome: Outcome::Abort(e) },
            Ok(v) => Step { register: None, outcome: Outcome::Proceed(Request::GetHead(v)) },
        }
    } else if msg_type == 5 {
        match parse_append_turn(payload, flags) {
            Err(e) => Step { register: None, outcome: Outcome::Abort(e) },
            Ok(a) => Step { register: None, outcome: Outcome::Proceed(Request::AppendTurn(a)) },
        }
    } else if msg_type == 6 {
        match parse_get_last(payload) {
            Err(e) => Step { register: None, outcome: Outcome::Abort(e) },
            Ok(g) => Step { register: None, outcome: Outcome::Proceed(Request::GetLast(g)) },
        }
    } else if msg_type == 9 {
        match parse_get_blob(payload) {
            Err(e) => Step { register: None, outcome: Outcome::Abort(e) },
            Ok(h) => Step { register: None, outcome: Outcome::Proceed(Request::GetBlob(h)) },
        }
    } else if msg_type == 10 {
        match parse_attach_fs(payload) {
            Err(e) => Step { register: None, outcome: Outcome::Abort(e) },
            Ok(a) => Step { register: None, outcome: Outcome::Proceed(Request::AttachFs(a)) },
        }
    } else if msg_type == 11 {
        match parse_put_blob(payload) {
            Err(e) => Step { register: None, outcome: Outcome::Abort(e) },
            Ok(p) => match check_put_blob(&p) {
                Ok(()) => Step { register: None, outcome: Outcome::Proceed(Request::PutBlob(p)) },
                Err(e) => Step { register: None, outcome: Outcome::Abort(e) },
            },
        }
    } else {
        Step { register: None, outcome: Outcome::Reject(StoreError::InvalidInput(owned("unknown msg_type"))) }
    }
}

/// The code and detail of an error frame for an error: 404 for a missing
/// item, 422 for invalid input, 500 otherwise.
pub fn error_code(err: &StoreError) -> (r: (u32, String))
    ensures
        r.1@ == match err@ {
            SpecStoreError::NotFound(m) => m,
            SpecStoreError::InvalidInput(m) => m,
            SpecStoreError::Corrupt(m) => m,
            SpecStoreError::Io(m) => m,
        },
        r.0 == match err@ {
            SpecStoreError::NotFound(_) => 404u32,
            SpecStoreError::InvalidInput(_) => 422u32,
            _ => 500u32,
        },
{
    match err {
        StoreError::NotFound(m) => (404, owned(m.as_str())),
        StoreError::InvalidInput(m) => (422, owned(m.as_str())),
        StoreError::Corrupt(m) => (500, owned(m.as_str())),
        StoreError::Io(m) => (500, owned(m.as_str())),
    }
}

} // verus!
