//! Following the turns of contexts from `turn_appended` events.
//!
//! For each context the follower keeps a [`FollowState`]: the deepest turn it
//! has delivered, and a bounded window of the ids it has delivered, oldest
//! first.  On an event it asks the server for the context's head, fetches the
//! turns it has not seen ([`FollowState::sync_request`]), and delivers each
//! one whose id is not in the window ([`FollowState::seen_turn`],
//! [`FollowState::record_turn`]).  The program runs that loop; the
//! decisions are here.
use vstd::prelude::*;
use crate::client::context::ContextHead;
use crate::client::error::{error_text, Error, SpecError};
use crate::client::events::{decode_turn_appended, decoded, turn_appended_from, SpecTurnAppended, TurnAppendedEvent};
use crate::client::json::SpecJson;
use crate::client::turn::{GetLastOptions, TurnRecord};
use crate::text::{chars_of, concat, decimal, owned, push_decimal, push_str, string_from_chars};

verus! {

/// The channel capacity a follower uses unless told otherwise.
pub const DEFAULT_FOLLOW_BUFFER: usize = 128;

/// How many delivered turn ids a follower remembers per context unless told
/// otherwise.
pub const DEFAULT_MAX_SEEN_PER_CONTEXT: usize = 2048;

/// An error of a follower.
#[derive(Debug)]
pub enum FollowError {
    Cancelled,
    Timeout,
    Decode(String),
    Client(Error),
    Other(String),
}

/// The mathematical form of a [`FollowError`].
pub enum SpecFollowError {
    Cancelled,
    Timeout,
    Decode(Seq<char>),
    Client(SpecError),
    Other(Seq<char>),
}

impl View for FollowError {
    type V = SpecFollowError;

    open spec fn view(&self) -> SpecFollowError {
        match self {
            FollowError::Cancelled => SpecFollowError::Cancelled,
            FollowError::Timeout => SpecFollowError::Timeout,
            FollowError::Decode(m) => SpecFollowError::Decode(m@),
            FollowError::Client(e) => SpecFollowError::Client(e@),
            FollowError::Other(m) => SpecFollowError::Other(m@),
        }
    }
}

/// The text a follower error shows.
pub open spec fn follow_error_text(e: SpecFollowError) -> Seq<char> {
    match e {
        SpecFollowError::Cancelled => "context canceled"@,
        SpecFollowError::Timeout => "context deadline exceeded"@,
        SpecFollowError::Decode(m) => m,
        SpecFollowError::Client(c) => error_text(c),
        SpecFollowError::Other(m) => m,
    }
}

impl FollowError {
    /// The text the error shows.
    pub fn to_display_string(&self) -> (r: String)
        ensures
            r@ == follow_error_text(self@),
    {
        match self {
            FollowError::Cancelled => owned("context canceled"),
            FollowError::Timeout => owned("context deadline exceeded"),
            FollowError::Decode(m) => owned(m.as_str()),
            FollowError::Client(e) => e.to_display_string(),
            FollowError::Other(m) => owned(m.as_str()),
        }
    }
}

impl From<Error> for FollowError {
    fn from(err: Error) -> (r: FollowError) {
        FollowError::Client(err)
    }
}

impl vstd::std_specs::convert::FromSpecImpl<Error> for FollowError {
    open spec fn obeys_from_spec() -> bool {
        true
    }

    open spec fn from_spec(v: Error) -> FollowError {
        FollowError::Client(v)
    }
}

// ---------------------------------------------------------------------------
// Options
// ---------------------------------------------------------------------------

/// What a follower is configured with.
#[derive(Debug, Clone, Copy)]
pub struct FollowOptions {
    pub buffer_size: usize,
    pub max_seen_per_context: usize,
}

impl Default for FollowOptions {
    fn default() -> (r: FollowOptions)
        ensures
            r.buffer_size == DEFAULT_FOLLOW_BUFFER,
            r.max_seen_per_context == DEFAULT_MAX_SEEN_PER_CONTEXT,
    {
        FollowOptions { buffer_size: DEFAULT_FOLLOW_BUFFER, max_seen_per_context: DEFAULT_MAX_SEEN_PER_CONTEXT }
    }
}

/// One setting of a follower's options.
#[derive(Debug, Clone, Copy)]
pub enum FollowOption {
    FollowBuffer(usize),
    MaxSeenPerContext(usize),
}

/// The options after one setting.
pub open spec fn option_applied(o: FollowOptions, opt: FollowOption) -> FollowOptions {
    match opt {
        FollowOption::FollowBuffer(n) => FollowOptions { buffer_size: n, ..o },
        FollowOption::MaxSeenPerContext(n) => FollowOptions { max_seen_per_context: n, ..o },
    }
}

/// The options after settings in order: a later setting of the same option
/// wins.
pub open spec fn options_applied(o: FollowOptions, opts: Seq<FollowOption>) -> FollowOptions
    decreases opts.len(),
{
    if opts.len() == 0 {
        o
    } else {
        option_applied(options_applied(o, opts.drop_last()), opts.last())
    }
}

impl FollowOption {
    /// Applies the setting.
    pub fn apply(&self, opts: &mut FollowOptions)
        ensures
            *final(opts) == option_applied(*old(opts), *self),
    {
        match self {
            FollowOption::FollowBuffer(n) => {
                opts.buffer_size = *n;
            },
            FollowOption::MaxSeenPerContext(n) => {
                opts.max_seen_per_context = *n;
            },
        }
    }
}

/// Sets the capacity of the follower's channels.
pub fn with_follow_buffer(size: usize) -> (r: FollowOption)
    ensures
        r == FollowOption::FollowBuffer(size),
{
    FollowOption::FollowBuffer(size)
}

/// Sets how many delivered turn ids are remembered per context.
pub fn with_max_seen_per_context(limit: usize) -> (r: FollowOption)
    ensures
        r == FollowOption::MaxSeenPerContext(limit),
{
    FollowOption::MaxSeenPerContext(limit)
}

/// The defaults with the settings applied in order.
pub fn follow_options(opts: &Vec<FollowOption>) -> (r: FollowOptions)
    ensures
        r == options_applied(
            FollowOptions { buffer_size: DEFAULT_FOLLOW_BUFFER, max_seen_per_context: DEFAULT_MAX_SEEN_PER_CONTEXT },
            opts@,
        ),
{
    let mut o = FollowOptions::default();
    let ghost start = o;
    let mut i: usize = 0;
    while i < opts.len()
        invariant
            i <= opts@.len(),
            start == (FollowOptions {
                buffer_size: DEFAULT_FOLLOW_BUFFER,
                max_seen_per_context: DEFAULT_MAX_SEEN_PER_CONTEXT,
            }),
            o == options_applied(start, opts@.take(i as int)),
        decreases opts@.len() - i,
    {
        opts[i].apply(&mut o);
        assert(opts@.take(i + 1).drop_last() =~= opts@.take(i as int));
        i = i + 1;
    }
    assert(opts@.take(opts@.len() as int) =~= opts@);
    o
}

// ---------------------------------------------------------------------------
// Events
// ---------------------------------------------------------------------------

/// A turn delivered by a follower, with its context.
#[derive(Debug, Clone)]
pub struct FollowTurn {
    pub context_id: u64,
    pub turn: TurnRecord,
}

/// What a follower makes of a `turn_appended` payload: an empty payload, one
/// that does not decode, or one without a context or turn id is an error.
pub open spec fn follow_event_spec(data: Seq<u8>) -> Result<SpecTurnAppended, Seq<char>> {
    if data.len() == 0 {
        Err("turn_appended: empty payload"@)
    } else {
        match decoded(data, |doc: SpecJson| turn_appended_from(doc)) {
            Err(m) => Err("turn_appended: decode: "@ + m),
            Ok(e) => if e.context_id == 0 {
                Err("turn_appended: missing context_id"@)
            } else if e.turn_id == 0 {
                Err("turn_appended: missing turn_id"@)
            } else {
                Ok(e)
            },
        }
    }
}

/// Decodes the payload of a `turn_appended` event for following.
pub fn decode_turn_appended_event(data: &[u8]) -> (r: Result<TurnAppendedEvent, FollowError>)
    ensures
        match (r, follow_event_spec(data@)) {
            (Ok(e), Ok(s)) => e@ == s,
            (Err(FollowError::Decode(m)), Err(s)) => m@ == s,
            _ => false,
        },
{
    if data.len() == 0 {
        return Err(FollowError::Decode(owned("turn_appended: empty payload")));
    }
    let event = match decode_turn_appended(data) {
        Ok(e) => e,
        Err(d) => {
            return Err(FollowError::Decode(concat("turn_appended: decode: ", d.message.as_str())));
        },
    };
    if event.context_id == 0 {
        return Err(FollowError::Decode(owned("turn_appended: missing context_id")));
    }
    if event.turn_id == 0 {
        return Err(FollowError::Decode(owned("turn_appended: missing turn_id")));
    }
    Ok(event)
}

// ---------------------------------------------------------------------------
// Per-context state
// ---------------------------------------------------------------------------

/// The mathematical form of a [`FollowState`].
pub struct FollowView {
    pub has_last: bool,
    pub last_seen_turn_id: u64,
    pub last_seen_depth: u32,
    /// Delivered turn ids, oldest first.
    pub seen: Seq<u64>,
    pub max_seen: usize,
}

/// A well-formed state: the window is bounded and holds no id twice.
pub open spec fn follow_wf(v: FollowView) -> bool {
    &&& v.max_seen > 0
    &&& v.seen.len() <= v.max_seen
    &&& v.seen.no_duplicates()
}

/// The window after adding an id: the newest `max` ids.
pub open spec fn window_after(seen: Seq<u64>, id: u64, max: nat) -> Seq<u64> {
    let s = seen.push(id);
    if s.len() > max {
        s.subrange(s.len() - max, s.len() as int)
    } else {
        s
    }
}

/// What a follower remembers of one context.
pub struct FollowState {
    has_last: bool,
    last_seen_turn_id: u64,
    last_seen_depth: u32,
    seen_order: Vec<u64>,
    max_seen: usize,
}

impl View for FollowState {
    type V = FollowView;

    closed spec fn view(&self) -> FollowView {
        FollowView {
            has_last: self.has_last,
            last_seen_turn_id: self.last_seen_turn_id,
            last_seen_depth: self.last_seen_depth,
            seen: self.seen_order@,
            max_seen: self.max_seen,
        }
    }
}

/// The message of a head that is shallower than a turn already delivered.
pub open spec fn regressed_text(context_id: u64) -> Seq<char> {
    "follow turns: head depth regressed (context "@ + decimal(context_id as nat) + ")"@
}

/// How many turns to fetch for a head: all of them up to the head when
/// nothing was delivered yet (or nothing is remembered), else those deeper
/// than the last delivered.
pub open spec fn missing_spec(v: FollowView, head_depth: u32) -> int {
    if v.has_last && v.seen.len() > 0 {
        if head_depth >= v.last_seen_depth {
            head_depth - v.last_seen_depth
        } else {
            0
        }
    } else {
        head_depth + 1
    }
}

impl FollowState {
    /// A state that has delivered nothing; a limit of 0 means the default.
    pub fn new(max_seen: usize) -> (r: FollowState)
        ensures
            r@ == (FollowView {
                has_last: false,
                last_seen_turn_id: 0,
                last_seen_depth: 0,
                seen: seq![],
                max_seen: if max_seen == 0 {
                    DEFAULT_MAX_SEEN_PER_CONTEXT
                } else {
                    max_seen
                },
            }),
            follow_wf(r@),
    {
        let max_seen = if max_seen == 0 {
            DEFAULT_MAX_SEEN_PER_CONTEXT
        } else {
            max_seen
        };
        let r = FollowState { has_last: false, last_seen_turn_id: 0, last_seen_depth: 0, seen_order: Vec::new(), max_seen };
        assert(r@.seen =~= seq![]);
        r
    }

    /// Whether a turn id is in the window of delivered ids.
    pub fn seen_turn(&self, turn_id: u64) -> (r: bool)
        ensures
            r == self@.seen.contains(turn_id),
    {
        let mut i: usize = 0;
        while i < self.seen_order.len()
            invariant
                i <= self.seen_order@.len(),
                forall|j: int| 0 <= j < i ==> self.seen_order@[j] != turn_id,
            decreases self.seen_order@.len() - i,
        {
            if self.seen_order[i] == turn_id {
                assert(self.seen_order@[i as int] == turn_id);
                return true;
            }
            i = i + 1;
        }
        false
    }

    /// Whether the number of turns to fetch for a head of this depth fits
    /// in 32 bits (see [`missing_spec`]).
    pub fn fetch_fits(&self, head_depth: u32) -> (r: bool)
        ensures
            r == (missing_spec(self@, head_depth) <= u32::MAX),
    {
        if self.has_last && self.seen_order.len() > 0 {
            true
        } else {
            head_depth < u32::MAX
        }
    }

    /// What to ask the server for after learning a context's head: nothing
    /// when no turn is missing, else the missing turns with payloads.  A
    /// head shallower than the last delivered turn is an error.
    pub fn sync_request(&self, context_id: u64, head: &ContextHead) -> (r: Result<Option<GetLastOptions>, FollowError>)
        requires
            follow_wf(self@),
            missing_spec(self@, head.head_depth) <= u32::MAX,
        ensures
            self@.has_last && head.head_depth < self@.last_seen_depth ==> (r matches Err(FollowError::Other(m))
                && m@ == regressed_text(context_id)),
            !(self@.has_last && head.head_depth < self@.last_seen_depth) ==> (r matches Ok(o) && if missing_spec(
                self@,
                head.head_depth,
            ) == 0 {
                o is None
            } else {
                o matches Some(g) && g.limit == missing_spec(self@, head.head_depth) && g.include_payload
            }),
    {
        if self.has_last && head.head_depth < self.last_seen_depth {
            let mut out = chars_of("follow turns: head depth regressed (context ");
            push_decimal(&mut out, context_id);
            push_str(&mut out, ")");
            return Err(FollowError::Other(string_from_chars(out.as_slice())));
        }
        let missing: u32 = if self.has_last && self.seen_order.len() > 0 {
            head.head_depth - self.last_seen_depth
        } else {
            head.head_depth + 1
        };
        if missing == 0 {
            Ok(None)
        } else {
            Ok(Some(GetLastOptions { limit: missing, include_payload: true }))
        }
    }

    /// Decides on a turn fetched for delivery: one already delivered is
    /// dropped and changes nothing; a new one is to be delivered and is
    /// recorded as [`FollowState::record_turn`] records it.
    pub fn offer_turn(&mut self, turn: &TurnRecord) -> (fresh: bool)
        requires
            follow_wf(old(self)@),
        ensures
            fresh == !old(self)@.seen.contains(turn.turn_id),
            follow_wf(final(self)@),
            !fresh ==> final(self)@ == old(self)@,
            fresh ==> final(self)@.max_seen == old(self)@.max_seen && final(self)@.seen == window_after(
                old(self)@.seen,
                turn.turn_id,
                old(self)@.max_seen as nat,
            ) && if !old(self)@.has_last || turn.depth >= old(self)@.last_seen_depth {
                final(self)@.has_last && final(self)@.last_seen_depth == turn.depth && final(self)@.last_seen_turn_id
                    == turn.turn_id
            } else {
                final(self)@.has_last == old(self)@.has_last && final(self)@.last_seen_depth == old(
                    self,
                )@.last_seen_depth && final(self)@.last_seen_turn_id == old(self)@.last_seen_turn_id
            },
    {
        if self.seen_turn(turn.turn_id) {
            return false;
        }
        self.record_turn(turn);
        true
    }

    /// Records a delivered turn: its id enters the window (the oldest leaves
    /// when the window is full), and it becomes the last turn when it is at
    /// least as deep as the last one.
    pub fn record_turn(&mut self, turn: &TurnRecord)
        requires
            follow_wf(old(self)@),
            !old(self)@.seen.contains(turn.turn_id),
        ensures
            follow_wf(final(self)@),
            final(self)@.max_seen == old(self)@.max_seen,
            final(self)@.seen == window_after(old(self)@.seen, turn.turn_id, old(self)@.max_seen as nat),
            if !old(self)@.has_last || turn.depth >= old(self)@.last_seen_depth {
                final(self)@.has_last && final(self)@.last_seen_depth == turn.depth && final(self)@.last_seen_turn_id
                    == turn.turn_id
            } else {
                final(self)@.has_last == old(self)@.has_last && final(self)@.last_seen_depth == old(
                    self,
                )@.last_seen_depth && final(self)@.last_seen_turn_id == old(self)@.last_seen_turn_id
            },
    {
        let ghost s = self.seen_order@.push(turn.turn_id);
        self.seen_order.push(turn.turn_id);
        if self.seen_order.len() > self.max_seen {
            self.seen_order.remove(0);
            assert(self.seen_order@ =~= s.subrange(s.len() - self.max_seen, s.len() as int));
        }
        proof {
            assert(s.no_duplicates()) by {
                assert forall|i: int, j: int| 0 <= i < s.len() && 0 <= j < s.len() && i != j implies s[i] != s[j] by {
                    if i == s.len() - 1 {
                        assert(old(self)@.seen.contains(s[j]) || j == s.len() - 1);
                    } else if j == s.len() - 1 {
                        assert(old(self)@.seen.contains(s[i]));
                    }
                }
            }
        }
        if !self.has_last || turn.depth >= self.last_seen_depth {
            self.last_seen_depth = turn.depth;
            self.last_seen_turn_id = turn.turn_id;
            self.has_last = true;
        }
    }
}

/// A delivered turn is in the window right after it is recorded, and the
/// window never holds more ids than its limit.
pub proof fn law_recorded_turn_is_seen(seen: Seq<u64>, id: u64, max: nat)
    requires
        max > 0,
        seen.len() <= max,
    ensures
        window_after(seen, id, max).contains(id),
        window_after(seen, id, max).len() <= max,
{
    let w = window_after(seen, id, max);
    assert(w[w.len() - 1] == id);
}

} // verus!
