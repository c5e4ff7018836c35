//! The server-sent-event (SSE) stream parser of the event subscription.
//!
//! A stream is read line by line.  `event:`, `data:` and `id:` lines fill the
//! pending event, a blank line emits it, a line starting with `:` is a
//! comment, and the end of the stream emits what is pending before reporting
//! that the stream closed.  [`sse_line`] states the effect of one line and
//! [`sse_run`] that of a whole stream.
use vstd::prelude::*;
use vstd::utf8::encode_utf8;
use crate::text::{trim, trim_ws, chars_of, decimal, push_decimal, push_str, string_from_chars, owned, chars_eq, str_debug, debug_quoted};

verus! {

/// An event of the stream.
#[derive(Clone, Debug, PartialEq, Eq)]
pub struct Event {
    pub event_type: String,
    pub data: Vec<u8>,
    pub id: String,
}

/// The mathematical form of an [`Event`].
pub struct SpecEvent {
    pub event_type: Seq<char>,
    pub data: Seq<u8>,
    pub id: Seq<char>,
}

impl View for Event {
    type V = SpecEvent;

    open spec fn view(&self) -> SpecEvent {
        SpecEvent { event_type: self.event_type@, data: self.data@, id: self.id@ }
    }
}

/// Why a subscription stopped.
#[derive(Debug, Clone, Copy, PartialEq, Eq, Structural)]
pub enum SubscribeErrorKind {
    Cancelled,
    Timeout,
    Eof,
    Other,
}

/// An error of the subscription: its kind and the text it shows.
#[derive(Debug, Clone, PartialEq, Eq)]
pub struct SubscribeError {
    pub kind: SubscribeErrorKind,
    pub detail: String,
}

/// The mathematical form of a [`SubscribeError`].
pub struct SpecSubscribeError {
    pub kind: SubscribeErrorKind,
    pub detail: Seq<char>,
}

impl View for SubscribeError {
    type V = SpecSubscribeError;

    open spec fn view(&self) -> SpecSubscribeError {
        SpecSubscribeError { kind: self.kind, detail: self.detail@ }
    }
}

pub open spec fn eof_error() -> SpecSubscribeError {
    SpecSubscribeError { kind: SubscribeErrorKind::Eof, detail: "cxdb subscribe: stream closed"@ }
}

pub open spec fn other_error(detail: Seq<char>) -> SpecSubscribeError {
    SpecSubscribeError { kind: SubscribeErrorKind::Other, detail }
}

impl SubscribeError {
    pub fn cancelled() -> (e: SubscribeError)
        ensures
            e@ == (SpecSubscribeError { kind: SubscribeErrorKind::Cancelled, detail: "context canceled"@ }),
    {
        SubscribeError { kind: SubscribeErrorKind::Cancelled, detail: owned("context canceled") }
    }

    pub fn timeout() -> (e: SubscribeError)
        ensures
            e@ == (SpecSubscribeError { kind: SubscribeErrorKind::Timeout, detail: "context deadline exceeded"@ }),
    {
        SubscribeError { kind: SubscribeErrorKind::Timeout, detail: owned("context deadline exceeded") }
    }

    pub fn eof() -> (e: SubscribeError)
        ensures
            e@ == eof_error(),
    {
        SubscribeError { kind: SubscribeErrorKind::Eof, detail: owned("cxdb subscribe: stream closed") }
    }

    pub fn other(detail: String) -> (e: SubscribeError)
        ensures
            e@ == other_error(detail@),
    {
        SubscribeError { kind: SubscribeErrorKind::Other, detail }
    }

    pub fn is_cancelled(&self) -> (r: bool)
        ensures
            r == (self.kind == SubscribeErrorKind::Cancelled),
    {
        self.kind == SubscribeErrorKind::Cancelled
    }

    pub fn is_timeout(&self) -> (r: bool)
        ensures
            r == (self.kind == SubscribeErrorKind::Timeout),
    {
        self.kind == SubscribeErrorKind::Timeout
    }

    pub fn is_eof(&self) -> (r: bool)
        ensures
            r == (self.kind == SubscribeErrorKind::Eof),
    {
        self.kind == SubscribeErrorKind::Eof
    }

    /// The text the error shows.
    pub fn to_display_string(&self) -> (r: String)
        ensures
            r@ == self.detail@,
    {
        self.detail.clone()
    }
}

// ---------------------------------------------------------------------------
// The model of the parser
// ---------------------------------------------------------------------------

/// The pending event: its type, its data lines, its id, and the number of
/// bytes of data so far.
pub struct SseModel {
    pub event_type: Seq<char>,
    pub data_lines: Seq<Seq<char>>,
    pub last_id: Seq<char>,
    pub data_size: nat,
}

pub open spec fn empty_sse() -> SseModel {
    SseModel { event_type: seq![], data_lines: seq![], last_id: seq![], data_size: 0 }
}

/// A line without its trailing `\r` and `\n` characters.
pub open spec fn trim_line_end(s: Seq<char>) -> Seq<char>
    decreases s.len(),
{
    if s.len() > 0 && (s.last() == '\r' || s.last() == '\n') {
        trim_line_end(s.drop_last())
    } else {
        s
    }
}

/// Lines joined with `\n`.
pub open spec fn join_lines(ls: Seq<Seq<char>>) -> Seq<char>
    decreases ls.len(),
{
    if ls.len() == 0 {
        seq![]
    } else if ls.len() == 1 {
        ls[0]
    } else {
        join_lines(ls.drop_last()) + seq!['\n'] + ls.last()
    }
}

/// The index of the first `c` in `s` at or after `i`.
pub open spec fn find_char(s: Seq<char>, c: char, i: int) -> Option<int>
    decreases s.len() - i,
{
    if i < 0 || i >= s.len() {
        None
    } else if s[i] == c {
        Some(i)
    } else {
        find_char(s, c, i + 1)
    }
}

/// A line split at its first `:` into field and value; a line without `:` is
/// all field.
pub open spec fn split_field(line: Seq<char>) -> (Seq<char>, Seq<char>) {
    match find_char(line, ':', 0) {
        Some(k) => (line.take(k), line.skip(k + 1)),
        None => (line, seq![]),
    }
}

pub open spec fn malformed_field(f: Seq<char>) -> bool {
    f.len() == 0 || f.contains(' ') || f.contains('\t')
}

/// A value without one leading space.
pub open spec fn strip_space(v: Seq<char>) -> Seq<char> {
    if v.len() > 0 && v[0] == ' ' {
        v.drop_first()
    } else {
        v
    }
}

/// Emits the pending event, if there is one with data: its type defaults to
/// `message`.  The pending state is cleared either way.
pub open spec fn flush(m: SseModel) -> (SseModel, Option<SpecEvent>) {
    let data = join_lines(m.data_lines);
    if (m.data_lines.len() == 0 && m.event_type.len() == 0 && m.last_id.len() == 0) || data.len() == 0 {
        (empty_sse(), None)
    } else {
        (
            empty_sse(),
            Some(
                SpecEvent {
                    event_type: if m.event_type.len() == 0 {
                        "message"@
                    } else {
                        m.event_type
                    },
                    data: encode_utf8(data),
                    id: m.last_id,
                },
            ),
        )
    }
}

/// The effect of one line as `BufRead::read_line` hands it over (with its
/// `\n`, if any; empty at the end of the stream): the new pending state, the
/// event to emit, and the error that ends the stream, if it ends here.
pub open spec fn sse_line(m: SseModel, raw: Seq<char>, max_event_bytes: nat) -> (SseModel, Option<SpecEvent>, Option<SpecSubscribeError>) {
    if raw.len() == 0 {
        (m, None, Some(eof_error()))
    } else {
        let eof = raw.last() != '\n';
        let line = trim_line_end(raw);
        let end_here = if eof { Some(eof_error()) } else { None };
        if line.len() == 0 {
            let (m2, ev) = flush(m);
            (m2, ev, end_here)
        } else if line[0] == ':' {
            (m, None, end_here)
        } else {
            let (field, raw_value) = split_field(line);
            if malformed_field(field) {
                (m, None, Some(other_error("cxdb subscribe: malformed field "@ + str_debug(field))))
            } else {
                let value = strip_space(raw_value);
                if field == "data"@ {
                    let m2 = SseModel {
                        data_lines: m.data_lines.push(value),
                        data_size: m.data_size + encode_utf8(value).len(),
                        ..m
                    };
                    if max_event_bytes > 0 && m2.data_size > max_event_bytes {
                        (m2, None, Some(other_error("cxdb subscribe: event exceeds max size ("@ + decimal(m2.data_size) + " bytes)"@)))
                    } else if eof {
                        let (m3, ev) = flush(m2);
                        (m3, ev, end_here)
                    } else {
                        (m2, None, None)
                    }
                } else {
                    let m2 = if field == "event"@ {
                        SseModel { event_type: value, ..m }
                    } else if field == "id"@ {
                        SseModel { last_id: value, ..m }
                    } else {
                        m
                    };
                    if eof {
                        let (m3, ev) = flush(m2);
                        (m3, ev, end_here)
                    } else {
                        (m2, None, None)
                    }
                }
            }
        }
    }
}

/// The index just past the line that starts at `pos`: past its `\n`, or the
/// end of the input.
pub open spec fn line_end(s: Seq<char>, pos: int) -> int {
    match find_char(s, '\n', pos) {
        Some(k) => k + 1,
        None => s.len() as int,
    }
}

/// The events a stream emits from position `pos` on, with pending state `m`,
/// and the error that ends it.
pub open spec fn sse_run(m: SseModel, input: Seq<char>, pos: int, max_event_bytes: nat) -> (Seq<SpecEvent>, SpecSubscribeError)
    decreases input.len() - pos,
{
    if pos < 0 || pos >= input.len() {
        (seq![], eof_error())
    } else {
        let end = line_end(input, pos);
        let (m2, ev, stop) = sse_line(m, input.subrange(pos, end), max_event_bytes);
        let here: Seq<SpecEvent> = match ev {
            Some(e) => seq![e],
            None => seq![],
        };
        match stop {
            Some(err) => (here, err),
            None => if pos < end <= input.len() {
                let (rest, err) = sse_run(m2, input, end, max_event_bytes);
                (here + rest, err)
            } else {
                (here, eof_error())
            },
        }
    }
}

// ---------------------------------------------------------------------------
// Facts about the model
// ---------------------------------------------------------------------------

/// A UTF-8 encoding takes one to four bytes per character.
pub proof fn lemma_utf8_len_bound(s: Seq<char>)
    ensures
        encode_utf8(s).len() <= 4 * s.len(),
        s.len() > 0 ==> encode_utf8(s).len() > 0,
    decreases s.len(),
{
    if s.len() > 0 {
        lemma_utf8_len_bound(s.drop_first());
    }
}

proof fn lemma_trim_line_end(s: Seq<char>)
    ensures
        trim_line_end(s).len() <= s.len(),
        trim_line_end(s) == s.take(trim_line_end(s).len() as int),
    decreases s.len(),
{
    if s.len() > 0 && (s.last() == '\r' || s.last() == '\n') {
        lemma_trim_line_end(s.drop_last());
        assert(s.drop_last().take(trim_line_end(s).len() as int) =~= s.take(trim_line_end(s).len() as int));
    } else {
        assert(s.take(s.len() as int) =~= s);
    }
}

proof fn lemma_find_char(s: Seq<char>, c: char, i: int)
    ensures
        find_char(s, c, i) matches Some(k) ==> i <= k < s.len() && s[k] == c,
    decreases s.len() - i,
{
    if 0 <= i < s.len() && s[i] != c {
        lemma_find_char(s, c, i + 1);
    }
}

/// One line grows the pending data by at most four bytes per character.
pub proof fn lemma_sse_line_size(m: SseModel, raw: Seq<char>, max_event_bytes: nat)
    ensures
        sse_line(m, raw, max_event_bytes).0.data_size <= m.data_size + 4 * raw.len(),
{
    if raw.len() > 0 {
        let line = trim_line_end(raw);
        lemma_trim_line_end(raw);
        lemma_find_char(line, ':', 0);
        let (field, raw_value) = split_field(line);
        let value = strip_space(raw_value);
        assert(value.len() <= raw.len());
        lemma_utf8_len_bound(value);
    }
}

// ---------------------------------------------------------------------------
// The parser
// ---------------------------------------------------------------------------

pub open spec fn opt_event_view(o: Option<Event>) -> Option<SpecEvent> {
    match o {
        Some(e) => Some(e@),
        None => None,
    }
}

pub open spec fn opt_error_view(o: Option<SubscribeError>) -> Option<SpecSubscribeError> {
    match o {
        Some(e) => Some(e@),
        None => None,
    }
}

pub open spec fn events_view(v: Seq<Event>) -> Seq<SpecEvent> {
    v.map_values(|e: Event| e@)
}

pub open spec fn lines_view(v: Seq<String>) -> Seq<Seq<char>> {
    v.map_values(|s: String| s@)
}

/// The pending event of a stream being read.
pub struct SseParser {
    event_type: String,
    data_lines: Vec<String>,
    last_id: String,
    data_size: usize,
}

impl View for SseParser {
    type V = SseModel;

    closed spec fn view(&self) -> SseModel {
        SseModel {
            event_type: self.event_type@,
            data_lines: lines_view(self.data_lines@),
            last_id: self.last_id@,
            data_size: self.data_size as nat,
        }
    }
}

/// Lines joined with `\n`.
fn join_data(lines: &Vec<String>) -> (r: String)
    ensures
        r@ == join_lines(lines_view(lines@)),
{
    let ghost lv = lines_view(lines@);
    let mut out: Vec<char> = Vec::new();
    let mut i: usize = 0;
    while i < lines.len()
        invariant
            0 <= i <= lines@.len(),
            lv == lines_view(lines@),
            out@ == join_lines(lv.take(i as int)),
        decreases lines@.len() - i,
    {
        let ghost before = out@;
        if i > 0 {
            out.push('\n');
        }
        push_str(&mut out, lines[i].as_str());
        proof {
            assert(lv[i as int] == lines@[i as int]@);
            if i == 0 {
                assert(lv.take(1) =~= seq![lv[0]]);
            } else {
                assert(lv.take(i + 1).drop_last() =~= lv.take(i as int));
            }
            assert(out@ =~= join_lines(lv.take(i + 1)));
        }
        i += 1;
    }
    assert(lv.take(lines@.len() as int) =~= lv);
    string_from_chars(out.as_slice())
}

impl SseParser {
    /// No event pending.
    pub fn new() -> (r: SseParser)
        ensures
            r@ == empty_sse(),
    {
        let r = SseParser { event_type: String::new(), data_lines: Vec::new(), last_id: String::new(), data_size: 0 };
        assert(lines_view(r.data_lines@) =~= Seq::<Seq<char>>::empty());
        r
    }

    /// Clears the pending event.
    pub fn reset_state(&mut self)
        ensures
            final(self)@ == empty_sse(),
    {
        self.event_type = String::new();
        self.data_lines = Vec::new();
        self.last_id = String::new();
        self.data_size = 0;
        assert(lines_view(self.data_lines@) =~= Seq::<Seq<char>>::empty());
    }

    /// Emits the pending event, as [`flush`] says.
    pub fn flush_event(&mut self) -> (r: Option<Event>)
        ensures
            (final(self)@, opt_event_view(r)) == flush(old(self)@),
    {
        if self.data_lines.len() == 0 && self.event_type.as_str().is_empty() && self.last_id.as_str().is_empty() {
            self.reset_state();
            return None;
        }
        let data = join_data(&self.data_lines);
        if data.as_str().is_empty() {
            self.reset_state();
            return None;
        }
        let event_type = if self.event_type.as_str().is_empty() {
            owned("message")
        } else {
            self.event_type.clone()
        };
        let event = Event {
            event_type,
            data: vstd::slice::slice_to_vec(data.as_str().as_bytes()),
            id: self.last_id.clone(),
        };
        self.reset_state();
        Some(event)
    }

    /// Takes one line as `BufRead::read_line` hands it over, as [`sse_line`]
    /// says: the event to emit, and the error that ends the stream, if it
    /// ends here.
    pub fn feed_line(&mut self, raw: &str, max_event_bytes: usize) -> (r: (Option<Event>, Option<SubscribeError>))
        requires
            old(self)@.data_size + 4 * raw@.len() <= usize::MAX,
        ensures
            ({
                let (m, ev, stop) = sse_line(old(self)@, raw@, max_event_bytes as nat);
                &&& final(self)@ == m
                &&& opt_event_view(r.0) == ev
                &&& opt_error_view(r.1) == stop
            }),
    {
        let cs = chars_of(raw);
        let n = cs.len();
        if n == 0 {
            return (None, Some(SubscribeError::eof()));
        }
        let eof = cs[n - 1] != '\n';
        let mut end: usize = n;
        assert(cs@.take(n as int) =~= cs@);
        while end > 0 && (cs[end - 1] == '\r' || cs[end - 1] == '\n')
            invariant
                0 <= end <= n,
                n == cs@.len(),
                cs@ == raw@,
                trim_line_end(cs@) == trim_line_end(cs@.take(end as int)),
            decreases end,
        {
            assert(cs@.take(end as int).drop_last() =~= cs@.take(end - 1));
            end -= 1;
        }
        let ghost line = cs@.take(end as int);
        assert(cs@.take(n as int) =~= cs@);
        assert(trim_line_end(line) == line);
        if end == 0 {
            let ev = self.flush_event();
            return (ev, if eof { Some(SubscribeError::eof()) } else { None });
        }
        if cs[0] == ':' {
            return (None, if eof { Some(SubscribeError::eof()) } else { None });
        }
        let mut k: usize = 0;
        while k < end && cs[k] != ':'
            invariant
                0 <= k <= end <= n,
                n == cs@.len(),
                line == cs@.take(end as int),
                find_char(line, ':', 0) == find_char(line, ':', k as int),
            decreases end - k,
        {
            assert(line[k as int] == cs@[k as int]);
            k += 1;
        }
        assert(k < end ==> line[k as int] == cs@[k as int]);
        let field_chars = vstd::slice::slice_subrange(cs.as_slice(), 0, k);
        let value_chars = if k < end {
            vstd::slice::slice_subrange(cs.as_slice(), k + 1, end)
        } else {
            vstd::slice::slice_subrange(cs.as_slice(), end, end)
        };
        let ghost (field_spec, raw_value_spec) = split_field(line);
        assert(field_chars@ =~= field_spec);
        assert(value_chars@ =~= raw_value_spec);
        let mut bad = k == 0;
        let mut j: usize = 0;
        while j < k
            invariant
                0 <= j <= k,
                field_chars@.len() == k,
                bad == (k == 0 || exists|i: int| 0 <= i < j && (field_chars@[i] == ' ' || field_chars@[i] == '\t')),
            decreases k - j,
        {
            if field_chars[j] == ' ' || field_chars[j] == '\t' {
                bad = true;
            }
            j += 1;
        }
        assert(bad == malformed_field(field_spec)) by {
            if field_spec.contains(' ') {
                let i = choose|i: int| 0 <= i < field_spec.len() && field_spec[i] == ' ';
                assert(field_chars@[i] == ' ');
            }
            if field_spec.contains('\t') {
                let i = choose|i: int| 0 <= i < field_spec.len() && field_spec[i] == '\t';
                assert(field_chars@[i] == '\t');
            }
            if bad && k > 0 {
                let i = choose|i: int| 0 <= i < k && (field_chars@[i] == ' ' || field_chars@[i] == '\t');
                if field_chars@[i] == ' ' {
                    assert(field_spec.contains(' '));
                } else {
                    assert(field_spec.contains('\t'));
                }
            }
        }
        let field = string_from_chars(field_chars);
        if bad {
            let shown = debug_quoted(field.as_str());
            let mut msg = chars_of("cxdb subscribe: malformed field ");
            push_str(&mut msg, shown.as_str());
            return (None, Some(SubscribeError::other(string_from_chars(msg.as_slice()))));
        }
        let value_chars = if value_chars.len() > 0 && value_chars[0] == ' ' {
            vstd::slice::slice_subrange(value_chars, 1, value_chars.len())
        } else {
            value_chars
        };
        assert(value_chars@ =~= strip_space(raw_value_spec));
        let value = string_from_chars(value_chars);
        proof {
            lemma_sse_line_size(old(self)@, raw@, max_event_bytes as nat);
            lemma_trim_line_end(raw@);
            lemma_utf8_len_bound(value@);
        }
        if chars_eq(field_chars, chars_of("data").as_slice()) {
            let value_len = value.as_str().len();
            let ghost before = self.data_lines@;
            let new_size = self.data_size + value_len;
            self.data_lines.push(value);
            self.data_size = new_size;
            assert(lines_view(self.data_lines@) =~= lines_view(before).push(value_chars@));
            if max_event_bytes > 0 && new_size > max_event_bytes {
                let mut msg = chars_of("cxdb subscribe: event exceeds max size (");
                push_decimal(&mut msg, new_size as u64);
                push_str(&mut msg, " bytes)");
                return (None, Some(SubscribeError::other(string_from_chars(msg.as_slice()))));
            }
        } else if chars_eq(field_chars, chars_of("event").as_slice()) {
            self.event_type = value;
        } else if chars_eq(field_chars, chars_of("id").as_slice()) {
            self.last_id = value;
        }
        if eof {
            let ev = self.flush_event();
            return (ev, Some(SubscribeError::eof()));
        }
        (None, None)
    }
}

/// Reads a whole stream held in memory, as [`sse_run`] says: the events it
/// emits, in order, and the error that ends it.
pub fn read_event_stream(input: &str, max_event_bytes: usize) -> (r: (Vec<Event>, SubscribeError))
    requires
        4 * input@.len() <= usize::MAX,
    ensures
        (events_view(r.0@), r.1@) == sse_run(empty_sse(), input@, 0, max_event_bytes as nat),
{
    let cs = chars_of(input);
    let ghost total = sse_run(empty_sse(), input@, 0, max_event_bytes as nat);
    let mut parser = SseParser::new();
    let mut events: Vec<Event> = Vec::new();
    let mut pos: usize = 0;
    loop
        invariant
            cs@ == input@,
            4 * cs@.len() <= usize::MAX,
            0 <= pos <= cs@.len(),
            parser@.data_size <= 4 * pos,
            total == sse_run(empty_sse(), input@, 0, max_event_bytes as nat),
            total.0 == events_view(events@) + sse_run(parser@, input@, pos as int, max_event_bytes as nat).0,
            total.1 == sse_run(parser@, input@, pos as int, max_event_bytes as nat).1,
        decreases cs@.len() - pos,
    {
        if pos >= cs.len() {
            assert(events_view(events@) + Seq::<SpecEvent>::empty() =~= events_view(events@));
            return (events, SubscribeError::eof());
        }
        let mut e: usize = pos;
        while e < cs.len() && cs[e] != '\n'
            invariant
                pos <= e <= cs@.len(),
                find_char(input@, '\n', pos as int) == find_char(input@, '\n', e as int),
                cs@ == input@,
            decreases cs@.len() - e,
        {
            e += 1;
        }
        if e < cs.len() {
            e += 1;
        }
        assert(e == line_end(input@, pos as int));
        let line = string_from_chars(vstd::slice::slice_subrange(cs.as_slice(), pos, e));
        let ghost m = parser@;
        let ghost events_before = events_view(events@);
        let (ev, stop) = parser.feed_line(line.as_str(), max_event_bytes);
        proof {
            lemma_sse_line_size(m, line@, max_event_bytes as nat);
        }
        match ev {
            Some(ev) => {
                events.push(ev);
            },
            None => {},
        }
        let ghost here: Seq<SpecEvent> = match sse_line(m, line@, max_event_bytes as nat).1 {
            Some(x) => seq![x],
            None => seq![],
        };
        assert(events_view(events@) =~= events_before + here);
        match stop {
            Some(err) => {
                return (events, err);
            },
            None => {},
        }
        assert(total.0 =~= events_view(events@) + sse_run(parser@, input@, e as int, max_event_bytes as nat).0);
        pos = e;
    }
}

// ---------------------------------------------------------------------------
// Reconnection
// ---------------------------------------------------------------------------

/// The first delay between reconnection attempts, in nanoseconds.
pub const DEFAULT_RETRY_DELAY_NANOS: u128 = 500_000_000;

/// The longest `Duration`, in nanoseconds.
pub const MAX_DURATION_NANOS: u128 = 18_446_744_073_709_551_615_999_999_999;

/// The delay after `current`: the default when `current` is zero, else twice
/// `current`, capped at `max` when `max` is positive.
pub open spec fn next_delay(current: nat, max: nat) -> nat {
    if current == 0 {
        DEFAULT_RETRY_DELAY_NANOS as nat
    } else if max > 0 && 2 * current > max {
        max
    } else {
        2 * current
    }
}

/// The delay before the next attempt, in nanoseconds, as [`next_delay`] says.
/// Doubling a `Duration` past its largest value panics, so `2 * current`
/// must stay within it.
pub fn next_retry_delay(current_nanos: u128, max_nanos: u128) -> (r: u128)
    requires
        2 * current_nanos <= MAX_DURATION_NANOS,
    ensures
        r == next_delay(current_nanos as nat, max_nanos as nat),
{
    if current_nanos == 0 {
        return DEFAULT_RETRY_DELAY_NANOS;
    }
    let next = current_nanos * 2;
    if max_nanos > 0 && next > max_nanos {
        return max_nanos;
    }
    next
}

/// The delay actually waited: the default when `delay` is zero, capped at
/// `max` when `max` is positive.
pub open spec fn clamped_delay(delay: nat, max: nat) -> nat {
    let d = if delay == 0 { DEFAULT_RETRY_DELAY_NANOS as nat } else { delay };
    if max > 0 && d > max {
        max
    } else {
        d
    }
}

/// The delay to wait before reconnecting, in nanoseconds, as [`clamped_delay`] says.
pub fn clamp_retry_delay(delay_nanos: u128, max_nanos: u128) -> (r: u128)
    ensures
        r == clamped_delay(delay_nanos as nat, max_nanos as nat),
{
    let mut d = delay_nanos;
    if d == 0 {
        d = DEFAULT_RETRY_DELAY_NANOS;
    }
    if max_nanos > 0 && d > max_nanos {
        d = max_nanos;
    }
    d
}

/// What the subscription loop does after an attempt that ended with an error
/// of kind `kind` (`None` when it ended cleanly): whether it reports the error,
/// and whether it stops.  A cancellation is not reported; a cancellation or a
/// timeout stops the loop; anything else leads to a retry.
pub fn after_attempt(kind: Option<SubscribeErrorKind>) -> (r: (bool, bool))
    ensures
        r.0 == (kind is Some && kind != Some(SubscribeErrorKind::Cancelled)),
        r.1 == (kind == Some(SubscribeErrorKind::Cancelled) || kind == Some(SubscribeErrorKind::Timeout)),
{
    match kind {
        Some(SubscribeErrorKind::Cancelled) => (false, true),
        Some(SubscribeErrorKind::Timeout) => (true, true),
        Some(_) => (true, false),
        None => (false, false),
    }
}


/// The error a subscription with this address starts with: an address that
/// is blank once trimmed is refused.
pub fn check_subscribe_url(url: &str) -> (r: Option<SubscribeError>)
    ensures
        trim_ws(url@).len() == 0 ==> (r matches Some(e) && e@ == other_error("cxdb subscribe: url is required"@)),
        trim_ws(url@).len() != 0 ==> r is None,
{
    let t = trim(url);
    if t.as_str().is_empty() {
        Some(SubscribeError::other(owned("cxdb subscribe: url is required")))
    } else {
        None
    }
}

} // verus!
