//! The logic of the event subscriber program: its arguments, the loop that
//! drains the event, error and turn streams, and the JSON lines it prints.
//!
//! The program polls each open stream once per round.  A stream that is
//! closed is dropped; the program stops when every stream is closed, when it
//! is cancelled, or when the limits it was given are reached.
use vstd::prelude::*;
use crate::client::json::{JsonValue, SpecJson};
use crate::client::protocol::{COMPRESSION_NONE, ENCODING_MSGPACK};
use crate::client::turn::TurnRecord;
use crate::server::events::{fields_view, json_quote, json_quoted, object_json, object_text};
use crate::text::{chars_of, concat, decimal, owned, parse_u64, push_decimal, push_str, str_eq, string_from_chars, u64_text_value};

verus! {

/// The subscriber's settings.
#[derive(Debug, Clone)]
pub struct SubscribeConfig {
    pub events_url: String,
    pub bin_addr: String,
    pub follow_turns: bool,
    pub use_tls: bool,
    pub client_tag: String,
    /// Stop after this many events (0: no limit).
    pub max_events: usize,
    /// Stop after this many turns (0: no limit).
    pub max_turns: usize,
    /// Stop after this many errors (0: no limit).
    pub max_errors: usize,
}

/// What the arguments ask for.
#[derive(Debug, Clone)]
pub enum ParsedArgs {
    Run(SubscribeConfig),
    Help,
}

/// The mathematical form of a [`SubscribeConfig`].
pub struct ConfigView {
    pub events_url: Seq<char>,
    pub bin_addr: Seq<char>,
    pub follow_turns: bool,
    pub use_tls: bool,
    pub client_tag: Seq<char>,
    pub max_events: usize,
    pub max_turns: usize,
    pub max_errors: usize,
}

impl View for SubscribeConfig {
    type V = ConfigView;

    open spec fn view(&self) -> ConfigView {
        ConfigView {
            events_url: self.events_url@,
            bin_addr: self.bin_addr@,
            follow_turns: self.follow_turns,
            use_tls: self.use_tls,
            client_tag: self.client_tag@,
            max_events: self.max_events,
            max_turns: self.max_turns,
            max_errors: self.max_errors,
        }
    }
}

/// The settings before any argument.
pub open spec fn default_config() -> ConfigView {
    ConfigView {
        events_url: Seq::empty(),
        bin_addr: Seq::empty(),
        follow_turns: false,
        use_tls: false,
        client_tag: Seq::empty(),
        max_events: 0,
        max_turns: 0,
        max_errors: 0,
    }
}

/// What `str::parse::<usize>` gives.
pub open spec fn usize_text_value(s: Seq<char>) -> Option<usize> {
    match u64_text_value(s) {
        Some(v) => if v <= usize::MAX {
            Some(v as usize)
        } else {
            None
        },
        None => None,
    }
}

/// The flags that take a value.
pub open spec fn takes_value(a: Seq<char>) -> bool {
    a == "--cxdb-events-url"@ || a == "--cxdb-bin-addr"@ || a == "--client-tag"@ || a == "--max-events"@
        || a == "--max-turns"@ || a == "--max-errors"@
}

/// What the arguments from `i` on make of `cfg`: the settings, `None` for
/// help, or the error to report.
pub open spec fn args_spec(args: Seq<Seq<char>>, i: int, cfg: ConfigView) -> Result<Option<ConfigView>, Seq<char>>
    decreases args.len() - i,
{
    if i < 0 || i >= args.len() {
        Ok(Some(cfg))
    } else {
        let a = args[i];
        if a == "-h"@ || a == "--help"@ {
            Ok(None)
        } else if a == "--follow-turns"@ {
            args_spec(args, i + 1, ConfigView { follow_turns: true, ..cfg })
        } else if a == "--tls"@ {
            args_spec(args, i + 1, ConfigView { use_tls: true, ..cfg })
        } else if takes_value(a) {
            if i + 1 >= args.len() {
                Err("missing value for "@ + a)
            } else {
                let v = args[i + 1];
                if a == "--cxdb-events-url"@ {
                    args_spec(args, i + 2, ConfigView { events_url: v, ..cfg })
                } else if a == "--cxdb-bin-addr"@ {
                    args_spec(args, i + 2, ConfigView { bin_addr: v, ..cfg })
                } else if a == "--client-tag"@ {
                    args_spec(args, i + 2, ConfigView { client_tag: v, ..cfg })
                } else {
                    match usize_text_value(v) {
                        None => Err(
                            if a == "--max-events"@ {
                                "invalid --max-events value"@
                            } else if a == "--max-turns"@ {
                                "invalid --max-turns value"@
                            } else {
                                "invalid --max-errors value"@
                            },
                        ),
                        Some(n) => if a == "--max-events"@ {
                            args_spec(args, i + 2, ConfigView { max_events: n, ..cfg })
                        } else if a == "--max-turns"@ {
                            args_spec(args, i + 2, ConfigView { max_turns: n, ..cfg })
                        } else {
                            args_spec(args, i + 2, ConfigView { max_errors: n, ..cfg })
                        },
                    }
                }
            }
        } else {
            Err("unknown argument: "@ + a)
        }
    }
}

pub open spec fn strings_view(v: Seq<String>) -> Seq<Seq<char>> {
    v.map_values(|s: String| s@)
}

/// The value after a flag, or the error that names the flag.
pub fn next_value(args: &Vec<String>, i: usize, flag: &str) -> (r: Result<String, String>)
    ensures
        match r {
            Ok(v) => i < args@.len() && v@ == args@[i as int]@,
            Err(m) => i >= args@.len() && m@ == "missing value for "@ + flag@,
        },
{
    if i < args.len() {
        Ok(owned(args[i].as_str()))
    } else {
        Err(concat("missing value for ", flag))
    }
}

fn parse_count(s: &str) -> (r: Option<usize>)
    ensures
        r == usize_text_value(s@),
{
    match parse_u64(s) {
        Some(v) => if v <= usize::MAX as u64 {
            Some(v as usize)
        } else {
            None
        },
        None => None,
    }
}

/// Reads the arguments (without the program's name).
pub fn parse_args(args: &Vec<String>) -> (r: Result<ParsedArgs, String>)
    ensures
        match (r, args_spec(strings_view(args@), 0, default_config())) {
            (Ok(ParsedArgs::Run(c)), Ok(Some(s))) => c@ == s,
            (Ok(ParsedArgs::Help), Ok(None)) => true,
            (Err(m), Err(t)) => m@ == t,
            _ => false,
        },
{
    let ghost sa = strings_view(args@);
    let mut cfg = SubscribeConfig {
        events_url: String::new(),
        bin_addr: String::new(),
        follow_turns: false,
        use_tls: false,
        client_tag: String::new(),
        max_events: 0,
        max_turns: 0,
        max_errors: 0,
    };
    let mut i: usize = 0;
    assert(cfg@ == default_config());
    while i < args.len()
        invariant
            i <= args@.len(),
            sa == strings_view(args@),
            sa.len() == args@.len(),
            args_spec(sa, i as int, cfg@) == args_spec(sa, 0, default_config()),
        decreases args@.len() - i,
    {
        let a = args[i].as_str();
        assert(sa[i as int] == a@);
        proof {
            reveal_strlit("-h");
            reveal_strlit("--help");
            reveal_strlit("--follow-turns");
            reveal_strlit("--tls");
            reveal_strlit("--cxdb-events-url");
            reveal_strlit("--cxdb-bin-addr");
            reveal_strlit("--client-tag");
            reveal_strlit("--max-events");
            reveal_strlit("--max-turns");
            reveal_strlit("--max-errors");
        }
        if str_eq(a, "-h") || str_eq(a, "--help") {
            return Ok(ParsedArgs::Help);
        } else if str_eq(a, "--follow-turns") {
            cfg.follow_turns = true;
            i = i + 1;
        } else if str_eq(a, "--tls") {
            cfg.use_tls = true;
            i = i + 1;
        } else if str_eq(a, "--cxdb-events-url") || str_eq(a, "--cxdb-bin-addr") || str_eq(a, "--client-tag")
            || str_eq(a, "--max-events") || str_eq(a, "--max-turns") || str_eq(a, "--max-errors") {
            let v = match next_value(args, i + 1, a) {
                Ok(v) => v,
                Err(m) => {
                    return Err(m);
                },
            };
            assert(sa[i + 1] == v@);
            if str_eq(a, "--cxdb-events-url") {
                cfg.events_url = v;
            } else if str_eq(a, "--cxdb-bin-addr") {
                cfg.bin_addr = v;
            } else if str_eq(a, "--client-tag") {
                cfg.client_tag = v;
            } else {
                let n = match parse_count(v.as_str()) {
                    Some(n) => n,
                    None => {
                        if str_eq(a, "--max-events") {
                            return Err(owned("invalid --max-events value"));
                        } else if str_eq(a, "--max-turns") {
                            return Err(owned("invalid --max-turns value"));
                        } else {
                            return Err(owned("invalid --max-errors value"));
                        }
                    },
                };
                if str_eq(a, "--max-events") {
                    cfg.max_events = n;
                } else if str_eq(a, "--max-turns") {
                    cfg.max_turns = n;
                } else {
                    cfg.max_errors = n;
                }
            }
            i = i + 2;
        } else {
            return Err(concat("unknown argument: ", a));
        }
    }
    Ok(ParsedArgs::Run(cfg))
}

/// The error for settings the program cannot run with: no events URL, or
/// following turns without a binary address.
pub open spec fn config_error(c: ConfigView) -> Option<Seq<char>> {
    if c.events_url.len() == 0 {
        Some("--cxdb-events-url is required"@)
    } else if c.follow_turns && c.bin_addr.len() == 0 {
        Some("--cxdb-bin-addr is required when --follow-turns is set"@)
    } else {
        None
    }
}

/// Checks that the settings can run.
pub fn check_config(c: &SubscribeConfig) -> (r: Option<String>)
    ensures
        match (r, config_error(c@)) {
            (Some(m), Some(t)) => m@ == t,
            (None, None) => true,
            _ => false,
        },
{
    if c.events_url.as_str().is_empty() {
        Some(owned("--cxdb-events-url is required"))
    } else if c.follow_turns && c.bin_addr.as_str().is_empty() {
        Some(owned("--cxdb-bin-addr is required when --follow-turns is set"))
    } else {
        None
    }
}

// ---------------------------------------------------------------------------
// The loop
// ---------------------------------------------------------------------------

/// Whether the limits are reached: enough errors, or (where counts of
/// events or turns are limited) enough of each limited count.
pub open spec fn done_spec(events: usize, turns: usize, errors: usize, max_events: usize, max_turns: usize, max_errors: usize) -> bool {
    if max_errors > 0 && errors >= max_errors {
        true
    } else if max_events > 0 || max_turns > 0 {
        (max_events == 0 || events >= max_events) && (max_turns == 0 || turns >= max_turns)
    } else {
        false
    }
}

/// Whether to cancel the run: the limits are reached.
pub fn stop_if_done(
    event_count: usize,
    turn_count: usize,
    error_count: usize,
    max_events: usize,
    max_turns: usize,
    max_errors: usize,
) -> (stop: bool)
    ensures
        stop == done_spec(event_count, turn_count, error_count, max_events, max_turns, max_errors),
{
    if max_errors > 0 && error_count >= max_errors {
        return true;
    }
    let stop_on_events = max_events > 0;
    let stop_on_turns = max_turns > 0;
    if stop_on_events || stop_on_turns {
        let events_ok = !stop_on_events || event_count >= max_events;
        let turns_ok = !stop_on_turns || turn_count >= max_turns;
        events_ok && turns_ok
    } else {
        false
    }
}

/// What one poll of a stream found.
#[derive(Debug, Clone, Copy, PartialEq, Eq, Structural)]
pub enum Poll {
    /// An item arrived (and was printed).
    Item,
    /// The stream is closed.
    Closed,
    /// Nothing is waiting.
    Empty,
}

/// The state of the subscriber's loop.
#[derive(Debug, Clone, Copy, PartialEq, Eq, Structural)]
pub struct ConsumeState {
    pub events_open: bool,
    pub errs_open: bool,
    pub turn_errs_open: bool,
    pub turns_open: bool,
    pub event_count: usize,
    pub turn_count: usize,
    pub error_count: usize,
}

/// What the loop does after a round.
#[derive(Debug, Clone, Copy, PartialEq, Eq, Structural)]
pub enum RoundAction {
    /// Poll again at once.
    Continue,
    /// Nothing arrived: wait a moment, then poll again.
    Sleep,
    /// Cancel the run and return the error count.
    Cancel,
}

/// The count after a poll: one more when an item arrived.
pub open spec fn bumped(n: usize, p: Poll) -> int {
    if p == Poll::Item { n + 1 } else { n as int }
}

impl ConsumeState {
    /// Every stream open, nothing counted; turn streams only when turns are
    /// followed.
    pub fn new(follow_turns: bool) -> (s: ConsumeState)
        ensures
            s == (ConsumeState {
                events_open: true,
                errs_open: true,
                turn_errs_open: follow_turns,
                turns_open: follow_turns,
                event_count: 0,
                turn_count: 0,
                error_count: 0,
            }),
    {
        ConsumeState {
            events_open: true,
            errs_open: true,
            turn_errs_open: follow_turns,
            turns_open: follow_turns,
            event_count: 0,
            turn_count: 0,
            error_count: 0,
        }
    }

    /// Whether every stream is closed: the loop ends.
    pub fn finished(&self) -> (r: bool)
        ensures
            r == (!self.events_open && !self.errs_open && !self.turn_errs_open && !self.turns_open),
    {
        !self.events_open && !self.errs_open && !self.turn_errs_open && !self.turns_open
    }

    /// Takes in one round of polls (of the open streams; a closed stream's
    /// poll is ignored) and decides what follows: cancel once the limits are
    /// reached, else poll again, after a pause when nothing happened.
    pub fn round(&mut self, events: Poll, errs: Poll, turn_errs: Poll, turns: Poll, max_events: usize, max_turns: usize, max_errors: usize) -> (a: RoundAction)
        requires
            old(self).event_count < usize::MAX,
            old(self).turn_count < usize::MAX,
            old(self).error_count < usize::MAX - 1,
        ensures
            ({
                let o = *old(self);
                let ev = if o.events_open { events } else { Poll::Empty };
                let er = if o.errs_open { errs } else { Poll::Empty };
                let te = if o.turn_errs_open { turn_errs } else { Poll::Empty };
                let tu = if o.turns_open { turns } else { Poll::Empty };
                let n = *final(self);
                &&& n.events_open == (o.events_open && ev != Poll::Closed)
                &&& n.errs_open == (o.errs_open && er != Poll::Closed)
                &&& n.turn_errs_open == (o.turn_errs_open && te != Poll::Closed)
                &&& n.turns_open == (o.turns_open && tu != Poll::Closed)
                &&& n.event_count == bumped(o.event_count, ev)
                &&& n.turn_count == bumped(o.turn_count, tu)
                &&& n.error_count == o.error_count + (if er == Poll::Item { 1int } else { 0int }) + (if te
                    == Poll::Item { 1int } else { 0int })
                &&& a == if done_spec(n.event_count, n.turn_count, n.error_count, max_events, max_turns, max_errors) {
                    RoundAction::Cancel
                } else if ev == Poll::Empty && er == Poll::Empty && te == Poll::Empty && tu == Poll::Empty {
                    RoundAction::Sleep
                } else {
                    RoundAction::Continue
                }
            }),
    {
        let ev = if self.events_open { events } else { Poll::Empty };
        let er = if self.errs_open { errs } else { Poll::Empty };
        let te = if self.turn_errs_open { turn_errs } else { Poll::Empty };
        let tu = if self.turns_open { turns } else { Poll::Empty };
        if ev == Poll::Item {
            self.event_count = self.event_count + 1;
        } else if ev == Poll::Closed {
            self.events_open = false;
        }
        if er == Poll::Item {
            self.error_count = self.error_count + 1;
        } else if er == Poll::Closed {
            self.errs_open = false;
        }
        if te == Poll::Item {
            self.error_count = self.error_count + 1;
        } else if te == Poll::Closed {
            self.turn_errs_open = false;
        }
        if tu == Poll::Item {
            self.turn_count = self.turn_count + 1;
        } else if tu == Poll::Closed {
            self.turns_open = false;
        }
        if stop_if_done(self.event_count, self.turn_count, self.error_count, max_events, max_turns, max_errors) {
            RoundAction::Cancel
        } else if ev == Poll::Empty && er == Poll::Empty && te == Poll::Empty && tu == Poll::Empty {
            RoundAction::Sleep
        } else {
            RoundAction::Continue
        }
    }
}

// ---------------------------------------------------------------------------
// Output lines
// ---------------------------------------------------------------------------

/// JSON text of a value as `serde_json` writes it: strings quoted as it
/// quotes them, numbers as parsed, members in the object's order.
pub open spec fn json_text_spec(v: SpecJson) -> Seq<char>
    decreases v,
{
    match v {
        SpecJson::Null => "null"@,
        SpecJson::Bool(b) => if b { "true"@ } else { "false"@ },
        SpecJson::UInt(u) => if u >= 0 { decimal(u as nat) } else { Seq::empty() },
        SpecJson::NegInt(i) => if i < 0 { "-"@ + decimal((-i) as nat) } else { decimal(i as nat) },
        SpecJson::Float(t) => t,
        SpecJson::Str(s) => json_quoted(s),
        SpecJson::Array(items) => "["@ + items_text(items) + "]"@,
        SpecJson::Object(members) => "{"@ + json_members_text(members) + "}"@,
    }
}

pub open spec fn items_text(items: Seq<SpecJson>) -> Seq<char>
    decreases items,
{
    if items.len() == 0 {
        Seq::empty()
    } else {
        items_text(items.drop_last()) + (if items.len() > 1 { ","@ } else { Seq::empty() }) + json_text_spec(
            items.last(),
        )
    }
}

pub open spec fn json_members_text(members: Seq<(Seq<char>, SpecJson)>) -> Seq<char>
    decreases members,
{
    if members.len() == 0 {
        Seq::empty()
    } else {
        json_members_text(members.drop_last()) + (if members.len() > 1 { ","@ } else { Seq::empty() })
            + json_quoted(members.last().0) + ":"@ + json_text_spec(members.last().1)
    }
}

/// The JSON line printed for an event: its data (re-written from the JSON
/// it holds), `kind` `event` and its type.
pub open spec fn event_line_spec(event_type: Seq<char>, data: SpecJson) -> Seq<char> {
    object_text(
        seq![
            ("data"@, json_text_spec(data)),
            ("kind"@, json_quoted("event"@)),
            ("type"@, json_quoted(event_type)),
        ],
    )
}

/// Writes the JSON text of a value.
pub fn json_text(v: &JsonValue, out: &mut Vec<char>)
    ensures
        final(out)@ == old(out)@ + json_text_spec(v@),
    decreases v,
{
    match v {
        JsonValue::Null => push_str(out, "null"),
        JsonValue::Bool(b) => {
            if *b {
                push_str(out, "true")
            } else {
                push_str(out, "false")
            }
        },
        JsonValue::UInt(u) => {
            push_decimal(out, *u);
        },
        JsonValue::NegInt(i) => {
            if *i < 0 {
                out.push('-');
                let m: u64 = if *i == i64::MIN { 0x8000_0000_0000_0000u64 } else { (-*i) as u64 };
                push_decimal(out, m);
                proof {
                    reveal_strlit("-");
                    assert(old(out)@ + "-"@ + decimal(m as nat) =~= old(out)@ + ("-"@ + decimal(m as nat)));
                }
            } else {
                push_decimal(out, *i as u64);
            }
        },
        JsonValue::Float(t) => push_str(out, t.as_str()),
        JsonValue::Str(s) => {
            let q = json_quote_text(s.as_str());
            push_str(out, q.as_str());
        },
        JsonValue::Array(items) => {
            out.push('[');
            let ghost start = old(out)@;
            let mut i: usize = 0;
            proof {
                reveal_strlit("[");
                assert(v@ matches SpecJson::Array(s) && s.len() == items@.len());
            }
            while i < items.len()
                invariant
                    *v == JsonValue::Array(*items),
                    i <= items@.len(),
                    v@ matches SpecJson::Array(s) && s.len() == items@.len() && out@ == start + "["@ + items_text(s.take(i as int)),
                decreases items@.len() - i,
            {
                let ghost s = v@->Array_0;
                if i > 0 {
                    out.push(',');
                }
                proof {
                    assert(decreases_to!(*v => items@[i as int]));
                }
                json_text(&items[i], out);
                proof {
                    assert(s[i as int] == items@[i as int]@);
                    assert(s.take(i + 1).drop_last() =~= s.take(i as int));
                    reveal_strlit(",");
                    assert(out@ =~= start + "["@ + items_text(s.take(i + 1)));
                }
                i = i + 1;
            }
            out.push(']');
            proof {
                let s = v@->Array_0;
                assert(s.take(s.len() as int) =~= s);
                reveal_strlit("]");
                assert(out@ =~= start + json_text_spec(v@));
            }
        },
        JsonValue::Object(keys, values) => {
            out.push('{');
            let ghost start = old(out)@;
            let n = if keys.len() <= values.len() { keys.len() } else { values.len() };
            let mut i: usize = 0;
            proof {
                reveal_strlit("{");
            }
            while i < n
                invariant
                    *v == JsonValue::Object(*keys, *values),
                    i <= n,
                    n <= keys@.len(),
                    n <= values@.len(),
                    v@ matches SpecJson::Object(s) && s.len() == n && out@ == start + "{"@ + json_members_text(s.take(i as int)),
                decreases n - i,
            {
                let ghost s = v@->Object_0;
                if i > 0 {
                    out.push(',');
                }
                let q = json_quote_text(keys[i].as_str());
                push_str(out, q.as_str());
                out.push(':');
                proof {
                    assert(decreases_to!(*v => values@[i as int]));
                }
                json_text(&values[i], out);
                proof {
                    assert(s[i as int] == (keys@[i as int]@, values@[i as int]@));
                    assert(s.take(i + 1).drop_last() =~= s.take(i as int));
                    reveal_strlit(",");
                    reveal_strlit(":");
                    assert(out@ =~= start + "{"@ + json_members_text(s.take(i + 1)));
                }
                i = i + 1;
            }
            out.push('}');
            proof {
                let s = v@->Object_0;
                assert(s.take(s.len() as int) =~= s);
                reveal_strlit("}");
                assert(out@ =~= start + json_text_spec(v@));
            }
        },
    }
}

fn json_quote_text(s: &str) -> (r: String)
    ensures
        r@ == json_quoted(s@),
{
    json_quote(s)
}

/// The JSON line for an event whose data is this JSON value.
pub fn event_line(event_type: &str, data: &JsonValue) -> (r: String)
    ensures
        r@ == event_line_spec(event_type@, data@),
{
    let mut d: Vec<char> = Vec::new();
    json_text(data, &mut d);
    let mut fields: Vec<(String, String)> = Vec::new();
    fields.push((owned("data"), string_from_chars(d.as_slice())));
    fields.push((owned("kind"), json_quote_text("event")));
    fields.push((owned("type"), json_quote_text(event_type)));
    assert(fields_view(fields@) =~= seq![
        ("data"@, json_text_spec(data@)),
        ("kind"@, json_quoted("event"@)),
        ("type"@, json_quoted(event_type@)),
    ]);
    object_json(&fields)
}

/// Why a turn's payload cannot be decoded as a conversation item: only
/// MessagePack without compression is read.
pub open spec fn decode_problem(encoding: u32, compression: u32) -> Option<Seq<char>> {
    if encoding != ENCODING_MSGPACK {
        Some("unsupported encoding"@)
    } else if compression != COMPRESSION_NONE {
        Some("unsupported compression"@)
    } else {
        None
    }
}

/// Checks that a turn's payload can be decoded.
pub fn turn_decode_problem(encoding: u32, compression: u32) -> (r: Option<&'static str>)
    ensures
        match (r, decode_problem(encoding, compression)) {
            (Some(m), Some(t)) => m@ == t,
            (None, None) => true,
            _ => false,
        },
{
    if encoding != ENCODING_MSGPACK {
        Some("unsupported encoding")
    } else if compression != COMPRESSION_NONE {
        Some("unsupported compression")
    } else {
        None
    }
}

/// An optional member.
pub open spec fn opt_field(key: Seq<char>, v: Option<Seq<char>>) -> Seq<(Seq<char>, Seq<char>)> {
    match v {
        Some(x) => seq![(key, x)],
        None => Seq::empty(),
    }
}

/// The JSON line printed for a followed turn, members sorted by name:
/// context, declared type (when the turn has one), the decoding error or the
/// item's JSON, depth, `kind` `turn`, and the turn's id.
pub open spec fn turn_line_spec(
    context_id: u64,
    turn_id: u64,
    depth: u32,
    type_id: Seq<char>,
    type_version: u32,
    decode_error: Option<Seq<char>>,
    item_json: Option<Seq<char>>,
) -> Seq<char> {
    object_text(
        seq![("context_id"@, decimal(context_id as nat))] + opt_field(
            "declared_type_id"@,
            if type_id.len() > 0 { Some(json_quoted(type_id)) } else { None },
        ) + opt_field(
            "declared_type_version"@,
            if type_version != 0 { Some(decimal(type_version as nat)) } else { None },
        ) + opt_field(
            "decode_error"@,
            match decode_error {
                Some(e) => Some(json_quoted(e)),
                None => None,
            },
        ) + seq![("depth"@, decimal(depth as nat))] + opt_field("item"@, item_json) + seq![
            ("kind"@, json_quoted("turn"@)),
            ("turn_id"@, decimal(turn_id as nat)),
        ],
    )
}

fn decimal_text(n: u64) -> (r: String)
    ensures
        r@ == decimal(n as nat),
{
    let mut out: Vec<char> = Vec::new();
    push_decimal(&mut out, n);
    assert(out@ =~= decimal(n as nat));
    string_from_chars(out.as_slice())
}

fn push_field(fields: &mut Vec<(String, String)>, key: &str, value: String)
    ensures
        fields_view(final(fields)@) == fields_view(old(fields)@).push((key@, value@)),
{
    fields.push((owned(key), value));
    assert(fields_view(fields@) =~= fields_view(old(fields)@).push((key@, value@)));
}

/// The JSON line for a followed turn, given the error met decoding its
/// payload or the JSON of the item decoded.
pub fn turn_line(context_id: u64, turn: &TurnRecord, decode_error: Option<&str>, item_json: Option<&str>) -> (r: String)
    ensures
        r@ == turn_line_spec(
            context_id,
            turn.turn_id,
            turn.depth,
            turn.type_id@,
            turn.type_version,
            match decode_error {
                Some(e) => Some(e@),
                None => None,
            },
            match item_json {
                Some(j) => Some(j@),
                None => None,
            },
        ),
{
    let mut f: Vec<(String, String)> = Vec::new();
    let ghost e0 = fields_view(f@);
    assert(e0 =~= Seq::empty());
    push_field(&mut f, "context_id", decimal_text(context_id));
    let ghost s1 = fields_view(f@);
    if !turn.type_id.as_str().is_empty() {
        push_field(&mut f, "declared_type_id", json_quote_text(turn.type_id.as_str()));
    }
    let ghost s2 = fields_view(f@);
    if turn.type_version != 0 {
        push_field(&mut f, "declared_type_version", decimal_text(turn.type_version as u64));
    }
    let ghost s3 = fields_view(f@);
    match decode_error {
        Some(e) => push_field(&mut f, "decode_error", json_quote_text(e)),
        None => {},
    }
    let ghost s4 = fields_view(f@);
    push_field(&mut f, "depth", decimal_text(turn.depth as u64));
    match item_json {
        Some(j) => push_field(&mut f, "item", owned(j)),
        None => {},
    }
    let ghost s5 = fields_view(f@);
    push_field(&mut f, "kind", json_quote_text("turn"));
    push_field(&mut f, "turn_id", decimal_text(turn.turn_id));
    proof {
        let target = seq![("context_id"@, decimal(context_id as nat))] + opt_field(
            "declared_type_id"@,
            if turn.type_id@.len() > 0 { Some(json_quoted(turn.type_id@)) } else { None },
        ) + opt_field(
            "declared_type_version"@,
            if turn.type_version != 0 { Some(decimal(turn.type_version as nat)) } else { None },
        ) + opt_field(
            "decode_error"@,
            match decode_error {
                Some(e) => Some(json_quoted(e@)),
                None => None,
            },
        ) + seq![("depth"@, decimal(turn.depth as nat))] + opt_field(
            "item"@,
            match item_json {
                Some(j) => Some(j@),
                None => None,
            },
        ) + seq![("kind"@, json_quoted("turn"@)), ("turn_id"@, decimal(turn.turn_id as nat))];
        assert(fields_view(f@) =~= target);
    }
    object_json(&f)
}

/// The loop cancels as soon as the error limit is reached, whatever the
/// other counts.
pub proof fn law_error_limit_stops(events: usize, turns: usize, errors: usize, max_events: usize, max_turns: usize, max_errors: usize)
    requires
        max_errors > 0,
        errors >= max_errors,
    ensures
        done_spec(events, turns, errors, max_events, max_turns, max_errors),
{
}

/// Without limits the loop never cancels on its own.
pub proof fn law_no_limits_never_stop(events: usize, turns: usize, errors: usize)
    ensures
        !done_spec(events, turns, errors, 0, 0, 0),
{
}

} // verus!
