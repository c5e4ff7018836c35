//! Constructors and builders of conversation items.
//!
//! Each constructor makes an item of one type, stamped with the current
//! time, with only that type's payload set.  A builder holds such an item;
//! each of its `with_` methods sets what it names and leaves the rest, and
//! `build` hands the item out.
use vstd::prelude::*;
use crate::client::types::conversation::{
    Assistant, AssistantTurn, ConversationItem, ContextMetadata, HandoffInfo, ItemStatusComplete,
    ItemStatusPending, ItemTypeAssistant, ItemTypeAssistantTurn, ItemTypeHandoff, ItemTypeSystem,
    ItemTypeToolCall, ItemTypeToolResult, ItemTypeUserInput, Now, SystemKindError, SystemKindInfo,
    SystemKindWarning, SystemMessage, ToolCall, ToolCallError, ToolCallItem, ToolCallResult,
    ToolCallStatusComplete, ToolCallStatusError, ToolCallStatusPending, ToolResult, TurnMetrics,
    UserInput,
};
use crate::client::types::provenance::Provenance;
use crate::text::owned;

verus! {

/// Which payload an item carries: 0 user input, 1 assistant turn,
/// 2 system message, 3 hand-off, 4 assistant message, 5 tool call,
/// 6 tool result.
pub open spec fn carries_only(i: ConversationItem, which: int) -> bool {
    &&& (i.user_input is Some <==> which == 0)
    &&& (i.turn is Some <==> which == 1)
    &&& (i.system is Some <==> which == 2)
    &&& (i.handoff is Some <==> which == 3)
    &&& (i.assistant is Some <==> which == 4)
    &&& (i.tool_call is Some <==> which == 5)
    &&& (i.tool_result is Some <==> which == 6)
}

/// A fresh item of this type and status: no id, no context metadata.
pub open spec fn fresh_item(i: ConversationItem, item_type: Seq<char>, status: Seq<char>, which: int) -> bool {
    &&& i.item_type@ == item_type
    &&& i.status@ == status
    &&& i.id@.len() == 0
    &&& i.context_metadata is None
    &&& carries_only(i, which)
}

fn blank_item(item_type: &str, status: &str) -> (i: ConversationItem)
    ensures
        i.item_type@ == item_type@,
        i.status@ == status@,
        i.id@.len() == 0,
        i.context_metadata is None,
        carries_only(i, -1),
{
    ConversationItem {
        item_type: owned(item_type),
        status: owned(status),
        timestamp: Now(),
        id: String::new(),
        user_input: None,
        turn: None,
        system: None,
        handoff: None,
        assistant: None,
        tool_call: None,
        tool_result: None,
        context_metadata: None,
    }
}

/// Empty context metadata.
pub fn empty_context_metadata() -> (m: ContextMetadata)
    ensures
        m.client_tag@.len() == 0,
        m.title@.len() == 0,
        m.labels@.len() == 0,
        m.custom@.len() == 0,
        m.provenance is None,
{
    ContextMetadata {
        client_tag: String::new(),
        title: String::new(),
        labels: Vec::new(),
        custom: Vec::new(),
        provenance: None,
    }
}

impl ConversationItem {
    /// Sets the item's context metadata.
    pub fn with_context_metadata(&mut self, meta: ContextMetadata) -> (r: &mut Self)
        ensures
            *final(self) == *final(r),
            *r == (ConversationItem { context_metadata: Some(meta), ..*old(self) }),
    {
        self.context_metadata = Some(meta);
        self
    }

    /// Sets the client tag of the item's context metadata, creating empty
    /// metadata first where there is none.
    pub fn with_client_tag(&mut self, tag: &str) -> (r: &mut Self)
        ensures
            *final(self) == *final(r),
            *r == (ConversationItem { context_metadata: r.context_metadata, ..*old(self) }),
            r.context_metadata matches Some(m) && m.client_tag@ == tag@ && match old(self).context_metadata {
                Some(m0) => m == (ContextMetadata { client_tag: m.client_tag, ..m0 }),
                None => m.title@.len() == 0 && m.labels@.len() == 0 && m.custom@.len() == 0
                    && m.provenance is None,
            },
    {
        let meta = match self.context_metadata.take() {
            Some(mut m) => {
                m.client_tag = owned(tag);
                m
            },
            None => {
                let mut m = empty_context_metadata();
                m.client_tag = owned(tag);
                m
            },
        };
        self.context_metadata = Some(meta);
        self
    }
}

/// A user's input with the files attached.
pub fn new_user_input(text: &str, files: Vec<String>) -> (i: ConversationItem)
    ensures
        fresh_item(i, ItemTypeUserInput@, ItemStatusComplete@, 0),
        i.user_input matches Some(u) && u.text@ == text@ && u.files@ == files@,
{
    let mut i = blank_item(ItemTypeUserInput, ItemStatusComplete);
    i.user_input = Some(UserInput { text: owned(text), files });
    i
}

/// The assistant turn of an item made by [`new_assistant_turn`].
pub open spec fn fresh_turn(t: AssistantTurn, text: Seq<char>) -> bool {
    &&& t.text@ == text
    &&& t.tool_calls@.len() == 0
    &&& t.reasoning@.len() == 0
    &&& t.metrics is None
    &&& t.agent@.len() == 0
    &&& t.turn_number == 0
    &&& t.max_turns == 0
    &&& t.finish_reason@.len() == 0
}

/// An assistant's turn with this text and nothing else.
pub fn new_assistant_turn(text: &str) -> (i: ConversationItem)
    ensures
        fresh_item(i, ItemTypeAssistantTurn@, ItemStatusComplete@, 1),
        i.turn matches Some(t) && fresh_turn(t, text@),
{
    let mut i = blank_item(ItemTypeAssistantTurn, ItemStatusComplete);
    i.turn = Some(
        AssistantTurn {
            text: owned(text),
            tool_calls: Vec::new(),
            reasoning: String::new(),
            metrics: None,
            agent: String::new(),
            turn_number: 0,
            max_turns: 0,
            finish_reason: String::new(),
        },
    );
    i
}

/// `n` is `o` with only its assistant turn changed, and that turn is `t1`
/// where `o` had one (`None` otherwise).
pub open spec fn turn_changed(o: ConversationItem, n: ConversationItem, f: spec_fn(AssistantTurn, AssistantTurn) -> bool) -> bool {
    &&& n == (ConversationItem { turn: n.turn, ..o })
    &&& match o.turn {
        Some(t0) => n.turn matches Some(t1) && f(t0, t1),
        None => n.turn is None,
    }
}

/// Builds an assistant's turn.
pub struct AssistantTurnBuilder {
    item: ConversationItem,
}

/// A builder of an assistant's turn with this text.
pub fn build_assistant_turn(text: &str) -> (b: AssistantTurnBuilder)
    ensures
        fresh_item(b.item(), ItemTypeAssistantTurn@, ItemStatusComplete@, 1),
        b.item().turn matches Some(t) && fresh_turn(t, text@),
{
    AssistantTurnBuilder { item: new_assistant_turn(text) }
}

impl AssistantTurnBuilder {
    /// The item being built.
    pub closed spec fn item(&self) -> ConversationItem {
        self.item
    }

    /// Sets the turn's reasoning.
    pub fn with_reasoning(&mut self, reasoning: &str) -> (r: &mut Self)
        ensures
            *final(self) == *final(r),
            turn_changed(
                old(self).item(),
                r.item(),
                |t0: AssistantTurn, t1: AssistantTurn|
                    t1.reasoning@ == reasoning@ && t1 == (AssistantTurn { reasoning: t1.reasoning, ..t0 }),
            ),
    {
        if let Some(t) = &mut self.item.turn {
            t.reasoning = owned(reasoning);
        }
        self
    }

    /// Sets the agent that took the turn.
    pub fn with_agent(&mut self, agent: &str) -> (r: &mut Self)
        ensures
            *final(self) == *final(r),
            turn_changed(
                old(self).item(),
                r.item(),
                |t0: AssistantTurn, t1: AssistantTurn|
                    t1.agent@ == agent@ && t1 == (AssistantTurn { agent: t1.agent, ..t0 }),
            ),
    {
        if let Some(t) = &mut self.item.turn {
            t.agent = owned(agent);
        }
        self
    }

    /// Sets the turn's number and the most turns allowed.
    pub fn with_turn_number(&mut self, turn: i64, max_turns: i64) -> (r: &mut Self)
        ensures
            *final(self) == *final(r),
            turn_changed(
                old(self).item(),
                r.item(),
                |t0: AssistantTurn, t1: AssistantTurn|
                    t1 == (AssistantTurn { turn_number: turn, max_turns, ..t0 }),
            ),
    {
        if let Some(t) = &mut self.item.turn {
            t.turn_number = turn;
            t.max_turns = max_turns;
        }
        self
    }

    /// Sets why the turn ended.
    pub fn with_finish_reason(&mut self, reason: &str) -> (r: &mut Self)
        ensures
            *final(self) == *final(r),
            turn_changed(
                old(self).item(),
                r.item(),
                |t0: AssistantTurn, t1: AssistantTurn|
                    t1.finish_reason@ == reason@ && t1 == (AssistantTurn { finish_reason: t1.finish_reason, ..t0 }),
            ),
    {
        if let Some(t) = &mut self.item.turn {
            t.finish_reason = owned(reason);
        }
        self
    }

    /// Sets the token counts; the total is their sum.
    pub fn with_metrics(&mut self, input_tokens: i64, output_tokens: i64) -> (r: &mut Self)
        requires
            i64::MIN <= input_tokens + output_tokens <= i64::MAX,
        ensures
            *final(self) == *final(r),
            turn_changed(
                old(self).item(),
                r.item(),
                |t0: AssistantTurn, t1: AssistantTurn|
                    t1 == (AssistantTurn { metrics: t1.metrics, ..t0 }) && (t1.metrics matches Some(m)
                        && m.input_tokens == input_tokens && m.output_tokens == output_tokens
                        && m.total_tokens == input_tokens + output_tokens && m.cached_tokens is None
                        && m.reasoning_tokens is None && m.duration_ms is None && m.model@.len() == 0),
            ),
    {
        if let Some(t) = &mut self.item.turn {
            t.metrics = Some(
                TurnMetrics {
                    input_tokens,
                    output_tokens,
                    total_tokens: input_tokens + output_tokens,
                    cached_tokens: None,
                    reasoning_tokens: None,
                    duration_ms: None,
                    model: String::new(),
                },
            );
        }
        self
    }

    /// Sets all the turn's metrics.
    pub fn with_full_metrics(&mut self, metrics: TurnMetrics) -> (r: &mut Self)
        ensures
            *final(self) == *final(r),
            turn_changed(
                old(self).item(),
                r.item(),
                |t0: AssistantTurn, t1: AssistantTurn| t1 == (AssistantTurn { metrics: Some(metrics), ..t0 }),
            ),
    {
        if let Some(t) = &mut self.item.turn {
            t.metrics = Some(metrics);
        }
        self
    }

    /// Appends a tool call to the turn.
    pub fn with_tool_call(&mut self, tool_call: ToolCallItem) -> (r: &mut Self)
        ensures
            *final(self) == *final(r),
            turn_changed(
                old(self).item(),
                r.item(),
                |t0: AssistantTurn, t1: AssistantTurn|
                    t1.tool_calls@ == t0.tool_calls@.push(tool_call) && t1 == (AssistantTurn {
                        tool_calls: t1.tool_calls,
                        ..t0
                    }),
            ),
    {
        if let Some(t) = &mut self.item.turn {
            t.tool_calls.push(tool_call);
        }
        self
    }

    /// Sets the item's status.
    pub fn with_status(&mut self, status: &str) -> (r: &mut Self)
        ensures
            *final(self) == *final(r),
            r.item().status@ == status@,
            r.item() == (ConversationItem { status: r.item().status, ..old(self).item() }),
    {
        self.item.status = owned(status);
        self
    }

    /// Sets the item's id.
    pub fn with_id(&mut self, id: &str) -> (r: &mut Self)
        ensures
            *final(self) == *final(r),
            r.item().id@ == id@,
            r.item() == (ConversationItem { id: r.item().id, ..old(self).item() }),
    {
        self.item.id = owned(id);
        self
    }

    /// Sets the item's context metadata.
    pub fn with_context_metadata(&mut self, meta: ContextMetadata) -> (r: &mut Self)
        ensures
            *final(self) == *final(r),
            r.item() == (ConversationItem { context_metadata: Some(meta), ..old(self).item() }),
    {
        self.item.context_metadata = Some(meta);
        self
    }

    /// Sets the client tag of the item's context metadata, as
    /// [`ConversationItem::with_client_tag`] does.
    pub fn with_client_tag(&mut self, tag: &str) -> (r: &mut Self)
        ensures
            *final(self) == *final(r),
            r.item() == (ConversationItem { context_metadata: r.item().context_metadata, ..old(self).item() }),
            r.item().context_metadata matches Some(m) && m.client_tag@ == tag@ && match old(self).item().context_metadata {
                Some(m0) => m == (ContextMetadata { client_tag: m.client_tag, ..m0 }),
                None => m.title@.len() == 0 && m.labels@.len() == 0 && m.custom@.len() == 0
                    && m.provenance is None,
            },
    {
        self.item.with_client_tag(tag);
        self
    }

    /// The item built.
    pub fn build(self) -> (i: ConversationItem)
        ensures
            i == self.item(),
    {
        self.item
    }
}

/// A pending tool call with this id, name and arguments.
pub fn new_tool_call_item(id: &str, name: &str, args: &str) -> (t: ToolCallItem)
    ensures
        t.id@ == id@,
        t.name@ == name@,
        t.args@ == args@,
        t.status@ == ToolCallStatusPending@,
        t.description@.len() == 0,
        t.streaming_output@.len() == 0,
        !t.streaming_output_truncated,
        t.result is None,
        t.error is None,
        t.duration_ms == 0,
{
    ToolCallItem {
        id: owned(id),
        name: owned(name),
        args: owned(args),
        status: owned(ToolCallStatusPending),
        description: String::new(),
        streaming_output: String::new(),
        streaming_output_truncated: false,
        result: None,
        error: None,
        duration_ms: 0,
    }
}

/// Builds a tool call within an assistant's turn.
pub struct ToolCallItemBuilder {
    item: ToolCallItem,
}

/// A builder of a pending tool call.
pub fn build_tool_call_item(id: &str, name: &str, args: &str) -> (b: ToolCallItemBuilder)
    ensures
        b.item().id@ == id@,
        b.item().name@ == name@,
        b.item().args@ == args@,
        b.item().status@ == ToolCallStatusPending@,
        b.item().result is None,
        b.item().error is None,
{
    ToolCallItemBuilder { item: new_tool_call_item(id, name, args) }
}

impl ToolCallItemBuilder {
    /// The tool call being built.
    pub closed spec fn item(&self) -> ToolCallItem {
        self.item
    }

    /// Sets the description.
    pub fn with_description(&mut self, desc: &str) -> (r: &mut Self)
        ensures
            *final(self) == *final(r),
            r.item().description@ == desc@,
            r.item() == (ToolCallItem { description: r.item().description, ..old(self).item() }),
    {
        self.item.description = owned(desc);
        self
    }

    /// Sets the status.
    pub fn with_status(&mut self, status: &str) -> (r: &mut Self)
        ensures
            *final(self) == *final(r),
            r.item().status@ == status@,
            r.item() == (ToolCallItem { status: r.item().status, ..old(self).item() }),
    {
        self.item.status = owned(status);
        self
    }

    /// Sets the output streamed so far and whether it was cut.
    pub fn with_streaming_output(&mut self, output: &str, truncated: bool) -> (r: &mut Self)
        ensures
            *final(self) == *final(r),
            r.item().streaming_output@ == output@,
            r.item() == (ToolCallItem {
                streaming_output: r.item().streaming_output,
                streaming_output_truncated: truncated,
                ..old(self).item()
            }),
    {
        self.item.streaming_output = owned(output);
        self.item.streaming_output_truncated = truncated;
        self
    }

    /// Completes the call with a successful result.
    pub fn with_result(&mut self, content: &str, exit_code: Option<i64>) -> (r: &mut Self)
        ensures
            *final(self) == *final(r),
            r.item().status@ == ToolCallStatusComplete@,
            r.item().result matches Some(res) && res.content@ == content@ && !res.content_truncated && res.success
                && res.exit_code == exit_code,
            r.item() == (ToolCallItem { status: r.item().status, result: r.item().result, ..old(self).item() }),
    {
        self.item.status = owned(ToolCallStatusComplete);
        self.item.result = Some(
            ToolCallResult { content: owned(content), content_truncated: false, success: true, exit_code },
        );
        self
    }

    /// Fails the call with an error.
    pub fn with_error(&mut self, message: &str, exit_code: Option<i64>) -> (r: &mut Self)
        ensures
            *final(self) == *final(r),
            r.item().status@ == ToolCallStatusError@,
            r.item().error matches Some(e) && e.code@.len() == 0 && e.message@ == message@ && e.exit_code == exit_code,
            r.item() == (ToolCallItem { status: r.item().status, error: r.item().error, ..old(self).item() }),
    {
        self.item.status = owned(ToolCallStatusError);
        self.item.error = Some(ToolCallError { code: String::new(), message: owned(message), exit_code });
        self
    }

    /// Sets how long the call took.
    pub fn with_duration(&mut self, duration_ms: i64) -> (r: &mut Self)
        ensures
            *final(self) == *final(r),
            r.item() == (ToolCallItem { duration_ms, ..old(self).item() }),
    {
        self.item.duration_ms = duration_ms;
        self
    }

    /// The tool call built.
    pub fn build(self) -> (t: ToolCallItem)
        ensures
            t == self.item(),
    {
        self.item
    }
}

/// A hand-off from one agent to another.
pub fn new_handoff(from_agent: &str, to_agent: &str) -> (i: ConversationItem)
    ensures
        fresh_item(i, ItemTypeHandoff@, ItemStatusComplete@, 3),
        i.handoff matches Some(h) && h.from_agent@ == from_agent@ && h.to_agent@ == to_agent@
            && h.tool_name@.len() == 0 && h.input@.len() == 0 && h.reason@.len() == 0,
{
    let mut i = blank_item(ItemTypeHandoff, ItemStatusComplete);
    i.handoff = Some(
        HandoffInfo {
            from_agent: owned(from_agent),
            to_agent: owned(to_agent),
            tool_name: String::new(),
            input: String::new(),
            reason: String::new(),
        },
    );
    i
}

/// `n` is `o` with only its hand-off changed as `f` says (and none where
/// `o` had none).
pub open spec fn handoff_changed(o: ConversationItem, n: ConversationItem, f: spec_fn(HandoffInfo, HandoffInfo) -> bool) -> bool {
    &&& n == (ConversationItem { handoff: n.handoff, ..o })
    &&& match o.handoff {
        Some(h0) => n.handoff matches Some(h1) && f(h0, h1),
        None => n.handoff is None,
    }
}

/// Builds a hand-off.
pub struct HandoffBuilder {
    item: ConversationItem,
}

/// A builder of a hand-off.
pub fn build_handoff(from_agent: &str, to_agent: &str) -> (b: HandoffBuilder)
    ensures
        fresh_item(b.item(), ItemTypeHandoff@, ItemStatusComplete@, 3),
        b.item().handoff matches Some(h) && h.from_agent@ == from_agent@ && h.to_agent@ == to_agent@,
{
    HandoffBuilder { item: new_handoff(from_agent, to_agent) }
}

impl HandoffBuilder {
    /// The item being built.
    pub closed spec fn item(&self) -> ConversationItem {
        self.item
    }

    /// Sets the tool that handed off.
    pub fn with_tool_name(&mut self, tool_name: &str) -> (r: &mut Self)
        ensures
            *final(self) == *final(r),
            handoff_changed(
                old(self).item(),
                r.item(),
                |h0: HandoffInfo, h1: HandoffInfo|
                    h1.tool_name@ == tool_name@ && h1 == (HandoffInfo { tool_name: h1.tool_name, ..h0 }),
            ),
    {
        if let Some(h) = &mut self.item.handoff {
            h.tool_name = owned(tool_name);
        }
        self
    }

    /// Sets the input handed over.
    pub fn with_input(&mut self, input: &str) -> (r: &mut Self)
        ensures
            *final(self) == *final(r),
            handoff_changed(
                old(self).item(),
                r.item(),
                |h0: HandoffInfo, h1: HandoffInfo|
                    h1.input@ == input@ && h1 == (HandoffInfo { input: h1.input, ..h0 }),
            ),
    {
        if let Some(h) = &mut self.item.handoff {
            h.input = owned(input);
        }
        self
    }

    /// Sets why control was handed over.
    pub fn with_reason(&mut self, reason: &str) -> (r: &mut Self)
        ensures
            *final(self) == *final(r),
            handoff_changed(
                old(self).item(),
                r.item(),
                |h0: HandoffInfo, h1: HandoffInfo|
                    h1.reason@ == reason@ && h1 == (HandoffInfo { reason: h1.reason, ..h0 }),
            ),
    {
        if let Some(h) = &mut self.item.handoff {
            h.reason = owned(reason);
        }
        self
    }

    /// Sets the item's id.
    pub fn with_id(&mut self, id: &str) -> (r: &mut Self)
        ensures
            *final(self) == *final(r),
            r.item().id@ == id@,
            r.item() == (ConversationItem { id: r.item().id, ..old(self).item() }),
    {
        self.item.id = owned(id);
        self
    }

    /// The item built.
    pub fn build(self) -> (i: ConversationItem)
        ensures
            i == self.item(),
    {
        self.item
    }
}

fn new_system_message(kind: &str, content: &str) -> (i: ConversationItem)
    ensures
        fresh_item(i, ItemTypeSystem@, ItemStatusComplete@, 2),
        i.system matches Some(s) && s.kind@ == kind@ && s.title@.len() == 0 && s.content@ == content@,
{
    let mut i = blank_item(ItemTypeSystem, ItemStatusComplete);
    i.system = Some(SystemMessage { kind: owned(kind), title: String::new(), content: owned(content) });
    i
}

/// A system message of kind `info`.
pub fn new_system_info(content: &str) -> (i: ConversationItem)
    ensures
        fresh_item(i, ItemTypeSystem@, ItemStatusComplete@, 2),
        i.system matches Some(s) && s.kind@ == SystemKindInfo@ && s.title@.len() == 0 && s.content@ == content@,
{
    new_system_message(SystemKindInfo, content)
}

/// A system message of kind `warning`.
pub fn new_system_warning(content: &str) -> (i: ConversationItem)
    ensures
        fresh_item(i, ItemTypeSystem@, ItemStatusComplete@, 2),
        i.system matches Some(s) && s.kind@ == SystemKindWarning@ && s.title@.len() == 0 && s.content@ == content@,
{
    new_system_message(SystemKindWarning, content)
}

/// A system message of kind `error`.
pub fn new_system_error(content: &str) -> (i: ConversationItem)
    ensures
        fresh_item(i, ItemTypeSystem@, ItemStatusComplete@, 2),
        i.system matches Some(s) && s.kind@ == SystemKindError@ && s.title@.len() == 0 && s.content@ == content@,
{
    new_system_message(SystemKindError, content)
}

/// Builds a system message.
pub struct SystemBuilder {
    item: ConversationItem,
}

/// A builder of a system message of this kind.
pub fn build_system(kind: &str, content: &str) -> (b: SystemBuilder)
    ensures
        fresh_item(b.item(), ItemTypeSystem@, ItemStatusComplete@, 2),
        b.item().system matches Some(s) && s.kind@ == kind@ && s.title@.len() == 0 && s.content@ == content@,
{
    SystemBuilder { item: new_system_message(kind, content) }
}

impl SystemBuilder {
    /// The item being built.
    pub closed spec fn item(&self) -> ConversationItem {
        self.item
    }

    /// Sets the message's title.
    pub fn with_title(&mut self, title: &str) -> (r: &mut Self)
        ensures
            *final(self) == *final(r),
            r.item() == (ConversationItem { system: r.item().system, ..old(self).item() }),
            match old(self).item().system {
                Some(s0) => r.item().system matches Some(s1) && s1.title@ == title@ && s1 == (SystemMessage {
                    title: s1.title,
                    ..s0
                }),
                None => r.item().system is None,
            },
    {
        if let Some(s) = &mut self.item.system {
            s.title = owned(title);
        }
        self
    }

    /// Sets the item's id.
    pub fn with_id(&mut self, id: &str) -> (r: &mut Self)
        ensures
            *final(self) == *final(r),
            r.item().id@ == id@,
            r.item() == (ConversationItem { id: r.item().id, ..old(self).item() }),
    {
        self.item.id = owned(id);
        self
    }

    /// The item built.
    pub fn build(self) -> (i: ConversationItem)
        ensures
            i == self.item(),
    {
        self.item
    }
}

/// An assistant's message with this text.
pub fn new_assistant(text: &str) -> (i: ConversationItem)
    ensures
        fresh_item(i, ItemTypeAssistant@, ItemStatusComplete@, 4),
        i.assistant matches Some(a) && a.text@ == text@ && a.reasoning@.len() == 0 && a.model@.len() == 0
            && a.input_tokens == 0 && a.output_tokens == 0 && a.stop_reason@.len() == 0,
{
    let mut i = blank_item(ItemTypeAssistant, ItemStatusComplete);
    i.assistant = Some(
        Assistant {
            text: owned(text),
            reasoning: String::new(),
            model: String::new(),
            input_tokens: 0,
            output_tokens: 0,
            stop_reason: String::new(),
        },
    );
    i
}

/// `n` is `o` with only its assistant message changed as `f` says (and
/// none where `o` had none).
pub open spec fn assistant_changed(o: ConversationItem, n: ConversationItem, f: spec_fn(Assistant, Assistant) -> bool) -> bool {
    &&& n == (ConversationItem { assistant: n.assistant, ..o })
    &&& match o.assistant {
        Some(a0) => n.assistant matches Some(a1) && f(a0, a1),
        None => n.assistant is None,
    }
}

/// Builds an assistant's message.
pub struct AssistantBuilder {
    item: ConversationItem,
}

/// A builder of an assistant's message.
pub fn build_assistant(text: &str) -> (b: AssistantBuilder)
    ensures
        fresh_item(b.item(), ItemTypeAssistant@, ItemStatusComplete@, 4),
        b.item().assistant matches Some(a) && a.text@ == text@,
{
    AssistantBuilder { item: new_assistant(text) }
}

impl AssistantBuilder {
    /// The item being built.
    pub closed spec fn item(&self) -> ConversationItem {
        self.item
    }

    /// Sets the reasoning.
    pub fn with_reasoning(&mut self, reasoning: &str) -> (r: &mut Self)
        ensures
            *final(self) == *final(r),
            assistant_changed(
                old(self).item(),
                r.item(),
                |a0: Assistant, a1: Assistant|
                    a1.reasoning@ == reasoning@ && a1 == (Assistant { reasoning: a1.reasoning, ..a0 }),
            ),
    {
        if let Some(a) = &mut self.item.assistant {
            a.reasoning = owned(reasoning);
        }
        self
    }

    /// Sets the model.
    pub fn with_model(&mut self, model: &str) -> (r: &mut Self)
        ensures
            *final(self) == *final(r),
            assistant_changed(
                old(self).item(),
                r.item(),
                |a0: Assistant, a1: Assistant| a1.model@ == model@ && a1 == (Assistant { model: a1.model, ..a0 }),
            ),
    {
        if let Some(a) = &mut self.item.assistant {
            a.model = owned(model);
        }
        self
    }

    /// Sets the token counts.
    pub fn with_tokens(&mut self, input: i64, output: i64) -> (r: &mut Self)
        ensures
            *final(self) == *final(r),
            assistant_changed(
                old(self).item(),
                r.item(),
                |a0: Assistant, a1: Assistant|
                    a1 == (Assistant { input_tokens: input, output_tokens: output, ..a0 }),
            ),
    {
        if let Some(a) = &mut self.item.assistant {
            a.input_tokens = input;
            a.output_tokens = output;
        }
        self
    }

    /// Sets why generation stopped.
    pub fn with_stop_reason(&mut self, reason: &str) -> (r: &mut Self)
        ensures
            *final(self) == *final(r),
            assistant_changed(
                old(self).item(),
                r.item(),
                |a0: Assistant, a1: Assistant|
                    a1.stop_reason@ == reason@ && a1 == (Assistant { stop_reason: a1.stop_reason, ..a0 }),
            ),
    {
        if let Some(a) = &mut self.item.assistant {
            a.stop_reason = owned(reason);
        }
        self
    }

    /// Sets the item's status.
    pub fn with_status(&mut self, status: &str) -> (r: &mut Self)
        ensures
            *final(self) == *final(r),
            r.item().status@ == status@,
            r.item() == (ConversationItem { status: r.item().status, ..old(self).item() }),
    {
        self.item.status = owned(status);
        self
    }

    /// The item built.
    pub fn build(self) -> (i: ConversationItem)
        ensures
            i == self.item(),
    {
        self.item
    }
}

/// A pending tool call as an item of its own.
pub fn new_tool_call(call_id: &str, name: &str, args: &str) -> (i: ConversationItem)
    ensures
        fresh_item(i, ItemTypeToolCall@, ItemStatusPending@, 5),
        i.tool_call matches Some(t) && t.call_id@ == call_id@ && t.name@ == name@ && t.args@ == args@
            && t.description@.len() == 0,
{
    let mut i = blank_item(ItemTypeToolCall, ItemStatusPending);
    i.tool_call = Some(
        ToolCall { call_id: owned(call_id), name: owned(name), args: owned(args), description: String::new() },
    );
    i
}

/// Builds a tool call item.
pub struct ToolCallBuilder {
    item: ConversationItem,
}

/// A builder of a pending tool call item.
pub fn build_tool_call(call_id: &str, name: &str, args: &str) -> (b: ToolCallBuilder)
    ensures
        fresh_item(b.item(), ItemTypeToolCall@, ItemStatusPending@, 5),
        b.item().tool_call matches Some(t) && t.call_id@ == call_id@ && t.name@ == name@ && t.args@ == args@,
{
    ToolCallBuilder { item: new_tool_call(call_id, name, args) }
}

impl ToolCallBuilder {
    /// The item being built.
    pub closed spec fn item(&self) -> ConversationItem {
        self.item
    }

    /// Sets the call's description.
    pub fn with_description(&mut self, desc: &str) -> (r: &mut Self)
        ensures
            *final(self) == *final(r),
            r.item() == (ConversationItem { tool_call: r.item().tool_call, ..old(self).item() }),
            match old(self).item().tool_call {
                Some(t0) => r.item().tool_call matches Some(t1) && t1.description@ == desc@ && t1 == (ToolCall {
                    description: t1.description,
                    ..t0
                }),
                None => r.item().tool_call is None,
            },
    {
        if let Some(t) = &mut self.item.tool_call {
            t.description = owned(desc);
        }
        self
    }

    /// Sets the item's status.
    pub fn with_status(&mut self, status: &str) -> (r: &mut Self)
        ensures
            *final(self) == *final(r),
            r.item().status@ == status@,
            r.item() == (ConversationItem { status: r.item().status, ..old(self).item() }),
    {
        self.item.status = owned(status);
        self
    }

    /// The item built.
    pub fn build(self) -> (i: ConversationItem)
        ensures
            i == self.item(),
    {
        self.item
    }
}

/// A tool's result as an item of its own.
pub fn new_tool_result(call_id: &str, content: &str, is_error: bool) -> (i: ConversationItem)
    ensures
        fresh_item(i, ItemTypeToolResult@, ItemStatusComplete@, 6),
        i.tool_result matches Some(t) && t.call_id@ == call_id@ && t.content@ == content@ && t.is_error
            == is_error && t.exit_code is None && t.streaming_output@.len() == 0 && !t.output_truncated
            && t.duration_ms == 0,
{
    let mut i = blank_item(ItemTypeToolResult, ItemStatusComplete);
    i.tool_result = Some(
        ToolResult {
            call_id: owned(call_id),
            content: owned(content),
            is_error,
            exit_code: None,
            streaming_output: String::new(),
            output_truncated: false,
            duration_ms: 0,
        },
    );
    i
}

/// `n` is `o` with only its tool result changed as `f` says (and none
/// where `o` had none).
pub open spec fn result_changed(o: ConversationItem, n: ConversationItem, f: spec_fn(ToolResult, ToolResult) -> bool) -> bool {
    &&& n == (ConversationItem { tool_result: n.tool_result, ..o })
    &&& match o.tool_result {
        Some(t0) => n.tool_result matches Some(t1) && f(t0, t1),
        None => n.tool_result is None,
    }
}

/// Builds a tool result item.
pub struct ToolResultBuilder {
    item: ConversationItem,
}

/// A builder of a successful tool result.
pub fn build_tool_result(call_id: &str, content: &str) -> (b: ToolResultBuilder)
    ensures
        fresh_item(b.item(), ItemTypeToolResult@, ItemStatusComplete@, 6),
        b.item().tool_result matches Some(t) && t.call_id@ == call_id@ && t.content@ == content@ && !t.is_error,
{
    ToolResultBuilder { item: new_tool_result(call_id, content, false) }
}

impl ToolResultBuilder {
    /// The item being built.
    pub closed spec fn item(&self) -> ConversationItem {
        self.item
    }

    /// Marks the result as an error.
    pub fn with_error(&mut self) -> (r: &mut Self)
        ensures
            *final(self) == *final(r),
            result_changed(old(self).item(), r.item(), |t0: ToolResult, t1: ToolResult| t1 == (ToolResult { is_error: true, ..t0 })),
    {
        if let Some(t) = &mut self.item.tool_result {
            t.is_error = true;
        }
        self
    }

    /// Sets the exit code.
    pub fn with_exit_code(&mut self, code: i64) -> (r: &mut Self)
        ensures
            *final(self) == *final(r),
            result_changed(
                old(self).item(),
                r.item(),
                |t0: ToolResult, t1: ToolResult| t1 == (ToolResult { exit_code: Some(code), ..t0 }),
            ),
    {
        if let Some(t) = &mut self.item.tool_result {
            t.exit_code = Some(code);
        }
        self
    }

    /// Sets the output streamed.
    pub fn with_streaming_output(&mut self, output: &str) -> (r: &mut Self)
        ensures
            *final(self) == *final(r),
            result_changed(
                old(self).item(),
                r.item(),
                |t0: ToolResult, t1: ToolResult|
                    t1.streaming_output@ == output@ && t1 == (ToolResult { streaming_output: t1.streaming_output, ..t0 }),
            ),
    {
        if let Some(t) = &mut self.item.tool_result {
            t.streaming_output = owned(output);
        }
        self
    }

    /// Marks the output as cut.
    pub fn with_truncated(&mut self) -> (r: &mut Self)
        ensures
            *final(self) == *final(r),
            result_changed(
                old(self).item(),
                r.item(),
                |t0: ToolResult, t1: ToolResult| t1 == (ToolResult { output_truncated: true, ..t0 }),
            ),
    {
        if let Some(t) = &mut self.item.tool_result {
            t.output_truncated = true;
        }
        self
    }

    /// Sets how long the tool ran.
    pub fn with_duration(&mut self, duration_ms: i64) -> (r: &mut Self)
        ensures
            *final(self) == *final(r),
            result_changed(
                old(self).item(),
                r.item(),
                |t0: ToolResult, t1: ToolResult| t1 == (ToolResult { duration_ms, ..t0 }),
            ),
    {
        if let Some(t) = &mut self.item.tool_result {
            t.duration_ms = duration_ms;
        }
        self
    }

    /// The item built.
    pub fn build(self) -> (i: ConversationItem)
        ensures
            i == self.item(),
    {
        self.item
    }
}

/// Attaches a provenance to context metadata.
pub fn attach_provenance(meta: &mut ContextMetadata, provenance: Provenance)
    ensures
        *final(meta) == (ContextMetadata { provenance: Some(provenance), ..*old(meta) }),
{
    meta.provenance = Some(provenance);
}

} // verus!
