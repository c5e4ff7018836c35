//! Conversation items: what a user said, what an assistant answered, tool
//! calls and their results, system messages and hand-offs between agents.
#![allow(non_upper_case_globals)]
use vstd::prelude::*;
use crate::client::types::provenance::Provenance;

verus! {

pub const TypeIDConversationItem: &'static str = "cxdb.ConversationItem";
pub const TypeVersionConversationItem: u32 = 3;
pub const TypeIDConversationItemLegacy: &'static str = "cxdb.v3:ConversationItem";

pub const ItemTypeUserInput: &'static str = "user_input";
pub const ItemTypeAssistantTurn: &'static str = "assistant_turn";
pub const ItemTypeSystem: &'static str = "system";
pub const ItemTypeHandoff: &'static str = "handoff";
pub const ItemTypeAssistant: &'static str = "assistant";
pub const ItemTypeToolCall: &'static str = "tool_call";
pub const ItemTypeToolResult: &'static str = "tool_result";

pub const ItemStatusPending: &'static str = "pending";
pub const ItemStatusStreaming: &'static str = "streaming";
pub const ItemStatusComplete: &'static str = "complete";
pub const ItemStatusError: &'static str = "error";
pub const ItemStatusCancelled: &'static str = "cancelled";

pub const ToolCallStatusPending: &'static str = "pending";
pub const ToolCallStatusExecuting: &'static str = "executing";
pub const ToolCallStatusComplete: &'static str = "complete";
pub const ToolCallStatusError: &'static str = "error";
pub const ToolCallStatusSkipped: &'static str = "skipped";

pub const SystemKindInfo: &'static str = "info";
pub const SystemKindWarning: &'static str = "warning";
pub const SystemKindError: &'static str = "error";
pub const SystemKindGuardrail: &'static str = "guardrail";
pub const SystemKindRateLimit: &'static str = "rate_limit";
pub const SystemKindRewind: &'static str = "rewind";

/// One item of a conversation; exactly the payload its type names is set.
#[derive(Debug, Clone)]
pub struct ConversationItem {
    pub item_type: String,
    pub status: String,
    pub timestamp: i64,
    pub id: String,
    pub user_input: Option<UserInput>,
    pub turn: Option<AssistantTurn>,
    pub system: Option<SystemMessage>,
    pub handoff: Option<HandoffInfo>,
    pub assistant: Option<Assistant>,
    pub tool_call: Option<ToolCall>,
    pub tool_result: Option<ToolResult>,
    pub context_metadata: Option<ContextMetadata>,
}

/// What a user typed, with the files attached.
#[derive(Debug, Clone)]
pub struct UserInput {
    pub text: String,
    pub files: Vec<String>,
}

/// An assistant's turn: its text, the tools it called, and how it ended.
#[derive(Debug, Clone)]
pub struct AssistantTurn {
    pub text: String,
    pub tool_calls: Vec<ToolCallItem>,
    pub reasoning: String,
    pub metrics: Option<TurnMetrics>,
    pub agent: String,
    pub turn_number: i64,
    pub max_turns: i64,
    pub finish_reason: String,
}

/// A tool call made within an assistant's turn.
#[derive(Debug, Clone)]
pub struct ToolCallItem {
    pub id: String,
    pub name: String,
    pub args: String,
    pub status: String,
    pub description: String,
    pub streaming_output: String,
    pub streaming_output_truncated: bool,
    pub result: Option<ToolCallResult>,
    pub error: Option<ToolCallError>,
    pub duration_ms: i64,
}

/// What a successful tool call returned.
#[derive(Debug, Clone)]
pub struct ToolCallResult {
    pub content: String,
    pub content_truncated: bool,
    pub success: bool,
    pub exit_code: Option<i64>,
}

/// How a tool call failed.
#[derive(Debug, Clone)]
pub struct ToolCallError {
    pub code: String,
    pub message: String,
    pub exit_code: Option<i64>,
}

/// Token counts and timing of a turn.
#[derive(Debug, Clone)]
pub struct TurnMetrics {
    pub input_tokens: i64,
    pub output_tokens: i64,
    pub total_tokens: i64,
    pub cached_tokens: Option<i64>,
    pub reasoning_tokens: Option<i64>,
    pub duration_ms: Option<i64>,
    pub model: String,
}

/// A message from the system: information, a warning, an error and so on.
#[derive(Debug, Clone)]
pub struct SystemMessage {
    pub kind: String,
    pub title: String,
    pub content: String,
}

/// Control passing from one agent to another.
#[derive(Debug, Clone)]
pub struct HandoffInfo {
    pub from_agent: String,
    pub to_agent: String,
    pub tool_name: String,
    pub input: String,
    pub reason: String,
}

/// An assistant's message.
#[derive(Debug, Clone)]
pub struct Assistant {
    pub text: String,
    pub reasoning: String,
    pub model: String,
    pub input_tokens: i64,
    pub output_tokens: i64,
    pub stop_reason: String,
}

/// A tool call as an item of its own.
#[derive(Debug, Clone)]
pub struct ToolCall {
    pub call_id: String,
    pub name: String,
    pub args: String,
    pub description: String,
}

/// A tool's result as an item of its own.
#[derive(Debug, Clone)]
pub struct ToolResult {
    pub call_id: String,
    pub content: String,
    pub is_error: bool,
    pub exit_code: Option<i64>,
    pub streaming_output: String,
    pub output_truncated: bool,
    pub duration_ms: i64,
}

/// Metadata of the context an item belongs to, read from its first item.
#[derive(Debug, Clone)]
pub struct ContextMetadata {
    pub client_tag: String,
    pub title: String,
    pub labels: Vec<String>,
    /// Free-form key and value pairs, one per key.
    pub custom: Vec<(String, String)>,
    pub provenance: Option<Provenance>,
}

/// Milliseconds since the Unix epoch as `SystemTime::now` reads them
/// (`Duration::as_millis`), `None` for a clock set before 1970.  Nothing is
/// promised of the value.
#[verifier::external_body]
fn clock_millis() -> (r: Option<u128>) {
    match std::time::SystemTime::now().duration_since(std::time::UNIX_EPOCH) {
        Ok(d) => Some(d.as_millis()),
        Err(_) => None,
    }
}

/// The current time in milliseconds since the Unix epoch, 0 for a clock set
/// before it (or beyond what 63 bits hold).
#[allow(non_snake_case)]
pub fn Now() -> (t: i64)
    ensures
        t >= 0,
{
    match clock_millis() {
        Some(ms) => if ms <= 0x7fff_ffff_ffff_ffffu128 {
            ms as i64
        } else {
            0
        },
        None => 0,
    }
}

} // verus!
