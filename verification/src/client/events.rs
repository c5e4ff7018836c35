//! Decoders for the JSON payloads of the store's events.
//!
//! Each payload is a JSON object (or an array, read field by field) whose
//! fields all have defaults.  Identifiers may come as numbers or as decimal
//! strings; `null` reads as zero.  [`context_created_from`] and its siblings
//! state what each decoder gives for a parsed document.
use vstd::prelude::*;
use crate::client::json::{
    JsonValue, SpecJson, bool_field, check_struct_shape, decode_bool, decode_opt_sse_u32,
    decode_opt_string, decode_sse_i64, decode_sse_u32, decode_sse_u64, decode_string,
    decode_strings, field_value, get_field, json_syntax_error, opt_sse_u32_field,
    opt_string_field, parse_json, parsed_json, sse_i64_field, sse_u32_field, sse_u64_field,
    string_field, strings_field, strings_view, struct_shape_error,
};

verus! {

/// A payload that could not be decoded: the text of the error.
#[derive(Debug, Clone, PartialEq, Eq)]
pub struct DecodeError {
    pub message: String,
}

impl DecodeError {
    /// The text of the error.
    pub fn to_display_string(&self) -> (r: String)
        ensures
            r@ == self.message@,
    {
        self.message.clone()
    }
}

/// The shape error of a document, when it is neither an object nor an array.
pub open spec fn not_a_struct(doc: SpecJson) -> bool {
    !(doc is Object || doc is Array)
}

// ---------------------------------------------------------------------------
// context_created
// ---------------------------------------------------------------------------

#[derive(Debug, Clone, PartialEq, Eq)]
pub struct ContextCreatedEvent {
    pub context_id: u64,
    pub session_id: String,
    pub client_tag: String,
    pub created_at: i64,
}

pub struct SpecContextCreated {
    pub context_id: u64,
    pub session_id: Seq<char>,
    pub client_tag: Seq<char>,
    pub created_at: i64,
}

impl View for ContextCreatedEvent {
    type V = SpecContextCreated;

    open spec fn view(&self) -> SpecContextCreated {
        SpecContextCreated {
            context_id: self.context_id,
            session_id: self.session_id@,
            client_tag: self.client_tag@,
            created_at: self.created_at,
        }
    }
}

/// What a `context_created` payload decodes to.
pub open spec fn context_created_from(doc: SpecJson) -> Result<SpecContextCreated, Seq<char>> {
    let shape = struct_shape_error(doc, "ContextCreatedPayload"@, 4);
    if not_a_struct(doc) {
        Err(shape->0)
    } else {
        match sse_u64_field(field_value(doc, "context_id"@, 0)) {
            Err(e) => Err(e),
            Ok(context_id) => match string_field(field_value(doc, "session_id"@, 1)) {
                Err(e) => Err(e),
                Ok(session_id) => match string_field(field_value(doc, "client_tag"@, 2)) {
                    Err(e) => Err(e),
                    Ok(client_tag) => match sse_i64_field(field_value(doc, "created_at"@, 3)) {
                        Err(e) => Err(e),
                        Ok(created_at) => match shape {
                            Some(e) => Err(e),
                            None => Ok(SpecContextCreated { context_id, session_id, client_tag, created_at }),
                        },
                    },
                },
            },
        }
    }
}

/// What a decoder gives for some bytes: the syntax error when `serde_json`
/// rejects them, else what `from_doc` gives for the document.
pub open spec fn decoded<T>(data: Seq<u8>, from_doc: spec_fn(SpecJson) -> Result<T, Seq<char>>) -> Result<T, Seq<char>> {
    match parsed_json(data) {
        None => Err(json_syntax_error(data)),
        Some(doc) => from_doc(doc),
    }
}

pub open spec fn result_view<E: View>(r: Result<E, DecodeError>) -> Result<E::V, Seq<char>> {
    match r {
        Ok(e) => Ok(e@),
        Err(d) => Err(d.message@),
    }
}

fn fail<T>(message: String) -> (r: Result<T, DecodeError>)
    ensures
        r matches Err(d) && d.message@ == message@,
{
    Err(DecodeError { message })
}

/// Decodes a `context_created` payload.
pub fn decode_context_created(data: &[u8]) -> (r: Result<ContextCreatedEvent, DecodeError>)
    ensures
        result_view(r) == decoded(data@, |doc: SpecJson| context_created_from(doc)),
{
    let doc = match parse_json(data) {
        Ok(doc) => doc,
        Err(e) => {
            return fail(e);
        },
    };
    let shape = check_struct_shape(&doc, "ContextCreatedPayload", 4);
    let is_struct = match &doc {
        JsonValue::Object(..) | JsonValue::Array(_) => true,
        _ => false,
    };
    if !is_struct {
        return fail(shape.unwrap());
    }
    let context_id = match decode_sse_u64(get_field(&doc, "context_id", 0)) {
        Ok(v) => v,
        Err(e) => {
            return fail(e);
        },
    };
    let session_id = match decode_string(get_field(&doc, "session_id", 1)) {
        Ok(v) => v,
        Err(e) => {
            return fail(e);
        },
    };
    let client_tag = match decode_string(get_field(&doc, "client_tag", 2)) {
        Ok(v) => v,
        Err(e) => {
            return fail(e);
        },
    };
    let created_at = match decode_sse_i64(get_field(&doc, "created_at", 3)) {
        Ok(v) => v,
        Err(e) => {
            return fail(e);
        },
    };
    if let Some(e) = shape {
        return fail(e);
    }
    Ok(ContextCreatedEvent { context_id, session_id, client_tag, created_at })
}

// ---------------------------------------------------------------------------
// context_metadata_updated
// ---------------------------------------------------------------------------

#[derive(Debug, Clone, PartialEq, Eq)]
pub struct ContextMetadataUpdatedEvent {
    pub context_id: u64,
    pub has_provenance: bool,
    pub client_tag: String,
    pub title: String,
    pub labels: Vec<String>,
}

pub struct SpecContextMetadataUpdated {
    pub context_id: u64,
    pub has_provenance: bool,
    pub client_tag: Seq<char>,
    pub title: Seq<char>,
    pub labels: Seq<Seq<char>>,
}

impl View for ContextMetadataUpdatedEvent {
    type V = SpecContextMetadataUpdated;

    open spec fn view(&self) -> SpecContextMetadataUpdated {
        SpecContextMetadataUpdated {
            context_id: self.context_id,
            has_provenance: self.has_provenance,
            client_tag: self.client_tag@,
            title: self.title@,
            labels: strings_view(self.labels@),
        }
    }
}

/// What a `context_metadata_updated` payload decodes to.
pub open spec fn context_metadata_updated_from(doc: SpecJson) -> Result<SpecContextMetadataUpdated, Seq<char>> {
    let shape = struct_shape_error(doc, "ContextMetadataUpdatedPayload"@, 5);
    if not_a_struct(doc) {
        Err(shape->0)
    } else {
        match sse_u64_field(field_value(doc, "context_id"@, 0)) {
            Err(e) => Err(e),
            Ok(context_id) => match bool_field(field_value(doc, "has_provenance"@, 1)) {
                Err(e) => Err(e),
                Ok(has_provenance) => match string_field(field_value(doc, "client_tag"@, 2)) {
                    Err(e) => Err(e),
                    Ok(client_tag) => match string_field(field_value(doc, "title"@, 3)) {
                        Err(e) => Err(e),
                        Ok(title) => match strings_field(field_value(doc, "labels"@, 4)) {
                            Err(e) => Err(e),
                            Ok(labels) => match shape {
                                Some(e) => Err(e),
                                None => Ok(SpecContextMetadataUpdated { context_id, has_provenance, client_tag, title, labels }),
                            },
                        },
                    },
                },
            },
        }
    }
}

/// Decodes a `context_metadata_updated` payload.
pub fn decode_context_metadata_updated(data: &[u8]) -> (r: Result<ContextMetadataUpdatedEvent, DecodeError>)
    ensures
        result_view(r) == decoded(data@, |doc: SpecJson| context_metadata_updated_from(doc)),
{
    let doc = match parse_json(data) {
        Ok(doc) => doc,
        Err(e) => {
            return fail(e);
        },
    };
    let shape = check_struct_shape(&doc, "ContextMetadataUpdatedPayload", 5);
    let is_struct = match &doc {
        JsonValue::Object(..) | JsonValue::Array(_) => true,
        _ => false,
    };
    if !is_struct {
        return fail(shape.unwrap());
    }
    let context_id = match decode_sse_u64(get_field(&doc, "context_id", 0)) {
        Ok(v) => v,
        Err(e) => {
            return fail(e);
        },
    };
    let has_provenance = match decode_bool(get_field(&doc, "has_provenance", 1)) {
        Ok(v) => v,
        Err(e) => {
            return fail(e);
        },
    };
    let client_tag = match decode_string(get_field(&doc, "client_tag", 2)) {
        Ok(v) => v,
        Err(e) => {
            return fail(e);
        },
    };
    let title = match decode_string(get_field(&doc, "title", 3)) {
        Ok(v) => v,
        Err(e) => {
            return fail(e);
        },
    };
    let labels = match decode_strings(get_field(&doc, "labels", 4)) {
        Ok(v) => v,
        Err(e) => {
            return fail(e);
        },
    };
    if let Some(e) = shape {
        return fail(e);
    }
    Ok(ContextMetadataUpdatedEvent { context_id, has_provenance, client_tag, title, labels })
}

// ---------------------------------------------------------------------------
// turn_appended
// ---------------------------------------------------------------------------

#[derive(Debug, Clone, PartialEq, Eq)]
pub struct TurnAppendedEvent {
    pub context_id: u64,
    pub turn_id: u64,
    pub parent_turn_id: u64,
    pub depth: u32,
    pub declared_type_id: String,
    pub declared_type_version: u32,
    pub has_declared_type_id: bool,
    pub has_declared_type_ver: bool,
}

pub struct SpecTurnAppended {
    pub context_id: u64,
    pub turn_id: u64,
    pub parent_turn_id: u64,
    pub depth: u32,
    pub declared_type_id: Seq<char>,
    pub declared_type_version: u32,
    pub has_declared_type_id: bool,
    pub has_declared_type_ver: bool,
}

impl View for TurnAppendedEvent {
    type V = SpecTurnAppended;

    open spec fn view(&self) -> SpecTurnAppended {
        SpecTurnAppended {
            context_id: self.context_id,
            turn_id: self.turn_id,
            parent_turn_id: self.parent_turn_id,
            depth: self.depth,
            declared_type_id: self.declared_type_id@,
            declared_type_version: self.declared_type_version,
            has_declared_type_id: self.has_declared_type_id,
            has_declared_type_ver: self.has_declared_type_ver,
        }
    }
}

/// The event of a decoded `turn_appended` payload: a missing type id is
/// empty, and each `has_` flag says whether its field was given (the id
/// counts as given when it is not empty).
pub open spec fn turn_appended_event(
    context_id: u64,
    turn_id: u64,
    parent_turn_id: u64,
    depth: u32,
    type_id: Option<Seq<char>>,
    type_version: Option<u32>,
) -> SpecTurnAppended {
    let declared_type_id = match type_id {
        Some(t) => t,
        None => seq![],
    };
    SpecTurnAppended {
        context_id,
        turn_id,
        parent_turn_id,
        depth,
        declared_type_id,
        declared_type_version: match type_version {
            Some(v) => v,
            None => 0,
        },
        has_declared_type_id: declared_type_id.len() > 0,
        has_declared_type_ver: type_version is Some,
    }
}

/// What a `turn_appended` payload decodes to.
pub open spec fn turn_appended_from(doc: SpecJson) -> Result<SpecTurnAppended, Seq<char>> {
    let shape = struct_shape_error(doc, "TurnAppendedPayload"@, 6);
    if not_a_struct(doc) {
        Err(shape->0)
    } else {
        match sse_u64_field(field_value(doc, "context_id"@, 0)) {
            Err(e) => Err(e),
            Ok(context_id) => match sse_u64_field(field_value(doc, "turn_id"@, 1)) {
                Err(e) => Err(e),
                Ok(turn_id) => match sse_u64_field(field_value(doc, "parent_turn_id"@, 2)) {
                    Err(e) => Err(e),
                    Ok(parent_turn_id) => match sse_u32_field(field_value(doc, "depth"@, 3)) {
                        Err(e) => Err(e),
                        Ok(depth) => match opt_string_field(field_value(doc, "declared_type_id"@, 4)) {
                            Err(e) => Err(e),
                            Ok(type_id) => match opt_sse_u32_field(field_value(doc, "declared_type_version"@, 5)) {
                                Err(e) => Err(e),
                                Ok(type_version) => match shape {
                                    Some(e) => Err(e),
                                    None => Ok(turn_appended_event(context_id, turn_id, parent_turn_id, depth, type_id, type_version)),
                                },
                            },
                        },
                    },
                },
            },
        }
    }
}

/// Decodes a `turn_appended` payload.
pub fn decode_turn_appended(data: &[u8]) -> (r: Result<TurnAppendedEvent, DecodeError>)
    ensures
        result_view(r) == decoded(data@, |doc: SpecJson| turn_appended_from(doc)),
{
    let doc = match parse_json(data) {
        Ok(doc) => doc,
        Err(e) => {
            return fail(e);
        },
    };
    let shape = check_struct_shape(&doc, "TurnAppendedPayload", 6);
    let is_struct = match &doc {
        JsonValue::Object(..) | JsonValue::Array(_) => true,
        _ => false,
    };
    if !is_struct {
        return fail(shape.unwrap());
    }
    let context_id = match decode_sse_u64(get_field(&doc, "context_id", 0)) {
        Ok(v) => v,
        Err(e) => {
            return fail(e);
        },
    };
    let turn_id = match decode_sse_u64(get_field(&doc, "turn_id", 1)) {
        Ok(v) => v,
        Err(e) => {
            return fail(e);
        },
    };
    let parent_turn_id = match decode_sse_u64(get_field(&doc, "parent_turn_id", 2)) {
        Ok(v) => v,
        Err(e) => {
            return fail(e);
        },
    };
    let depth = match decode_sse_u32(get_field(&doc, "depth", 3)) {
        Ok(v) => v,
        Err(e) => {
            return fail(e);
        },
    };
    let type_id = match decode_opt_string(get_field(&doc, "declared_type_id", 4)) {
        Ok(v) => v,
        Err(e) => {
            return fail(e);
        },
    };
    let type_version = match decode_opt_sse_u32(get_field(&doc, "declared_type_version", 5)) {
        Ok(v) => v,
        Err(e) => {
            return fail(e);
        },
    };
    if let Some(e) = shape {
        return fail(e);
    }
    let declared_type_id = match type_id {
        Some(t) => t,
        None => String::new(),
    };
    let has_declared_type_id = !declared_type_id.as_str().is_empty();
    let (declared_type_version, has_declared_type_ver) = match type_version {
        Some(v) => (v, true),
        None => (0, false),
    };
    Ok(TurnAppendedEvent {
        context_id,
        turn_id,
        parent_turn_id,
        depth,
        declared_type_id,
        declared_type_version,
        has_declared_type_id,
        has_declared_type_ver,
    })
}

// ---------------------------------------------------------------------------
// client_connected / client_disconnected
// ---------------------------------------------------------------------------

#[derive(Debug, Clone, PartialEq, Eq)]
pub struct ClientConnectedEvent {
    pub session_id: String,
    pub client_tag: String,
}

pub struct SpecClientConnected {
    pub session_id: Seq<char>,
    pub client_tag: Seq<char>,
}

impl View for ClientConnectedEvent {
    type V = SpecClientConnected;

    open spec fn view(&self) -> SpecClientConnected {
        SpecClientConnected { session_id: self.session_id@, client_tag: self.client_tag@ }
    }
}

/// What a `client_connected` payload decodes to.
pub open spec fn client_connected_from(doc: SpecJson) -> Result<SpecClientConnected, Seq<char>> {
    let shape = struct_shape_error(doc, "ClientConnectedPayload"@, 2);
    if not_a_struct(doc) {
        Err(shape->0)
    } else {
        match string_field(field_value(doc, "session_id"@, 0)) {
            Err(e) => Err(e),
            Ok(session_id) => match string_field(field_value(doc, "client_tag"@, 1)) {
                Err(e) => Err(e),
                Ok(client_tag) => match shape {
                    Some(e) => Err(e),
                    None => Ok(SpecClientConnected { session_id, client_tag }),
                },
            },
        }
    }
}

/// Decodes a `client_connected` payload.
pub fn decode_client_connected(data: &[u8]) -> (r: Result<ClientConnectedEvent, DecodeError>)
    ensures
        result_view(r) == decoded(data@, |doc: SpecJson| client_connected_from(doc)),
{
    let doc = match parse_json(data) {
        Ok(doc) => doc,
        Err(e) => {
            return fail(e);
        },
    };
    let shape = check_struct_shape(&doc, "ClientConnectedPayload", 2);
    let is_struct = match &doc {
        JsonValue::Object(..) | JsonValue::Array(_) => true,
        _ => false,
    };
    if !is_struct {
        return fail(shape.unwrap());
    }
    let session_id = match decode_string(get_field(&doc, "session_id", 0)) {
        Ok(v) => v,
        Err(e) => {
            return fail(e);
        },
    };
    let client_tag = match decode_string(get_field(&doc, "client_tag", 1)) {
        Ok(v) => v,
        Err(e) => {
            return fail(e);
        },
    };
    if let Some(e) = shape {
        return fail(e);
    }
    Ok(ClientConnectedEvent { session_id, client_tag })
}

#[derive(Debug, Clone, PartialEq, Eq)]
pub struct ClientDisconnectedEvent {
    pub session_id: String,
    pub client_tag: String,
    pub contexts: Vec<String>,
}

pub struct SpecClientDisconnected {
    pub session_id: Seq<char>,
    pub client_tag: Seq<char>,
    pub contexts: Seq<Seq<char>>,
}

impl View for ClientDisconnectedEvent {
    type V = SpecClientDisconnected;

    open spec fn view(&self) -> SpecClientDisconnected {
        SpecClientDisconnected {
            session_id: self.session_id@,
            client_tag: self.client_tag@,
            contexts: strings_view(self.contexts@),
        }
    }
}

/// What a `client_disconnected` payload decodes to.
pub open spec fn client_disconnected_from(doc: SpecJson) -> Result<SpecClientDisconnected, Seq<char>> {
    let shape = struct_shape_error(doc, "ClientDisconnectedPayload"@, 3);
    if not_a_struct(doc) {
        Err(shape->0)
    } else {
        match string_field(field_value(doc, "session_id"@, 0)) {
            Err(e) => Err(e),
            Ok(session_id) => match string_field(field_value(doc, "client_tag"@, 1)) {
                Err(e) => Err(e),
                Ok(client_tag) => match strings_field(field_value(doc, "contexts"@, 2)) {
                    Err(e) => Err(e),
                    Ok(contexts) => match shape {
                        Some(e) => Err(e),
                        None => Ok(SpecClientDisconnected { session_id, client_tag, contexts }),
                    },
                },
            },
        }
    }
}

/// Decodes a `client_disconnected` payload.
pub fn decode_client_disconnected(data: &[u8]) -> (r: Result<ClientDisconnectedEvent, DecodeError>)
    ensures
        result_view(r) == decoded(data@, |doc: SpecJson| client_disconnected_from(doc)),
{
    let doc = match parse_json(data) {
        Ok(doc) => doc,
        Err(e) => {
            return fail(e);
        },
    };
    let shape = check_struct_shape(&doc, "ClientDisconnectedPayload", 3);
    let is_struct = match &doc {
        JsonValue::Object(..) | JsonValue::Array(_) => true,
        _ => false,
    };
    if !is_struct {
        return fail(shape.unwrap());
    }
    let session_id = match decode_string(get_field(&doc, "session_id", 0)) {
        Ok(v) => v,
        Err(e) => {
            return fail(e);
        },
    };
    let client_tag = match decode_string(get_field(&doc, "client_tag", 1)) {
        Ok(v) => v,
        Err(e) => {
            return fail(e);
        },
    };
    let contexts = match decode_strings(get_field(&doc, "contexts", 2)) {
        Ok(v) => v,
        Err(e) => {
            return fail(e);
        },
    };
    if let Some(e) = shape {
        return fail(e);
    }
    Ok(ClientDisconnectedEvent { session_id, client_tag, contexts })
}

} // verus!
