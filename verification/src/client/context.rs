//! Contexts on the wire, from the client's side: CTX_CREATE, CTX_FORK and
//! GET_HEAD requests and their common response.
use vstd::prelude::*;
use crate::client::error::{Error, SpecError};
use crate::client::protocol::result_view;
use crate::server::wire::{le_bytes, le_value, lemma_le_value_bound, lemma_pow256_values, push_le, read_le};
use crate::text::{chars_of, decimal, push_decimal, push_str, string_from_chars};

verus! {

/// The head of a context.
#[derive(Debug, Clone, PartialEq, Eq)]
pub struct ContextHead {
    pub context_id: u64,
    pub head_turn_id: u64,
    pub head_depth: u32,
}

impl View for ContextHead {
    type V = ContextHead;

    open spec fn view(&self) -> ContextHead {
        *self
    }
}

/// The payload of CTX_CREATE, CTX_FORK (a base turn id) and GET_HEAD (a
/// context id): the id in eight bytes.
pub fn id_payload(id: u64) -> (r: Vec<u8>)
    ensures
        r@ == le_bytes(id as nat, 8),
{
    let mut payload: Vec<u8> = Vec::new();
    push_le(&mut payload, id, 8);
    assert(payload@ =~= le_bytes(id as nat, 8));
    payload
}

/// The response: context id (8 bytes), head turn id (8), head depth (4);
/// shorter than 20 bytes is an invalid response.
pub open spec fn context_head_spec(p: Seq<u8>) -> Result<ContextHead, SpecError> {
    if p.len() < 20 {
        Err(SpecError::InvalidResponse("context head too short"@ + " ("@ + decimal(p.len()) + " bytes)"@))
    } else {
        Ok(
            ContextHead {
                context_id: le_value(p.subrange(0, 8)) as u64,
                head_turn_id: le_value(p.subrange(8, 16)) as u64,
                head_depth: le_value(p.subrange(16, 20)) as u32,
            },
        )
    }
}

/// Reads the response, as [`context_head_spec`] says.
pub fn parse_context_head(payload: &[u8]) -> (r: Result<ContextHead, Error>)
    ensures
        result_view(r) == context_head_spec(payload@),
{
    if payload.len() < 20 {
        let mut msg = chars_of("context head too short");
        push_str(&mut msg, " (");
        push_decimal(&mut msg, payload.len() as u64);
        push_str(&mut msg, " bytes)");
        return Err(Error::invalid_response(string_from_chars(msg.as_slice())));
    }
    proof {
        lemma_pow256_values();
        lemma_le_value_bound(payload@.subrange(16, 20));
    }
    Ok(ContextHead {
        context_id: read_le(payload, 0, 8),
        head_turn_id: read_le(payload, 8, 8),
        head_depth: read_le(payload, 16, 4) as u32,
    })
}

} // verus!
