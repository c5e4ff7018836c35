//! MessagePack values as the server reads them from payloads and tree
//! objects: `rmpv` decodes the bytes, and the library holds the value as a
//! [`MsgValue`] of plain values.
use vstd::prelude::*;
use rmpv::Value as RmpvValue;

verus! {

/// A MessagePack value.  An integer is kept as `UInt` when it fits in a
/// `u64`, else as `NegInt`; a float as the text of the JSON number it is
/// (none when it is not finite); a string as its text (none when its bytes
/// are not UTF-8).
#[derive(Debug)]
pub enum MsgValue {
    Nil,
    Boolean(bool),
    UInt(u64),
    NegInt(i64),
    Float(Option<String>),
    Str(Option<String>),
    Binary(Vec<u8>),
    Array(Vec<MsgValue>),
    /// A map: its keys and its values, in the same order.
    Table(Vec<MsgValue>, Vec<MsgValue>),
    Ext(i8, Vec<u8>),
}

/// The mathematical form of a [`MsgValue`]: a float that is not finite
/// is `NonFinite`, a string that is not UTF-8 is `BadStr`.
pub enum SpecMsg {
    Nil,
    Boolean(bool),
    UInt(int),
    NegInt(int),
    Float(Seq<char>),
    NonFinite,
    Str(Seq<char>),
    BadStr,
    Binary(Seq<u8>),
    Array(Seq<SpecMsg>),
    Table(Seq<(SpecMsg, SpecMsg)>),
    Ext(int, Seq<u8>),
}

impl View for MsgValue {
    type V = SpecMsg;

    open spec fn view(&self) -> SpecMsg
        decreases self,
    {
        match self {
            MsgValue::Nil => SpecMsg::Nil,
            MsgValue::Boolean(b) => SpecMsg::Boolean(*b),
            MsgValue::UInt(u) => SpecMsg::UInt(*u as int),
            MsgValue::NegInt(i) => SpecMsg::NegInt(*i as int),
            MsgValue::Float(t) => match t {
                Some(x) => SpecMsg::Float(x@),
                None => SpecMsg::NonFinite,
            },
            MsgValue::Str(t) => match t {
                Some(x) => SpecMsg::Str(x@),
                None => SpecMsg::BadStr,
            },
            MsgValue::Binary(b) => SpecMsg::Binary(b@),
            MsgValue::Array(items) => SpecMsg::Array(
                Seq::new(
                    items@.len(),
                    |i: int|
                        if 0 <= i < items@.len() {
                            items@[i].view()
                        } else {
                            SpecMsg::Nil
                        },
                ),
            ),
            MsgValue::Table(keys, values) => SpecMsg::Table(
                Seq::new(
                    if keys@.len() <= values@.len() { keys@.len() } else { values@.len() },
                    |i: int|
                        (
                            if 0 <= i < keys@.len() {
                                keys@[i].view()
                            } else {
                                SpecMsg::Nil
                            },
                            if 0 <= i < values@.len() {
                                values@[i].view()
                            } else {
                                SpecMsg::Nil
                            },
                        ),
                ),
            ),
            MsgValue::Ext(t, d) => SpecMsg::Ext(*t as int, d@),
        }
    }
}

/// `rmpv::Value`, which the reader hands over before it is converted.
#[verifier::external_type_specification]
#[verifier::external_body]
pub struct ExRmpvValue(RmpvValue);

/// The first value `rmpv::decode::read_value` reads from these bytes, as a
/// [`SpecMsg`]; `None` when it reports an error.
pub uninterp spec fn msgpack_decoded(data: Seq<u8>) -> Option<SpecMsg>;

/// The text (`Display`) of the error `rmpv::decode::read_value` reports on
/// these bytes.
pub uninterp spec fn msgpack_error(data: Seq<u8>) -> Seq<char>;

/// Calls `rmpv::decode::read_value` on the bytes and hands the value over
/// as a [`MsgValue`] (see [`msg_of_rmpv`]), or the error's text.  The
/// contract only names the results.
#[verifier::external_body]
pub fn read_msgpack(data: &[u8]) -> (r: Result<MsgValue, String>)
    ensures
        match r {
            Ok(v) => msgpack_decoded(data@) == Some(v@),
            Err(m) => msgpack_decoded(data@) is None && m@ == msgpack_error(data@),
        },
{
    let mut reader = data;
    match rmpv::decode::read_value(&mut reader) {
        Ok(v) => Ok(msg_of_rmpv(&v)),
        Err(e) => Err(e.to_string()),
    }
}

/// The conversion [`read_msgpack`] applies to the `rmpv::Value` it read:
/// variant for variant, arrays and maps entry by entry in order, the rest
/// as [`msg_of_scalar`] converts them.  Nothing is stated of it here:
/// [`read_msgpack`] states the result of the reading and the conversion
/// together.
#[verifier::external_body]
fn msg_of_rmpv(v: &RmpvValue) -> MsgValue {
    match v {
        RmpvValue::Array(a) => MsgValue::Array(a.iter().map(msg_of_rmpv).collect()),
        RmpvValue::Map(m) => MsgValue::Table(
            m.iter().map(|e| msg_of_rmpv(&e.0)).collect(),
            m.iter().map(|e| msg_of_rmpv(&e.1)).collect(),
        ),
        _ => msg_of_scalar(v),
    }
}

/// Converts an `rmpv::Value` that is neither an array nor a map: integers
/// by `as_u64`, then `as_i64`; floats (a 32-bit one widened) through
/// `serde_json::Number::from_f64` and its text; strings by `as_str`.  Nothing is stated of it here.
#[verifier::external_body]
fn msg_of_scalar(v: &RmpvValue) -> MsgValue {
    match v {
        RmpvValue::Boolean(b) => MsgValue::Boolean(*b),
        RmpvValue::Integer(i) => i.as_u64().map_or(i.as_i64().map_or(MsgValue::Nil, MsgValue::NegInt), MsgValue::UInt),
        RmpvValue::F32(f) => msg_of_scalar(&RmpvValue::F64((*f).into())),
        RmpvValue::F64(f) => MsgValue::Float(serde_json::Number::from_f64(*f).map(|n| n.to_string())),
        RmpvValue::String(s) => MsgValue::Str(s.as_str().map(String::from)),
        RmpvValue::Binary(b) => MsgValue::Binary(b.clone()),
        RmpvValue::Ext(t, d) => MsgValue::Ext(*t, d.clone()),
        _ => MsgValue::Nil,
    }
}

} // verus!
