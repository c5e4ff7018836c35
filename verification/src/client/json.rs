//! JSON documents as the event decoders read them.
//!
//! `serde_json` parses the bytes; the library holds the document as a
//! [`JsonValue`] of plain values and decodes fields from it as `serde`'s
//! derived deserializers would, with the same error texts (without the line
//! and column that the streaming parser appends).
use vstd::prelude::*;
use serde_json::Value as JsonDoc;
use crate::text::{
    chars_of, decimal, int_text, push_decimal, push_int, push_str, str_debug, debug_quoted,
    std_parse_i64, std_parse_u64, string_from_chars, trim, trim_ws, u64_parse_error,
    i64_parse_error, u64_text_value, i64_text_value, concat, owned,
};

verus! {

/// A JSON value.  Integers are kept exactly (non-negative ones as `UInt`,
/// negative ones as `NegInt`); other numbers as the text `serde_json` shows.
#[derive(Debug)]
pub enum JsonValue {
    Null,
    Bool(bool),
    UInt(u64),
    NegInt(i64),
    Float(String),
    Str(String),
    Array(Vec<JsonValue>),
    /// An object: member names and their values, in the same order.
    Object(Vec<String>, Vec<JsonValue>),
}

/// The mathematical form of a [`JsonValue`].
pub enum SpecJson {
    Null,
    Bool(bool),
    UInt(int),
    NegInt(int),
    Float(Seq<char>),
    Str(Seq<char>),
    Array(Seq<SpecJson>),
    Object(Seq<(Seq<char>, SpecJson)>),
}

impl View for JsonValue {
    type V = SpecJson;

    open spec fn view(&self) -> SpecJson
        decreases self,
    {
        match self {
            JsonValue::Null => SpecJson::Null,
            JsonValue::Bool(b) => SpecJson::Bool(*b),
            JsonValue::UInt(u) => SpecJson::UInt(*u as int),
            JsonValue::NegInt(i) => SpecJson::NegInt(*i as int),
            JsonValue::Float(t) => SpecJson::Float(t@),
            JsonValue::Str(s) => SpecJson::Str(s@),
            JsonValue::Array(items) => SpecJson::Array(
                Seq::new(
                    items@.len(),
                    |i: int|
                        if 0 <= i < items@.len() {
                            items@[i].view()
                        } else {
                            SpecJson::Null
                        },
                ),
            ),
            JsonValue::Object(keys, values) => SpecJson::Object(
                Seq::new(
                    if keys@.len() <= values@.len() { keys@.len() } else { values@.len() },
                    |i: int|
                        (
                            keys@[i]@,
                            if 0 <= i < values@.len() {
                                values@[i].view()
                            } else {
                                SpecJson::Null
                            },
                        ),
                ),
            ),
        }
    }
}

/// The document `serde_json` reads from these bytes as a `serde_json::Value`;
/// `None` when it rejects them.
pub uninterp spec fn parsed_json(data: Seq<u8>) -> Option<SpecJson>;

/// The text (`Display`) of the error `serde_json` reports when it rejects these
/// bytes.
pub uninterp spec fn json_syntax_error(data: Seq<u8>) -> Seq<char>;

/// Calls `serde_json::from_slice::<serde_json::Value>` and hands the value
/// over as a [`JsonValue`] (see [`json_of_serialize`]), or the error's text.
/// The contract only names the results.
#[verifier::external_body]
pub fn parse_json(data: &[u8]) -> (r: Result<JsonValue, String>)
    ensures
        match r {
            Ok(v) => parsed_json(data@) == Some(v@),
            Err(m) => parsed_json(data@) is None && m@ == json_syntax_error(data@),
        },
{
    match serde_json::from_slice::<JsonDoc>(data) {
        Ok(v) => Ok(json_of_serialize(&v)),
        Err(e) => Err(e.to_string()),
    }
}

/// The conversion [`parse_json`] applies to the `serde_json::Value` it
/// parsed (taken through `serde_json::to_value`, which gives back the same
/// value): variant for variant, numbers by `Number::as_u64`, then
/// `Number::as_i64`, else their `Display` text, object members in the map's
/// order.  Nothing is stated of it here: [`parse_json`] states the result of
/// the two together.
#[verifier::external_body]
fn json_of_serialize<T: serde::Serialize>(v: &T) -> JsonValue {
    match serde_json::to_value(v).unwrap_or(JsonDoc::Null) {
        JsonDoc::Null => JsonValue::Null,
        JsonDoc::Bool(b) => JsonValue::Bool(b),
        JsonDoc::Number(n) => match (n.as_u64(), n.as_i64()) {
            (Some(u), _) => JsonValue::UInt(u),
            (None, Some(i)) => JsonValue::NegInt(i),
            (None, None) => JsonValue::Float(n.to_string()),
        },
        JsonDoc::String(s) => JsonValue::Str(s),
        JsonDoc::Array(a) => JsonValue::Array(a.iter().map(json_of_serialize).collect()),
        JsonDoc::Object(m) => JsonValue::Object(m.keys().cloned().collect(), m.values().map(json_of_serialize).collect()),
    }
}

// ---------------------------------------------------------------------------
// Error texts
// ---------------------------------------------------------------------------

/// How an unexpected value is described in an error.
pub open spec fn unexpected(v: SpecJson) -> Seq<char> {
    match v {
        SpecJson::Null => "null"@,
        SpecJson::Bool(b) => "boolean `"@ + (if b { "true"@ } else { "false"@ }) + "`"@,
        SpecJson::UInt(u) => "integer `"@ + decimal(u as nat) + "`"@,
        SpecJson::NegInt(i) => "integer `"@ + int_text(i) + "`"@,
        SpecJson::Float(t) => "floating point `"@ + t + "`"@,
        SpecJson::Str(s) => "string "@ + str_debug(s),
        SpecJson::Array(_) => "sequence"@,
        SpecJson::Object(_) => "map"@,
    }
}

/// The error for a value of the wrong type.
pub open spec fn invalid_type(v: SpecJson, expected: Seq<char>) -> Seq<char> {
    "invalid type: "@ + unexpected(v) + ", expected "@ + expected
}

fn unexpected_text(v: &JsonValue) -> (r: Vec<char>)
    ensures
        r@ == unexpected(v@),
{
    let mut out: Vec<char> = Vec::new();
    match v {
        JsonValue::Null => push_str(&mut out, "null"),
        JsonValue::Bool(b) => {
            push_str(&mut out, "boolean `");
            push_str(&mut out, if *b { "true" } else { "false" });
            push_str(&mut out, "`");
        },
        JsonValue::UInt(u) => {
            push_str(&mut out, "integer `");
            push_decimal(&mut out, *u);
            push_str(&mut out, "`");
        },
        JsonValue::NegInt(i) => {
            push_str(&mut out, "integer `");
            push_int(&mut out, *i);
            push_str(&mut out, "`");
        },
        JsonValue::Float(t) => {
            push_str(&mut out, "floating point `");
            push_str(&mut out, t.as_str());
            push_str(&mut out, "`");
        },
        JsonValue::Str(s) => {
            push_str(&mut out, "string ");
            let d = debug_quoted(s.as_str());
            push_str(&mut out, d.as_str());
        },
        JsonValue::Array(_) => push_str(&mut out, "sequence"),
        JsonValue::Object(..) => push_str(&mut out, "map"),
    }
    out
}

/// The error for a value of the wrong type, as [`invalid_type`] says.
pub fn invalid_type_error(v: &JsonValue, expected: &str) -> (r: String)
    ensures
        r@ == invalid_type(v@, expected@),
{
    let mut out = chars_of("invalid type: ");
    let u = unexpected_text(v);
    let mut i: usize = 0;
    let ghost start = out@;
    while i < u.len()
        invariant
            0 <= i <= u@.len(),
            out@ == start + u@.take(i as int),
        decreases u@.len() - i,
    {
        out.push(u[i]);
        assert(u@.take(i + 1) =~= u@.take(i as int).push(u@[i as int]));
        i += 1;
    }
    assert(u@.take(u@.len() as int) =~= u@);
    push_str(&mut out, ", expected ");
    push_str(&mut out, expected);
    string_from_chars(out.as_slice())
}

// ---------------------------------------------------------------------------
// Members
// ---------------------------------------------------------------------------

/// The value of the first member named `key`.
pub open spec fn member(fields: Seq<(Seq<char>, SpecJson)>, key: Seq<char>) -> Option<SpecJson>
    decreases fields.len(),
{
    if fields.len() == 0 {
        None
    } else if fields[0].0 == key {
        Some(fields[0].1)
    } else {
        member(fields.drop_first(), key)
    }
}

/// The value a struct field reads: by name from an object, by position from
/// an array.
pub open spec fn field_value(doc: SpecJson, key: Seq<char>, index: int) -> Option<SpecJson> {
    match doc {
        SpecJson::Object(fields) => member(fields, key),
        SpecJson::Array(items) => if 0 <= index < items.len() {
            Some(items[index])
        } else {
            None
        },
        _ => None,
    }
}

/// Finds a struct field's value, as [`field_value`] says.
pub fn get_field<'a>(doc: &'a JsonValue, key: &str, index: usize) -> (r: Option<&'a JsonValue>)
    ensures
        match r {
            Some(v) => field_value(doc@, key@, index as int) == Some(v@),
            None => field_value(doc@, key@, index as int) is None,
        },
{
    match doc {
        JsonValue::Object(keys, values) => {
            let ghost fv = match doc@ {
                SpecJson::Object(f) => f,
                _ => Seq::empty(),
            };
            let n = if keys.len() <= values.len() { keys.len() } else { values.len() };
            assert(doc@ == SpecJson::Object(fv));
            assert(fv.len() == n);
            assert forall|j: int| 0 <= j < n implies #[trigger] fv[j] == (keys@[j]@, values@[j]@) by {}
            assert(fv.skip(0) =~= fv);
            let mut i: usize = 0;
            while i < n
                invariant
                    doc@ == SpecJson::Object(fv),
                    0 <= i <= n,
                    n <= keys@.len(),
                    n <= values@.len(),
                    fv.len() == n,
                    forall|j: int| 0 <= j < n ==> #[trigger] fv[j] == (keys@[j]@, values@[j]@),
                    member(fv, key@) == member(fv.skip(i as int), key@),
                decreases n - i,
            {
                assert(fv.skip(i as int)[0] == fv[i as int]);
                assert(fv.skip(i as int).drop_first() =~= fv.skip(i + 1));
                if crate::text::str_eq(keys[i].as_str(), key) {
                    assert(fv[i as int] == (keys@[i as int]@, values@[i as int]@));
                    assert(member(fv.skip(i as int), key@) == Some(values@[i as int]@));
                    assert(field_value(doc@, key@, index as int) == Some(values@[i as int]@));
                    return Some(&values[i]);
                }
                i += 1;
            }
            assert(fv.skip(n as int) =~= Seq::<(Seq<char>, SpecJson)>::empty());
            None
        },
        JsonValue::Array(items) => {
            if index < items.len() {
                Some(&items[index])
            } else {
                None
            }
        },
        _ => None,
    }
}

/// Whether a document can be read as a struct with `n` fields: an object, or
/// an array of at most `n` items.  Otherwise the error.
pub open spec fn struct_shape_error(doc: SpecJson, name: Seq<char>, n: nat) -> Option<Seq<char>> {
    match doc {
        SpecJson::Object(_) => None,
        SpecJson::Array(items) => if items.len() > n {
            Some("invalid length "@ + decimal(items.len()) + ", expected fewer elements in array"@)
        } else {
            None
        },
        _ => Some(invalid_type(doc, "struct "@ + name)),
    }
}

/// The error of [`struct_shape_error`], if any.
pub fn check_struct_shape(doc: &JsonValue, name: &str, n: usize) -> (r: Option<String>)
    ensures
        match r {
            Some(m) => struct_shape_error(doc@, name@, n as nat) == Some(m@),
            None => struct_shape_error(doc@, name@, n as nat) is None,
        },
{
    match doc {
        JsonValue::Object(..) => None,
        JsonValue::Array(items) => {
            if items.len() > n {
                let mut out = chars_of("invalid length ");
                push_decimal(&mut out, items.len() as u64);
                push_str(&mut out, ", expected fewer elements in array");
                Some(string_from_chars(out.as_slice()))
            } else {
                None
            }
        },
        _ => {
            let what = concat("struct ", name);
            Some(invalid_type_error(doc, what.as_str()))
        },
    }
}

// ---------------------------------------------------------------------------
// Field decoders
// ---------------------------------------------------------------------------

/// A `String` field with a default: missing is empty.
pub open spec fn string_field(v: Option<SpecJson>) -> Result<Seq<char>, Seq<char>> {
    match v {
        None => Ok(seq![]),
        Some(SpecJson::Str(s)) => Ok(s),
        Some(other) => Err(invalid_type(other, "a string"@)),
    }
}

pub fn decode_string(v: Option<&JsonValue>) -> (r: Result<String, String>)
    ensures
        match r {
            Ok(s) => string_field(opt_json_view(v)) == Ok::<Seq<char>, Seq<char>>(s@),
            Err(m) => string_field(opt_json_view(v)) == Err::<Seq<char>, Seq<char>>(m@),
        },
{
    match v {
        None => Ok(String::new()),
        Some(JsonValue::Str(s)) => Ok(s.clone()),
        Some(other) => Err(invalid_type_error(other, "a string")),
    }
}

pub open spec fn opt_json_view(v: Option<&JsonValue>) -> Option<SpecJson> {
    match v {
        Some(j) => Some(j@),
        None => None,
    }
}

/// An `Option<String>` field with a default: missing or null is `None`.
pub open spec fn opt_string_field(v: Option<SpecJson>) -> Result<Option<Seq<char>>, Seq<char>> {
    match v {
        None => Ok(None),
        Some(SpecJson::Null) => Ok(None),
        Some(SpecJson::Str(s)) => Ok(Some(s)),
        Some(other) => Err(invalid_type(other, "a string"@)),
    }
}

pub fn decode_opt_string(v: Option<&JsonValue>) -> (r: Result<Option<String>, String>)
    ensures
        match r {
            Ok(Some(s)) => opt_string_field(opt_json_view(v)) == Ok::<Option<Seq<char>>, Seq<char>>(Some(s@)),
            Ok(None) => opt_string_field(opt_json_view(v)) == Ok::<Option<Seq<char>>, Seq<char>>(None),
            Err(m) => opt_string_field(opt_json_view(v)) == Err::<Option<Seq<char>>, Seq<char>>(m@),
        },
{
    match v {
        None => Ok(None),
        Some(JsonValue::Null) => Ok(None),
        Some(JsonValue::Str(s)) => Ok(Some(s.clone())),
        Some(other) => Err(invalid_type_error(other, "a string")),
    }
}

/// A `bool` field with a default: missing is `false`.
pub open spec fn bool_field(v: Option<SpecJson>) -> Result<bool, Seq<char>> {
    match v {
        None => Ok(false),
        Some(SpecJson::Bool(b)) => Ok(b),
        Some(other) => Err(invalid_type(other, "a boolean"@)),
    }
}

pub fn decode_bool(v: Option<&JsonValue>) -> (r: Result<bool, String>)
    ensures
        match r {
            Ok(b) => bool_field(opt_json_view(v)) == Ok::<bool, Seq<char>>(b),
            Err(m) => bool_field(opt_json_view(v)) == Err::<bool, Seq<char>>(m@),
        },
{
    match v {
        None => Ok(false),
        Some(JsonValue::Bool(b)) => Ok(*b),
        Some(other) => Err(invalid_type_error(other, "a boolean")),
    }
}

/// The first item of a list that is not a string, if any.
pub open spec fn first_non_string(items: Seq<SpecJson>) -> Option<int>
    decreases items.len(),
{
    if items.len() == 0 {
        None
    } else if items.last() is Str {
        first_non_string(items.drop_last())
    } else {
        match first_non_string(items.drop_last()) {
            Some(i) => Some(i),
            None => Some(items.len() - 1),
        }
    }
}

/// The texts of a list of strings.
pub open spec fn strings_of(items: Seq<SpecJson>) -> Seq<Seq<char>>
    decreases items.len(),
{
    if items.len() == 0 {
        seq![]
    } else {
        strings_of(items.drop_last()).push(items.last()->Str_0)
    }
}

/// A `Vec<String>` field with a default: missing is empty.
pub open spec fn strings_field(v: Option<SpecJson>) -> Result<Seq<Seq<char>>, Seq<char>> {
    match v {
        None => Ok(seq![]),
        Some(SpecJson::Array(items)) => match first_non_string(items) {
            Some(i) => Err(invalid_type(items[i], "a string"@)),
            None => Ok(strings_of(items)),
        },
        Some(other) => Err(invalid_type(other, "a sequence"@)),
    }
}

pub open spec fn strings_view(v: Seq<String>) -> Seq<Seq<char>> {
    v.map_values(|s: String| s@)
}

pub fn decode_strings(v: Option<&JsonValue>) -> (r: Result<Vec<String>, String>)
    ensures
        match r {
            Ok(l) => strings_field(opt_json_view(v)) == Ok::<Seq<Seq<char>>, Seq<char>>(strings_view(l@)),
            Err(m) => strings_field(opt_json_view(v)) == Err::<Seq<Seq<char>>, Seq<char>>(m@),
        },
{
    match v {
        None => {
            let out: Vec<String> = Vec::new();
            assert(strings_view(out@) =~= Seq::<Seq<char>>::empty());
            Ok(out)
        },
        Some(JsonValue::Array(items)) => {
            let ghost iv = match v.unwrap()@ {
                SpecJson::Array(l) => l,
                _ => Seq::empty(),
            };
            assert(opt_json_view(v) == Some(SpecJson::Array(iv)));
            let mut out: Vec<String> = Vec::new();
            let mut i: usize = 0;
            while i < items.len()
                invariant
                    opt_json_view(v) == Some(SpecJson::Array(iv)),
                    0 <= i <= items@.len(),
                    iv.len() == items@.len(),
                    forall|j: int| 0 <= j < items@.len() ==> #[trigger] iv[j] == items@[j]@,
                    first_non_string(iv.take(i as int)) is None,
                    strings_view(out@) == strings_of(iv.take(i as int)),
                decreases items@.len() - i,
            {
                assert(iv.take(i + 1).drop_last() =~= iv.take(i as int));
                assert(iv.take(i + 1).last() == items@[i as int]@);
                match &items[i] {
                    JsonValue::Str(s) => {
                        let c = s.clone();
                        let ghost before = out@;
                        out.push(c);
                        proof {
                            assert(iv[i as int] == SpecJson::Str(s@));
                            assert(iv.take(i + 1).drop_last() =~= iv.take(i as int));
                            assert(strings_view(out@) =~= strings_view(before).push(c@));
                        }
                    },
                    other => {
                        proof {
                            lemma_first_non_string_prefix(iv, i as int);
                            assert(iv[i as int] == other@);
                        }
                        let m = invalid_type_error(other, "a string");
                        assert(first_non_string(iv) == Some(i as int));
                        assert(m@ == invalid_type(iv[i as int], "a string"@));
                        assert(strings_field(opt_json_view(v)) == Err::<Seq<Seq<char>>, Seq<char>>(m@));
                        return Err(m);
                    },
                }
                i += 1;
            }
            assert(iv.take(items@.len() as int) =~= iv);
            Ok(out)
        },
        Some(other) => Err(invalid_type_error(other, "a sequence")),
    }
}

proof fn lemma_first_non_string_prefix(items: Seq<SpecJson>, i: int)
    requires
        0 <= i < items.len(),
        first_non_string(items.take(i)) is None,
        !(items[i] is Str),
    ensures
        first_non_string(items) == Some(i),
    decreases items.len(),
{
    if items.len() == i + 1 {
        assert(items.drop_last() =~= items.take(i));
    } else {
        assert(items.drop_last().take(i) =~= items.take(i));
        assert(items.drop_last()[i] == items[i]);
        lemma_first_non_string_prefix(items.drop_last(), i);
    }
}

// ---------------------------------------------------------------------------
// Integers given as numbers or strings
// ---------------------------------------------------------------------------

/// An unsigned integer given as text: surrounding white space is ignored,
/// empty text is zero, anything else must parse as a `u64`.
pub open spec fn u64_from_text(s: Seq<char>) -> Result<u64, Seq<char>> {
    let t = trim_ws(s);
    if t.len() == 0 {
        Ok(0)
    } else {
        match u64_text_value(t) {
            Some(v) => Ok(v),
            None => Err("invalid uint64: "@ + u64_parse_error(t)),
        }
    }
}

/// A signed integer given as text, in the same way.
pub open spec fn i64_from_text(s: Seq<char>) -> Result<i64, Seq<char>> {
    let t = trim_ws(s);
    if t.len() == 0 {
        Ok(0)
    } else {
        match i64_text_value(t) {
            Some(v) => Ok(v),
            None => Err("invalid int64: "@ + i64_parse_error(t)),
        }
    }
}

/// Reads an unsigned integer given as text, as [`u64_from_text`] says.
pub fn parse_u64_str(value: &str) -> (r: Result<u64, String>)
    ensures
        match r {
            Ok(v) => u64_from_text(value@) == Ok::<u64, Seq<char>>(v),
            Err(m) => u64_from_text(value@) == Err::<u64, Seq<char>>(m@),
        },
{
    let t = trim(value);
    if t.as_str().is_empty() {
        return Ok(0);
    }
    match std_parse_u64(t.as_str()) {
        Ok(v) => Ok(v),
        Err(e) => Err(concat("invalid uint64: ", e.as_str())),
    }
}

/// Reads a signed integer given as text, as [`i64_from_text`] says.
pub fn parse_i64_str(value: &str) -> (r: Result<i64, String>)
    ensures
        match r {
            Ok(v) => i64_from_text(value@) == Ok::<i64, Seq<char>>(v),
            Err(m) => i64_from_text(value@) == Err::<i64, Seq<char>>(m@),
        },
{
    let t = trim(value);
    if t.as_str().is_empty() {
        return Ok(0);
    }
    match std_parse_i64(t.as_str()) {
        Ok(v) => Ok(v),
        Err(e) => Err(concat("invalid int64: ", e.as_str())),
    }
}

/// A field holding an unsigned 64-bit integer as a number or a string; null
/// and a missing field are zero.
pub open spec fn sse_u64_field(v: Option<SpecJson>) -> Result<u64, Seq<char>> {
    match v {
        None => Ok(0),
        Some(SpecJson::Null) => Ok(0),
        Some(SpecJson::UInt(u)) => Ok(u as u64),
        Some(SpecJson::NegInt(i)) => Err("negative value "@ + int_text(i)),
        Some(SpecJson::Str(s)) => u64_from_text(s),
        Some(other) => Err(invalid_type(other, "a uint64 number or string"@)),
    }
}

/// The range check of a 32-bit field.
pub open spec fn u32_in_range(u: int) -> Result<u32, Seq<char>> {
    if u > u32::MAX {
        Err("value "@ + decimal(u as nat) + " overflows "@ + "uint32"@)
    } else {
        Ok(u as u32)
    }
}

/// A field holding an unsigned 32-bit integer as a number or a string; null
/// and a missing field are zero.
pub open spec fn sse_u32_field(v: Option<SpecJson>) -> Result<u32, Seq<char>> {
    match v {
        None => Ok(0),
        Some(SpecJson::Null) => Ok(0),
        Some(SpecJson::UInt(u)) => u32_in_range(u),
        Some(SpecJson::NegInt(i)) => Err("negative value "@ + int_text(i)),
        Some(SpecJson::Str(s)) => match u64_from_text(s) {
            Ok(u) => u32_in_range(u as int),
            Err(e) => Err(e),
        },
        Some(other) => Err(invalid_type(other, "a uint32 number or string"@)),
    }
}

/// A field holding a signed 64-bit integer as a number or a string; null and
/// a missing field are zero.
pub open spec fn sse_i64_field(v: Option<SpecJson>) -> Result<i64, Seq<char>> {
    match v {
        None => Ok(0),
        Some(SpecJson::Null) => Ok(0),
        Some(SpecJson::NegInt(i)) => Ok(i as i64),
        Some(SpecJson::UInt(u)) => if u > i64::MAX {
            Err("value "@ + decimal(u as nat) + " overflows "@ + "int64"@)
        } else {
            Ok(u as i64)
        },
        Some(SpecJson::Str(s)) => i64_from_text(s),
        Some(other) => Err(invalid_type(other, "an int64 number or string"@)),
    }
}

/// An optional 32-bit field: missing and null are `None`.
pub open spec fn opt_sse_u32_field(v: Option<SpecJson>) -> Result<Option<u32>, Seq<char>> {
    match v {
        None => Ok(None),
        Some(SpecJson::Null) => Ok(None),
        Some(j) => match sse_u32_field(Some(j)) {
            Ok(u) => Ok(Some(u)),
            Err(e) => Err(e),
        },
    }
}

fn negative_value_error(i: i64) -> (r: String)
    ensures
        r@ == "negative value "@ + int_text(i as int),
{
    let mut out = chars_of("negative value ");
    push_int(&mut out, i);
    string_from_chars(out.as_slice())
}

fn overflow_error(u: u64, what: &str) -> (r: String)
    ensures
        r@ == "value "@ + decimal(u as nat) + " overflows "@ + what@,
{
    let mut out = chars_of("value ");
    push_decimal(&mut out, u);
    push_str(&mut out, " overflows ");
    push_str(&mut out, what);
    string_from_chars(out.as_slice())
}

pub fn decode_sse_u64(v: Option<&JsonValue>) -> (r: Result<u64, String>)
    ensures
        match r {
            Ok(x) => sse_u64_field(opt_json_view(v)) == Ok::<u64, Seq<char>>(x),
            Err(m) => sse_u64_field(opt_json_view(v)) == Err::<u64, Seq<char>>(m@),
        },
{
    match v {
        None => Ok(0),
        Some(JsonValue::Null) => Ok(0),
        Some(JsonValue::UInt(u)) => Ok(*u),
        Some(JsonValue::NegInt(i)) => Err(negative_value_error(*i)),
        Some(JsonValue::Str(s)) => parse_u64_str(s.as_str()),
        Some(other) => Err(invalid_type_error(other, "a uint64 number or string")),
    }
}

fn check_u32(u: u64) -> (r: Result<u32, String>)
    ensures
        match r {
            Ok(x) => u32_in_range(u as int) == Ok::<u32, Seq<char>>(x),
            Err(m) => u32_in_range(u as int) == Err::<u32, Seq<char>>(m@),
        },
{
    if u > u32::MAX as u64 {
        Err(overflow_error(u, "uint32"))
    } else {
        Ok(u as u32)
    }
}

pub fn decode_sse_u32(v: Option<&JsonValue>) -> (r: Result<u32, String>)
    ensures
        match r {
            Ok(x) => sse_u32_field(opt_json_view(v)) == Ok::<u32, Seq<char>>(x),
            Err(m) => sse_u32_field(opt_json_view(v)) == Err::<u32, Seq<char>>(m@),
        },
{
    match v {
        None => Ok(0),
        Some(JsonValue::Null) => Ok(0),
        Some(JsonValue::UInt(u)) => check_u32(*u),
        Some(JsonValue::NegInt(i)) => Err(negative_value_error(*i)),
        Some(JsonValue::Str(s)) => match parse_u64_str(s.as_str()) {
            Ok(u) => check_u32(u),
            Err(e) => Err(e),
        },
        Some(other) => Err(invalid_type_error(other, "a uint32 number or string")),
    }
}

pub fn decode_sse_i64(v: Option<&JsonValue>) -> (r: Result<i64, String>)
    ensures
        match r {
            Ok(x) => sse_i64_field(opt_json_view(v)) == Ok::<i64, Seq<char>>(x),
            Err(m) => sse_i64_field(opt_json_view(v)) == Err::<i64, Seq<char>>(m@),
        },
{
    match v {
        None => Ok(0),
        Some(JsonValue::Null) => Ok(0),
        Some(JsonValue::NegInt(i)) => Ok(*i),
        Some(JsonValue::UInt(u)) => {
            if *u > i64::MAX as u64 {
                Err(overflow_error(*u, "int64"))
            } else {
                Ok(*u as i64)
            }
        },
        Some(JsonValue::Str(s)) => parse_i64_str(s.as_str()),
        Some(other) => Err(invalid_type_error(other, "an int64 number or string")),
    }
}

pub fn decode_opt_sse_u32(v: Option<&JsonValue>) -> (r: Result<Option<u32>, String>)
    ensures
        match r {
            Ok(x) => opt_sse_u32_field(opt_json_view(v)) == Ok::<Option<u32>, Seq<char>>(x),
            Err(m) => opt_sse_u32_field(opt_json_view(v)) == Err::<Option<u32>, Seq<char>>(m@),
        },
{
    match v {
        None => Ok(None),
        Some(JsonValue::Null) => Ok(None),
        Some(j) => match decode_sse_u32(Some(j)) {
            Ok(u) => Ok(Some(u)),
            Err(e) => Err(e),
        },
    }
}

} // verus!
