//! Projecting a MessagePack payload to JSON through the type registry.
//!
//! A payload is a map from field tags to values.  Projection renders each
//! tag that the type's descriptor knows under the field's name, as the
//! field's type says (enums as labels, 64-bit integers as strings, bytes
//! as base64, times as RFC 3339, nested types by their latest version), and
//! collects the tags it does not know apart.  JSON objects are built member
//! by member; a member written again replaces the earlier one.
use vstd::prelude::*;
use base64::Engine;
use crate::client::fstree::snapshot::{hex_char, hex_digit};
use crate::client::json::{JsonValue, SpecJson};
use crate::server::error::{SpecStoreError, StoreError};
use crate::server::msgpack::{msgpack_decoded, msgpack_error, read_msgpack, MsgValue, SpecMsg};
use crate::server::registry::{
    field_at, field_at_exec, field_view, index_of_num, index_of_str, label_exec, label_of, FieldSpec, FieldView, ItemsSpec, Registry,
    TypeSpec, TypeVersionSpec,
};
use crate::text::{chars_of, concat, decimal, owned, parse_u64, push_decimal, str_eq, string_from_chars, u64_text_value};

verus! {

/// How bytes are rendered.
#[derive(Debug, Clone, Copy, PartialEq, Eq, Structural)]
pub enum BytesRender {
    Base64,
    Hex,
    LenOnly,
}

/// How 64-bit integers are rendered.
#[derive(Debug, Clone, Copy, PartialEq, Eq, Structural)]
pub enum U64Format {
    String,
    Number,
}

/// How enum values are rendered.
#[derive(Debug, Clone, Copy, PartialEq, Eq, Structural)]
pub enum EnumRender {
    Label,
    Number,
    Both,
}

/// How times are rendered.
#[derive(Debug, Clone, Copy, PartialEq, Eq, Structural)]
pub enum TimeRender {
    Iso,
    UnixMs,
}

/// The rendering choices of a projection.
#[derive(Debug, Clone, Copy)]
pub struct RenderOptions {
    pub bytes_render: BytesRender,
    pub u64_format: U64Format,
    pub enum_render: EnumRender,
    pub time_render: TimeRender,
    pub include_unknown: bool,
}

/// A projected payload: the known fields by name, and the unknown tags
/// (when asked for).
#[derive(Debug)]
pub struct ProjectionResult {
    pub data: JsonValue,
    pub unknown: Option<JsonValue>,
}

// ---------------------------------------------------------------------------
// JSON objects
// ---------------------------------------------------------------------------

/// The index of the member with this name.
pub open spec fn member_index(m: Seq<(Seq<char>, SpecJson)>, k: Seq<char>) -> Option<int>
    decreases m.len(),
{
    if m.len() == 0 {
        None
    } else {
        match member_index(m.drop_last(), k) {
            Some(i) => Some(i),
            None => if m.last().0 == k {
                Some(m.len() - 1)
            } else {
                None
            },
        }
    }
}

/// The members after writing one: it replaces a member of that name, or
/// comes last.
pub open spec fn member_put(m: Seq<(Seq<char>, SpecJson)>, k: Seq<char>, v: SpecJson) -> Seq<(Seq<char>, SpecJson)> {
    match member_index(m, k) {
        Some(i) => m.update(i, (k, v)),
        None => m.push((k, v)),
    }
}

/// The members after writing these in order.
pub open spec fn members_put(ps: Seq<(Seq<char>, SpecJson)>) -> Seq<(Seq<char>, SpecJson)>
    decreases ps.len(),
{
    if ps.len() == 0 {
        seq![]
    } else {
        let (k, v) = ps.last();
        member_put(members_put(ps.drop_last()), k, v)
    }
}

proof fn lemma_member_index<V>(m: Seq<(Seq<char>, SpecJson)>, k: Seq<char>)
    ensures
        member_index(m, k) matches Some(i) ==> 0 <= i < m.len() && m[i].0 == k,
        member_index(m, k) is None ==> forall|i: int| 0 <= i < m.len() ==> m[i].0 != k,
    decreases m.len(),
{
    if m.len() > 0 {
        lemma_member_index::<V>(m.drop_last(), k);
        if member_index(m, k) is None {
            assert forall|i: int| 0 <= i < m.len() implies m[i].0 != k by {
                if i < m.len() - 1 {
                    assert(m.drop_last()[i] == m[i]);
                }
            }
        }
    }
}

/// An object under construction: names and values of equal number.
pub struct ObjectBuilder {
    keys: Vec<String>,
    values: Vec<JsonValue>,
}

impl ObjectBuilder {
    /// The members so far.
    pub closed spec fn members(&self) -> Seq<(Seq<char>, SpecJson)> {
        Seq::new(self.keys@.len(), |i: int| (self.keys@[i]@, self.values@[i]@))
    }

    pub closed spec fn wf(&self) -> bool {
        self.keys@.len() == self.values@.len()
    }

    /// No members.
    pub fn new() -> (b: ObjectBuilder)
        ensures
            b.wf(),
            b.members() == Seq::<(Seq<char>, SpecJson)>::empty(),
    {
        let b = ObjectBuilder { keys: Vec::new(), values: Vec::new() };
        assert(b.members() =~= Seq::<(Seq<char>, SpecJson)>::empty());
        b
    }

    /// Whether there are no members.
    pub fn is_empty(&self) -> (r: bool)
        requires
            self.wf(),
        ensures
            r == (self.members().len() == 0),
    {
        self.keys.len() == 0
    }

    /// Writes a member.
    pub fn insert(&mut self, k: String, v: JsonValue)
        requires
            old(self).wf(),
        ensures
            final(self).wf(),
            final(self).members() == member_put(old(self).members(), k@, v@),
    {
        let ghost before = self.members();
        let mut i: usize = 0;
        while i < self.keys.len()
            invariant
                self.wf(),
                self.members() == before,
                before == old(self).members(),
                i <= self.keys@.len(),
                forall|j: int| 0 <= j < i ==> self.keys@[j]@ != k@,
            decreases self.keys@.len() - i,
        {
            if str_eq(self.keys[i].as_str(), k.as_str()) {
                proof {
                    lemma_member_index_first(before, k@, i as int);
                }
                self.values.remove(i);
                self.values.insert(i, v);
                proof {
                    assert(self.members() =~= before.update(i as int, (k@, v@)));
                    assert(member_put(before, k@, v@) == before.update(i as int, (k@, v@)));
                }
                return;
            }
            i = i + 1;
        }
        proof {
            lemma_member_index_none(before, k@);
        }
        self.keys.push(k);
        self.values.push(v);
        proof {
            assert(self.members() =~= before.push((k@, v@)));
        }
    }

    /// The object.
    pub fn finish(self) -> (r: JsonValue)
        requires
            self.wf(),
        ensures
            r@ == SpecJson::Object(self.members()),
    {
        let r = JsonValue::Object(self.keys, self.values);
        proof {
            assert(self.members() =~= match r@ {
                SpecJson::Object(m) => m,
                _ => Seq::empty(),
            });
        }
        r
    }
}

proof fn lemma_member_index_first(m: Seq<(Seq<char>, SpecJson)>, k: Seq<char>, i: int)
    requires
        0 <= i < m.len(),
        m[i].0 == k,
        forall|j: int| 0 <= j < i ==> m[j].0 != k,
    ensures
        member_index(m, k) == Some(i),
    decreases m.len(),
{
    if m.len() - 1 > i {
        lemma_member_index_first(m.drop_last(), k, i);
    } else {
        lemma_member_index_none(m.drop_last(), k);
    }
}

proof fn lemma_member_index_none(m: Seq<(Seq<char>, SpecJson)>, k: Seq<char>)
    requires
        forall|j: int| 0 <= j < m.len() ==> m[j].0 != k,
    ensures
        member_index(m, k) is None,
    decreases m.len(),
{
    if m.len() > 0 {
        lemma_member_index_none(m.drop_last(), k);
    }
}

// ---------------------------------------------------------------------------
// Scalars
// ---------------------------------------------------------------------------

/// A JSON number for an integer.
pub open spec fn int_number(i: int) -> SpecJson {
    if i >= 0 {
        SpecJson::UInt(i)
    } else {
        SpecJson::NegInt(i)
    }
}

/// A 64-bit integer as the options render it.
pub open spec fn u64_json(u: int, o: RenderOptions) -> SpecJson {
    match o.u64_format {
        U64Format::String => SpecJson::Str(decimal(u as nat)),
        U64Format::Number => SpecJson::UInt(u),
    }
}

/// The value as a `u64`, if it is a non-negative integer.
pub open spec fn msg_u64(v: SpecMsg) -> Option<int> {
    match v {
        SpecMsg::UInt(u) => Some(u),
        _ => None,
    }
}

/// The value as an `i64`, if it is an integer that fits.
pub open spec fn msg_i64(v: SpecMsg) -> Option<int> {
    match v {
        SpecMsg::UInt(u) => if u <= i64::MAX {
            Some(u)
        } else {
            None
        },
        SpecMsg::NegInt(i) => Some(i),
        _ => None,
    }
}

/// The lower-case hexadecimal text of bytes, two digits a byte.
pub open spec fn hex_text(b: Seq<u8>) -> Seq<char> {
    Seq::new(
        2 * b.len(),
        |i: int|
            if i % 2 == 0 {
                hex_digit(b[i / 2] as int / 16)
            } else {
                hex_digit(b[i / 2] as int % 16)
            },
    )
}

/// What `base64::engine::general_purpose::STANDARD.encode` gives for these
/// bytes.
pub uninterp spec fn base64_text(b: Seq<u8>) -> Seq<char>;

/// Calls `base64::engine::general_purpose::STANDARD.encode` (the standard
/// alphabet, padded).  The contract only names the result.
#[verifier::external_body]
fn base64_encode(b: &[u8]) -> (r: String)
    ensures
        r@ == base64_text(b@),
{
    base64::engine::general_purpose::STANDARD.encode(b)
}

/// The RFC 3339 text (`to_rfc3339`) of the UTC time that many milliseconds
/// after the Unix epoch, as `chrono::DateTime::<Utc>::from_timestamp_millis`
/// makes it; `None` when it is out of chrono's range.
pub uninterp spec fn rfc3339_of_millis(ms: i64) -> Option<Seq<char>>;

/// Calls `chrono::DateTime::<chrono::Utc>::from_timestamp_millis`, then
/// `to_rfc3339`.  The contract only names the result.
#[verifier::external_body]
fn millis_rfc3339(ms: i64) -> (r: Option<String>)
    ensures
        match r {
            Some(t) => rfc3339_of_millis(ms) == Some(t@),
            None => rfc3339_of_millis(ms) is None,
        },
{
    chrono::DateTime::<chrono::Utc>::from_timestamp_millis(ms).map(|t| t.to_rfc3339())
}

/// Bytes as the options render them.
pub open spec fn bytes_json(b: Seq<u8>, o: RenderOptions) -> SpecJson {
    match o.bytes_render {
        BytesRender::Base64 => SpecJson::Str(base64_text(b)),
        BytesRender::Hex => SpecJson::Str(hex_text(b)),
        BytesRender::LenOnly => SpecJson::UInt(b.len() as int),
    }
}

/// A time in Unix milliseconds as the options render it.
pub open spec fn time_json(v: SpecMsg, o: RenderOptions) -> SpecJson {
    match msg_i64(v) {
        None => SpecJson::Null,
        Some(ms) => match o.time_render {
            TimeRender::UnixMs => int_number(ms),
            TimeRender::Iso => match rfc3339_of_millis(ms as i64) {
                Some(t) => SpecJson::Str(t),
                None => SpecJson::Null,
            },
        },
    }
}

fn hex_encode(b: &[u8]) -> (r: String)
    ensures
        r@ == hex_text(b@),
{
    let mut out: Vec<char> = Vec::new();
    let mut i: usize = 0;
    while i < b.len()
        invariant
            i <= b@.len(),
            out@.len() == 2 * i,
            forall|j: int| 0 <= j < 2 * i ==> out@[j] == hex_text(b@)[j],
        decreases b@.len() - i,
    {
        out.push(hex_char(b[i] / 16));
        out.push(hex_char(b[i] % 16));
        proof {
            assert forall|j: int| 0 <= j < 2 * (i + 1) implies out@[j] == hex_text(b@)[j] by {
                if j >= 2 * i {
                    assert(j / 2 == i as int) by (nonlinear_arith)
                        requires
                            2 * i <= j < 2 * i + 2,
                    ;
                    assert((j == 2 * i) <==> (j % 2 == 0)) by (nonlinear_arith)
                        requires
                            2 * i <= j < 2 * i + 2,
                    ;
                }
            }
        }
        i = i + 1;
    }
    assert(out@ =~= hex_text(b@));
    string_from_chars(out.as_slice())
}

fn u64_number(u: u64, o: &RenderOptions) -> (r: JsonValue)
    ensures
        r@ == u64_json(u as int, *o),
{
    match o.u64_format {
        U64Format::String => {
            let mut out: Vec<char> = Vec::new();
            push_decimal(&mut out, u);
            assert(out@ =~= decimal(u as nat));
            JsonValue::Str(string_from_chars(out.as_slice()))
        },
        U64Format::Number => JsonValue::UInt(u),
    }
}

fn int_json(i: i64) -> (r: JsonValue)
    ensures
        r@ == int_number(i as int),
{
    if i >= 0 {
        JsonValue::UInt(i as u64)
    } else {
        JsonValue::NegInt(i)
    }
}

fn msg_i64_exec(v: &MsgValue) -> (r: Option<i64>)
    ensures
        match r {
            Some(i) => msg_i64(v@) == Some(i as int),
            None => msg_i64(v@) is None,
        },
{
    match v {
        MsgValue::UInt(u) => if *u <= i64::MAX as u64 {
            Some(*u as i64)
        } else {
            None
        },
        MsgValue::NegInt(i) => Some(*i),
        _ => None,
    }
}

fn bytes_render(b: &Vec<u8>, o: &RenderOptions) -> (r: JsonValue)
    ensures
        r@ == bytes_json(b@, *o),
{
    match o.bytes_render {
        BytesRender::Base64 => JsonValue::Str(base64_encode(b.as_slice())),
        BytesRender::Hex => JsonValue::Str(hex_encode(b.as_slice())),
        BytesRender::LenOnly => JsonValue::UInt(b.len() as u64),
    }
}

fn time_render(v: &MsgValue, o: &RenderOptions) -> (r: JsonValue)
    ensures
        r@ == time_json(v@, *o),
{
    match msg_i64_exec(v) {
        None => JsonValue::Null,
        Some(ms) => match o.time_render {
            TimeRender::UnixMs => int_json(ms),
            TimeRender::Iso => match millis_rfc3339(ms) {
                Some(t) => JsonValue::Str(t),
                None => JsonValue::Null,
            },
        },
    }
}

// ---------------------------------------------------------------------------
// Values without a type
// ---------------------------------------------------------------------------

/// The member name a map key gives: a string's text, a non-negative
/// integer's decimal text, otherwise empty.
pub open spec fn key_text(k: SpecMsg) -> Seq<char> {
    match k {
        SpecMsg::Str(s) => s,
        SpecMsg::UInt(u) => decimal(u as nat),
        _ => seq![],
    }
}

/// A value rendered without a type: integers, strings and booleans as
/// such, floats as numbers (0 when not finite), bytes as the options say,
/// arrays item by item, maps member by member under [`key_text`].
pub open spec fn value_json(v: SpecMsg, o: RenderOptions) -> SpecJson
    decreases v,
{
    match v {
        SpecMsg::Nil => SpecJson::Null,
        SpecMsg::Boolean(b) => SpecJson::Bool(b),
        SpecMsg::UInt(u) => u64_json(u, o),
        SpecMsg::NegInt(i) => SpecJson::NegInt(i),
        SpecMsg::Float(t) => SpecJson::Float(t),
        SpecMsg::NonFinite => SpecJson::UInt(0),
        SpecMsg::Str(t) => SpecJson::Str(t),
        SpecMsg::BadStr => SpecJson::Str(seq![]),
        SpecMsg::Binary(b) => bytes_json(b, o),
        SpecMsg::Array(items) => SpecJson::Array(
            Seq::new(
                items.len(),
                |i: int|
                    if 0 <= i < items.len() {
                        value_json(items[i], o)
                    } else {
                        SpecJson::Null
                    },
            ),
        ),
        SpecMsg::Table(es) => SpecJson::Object(members_put(table_pairs(es, o))),
        SpecMsg::Ext(_, _) => SpecJson::Null,
    }
}

/// The members a map's entries give, in order.
pub open spec fn table_pairs(es: Seq<(SpecMsg, SpecMsg)>, o: RenderOptions) -> Seq<(Seq<char>, SpecJson)>
    decreases es,
{
    Seq::new(
        es.len(),
        |i: int|
            if 0 <= i < es.len() {
                (key_text(es[i].0), value_json(es[i].1, o))
            } else {
                (seq![], SpecJson::Null)
            },
    )
}

fn key_text_exec(k: &MsgValue) -> (r: String)
    ensures
        r@ == key_text(k@),
{
    match k {
        MsgValue::Str(Some(s)) => owned(s.as_str()),
        MsgValue::UInt(u) => {
            let mut out: Vec<char> = Vec::new();
            push_decimal(&mut out, *u);
            assert(out@ =~= decimal(*u as nat));
            string_from_chars(out.as_slice())
        },
        _ => String::new(),
    }
}

/// Renders a value without a type.
pub fn render_value(v: &MsgValue, o: &RenderOptions) -> (r: JsonValue)
    ensures
        r@ == value_json(v@, *o),
    decreases v,
{
    match v {
        MsgValue::Nil => JsonValue::Null,
        MsgValue::Boolean(b) => JsonValue::Bool(*b),
        MsgValue::UInt(u) => u64_number(*u, o),
        MsgValue::NegInt(i) => JsonValue::NegInt(*i),
        MsgValue::Float(Some(t)) => JsonValue::Float(owned(t.as_str())),
        MsgValue::Float(None) => JsonValue::UInt(0),
        MsgValue::Str(Some(t)) => JsonValue::Str(owned(t.as_str())),
        MsgValue::Str(None) => JsonValue::Str(String::new()),
        MsgValue::Binary(b) => {
            let r = bytes_render(b, o);
            assert(r@ == value_json(v@, *o));
            r
        },
        MsgValue::Array(items) => {
            let ghost sitems = v@->Array_0;
            proof {
                assert(sitems.len() == items@.len());
            }
            let mut out: Vec<JsonValue> = Vec::new();
            let mut i: usize = 0;
            while i < items.len()
                invariant
                    *v == MsgValue::Array(*items),
                    sitems == v@->Array_0,
                    sitems.len() == items@.len(),
                    i <= items@.len(),
                    out@.len() == i,
                    forall|j: int| 0 <= j < i ==> (#[trigger] out@[j])@ == value_json(sitems[j], *o),
                decreases items@.len() - i,
            {
                proof {
                    assert(decreases_to!(*v => items@[i as int]));
                    assert(sitems[i as int] == items@[i as int]@);
                }
                let x = render_value(&items[i], o);
                out.push(x);
                i = i + 1;
            }
            let r = JsonValue::Array(out);
            proof {
                assert(r@->Array_0 =~= value_json(v@, *o)->Array_0);
                assert(r@ == value_json(v@, *o));
            }
            r
        },
        MsgValue::Table(keys, values) => {
            let n = if keys.len() <= values.len() { keys.len() } else { values.len() };
            let ghost es = v@->Table_0;
            let ghost pairs = table_pairs(es, *o);
            proof {
                assert(es.len() == n);
                assert(pairs.take(0) =~= Seq::<(Seq<char>, SpecJson)>::empty());
            }
            let mut b = ObjectBuilder::new();
            let mut i: usize = 0;
            while i < n
                invariant
                    *v == MsgValue::Table(*keys, *values),
                    es == v@->Table_0,
                    es.len() == n,
                    n <= keys@.len(),
                    n <= values@.len(),
                    pairs == table_pairs(es, *o),
                    i <= n,
                    b.wf(),
                    b.members() == members_put(pairs.take(i as int)),
                decreases n - i,
            {
                proof {
                    assert(es[i as int] == (keys@[i as int]@, values@[i as int]@));
                    assert(decreases_to!(*v => values@[i as int]));
                }
                let k = key_text_exec(&keys[i]);
                let x = render_value(&values[i], o);
                b.insert(k, x);
                proof {
                    assert(pairs.take(i + 1).drop_last() =~= pairs.take(i as int));
                    assert(pairs.take(i + 1).last() == pairs[i as int]);
                }
                i = i + 1;
            }
            proof {
                assert(pairs.take(n as int) =~= pairs);
            }
            let r = b.finish();
            assert(r@ == value_json(v@, *o));
            r
        },
        MsgValue::Ext(_, _) => JsonValue::Null,
    }
}

// ---------------------------------------------------------------------------
// Values with a type
// ---------------------------------------------------------------------------

/// The tag a map key gives: a non-negative integer, or a string read as a
/// number.
pub open spec fn key_tag(k: SpecMsg) -> Option<u64> {
    match k {
        SpecMsg::UInt(u) => Some(u as u64),
        SpecMsg::Str(s) => u64_text_value(s),
        _ => None,
    }
}

/// The index of the last entry of a map whose key gives this tag: the
/// entry a tag stands for.
pub open spec fn tag_index(es: Seq<(SpecMsg, SpecMsg)>, tag: u64) -> Option<int>
    decreases es.len(),
{
    if es.len() == 0 {
        None
    } else if key_tag(es.last().0) == Some(tag) {
        Some(es.len() - 1)
    } else {
        tag_index(es.drop_last(), tag)
    }
}

/// The fields of the highest version of a registered type.
pub open spec fn latest_fields(types: Seq<(String, TypeSpec)>, id: Seq<char>) -> Option<Seq<(u64, FieldSpec)>> {
    match index_of_str(types, id) {
        Some(t) => if types[t].1.versions@.len() == 0 {
            None
        } else {
            Some(types[t].1.versions@.last().1.fields@)
        },
        None => None,
    }
}

/// The label an enum field's value has: the field names a registered enum
/// and the value is a non-negative integer whose decimal text the enum
/// maps.
pub open spec fn enum_label(enums: Seq<(String, Vec<(String, String)>)>, f: FieldView, v: SpecMsg) -> Option<(int, Seq<char>)> {
    match (f.enum_ref, msg_u64(v)) {
        (Some(e), Some(num)) => match index_of_str(enums, e) {
            Some(k) => match label_of(enums[k].1@, decimal(num as nat)) {
                Some(l) => Some((num, l)),
                None => None,
            },
            None => None,
        },
        _ => None,
    }
}

/// An enum value as the options render it.
pub open spec fn enum_json(num: int, label: Seq<char>, o: RenderOptions) -> SpecJson {
    match o.enum_render {
        EnumRender::Label => SpecJson::Str(label),
        EnumRender::Number => SpecJson::UInt(num),
        EnumRender::Both => SpecJson::Object(seq![("label"@, SpecJson::Str(label)), ("value"@, SpecJson::UInt(num))]),
    }
}

/// Whether a field type is one of the 64-bit integer types.
pub open spec fn is_u64_type(t: Seq<char>) -> bool {
    t == "u64"@ || t == "uint64"@ || t == "i64"@ || t == "int64"@
}

/// Whether a field type is one of the narrower integer types.
pub open spec fn is_int_type(t: Seq<char>) -> bool {
    t == "u32"@ || t == "uint32"@ || t == "u8"@ || t == "uint8"@ || t == "int32"@
}

/// Whether a field type is one of the time types.
pub open spec fn is_time_type(t: Seq<char>) -> bool {
    t == "unix_ms"@ || t == "time_ms"@ || t == "timestamp_ms"@
}

/// A field of an array's item type.
pub open spec fn item_field(t: Seq<char>) -> FieldView {
    FieldView { name: seq![], field_type: t, enum_ref: None, type_ref: None, optional: false, items: None }
}

/// A value rendered as a field says: an enum value by its label (as the
/// options say), a reference by the referenced type, else by the field's
/// type, and a value of an unknown type without one.
pub open spec fn field_json(
    v: SpecMsg,
    f: FieldView,
    types: Seq<(String, TypeSpec)>,
    enums: Seq<(String, Vec<(String, String)>)>,
    o: RenderOptions,
) -> SpecJson
    decreases v, 3int,
{
    match enum_label(enums, f, v) {
        Some((num, l)) => enum_json(num, l, o),
        None => if f.type_ref is Some && (f.field_type == "ref"@ || f.field_type == "map"@) {
            type_ref_json(v, f.type_ref->0, types, enums, o)
        } else if is_u64_type(f.field_type) {
            match msg_u64(v) {
                Some(u) => u64_json(u, o),
                None => SpecJson::Null,
            }
        } else if is_int_type(f.field_type) {
            match msg_i64(v) {
                Some(i) => int_number(i),
                None => SpecJson::Null,
            }
        } else if f.field_type == "string"@ {
            match v {
                SpecMsg::Str(t) => SpecJson::Str(t),
                SpecMsg::BadStr => SpecJson::Str(seq![]),
                _ => SpecJson::Null,
            }
        } else if f.field_type == "bool"@ {
            match v {
                SpecMsg::Boolean(b) => SpecJson::Bool(b),
                _ => SpecJson::Null,
            }
        } else if f.field_type == "bytes"@ || f.field_type == "typed_blob"@ {
            match v {
                SpecMsg::Binary(b) => bytes_json(b, o),
                _ => SpecJson::Null,
            }
        } else if f.field_type == "array"@ {
            array_json(v, f.items, types, enums, o)
        } else if is_time_type(f.field_type) {
            time_json(v, o)
        } else {
            value_json(v, o)
        }
    }
}

/// An array rendered item by item: by the item type, by the referenced
/// type, or without a type.
pub open spec fn array_json(
    v: SpecMsg,
    items: Option<(bool, Seq<char>)>,
    types: Seq<(String, TypeSpec)>,
    enums: Seq<(String, Vec<(String, String)>)>,
    o: RenderOptions,
) -> SpecJson
    decreases v, 2int,
{
    match v {
        SpecMsg::Array(xs) => SpecJson::Array(
            Seq::new(
                xs.len(),
                |i: int|
                    if 0 <= i < xs.len() {
                        match items {
                            Some((false, t)) => field_json(xs[i], item_field(t), types, enums, o),
                            Some((true, r)) => type_ref_json(xs[i], r, types, enums, o),
                            None => value_json(xs[i], o),
                        }
                    } else {
                        SpecJson::Null
                    },
            ),
        ),
        _ => SpecJson::Null,
    }
}

/// A map rendered by a registered type's latest version: its known fields
/// by name, and (when the options ask and there are any) its unknown tags
/// under `_unknown`; a type that is not registered, or a value that is
/// not a map, is rendered without a type.
pub open spec fn type_ref_json(
    v: SpecMsg,
    r: Seq<char>,
    types: Seq<(String, TypeSpec)>,
    enums: Seq<(String, Vec<(String, String)>)>,
    o: RenderOptions,
) -> SpecJson
    decreases v, 2int,
{
    match (latest_fields(types, r), v) {
        (Some(fields), SpecMsg::Table(es)) => {
            let data = members_put(known_pairs(es, fields, types, enums, o));
            let unknown = members_put(unknown_pairs(es, fields, o, es.len() as int));
            if o.include_unknown && unknown.len() > 0 {
                SpecJson::Object(member_put(data, "_unknown"@, SpecJson::Object(unknown)))
            } else {
                SpecJson::Object(data)
            }
        },
        _ => value_json(v, o),
    }
}

/// The members a map's known fields give, in the order of the fields: each
/// field whose tag the map has, under its name.
pub open spec fn known_pairs(
    es: Seq<(SpecMsg, SpecMsg)>,
    fields: Seq<(u64, FieldSpec)>,
    types: Seq<(String, TypeSpec)>,
    enums: Seq<(String, Vec<(String, String)>)>,
    o: RenderOptions,
) -> Seq<(Seq<char>, SpecJson)>
    decreases es, fields.len(),
{
    if fields.len() == 0 {
        seq![]
    } else {
        let (tag, f) = fields.last();
        known_pairs(es, fields.drop_last(), types, enums, o) + match tag_index(es, tag) {
            Some(i) => if 0 <= i < es.len() {
                seq![(f.name@, field_json(es[i].1, field_view(f), types, enums, o))]
            } else {
                seq![]
            },
            None => seq![],
        }
    }
}

/// The members the first `n` entries of a map give for tags the fields do
/// not know: each tag once (at its last entry), under its decimal text,
/// rendered without a type.
pub open spec fn unknown_pairs(es: Seq<(SpecMsg, SpecMsg)>, fields: Seq<(u64, FieldSpec)>, o: RenderOptions, n: int) -> Seq<
    (Seq<char>, SpecJson),
>
    decreases n,
{
    if n <= 0 || n > es.len() {
        seq![]
    } else {
        let i = n - 1;
        unknown_pairs(es, fields, o, n - 1) + match key_tag(es[i].0) {
            Some(t) => if tag_index(es, t) == Some(i) && field_at(fields, t) is None {
                seq![(decimal(t as nat), value_json(es[i].1, o))]
            } else {
                seq![]
            },
            None => seq![],
        }
    }
}

fn key_tag_exec(k: &MsgValue) -> (r: Option<u64>)
    ensures
        r == key_tag(k@),
{
    match k {
        MsgValue::UInt(u) => Some(*u),
        MsgValue::Str(Some(s)) => parse_u64(s.as_str()),
        _ => None,
    }
}

/// The entries of a map value.
pub open spec fn table_of(keys: Seq<MsgValue>, values: Seq<MsgValue>) -> Seq<(SpecMsg, SpecMsg)> {
    Seq::new(
        if keys.len() <= values.len() { keys.len() } else { values.len() },
        |i: int| (keys[i]@, values[i]@),
    )
}

proof fn lemma_table_view(v: MsgValue)
    requires
        v is Table,
    ensures
        v@ == SpecMsg::Table(table_of(v->Table_0@, v->Table_1@)),
{
    let keys = v->Table_0;
    let values = v->Table_1;
    assert(table_of(keys@, values@) =~= match v@ {
        SpecMsg::Table(m) => m,
        _ => Seq::empty(),
    });
}

fn tag_index_exec(keys: &Vec<MsgValue>, values: &Vec<MsgValue>, tag: u64) -> (r: Option<usize>)
    ensures
        match r {
            Some(i) => tag_index(table_of(keys@, values@), tag) == Some(i as int) && i < keys@.len() && i < values@.len(),
            None => tag_index(table_of(keys@, values@), tag) is None,
        },
{
    let n = if keys.len() <= values.len() { keys.len() } else { values.len() };
    let ghost es = table_of(keys@, values@);
    let mut i: usize = n;
    assert(es.take(n as int) =~= es);
    while i > 0
        invariant
            es == table_of(keys@, values@),
            es.len() == n,
            n <= keys@.len(),
            n <= values@.len(),
            i <= n,
            tag_index(es, tag) == tag_index(es.take(i as int), tag),
        decreases i,
    {
        let ghost pre = es.take(i as int);
        proof {
            assert(pre.drop_last() =~= es.take(i - 1));
            assert(pre.last() == es[i - 1]);
        }
        if key_tag_exec(&keys[i - 1]) == Some(tag) {
            return Some(i - 1);
        }
        i = i - 1;
    }
    assert(es.take(0) =~= Seq::<(SpecMsg, SpecMsg)>::empty());
    None
}

proof fn lemma_members_put_push(ps: Seq<(Seq<char>, SpecJson)>, p: (Seq<char>, SpecJson))
    ensures
        members_put(ps.push(p)) == member_put(members_put(ps), p.0, p.1),
{
    assert(ps.push(p).drop_last() =~= ps);
}

fn decimal_string(n: u64) -> (r: String)
    ensures
        r@ == decimal(n as nat),
{
    let mut out: Vec<char> = Vec::new();
    push_decimal(&mut out, n);
    assert(out@ =~= decimal(n as nat));
    string_from_chars(out.as_slice())
}

fn enum_render(num: u64, label: String, o: &RenderOptions) -> (r: JsonValue)
    ensures
        r@ == enum_json(num as int, label@, *o),
{
    match o.enum_render {
        EnumRender::Label => JsonValue::Str(label),
        EnumRender::Number => JsonValue::UInt(num),
        EnumRender::Both => {
            let mut b = ObjectBuilder::new();
            b.insert(owned("label"), JsonValue::Str(label));
            b.insert(owned("value"), JsonValue::UInt(num));
            proof {
                reveal_strlit("label");
                reveal_strlit("value");
                let m0 = Seq::<(Seq<char>, SpecJson)>::empty();
                assert(member_index(m0, "label"@) is None);
                let m1 = m0.push(("label"@, SpecJson::Str(label@)));
                assert(m1.drop_last() =~= m0);
                assert("label"@[0] != "value"@[0]);
                assert(m1.last().0 != "value"@);
                assert(member_index(m0, "value"@) is None);
                assert(member_index(m1, "value"@) is None);
            }
            let r = b.finish();
            proof {
                assert(r@->Object_0 =~= seq![("label"@, SpecJson::Str(label@)), ("value"@, SpecJson::UInt(num as int))]);
            }
            r
        },
    }
}

/// Renders a value as a field says (see [`field_json`]).
pub fn render_field_value(v: &MsgValue, f: &FieldSpec, reg: &Registry, o: &RenderOptions) -> (r: JsonValue)
    requires
        reg.wf(),
    ensures
        r@ == field_json(v@, field_view(*f), reg.types_spec(), reg.enums_spec(), *o),
    decreases v, 3int,
{
    let ghost fv = field_view(*f);
    if let Some(e) = &f.enum_ref {
        if let MsgValue::UInt(num) = v {
            if let Some(map) = reg.get_enum(e.as_str()) {
                let key = decimal_string(*num);
                if let Some(label) = label_exec(map, key.as_str()) {
                    return enum_render(*num, label, o);
                }
            }
        }
    }
    assert(enum_label(reg.enums_spec(), fv, v@) is None);
    let ft = f.field_type.as_str();
    if f.type_ref.is_some() && (str_eq(ft, "ref") || str_eq(ft, "map")) {
        match &f.type_ref {
            Some(tr) => {
                return render_type_ref(v, tr.as_str(), reg, o);
            },
            None => {},
        }
    }
    if str_eq(ft, "u64") || str_eq(ft, "uint64") || str_eq(ft, "i64") || str_eq(ft, "int64") {
        return match v {
            MsgValue::UInt(u) => u64_number(*u, o),
            _ => JsonValue::Null,
        };
    }
    if str_eq(ft, "u32") || str_eq(ft, "uint32") || str_eq(ft, "u8") || str_eq(ft, "uint8") || str_eq(ft, "int32") {
        return match msg_i64_exec(v) {
            Some(i) => int_json(i),
            None => JsonValue::Null,
        };
    }
    if str_eq(ft, "string") {
        return match v {
            MsgValue::Str(Some(t)) => JsonValue::Str(owned(t.as_str())),
            MsgValue::Str(None) => JsonValue::Str(String::new()),
            _ => JsonValue::Null,
        };
    }
    if str_eq(ft, "bool") {
        return match v {
            MsgValue::Boolean(b) => JsonValue::Bool(*b),
            _ => JsonValue::Null,
        };
    }
    if str_eq(ft, "bytes") || str_eq(ft, "typed_blob") {
        return match v {
            MsgValue::Binary(b) => bytes_render(b, o),
            _ => JsonValue::Null,
        };
    }
    if str_eq(ft, "array") {
        return render_array(v, &f.items, reg, o);
    }
    if str_eq(ft, "unix_ms") || str_eq(ft, "time_ms") || str_eq(ft, "timestamp_ms") {
        return time_render(v, o);
    }
    render_value(v, o)
}

/// The item type of an array field, viewed.
pub open spec fn items_view(items: Option<ItemsSpec>) -> Option<(bool, Seq<char>)> {
    match items {
        Some(ItemsSpec::Simple(s)) => Some((false, s@)),
        Some(ItemsSpec::Ref(s)) => Some((true, s@)),
        None => None,
    }
}

/// Renders an array item by item (see [`array_json`]).
fn render_array(v: &MsgValue, items: &Option<ItemsSpec>, reg: &Registry, o: &RenderOptions) -> (r: JsonValue)
    requires
        reg.wf(),
    ensures
        r@ == array_json(v@, items_view(*items), reg.types_spec(), reg.enums_spec(), *o),
    decreases v, 2int,
{
    match v {
        MsgValue::Array(xs) => {
            let ghost sxs = v@->Array_0;
            proof {
                assert(sxs.len() == xs@.len());
            }
            let mut out: Vec<JsonValue> = Vec::new();
            let mut i: usize = 0;
            while i < xs.len()
                invariant
                    *v == MsgValue::Array(*xs),
                    sxs == v@->Array_0,
                    sxs.len() == xs@.len(),
                    reg.wf(),
                    i <= xs@.len(),
                    out@.len() == i,
                    forall|j: int|
                        0 <= j < i ==> (#[trigger] out@[j])@ == match items_view(*items) {
                            Some((false, t)) => field_json(sxs[j], item_field(t), reg.types_spec(), reg.enums_spec(), *o),
                            Some((true, r)) => type_ref_json(sxs[j], r, reg.types_spec(), reg.enums_spec(), *o),
                            None => value_json(sxs[j], *o),
                        },
                decreases xs@.len() - i,
            {
                proof {
                    assert(decreases_to!(*v => xs@[i as int]));
                    assert(sxs[i as int] == xs@[i as int]@);
                }
                let x = match items {
                    Some(ItemsSpec::Simple(t)) => {
                        let field = FieldSpec {
                            name: String::new(),
                            field_type: owned(t.as_str()),
                            enum_ref: None,
                            type_ref: None,
                            optional: false,
                            items: None,
                        };
                        proof {
                            assert(field_view(field) == item_field(t@));
                        }
                        render_field_value(&xs[i], &field, reg, o)
                    },
                    Some(ItemsSpec::Ref(t)) => render_type_ref(&xs[i], t.as_str(), reg, o),
                    None => render_value(&xs[i], o),
                };
                out.push(x);
                i = i + 1;
            }
            let r = JsonValue::Array(out);
            proof {
                assert(r@->Array_0 =~= array_json(v@, items_view(*items), reg.types_spec(), reg.enums_spec(), *o)->Array_0);
            }
            r
        },
        _ => JsonValue::Null,
    }
}

/// Renders a map by a registered type (see [`type_ref_json`]).
fn render_type_ref(v: &MsgValue, type_ref: &str, reg: &Registry, o: &RenderOptions) -> (r: JsonValue)
    requires
        reg.wf(),
    ensures
        r@ == type_ref_json(v@, type_ref@, reg.types_spec(), reg.enums_spec(), *o),
    decreases v, 2int,
{
    let spec = match reg.get_latest_type_version(type_ref) {
        Some(s) => s,
        None => {
            return render_value(v, o);
        },
    };
    match v {
        MsgValue::Table(keys, values) => {
            proof {
                lemma_table_view(*v);
            }
            let mut data = render_known(v, &spec.fields, reg, o);
            let unknown = render_unknown(keys, values, &spec.fields, o);
            if o.include_unknown && !unknown.is_empty() {
                data.insert(owned("_unknown"), unknown.finish());
            }
            data.finish()
        },
        _ => render_value(v, o),
    }
}

/// The known fields of a map (see [`known_pairs`]).
fn render_known(v: &MsgValue, fields: &Vec<(u64, FieldSpec)>, reg: &Registry, o: &RenderOptions) -> (b: ObjectBuilder)
    requires
        reg.wf(),
        v is Table,
    ensures
        b.wf(),
        b.members() == members_put(known_pairs(v@->Table_0, fields@, reg.types_spec(), reg.enums_spec(), *o)),
    decreases v, 1int,
{
    match v {
        MsgValue::Table(keys, values) => {
            proof {
                lemma_table_view(*v);
            }
            let ghost es = table_of(keys@, values@);
            let mut b = ObjectBuilder::new();
            let mut j: usize = 0;
            proof {
                assert(fields@.take(0) =~= Seq::<(u64, FieldSpec)>::empty());
            }
            while j < fields.len()
                invariant
                    *v == MsgValue::Table(*keys, *values),
                    es == table_of(keys@, values@),
                    v@ == SpecMsg::Table(es),
                    reg.wf(),
                    j <= fields@.len(),
                    b.wf(),
                    b.members() == members_put(known_pairs(es, fields@.take(j as int), reg.types_spec(), reg.enums_spec(), *o)),
                decreases fields@.len() - j,
            {
                let ghost pre = fields@.take(j as int);
                let ghost post = fields@.take(j + 1);
                proof {
                    assert(post.drop_last() =~= pre);
                    assert(post.last() == fields@[j as int]);
                }
                let tag = fields[j].0;
                let f = &fields[j].1;
                match tag_index_exec(keys, values, tag) {
                    Some(i) => {
                        proof {
                            assert(decreases_to!(*v => values@[i as int]));
                            assert(es[i as int].1 == values@[i as int]@);
                        }
                        let x = render_field_value(&values[i], f, reg, o);
                        let ghost p = (f.name@, x@);
                        b.insert(owned(f.name.as_str()), x);
                        proof {
                            let kp = known_pairs(es, pre, reg.types_spec(), reg.enums_spec(), *o);
                            assert(known_pairs(es, post, reg.types_spec(), reg.enums_spec(), *o) =~= kp.push(p));
                            lemma_members_put_push(kp, p);
                        }
                    },
                    None => {
                        proof {
                            let kp = known_pairs(es, pre, reg.types_spec(), reg.enums_spec(), *o);
                            assert(known_pairs(es, post, reg.types_spec(), reg.enums_spec(), *o) =~= kp);
                        }
                    },
                }
                j = j + 1;
            }
            proof {
                assert(fields@.take(fields@.len() as int) =~= fields@);
            }
            b
        },
        _ => {
            proof {
                assert(false);
            }
            ObjectBuilder::new()
        },
    }
}

/// The unknown tags of a map (see [`unknown_pairs`]).
fn render_unknown(keys: &Vec<MsgValue>, values: &Vec<MsgValue>, fields: &Vec<(u64, FieldSpec)>, o: &RenderOptions) -> (b: ObjectBuilder)
    ensures
        b.wf(),
        b.members() == members_put(unknown_pairs(table_of(keys@, values@), fields@, *o, table_of(keys@, values@).len() as int)),
{
    let ghost es = table_of(keys@, values@);
    let n = if keys.len() <= values.len() { keys.len() } else { values.len() };
    let mut b = ObjectBuilder::new();
    let mut i: usize = 0;
    proof {
        assert(unknown_pairs(es, fields@, *o, 0) =~= Seq::<(Seq<char>, SpecJson)>::empty());
    }
    while i < n
        invariant
            es == table_of(keys@, values@),
            es.len() == n,
            n <= keys@.len(),
            n <= values@.len(),
            i <= n,
            b.wf(),
            b.members() == members_put(unknown_pairs(es, fields@, *o, i as int)),
        decreases n - i,
    {
        let ghost pre = unknown_pairs(es, fields@, *o, i as int);
        proof {
            assert(es[i as int] == (keys@[i as int]@, values@[i as int]@));
        }
        match key_tag_exec(&keys[i]) {
            Some(t) => {
                let last = tag_index_exec(keys, values, t);
                let known = field_at_exec(fields, t);
                if last == Some(i) && known.is_none() {
                    let x = render_value(&values[i], o);
                    let ghost p = (decimal(t as nat), x@);
                    b.insert(decimal_string(t), x);
                    proof {
                        assert(unknown_pairs(es, fields@, *o, i + 1) =~= pre.push(p));
                        lemma_members_put_push(pre, p);
                    }
                } else {
                    proof {
                        if last == Some(i) {
                            assert(field_at(fields@, t) is Some);
                        } else {
                            assert(tag_index(es, t) != Some(i as int));
                        }
                        assert(unknown_pairs(es, fields@, *o, i + 1) =~= pre);
                    }
                }
            },
            None => {
                proof {
                    assert(unknown_pairs(es, fields@, *o, i + 1) =~= pre);
                }
            },
        }
        i = i + 1;
    }
    b
}

// ---------------------------------------------------------------------------
// Payloads
// ---------------------------------------------------------------------------

/// A payload value projected by a type version: a map's known fields by
/// name, and its unknown tags when the options ask (an object, perhaps
/// empty); a value that is not a map is refused.
pub fn project_value(v: &MsgValue, descriptor: &TypeVersionSpec, reg: &Registry, o: &RenderOptions) -> (r: Result<
    ProjectionResult,
    StoreError,
>)
    requires
        reg.wf(),
    ensures
        match v@ {
            SpecMsg::Table(es) => r matches Ok(p) && p.data@ == SpecJson::Object(
                members_put(known_pairs(es, descriptor.fields@, reg.types_spec(), reg.enums_spec(), *o)),
            ) && (if o.include_unknown {
                p.unknown matches Some(u) && u@ == SpecJson::Object(
                    members_put(unknown_pairs(es, descriptor.fields@, *o, es.len() as int)),
                )
            } else {
                p.unknown is None
            }),
            _ => r matches Err(e) && e@ == SpecStoreError::InvalidInput("payload is not a map"@),
        },
{
    match v {
        MsgValue::Table(keys, values) => {
            proof {
                lemma_table_view(*v);
            }
            let data = render_known(v, &descriptor.fields, reg, o);
            let unknown = if o.include_unknown {
                Some(render_unknown(keys, values, &descriptor.fields, o).finish())
            } else {
                None
            };
            Ok(ProjectionResult { data: data.finish(), unknown })
        },
        _ => Err(StoreError::InvalidInput(owned("payload is not a map"))),
    }
}

/// Projects a MessagePack payload by a type version: bytes that do not
/// decode are refused, otherwise as [`project_value`].
pub fn project_msgpack(payload: &[u8], descriptor: &TypeVersionSpec, reg: &Registry, o: &RenderOptions) -> (r: Result<
    ProjectionResult,
    StoreError,
>)
    requires
        reg.wf(),
    ensures
        msgpack_decoded(payload@) is None ==> (r matches Err(e) && e@ == SpecStoreError::InvalidInput(
            "msgpack decode error: "@ + msgpack_error(payload@),
        )),
        msgpack_decoded(payload@) matches Some(SpecMsg::Table(es)) ==> (r matches Ok(p) && p.data@ == SpecJson::Object(
            members_put(known_pairs(es, descriptor.fields@, reg.types_spec(), reg.enums_spec(), *o)),
        )),
        msgpack_decoded(payload@) matches Some(d) && !(d is Table) ==> (r matches Err(e) && e@
            == SpecStoreError::InvalidInput("payload is not a map"@)),
{
    match read_msgpack(payload) {
        Ok(v) => project_value(&v, descriptor, reg, o),
        Err(m) => Err(StoreError::InvalidInput(concat("msgpack decode error: ", m.as_str()))),
    }
}


/// A field declared `bool` projects a msgpack boolean to that same JSON
/// boolean, and a field declared `string` projects a msgpack string to that
/// same JSON string, whatever the registry and the options.
pub proof fn law_scalar_fields_keep_their_value(
    b: bool,
    t: Seq<char>,
    f: FieldView,
    types: Seq<(String, TypeSpec)>,
    enums: Seq<(String, Vec<(String, String)>)>,
    o: RenderOptions,
)
    ensures
        f.field_type == "bool"@ ==> field_json(SpecMsg::Boolean(b), f, types, enums, o) == SpecJson::Bool(b),
        f.field_type == "string"@ ==> field_json(SpecMsg::Str(t), f, types, enums, o) == SpecJson::Str(t),
{
    reveal_strlit("bool");
    reveal_strlit("string");
    reveal_strlit("ref");
    reveal_strlit("map");
    reveal_strlit("u64");
    reveal_strlit("uint64");
    reveal_strlit("i64");
    reveal_strlit("int64");
    reveal_strlit("u32");
    reveal_strlit("uint32");
    reveal_strlit("u8");
    reveal_strlit("uint8");
    reveal_strlit("int32");
    assert("bool"@ != "string"@) by {
        assert("bool"@.len() != "string"@.len());
    }
    assert("bool"@ != "ref"@) by {
        assert("bool"@.len() != "ref"@.len());
    }
    assert("bool"@ != "map"@) by {
        assert("bool"@.len() != "map"@.len());
    }
    assert("string"@ != "ref"@) by {
        assert("string"@.len() != "ref"@.len());
    }
    assert("string"@ != "map"@) by {
        assert("string"@.len() != "map"@.len());
    }
    assert(!is_u64_type("bool"@)) by {
        assert("bool"@.len() != "u64"@.len());
        assert("bool"@[0] != "uint64"@[0]);
        assert("bool"@.len() != "i64"@.len());
        assert("bool"@[0] != "int64"@[0]);
    }
    assert(!is_int_type("bool"@)) by {
        assert("bool"@.len() != "u32"@.len());
        assert("bool"@[0] != "uint32"@[0]);
        assert("bool"@.len() != "u8"@.len());
        assert("bool"@[0] != "uint8"@[0]);
        assert("bool"@[0] != "int32"@[0]);
    }
    assert(!is_u64_type("string"@)) by {
        assert("string"@[0] != "u64"@[0]);
        assert("string"@[0] != "uint64"@[0]);
        assert("string"@[0] != "i64"@[0]);
        assert("string"@[0] != "int64"@[0]);
    }
    assert(!is_int_type("string"@)) by {
        assert("string"@[0] != "u32"@[0]);
        assert("string"@[0] != "uint32"@[0]);
        assert("string"@[0] != "u8"@[0]);
        assert("string"@[0] != "uint8"@[0]);
        assert("string"@[0] != "int32"@[0]);
    }
}


/// A field declared `u64` without an enum projects a msgpack unsigned
/// integer to that number (or its decimal text, when the options say so);
/// a field declared `u32` projects an integer to that same integer.
pub proof fn law_integer_fields_keep_their_value(
    u: int,
    i: int,
    f: FieldView,
    types: Seq<(String, TypeSpec)>,
    enums: Seq<(String, Vec<(String, String)>)>,
    o: RenderOptions,
)
    requires
        0 <= u,
        i < 0,
    ensures
        f.field_type == "u64"@ && f.enum_ref is None && o.u64_format == U64Format::Number ==> field_json(
            SpecMsg::UInt(u),
            f,
            types,
            enums,
            o,
        ) == SpecJson::UInt(u),
        f.field_type == "u64"@ && f.enum_ref is None && o.u64_format == U64Format::String ==> field_json(
            SpecMsg::UInt(u),
            f,
            types,
            enums,
            o,
        ) == SpecJson::Str(decimal(u as nat)),
        f.field_type == "u32"@ && f.enum_ref is None && u <= i64::MAX ==> field_json(SpecMsg::UInt(u), f, types, enums, o)
            == SpecJson::UInt(u),
        f.field_type == "u32"@ && f.enum_ref is None ==> field_json(SpecMsg::NegInt(i), f, types, enums, o)
            == SpecJson::NegInt(i),
{
    reveal_strlit("ref");
    reveal_strlit("map");
    reveal_strlit("u64");
    reveal_strlit("uint64");
    reveal_strlit("i64");
    reveal_strlit("int64");
    reveal_strlit("u32");
    assert("u64"@[0] != "ref"@[0]);
    assert("u64"@[0] != "map"@[0]);
    assert("u32"@[0] != "ref"@[0]);
    assert("u32"@[0] != "map"@[0]);
    assert(!is_u64_type("u32"@)) by {
        assert("u32"@[1] != "u64"@[1]);
        assert("u32"@.len() != "uint64"@.len());
        assert("u32"@[0] != "i64"@[0]);
        assert("u32"@.len() != "int64"@.len());
    }
}

} // verus!
