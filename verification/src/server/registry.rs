//! The type registry: bundles of type and enum descriptions, merged into
//! one view of every type's versions and fields.
//!
//! A bundle may add enums and type versions; it may not change an enum, a
//! version's fields, or the meaning of a field tag that an earlier version
//! of the type gave.  After a bundle is taken in, every enum that a field
//! names must exist.  Bundles are parsed from JSON and written to disk by
//! the program; the registry keeps their bytes.
use vstd::prelude::*;
use crate::client::json::{JsonValue, SpecJson};
use crate::server::error::{SpecStoreError, StoreError};
use crate::text::{chars_of, concat, decimal, owned, parse_u64, push_decimal, push_str, str_eq, string_from_chars, u64_text_value};

verus! {

/// A bundle as parsed from its JSON: its version, id, types and enums.
#[derive(Debug)]
pub struct RegistryBundle {
    pub registry_version: u32,
    pub bundle_id: String,
    pub types: Vec<(String, TypeEntry)>,
    /// Enum id and its mapping from value to label.
    pub enums: Vec<(String, Vec<(String, String)>)>,
}

/// The versions of a type in a bundle, by version text.
#[derive(Debug)]
pub struct TypeEntry {
    pub versions: Vec<(String, TypeVersion)>,
}

/// How a frontend displays payloads of a type.
#[derive(Debug, Clone)]
pub struct RendererSpec {
    pub esm_url: String,
    pub component: Option<String>,
    pub integrity: Option<String>,
}

/// A type version in a bundle: its fields by tag text, and its renderer.
#[derive(Debug)]
pub struct TypeVersion {
    pub fields: Vec<(String, FieldDef)>,
    pub renderer: Option<RendererSpec>,
}

/// A field as a bundle describes it.
#[derive(Debug)]
pub struct FieldDef {
    pub name: String,
    pub field_type: String,
    pub enum_ref: Option<String>,
    pub type_ref: Option<String>,
    pub optional: Option<bool>,
    pub items: Option<JsonValue>,
}

/// The item type of an array field.
#[derive(Debug, Clone)]
pub enum ItemsSpec {
    /// A simple type such as `string`.
    Simple(String),
    /// Another registered type.
    Ref(String),
}

/// A field of a registered type version.
#[derive(Debug, Clone)]
pub struct FieldSpec {
    pub name: String,
    pub field_type: String,
    pub enum_ref: Option<String>,
    pub type_ref: Option<String>,
    pub optional: bool,
    pub items: Option<ItemsSpec>,
}

/// A registered type version: its fields by tag.
#[derive(Debug, Clone)]
pub struct TypeVersionSpec {
    pub version: u32,
    pub fields: Vec<(u64, FieldSpec)>,
    pub renderer: Option<RendererSpec>,
}

/// A registered type: its versions in increasing order, and what each tag
/// means across them.
#[derive(Debug, Clone)]
pub struct TypeSpec {
    pub versions: Vec<(u32, TypeVersionSpec)>,
    pub tag_schema: Vec<(u64, FieldSignature)>,
}

/// What a tag means: its type and enum.
#[derive(Debug, Clone)]
pub struct FieldSignature {
    pub field_type: String,
    pub enum_ref: Option<String>,
}

/// Whether a bundle was new.
#[derive(Debug, Clone, Copy, PartialEq, Eq, Structural)]
pub enum PutOutcome {
    Created,
    AlreadyExists,
}

/// Counts of the registry.
#[derive(Debug, Clone, Copy)]
pub struct RegistryStats {
    pub bundles_total: usize,
    pub types_total: usize,
    pub enums_total: usize,
}

// ---------------------------------------------------------------------------
// Keyed lists
// ---------------------------------------------------------------------------

/// The index of the first entry with this key.
pub open spec fn index_of_str<V>(entries: Seq<(String, V)>, key: Seq<char>) -> Option<int>
    decreases entries.len(),
{
    if entries.len() == 0 {
        None
    } else {
        match index_of_str(entries.drop_last(), key) {
            Some(i) => Some(i),
            None => if entries.last().0@ == key {
                Some(entries.len() - 1)
            } else {
                None
            },
        }
    }
}

/// The index of the first entry with this key.
pub open spec fn index_of_num<K, V>(entries: Seq<(K, V)>, key: K) -> Option<int>
    decreases entries.len(),
{
    if entries.len() == 0 {
        None
    } else {
        match index_of_num(entries.drop_last(), key) {
            Some(i) => Some(i),
            None => if entries.last().0 == key {
                Some(entries.len() - 1)
            } else {
                None
            },
        }
    }
}

proof fn lemma_index_of_str<V>(entries: Seq<(String, V)>, key: Seq<char>)
    ensures
        index_of_str(entries, key) matches Some(i) ==> 0 <= i < entries.len() && entries[i].0@ == key,
        index_of_str(entries, key) is None ==> forall|i: int| 0 <= i < entries.len() ==> entries[i].0@ != key,
    decreases entries.len(),
{
    if entries.len() > 0 {
        lemma_index_of_str(entries.drop_last(), key);
        if index_of_str(entries, key) is None {
            assert forall|i: int| 0 <= i < entries.len() implies entries[i].0@ != key by {
                if i < entries.len() - 1 {
                    assert(entries.drop_last()[i] == entries[i]);
                }
            }
        }
    }
}

proof fn lemma_index_of_num<K, V>(entries: Seq<(K, V)>, key: K)
    ensures
        index_of_num(entries, key) matches Some(i) ==> 0 <= i < entries.len() && entries[i].0 == key,
        index_of_num(entries, key) is None ==> forall|i: int| 0 <= i < entries.len() ==> entries[i].0 != key,
    decreases entries.len(),
{
    if entries.len() > 0 {
        lemma_index_of_num(entries.drop_last(), key);
        if index_of_num(entries, key) is None {
            assert forall|i: int| 0 <= i < entries.len() implies entries[i].0 != key by {
                if i < entries.len() - 1 {
                    assert(entries.drop_last()[i] == entries[i]);
                }
            }
        }
    }
}

proof fn lemma_index_of_str_push<V>(entries: Seq<(String, V)>, e: (String, V), key: Seq<char>)
    ensures
        index_of_str(entries.push(e), key) == match index_of_str(entries, key) {
            Some(i) => Some(i),
            None => if e.0@ == key {
                Some(entries.len() as int)
            } else {
                None
            },
        },
{
    assert(entries.push(e).drop_last() =~= entries);
}

/// The first entry with this key.
pub fn find_str<V>(entries: &Vec<(String, V)>, key: &str) -> (r: Option<usize>)
    ensures
        match r {
            Some(i) => index_of_str(entries@, key@) == Some(i as int),
            None => index_of_str(entries@, key@) is None,
        },
{
    let mut i: usize = 0;
    while i < entries.len()
        invariant
            i <= entries@.len(),
            index_of_str(entries@.take(i as int), key@) is None,
        decreases entries@.len() - i,
    {
        assert(entries@.take(i + 1) =~= entries@.take(i as int).push(entries@[i as int]));
        proof {
            lemma_index_of_str_push(entries@.take(i as int), entries@[i as int], key@);
        }
        if str_eq(entries[i].0.as_str(), key) {
            proof {
                lemma_index_of_str_prefix(entries@, key@, i as int);
            }
            return Some(i);
        }
        i = i + 1;
    }
    assert(entries@.take(entries@.len() as int) =~= entries@);
    None
}

proof fn lemma_index_of_str_prefix<V>(entries: Seq<(String, V)>, key: Seq<char>, i: int)
    requires
        0 <= i < entries.len(),
        index_of_str(entries.take(i + 1), key) == Some(i),
    ensures
        index_of_str(entries, key) == Some(i),
    decreases entries.len(),
{
    if entries.len() > i + 1 {
        assert(entries.drop_last().take(i + 1) =~= entries.take(i + 1));
        lemma_index_of_str_prefix(entries.drop_last(), key, i);
    } else {
        assert(entries.take(i + 1) =~= entries);
    }
}

proof fn lemma_index_of_num_prefix<K, V>(entries: Seq<(K, V)>, key: K, i: int)
    requires
        0 <= i < entries.len(),
        index_of_num(entries.take(i + 1), key) == Some(i),
    ensures
        index_of_num(entries, key) == Some(i),
    decreases entries.len(),
{
    if entries.len() > i + 1 {
        assert(entries.drop_last().take(i + 1) =~= entries.take(i + 1));
        lemma_index_of_num_prefix(entries.drop_last(), key, i);
    } else {
        assert(entries.take(i + 1) =~= entries);
    }
}

/// The first entry with this numeric key.
pub fn find_u64<V>(entries: &Vec<(u64, V)>, key: u64) -> (r: Option<usize>)
    ensures
        match r {
            Some(i) => index_of_num(entries@, key) == Some(i as int),
            None => index_of_num(entries@, key) is None,
        },
{
    let mut i: usize = 0;
    while i < entries.len()
        invariant
            i <= entries@.len(),
            index_of_num(entries@.take(i as int), key) is None,
        decreases entries@.len() - i,
    {
        assert(entries@.take(i + 1).drop_last() =~= entries@.take(i as int));
        if entries[i].0 == key {
            proof {
                lemma_index_of_num_prefix(entries@, key, i as int);
            }
            return Some(i);
        }
        i = i + 1;
    }
    assert(entries@.take(entries@.len() as int) =~= entries@);
    None
}

/// The first entry with this version.
pub fn find_u32<V>(entries: &Vec<(u32, V)>, key: u32) -> (r: Option<usize>)
    ensures
        match r {
            Some(i) => index_of_num(entries@, key) == Some(i as int),
            None => index_of_num(entries@, key) is None,
        },
{
    let mut i: usize = 0;
    while i < entries.len()
        invariant
            i <= entries@.len(),
            index_of_num(entries@.take(i as int), key) is None,
        decreases entries@.len() - i,
    {
        assert(entries@.take(i + 1).drop_last() =~= entries@.take(i as int));
        if entries[i].0 == key {
            proof {
                lemma_index_of_num_prefix(entries@, key, i as int);
            }
            return Some(i);
        }
        i = i + 1;
    }
    assert(entries@.take(entries@.len() as int) =~= entries@);
    None
}

// ---------------------------------------------------------------------------
// Equality of mappings and fields
// ---------------------------------------------------------------------------

/// The label of a value in an enum mapping (the first entry for it).
pub open spec fn label_of(m: Seq<(String, String)>, k: Seq<char>) -> Option<Seq<char>> {
    match index_of_str(m, k) {
        Some(i) => Some(m[i].1@),
        None => None,
    }
}

/// Whether two enum mappings map the same values to the same labels.
pub open spec fn same_mapping(a: Seq<(String, String)>, b: Seq<(String, String)>) -> bool {
    forall|k: Seq<char>| #[trigger] label_of(a, k) == label_of(b, k)
}

pub(crate) fn label_exec(m: &Vec<(String, String)>, k: &str) -> (r: Option<String>)
    ensures
        match r {
            Some(v) => label_of(m@, k@) == Some(v@),
            None => label_of(m@, k@) is None,
        },
{
    match find_str(m, k) {
        Some(i) => {
            proof {
                lemma_index_of_str(m@, k@);
            }
            Some(owned(m[i].1.as_str()))
        },
        None => None,
    }
}

fn opt_str_eq(a: &Option<String>, b: &Option<String>) -> (r: bool)
    ensures
        r == (opt_view(*a) == opt_view(*b)),
{
    match (a, b) {
        (Some(x), Some(y)) => str_eq(x.as_str(), y.as_str()),
        (None, None) => true,
        _ => false,
    }
}

pub open spec fn opt_view(a: Option<String>) -> Option<Seq<char>> {
    match a {
        Some(x) => Some(x@),
        None => None,
    }
}

/// Whether two enum mappings are equal as maps.
pub fn mapping_eq(a: &Vec<(String, String)>, b: &Vec<(String, String)>) -> (r: bool)
    ensures
        r == same_mapping(a@, b@),
{
    let mut i: usize = 0;
    while i < a.len()
        invariant
            i <= a@.len(),
            forall|j: int| 0 <= j < i ==> label_of(a@, #[trigger] a@[j].0@) == label_of(b@, a@[j].0@),
        decreases a@.len() - i,
    {
        let la = label_exec(a, a[i].0.as_str());
        let lb = label_exec(b, a[i].0.as_str());
        if !opt_str_eq(&la, &lb) {
            return false;
        }
        i = i + 1;
    }
    let mut j: usize = 0;
    while j < b.len()
        invariant
            j <= b@.len(),
            forall|k: int| 0 <= k < a@.len() ==> label_of(a@, #[trigger] a@[k].0@) == label_of(b@, a@[k].0@),
            forall|k: int| 0 <= k < j ==> label_of(a@, #[trigger] b@[k].0@) == label_of(b@, b@[k].0@),
        decreases b@.len() - j,
    {
        let la = label_exec(a, b[j].0.as_str());
        let lb = label_exec(b, b[j].0.as_str());
        if !opt_str_eq(&la, &lb) {
            return false;
        }
        j = j + 1;
    }
    proof {
        assert forall|k: Seq<char>| #[trigger] label_of(a@, k) == label_of(b@, k) by {
            lemma_index_of_str(a@, k);
            lemma_index_of_str(b@, k);
            if let Some(i) = index_of_str(a@, k) {
                assert(label_of(a@, a@[i].0@) == label_of(b@, a@[i].0@));
            } else if let Some(i) = index_of_str(b@, k) {
                assert(label_of(a@, b@[i].0@) == label_of(b@, b@[i].0@));
            }
        }
    }
    true
}

/// The mathematical form of a field.
pub struct FieldView {
    pub name: Seq<char>,
    pub field_type: Seq<char>,
    pub enum_ref: Option<Seq<char>>,
    pub type_ref: Option<Seq<char>>,
    pub optional: bool,
    pub items: Option<(bool, Seq<char>)>,
}

pub open spec fn field_view(f: FieldSpec) -> FieldView {
    FieldView {
        name: f.name@,
        field_type: f.field_type@,
        enum_ref: opt_view(f.enum_ref),
        type_ref: opt_view(f.type_ref),
        optional: f.optional,
        items: match f.items {
            Some(ItemsSpec::Simple(s)) => Some((false, s@)),
            Some(ItemsSpec::Ref(s)) => Some((true, s@)),
            None => None,
        },
    }
}

fn field_eq(a: &FieldSpec, b: &FieldSpec) -> (r: bool)
    ensures
        r == (field_view(*a) == field_view(*b)),
{
    let items_eq = match (&a.items, &b.items) {
        (Some(ItemsSpec::Simple(x)), Some(ItemsSpec::Simple(y))) => str_eq(x.as_str(), y.as_str()),
        (Some(ItemsSpec::Ref(x)), Some(ItemsSpec::Ref(y))) => str_eq(x.as_str(), y.as_str()),
        (None, None) => true,
        _ => false,
    };
    str_eq(a.name.as_str(), b.name.as_str()) && str_eq(a.field_type.as_str(), b.field_type.as_str())
        && opt_str_eq(&a.enum_ref, &b.enum_ref) && opt_str_eq(&a.type_ref, &b.type_ref) && a.optional
        == b.optional && items_eq
}

/// The field at a tag (the first entry for it).
pub open spec fn field_at(fs: Seq<(u64, FieldSpec)>, tag: u64) -> Option<FieldView> {
    match index_of_num(fs, tag) {
        Some(i) => Some(field_view(fs[i].1)),
        None => None,
    }
}

/// Whether two field lists give the same field at every tag.
pub open spec fn same_fields(a: Seq<(u64, FieldSpec)>, b: Seq<(u64, FieldSpec)>) -> bool {
    forall|t: u64| #[trigger] field_at(a, t) == field_at(b, t)
}

pub(crate) fn field_at_exec(fs: &Vec<(u64, FieldSpec)>, tag: u64) -> (r: Option<usize>)
    ensures
        match r {
            Some(i) => i < fs@.len() && field_at(fs@, tag) == Some(field_view(fs@[i as int].1)),
            None => field_at(fs@, tag) is None,
        },
{
    let r = find_u64(fs, tag);
    proof {
        lemma_index_of_num(fs@, tag);
    }
    r
}

/// Whether two field lists are equal as maps from tag to field.
pub fn fields_eq(a: &Vec<(u64, FieldSpec)>, b: &Vec<(u64, FieldSpec)>) -> (r: bool)
    ensures
        r == same_fields(a@, b@),
{
    let mut i: usize = 0;
    while i < a.len()
        invariant
            i <= a@.len(),
            forall|j: int| 0 <= j < i ==> field_at(a@, #[trigger] a@[j].0) == field_at(b@, a@[j].0),
        decreases a@.len() - i,
    {
        let t = a[i].0;
        let x = field_at_exec(a, t);
        let y = field_at_exec(b, t);
        let same = match (x, y) {
            (Some(p), Some(q)) => field_eq(&a[p].1, &b[q].1),
            (None, None) => true,
            _ => false,
        };
        if !same {
            return false;
        }
        i = i + 1;
    }
    let mut j: usize = 0;
    while j < b.len()
        invariant
            j <= b@.len(),
            forall|k: int| 0 <= k < a@.len() ==> field_at(a@, #[trigger] a@[k].0) == field_at(b@, a@[k].0),
            forall|k: int| 0 <= k < j ==> field_at(a@, #[trigger] b@[k].0) == field_at(b@, b@[k].0),
        decreases b@.len() - j,
    {
        let t = b[j].0;
        let x = field_at_exec(a, t);
        let y = field_at_exec(b, t);
        let same = match (x, y) {
            (Some(p), Some(q)) => field_eq(&a[p].1, &b[q].1),
            (None, None) => true,
            _ => false,
        };
        if !same {
            return false;
        }
        j = j + 1;
    }
    proof {
        assert forall|t: u64| #[trigger] field_at(a@, t) == field_at(b@, t) by {
            lemma_index_of_num(a@, t);
            lemma_index_of_num(b@, t);
            if let Some(i) = index_of_num(a@, t) {
                assert(field_at(a@, a@[i].0) == field_at(b@, a@[i].0));
            } else if let Some(i) = index_of_num(b@, t) {
                assert(field_at(a@, b@[i].0) == field_at(b@, b@[i].0));
            }
        }
    }
    true
}

// ---------------------------------------------------------------------------
// Normalising a bundle's type version
// ---------------------------------------------------------------------------

/// A version number as a bundle writes it (`str::parse::<u32>`).
pub open spec fn version_value(s: Seq<char>) -> Option<u32> {
    match u64_text_value(s) {
        Some(v) => if v <= u32::MAX {
            Some(v as u32)
        } else {
            None
        },
        None => None,
    }
}

/// Reads a version number; an invalid one is rejected.
pub fn parse_version(s: &str) -> (r: Result<u32, StoreError>)
    ensures
        match version_value(s@) {
            Some(v) => r == Ok::<u32, StoreError>(v),
            None => r matches Err(e) && e@ == SpecStoreError::InvalidInput("invalid type version"@),
        },
{
    match parse_u64(s) {
        Some(v) => if v <= u32::MAX as u64 {
            Ok(v as u32)
        } else {
            Err(StoreError::InvalidInput(owned("invalid type version")))
        },
        None => Err(StoreError::InvalidInput(owned("invalid type version"))),
    }
}

/// The string member of a JSON object with this key, if it is a string.
pub open spec fn string_member(members: Seq<(Seq<char>, SpecJson)>, key: Seq<char>) -> Option<Seq<char>>
    decreases members.len(),
{
    if members.len() == 0 {
        None
    } else {
        match string_member(members.drop_last(), key) {
            Some(s) => Some(s),
            None => if members.last().0 == key {
                match members.last().1 {
                    SpecJson::Str(s) => Some(s),
                    _ => None,
                }
            } else {
                None
            },
        }
    }
}

/// The item type a field's `items` describes: a string is a simple type;
/// an object with `type` `ref` and a string `ref` names another type, with
/// another `type` names a simple type, without `type` but with a string
/// `ref` names another type.
pub open spec fn items_of(v: Option<SpecJson>) -> Option<(bool, Seq<char>)> {
    match v {
        Some(SpecJson::Str(s)) => Some((false, s)),
        Some(SpecJson::Object(m)) => match string_member(m, "type"@) {
            Some(t) => if t == "ref"@ {
                match string_member(m, "ref"@) {
                    Some(r) => Some((true, r)),
                    None => None,
                }
            } else {
                Some((false, t))
            },
            None => match string_member(m, "ref"@) {
                Some(r) => Some((true, r)),
                None => None,
            },
        },
        _ => None,
    }
}

fn string_member_exec(keys: &Vec<String>, values: &Vec<JsonValue>, n: usize, key: &str) -> (r: Option<String>)
    requires
        n <= keys@.len(),
        n <= values@.len(),
    ensures
        ({
            let m = Seq::new(n as nat, |i: int| (keys@[i]@, values@[i]@));
            match r {
                Some(s) => string_member(m, key@) == Some(s@),
                None => string_member(m, key@) is None,
            }
        }),
{
    let ghost m = Seq::new(n as nat, |i: int| (keys@[i]@, values@[i]@));
    let mut i: usize = 0;
    while i < n
        invariant
            i <= n,
            n <= keys@.len(),
            n <= values@.len(),
            m == Seq::new(n as nat, |i: int| (keys@[i]@, values@[i]@)),
            string_member(m.take(i as int), key@) is None,
        decreases n - i,
    {
        assert(m.take(i + 1).drop_last() =~= m.take(i as int));
        assert(m.take(i + 1).last() == (keys@[i as int]@, values@[i as int]@));
        if str_eq(keys[i].as_str(), key) {
            match &values[i] {
                JsonValue::Str(s) => {
                    proof {
                        lemma_string_member_prefix(m, key@, i as int);
                    }
                    return Some(owned(s.as_str()));
                },
                _ => {},
            }
        }
        i = i + 1;
    }
    assert(m.take(m.len() as int) =~= m);
    None
}

proof fn lemma_string_member_prefix(m: Seq<(Seq<char>, SpecJson)>, key: Seq<char>, i: int)
    requires
        0 <= i < m.len(),
        string_member(m.take(i + 1), key) is Some,
    ensures
        string_member(m, key) == string_member(m.take(i + 1), key),
    decreases m.len(),
{
    if m.len() > i + 1 {
        assert(m.drop_last().take(i + 1) =~= m.take(i + 1));
        lemma_string_member_prefix(m.drop_last(), key, i);
    } else {
        assert(m.take(i + 1) =~= m);
    }
}

/// The item type a field's `items` describes.
pub fn items_spec(items: &Option<JsonValue>) -> (r: Option<ItemsSpec>)
    ensures
        match r {
            Some(ItemsSpec::Simple(s)) => items_of(match items {
                Some(v) => Some(v@),
                None => None,
            }) == Some((false, s@)),
            Some(ItemsSpec::Ref(s)) => items_of(match items {
                Some(v) => Some(v@),
                None => None,
            }) == Some((true, s@)),
            None => items_of(match items {
                Some(v) => Some(v@),
                None => None,
            }) is None,
        },
{
    match items {
        Some(JsonValue::Str(s)) => Some(ItemsSpec::Simple(owned(s.as_str()))),
        Some(JsonValue::Object(keys, values)) => {
            let n = if keys.len() <= values.len() { keys.len() } else { values.len() };
            let ghost v = items->0;
            proof {
                reveal_strlit("type");
                reveal_strlit("ref");
                assert(v@ == SpecJson::Object(Seq::new(n as nat, |i: int| (keys@[i]@, values@[i]@)))) by {
                    assert(Seq::new(n as nat, |i: int| (keys@[i]@, values@[i]@)) =~= match v@ {
                        SpecJson::Object(m) => m,
                        _ => Seq::empty(),
                    });
                }
            }
            match string_member_exec(keys, values, n, "type") {
                Some(t) => {
                    if str_eq(t.as_str(), "ref") {
                        match string_member_exec(keys, values, n, "ref") {
                            Some(r) => Some(ItemsSpec::Ref(r)),
                            None => None,
                        }
                    } else {
                        Some(ItemsSpec::Simple(t))
                    }
                },
                None => match string_member_exec(keys, values, n, "ref") {
                    Some(r) => Some(ItemsSpec::Ref(r)),
                    None => None,
                },
            }
        },
        _ => None,
    }
}

/// Whether no two fields share a tag.
pub open spec fn unique_tags(fs: Seq<(u64, FieldSpec)>) -> bool {
    forall|i: int, j: int| 0 <= i < j < fs.len() ==> #[trigger] fs[i].0 != #[trigger] fs[j].0
}

/// Inserts or replaces the field at a tag.
fn put_field(fields: &mut Vec<(u64, FieldSpec)>, tag: u64, f: FieldSpec)
    ensures
        field_at(final(fields)@, tag) == Some(field_view(f)),
        forall|t: u64| t != tag ==> #[trigger] field_at(final(fields)@, t) == field_at(old(fields)@, t),
        unique_tags(old(fields)@) ==> unique_tags(final(fields)@),
{
    match find_u64(fields, tag) {
        Some(i) => {
            proof {
                lemma_index_of_num(old(fields)@, tag);
            }
            let ghost before = fields@;
            fields.set(i, (tag, f));
            proof {
                if unique_tags(before) {
                    assert forall|a: int, b: int| 0 <= a < b < fields@.len() implies #[trigger] fields@[a].0
                        != #[trigger] fields@[b].0 by {
                        assert(fields@[a].0 == before[a].0 && fields@[b].0 == before[b].0);
                    }
                }
                assert forall|t: u64| #[trigger] field_at(fields@, t) == if t == tag {
                    Some(field_view(f))
                } else {
                    field_at(before, t)
                } by {
                    lemma_index_of_num_update(before, i as int, (tag, f), t);
                    lemma_index_of_num(before, t);
                    if let Some(j) = index_of_num(before, t) {
                        if j != i as int {
                            assert(fields@[j] == before[j]);
                        }
                    }
                }
            }
        },
        None => {
            let ghost before = fields@;
            fields.push((tag, f));
            proof {
                lemma_index_of_num(before, tag);
                assert(fields@.drop_last() =~= before);
                if unique_tags(before) {
                    assert forall|i: int, j: int| 0 <= i < j < fields@.len() implies #[trigger] fields@[i].0
                        != #[trigger] fields@[j].0 by {
                        if j < before.len() {
                            assert(fields@[i] == before[i] && fields@[j] == before[j]);
                        } else {
                            assert(fields@[i] == before[i]);
                        }
                    }
                }
                assert forall|t: u64| t != tag implies #[trigger] field_at(fields@, t) == field_at(before, t) by {
                    assert(index_of_num(fields@, t) == index_of_num(before, t));
                    lemma_index_of_num(before, t);
                    if let Some(j) = index_of_num(before, t) {
                        assert(fields@[j] == before[j]);
                    }
                }
                assert(index_of_num(fields@, tag) == Some(before.len() as int)) by {
                    lemma_index_of_num(before, tag);
                }
            }
        },
    }
}

proof fn lemma_index_of_num_update<K, V>(s: Seq<(K, V)>, i: int, e: (K, V), t: K)
    requires
        0 <= i < s.len(),
        s[i].0 == e.0,
        index_of_num(s, e.0) == Some(i),
    ensures
        index_of_num(s.update(i, e), t) == index_of_num(s, t),
    decreases s.len(),
{
    if s.len() > 0 {
        if i < s.len() - 1 {
            assert(s.update(i, e).drop_last() =~= s.drop_last().update(i, e));
            lemma_index_of_num(s.drop_last(), e.0);
            if index_of_num(s.drop_last(), e.0) == Some(i) {
                lemma_index_of_num_update(s.drop_last(), i, e, t);
            } else {
                lemma_index_of_num(s.drop_last(), e.0);
            }
        } else {
            assert(s.update(i, e).drop_last() =~= s.drop_last());
        }
    }
}

/// A copy of a renderer.
fn copy_renderer(r: &RendererSpec) -> (c: RendererSpec)
    ensures
        c.esm_url@ == r.esm_url@,
        opt_view(c.component) == opt_view(r.component),
        opt_view(c.integrity) == opt_view(r.integrity),
{
    RendererSpec {
        esm_url: owned(r.esm_url.as_str()),
        component: match &r.component {
            Some(s) => Some(owned(s.as_str())),
            None => None,
        },
        integrity: match &r.integrity {
            Some(s) => Some(owned(s.as_str())),
            None => None,
        },
    }
}

fn copy_opt(s: &Option<String>) -> (r: Option<String>)
    ensures
        opt_view(r) == opt_view(*s),
{
    match s {
        Some(x) => Some(owned(x.as_str())),
        None => None,
    }
}

/// A bundle's field as the registry keeps it: absent `optional` is false,
/// `items` is read as [`items_of`] reads it.
pub open spec fn def_view(d: FieldDef) -> FieldView {
    FieldView {
        name: d.name@,
        field_type: d.field_type@,
        enum_ref: opt_view(d.enum_ref),
        type_ref: opt_view(d.type_ref),
        optional: match d.optional {
            Some(b) => b,
            None => false,
        },
        items: items_of(
            match d.items {
                Some(v) => Some(v@),
                None => None,
            },
        ),
    }
}

/// The field a bundle's type version gives a tag: that of the last entry
/// whose tag text reads as this tag.
pub open spec fn def_field_at(defs: Seq<(String, FieldDef)>, tag: u64) -> Option<FieldView>
    decreases defs.len(),
{
    if defs.len() == 0 {
        None
    } else if u64_text_value(defs.last().0@) == Some(tag) {
        Some(def_view(defs.last().1))
    } else {
        def_field_at(defs.drop_last(), tag)
    }
}

/// Whether registered fields are those a bundle's type version describes.
pub open spec fn fields_match_defs(fs: Seq<(u64, FieldSpec)>, defs: Seq<(String, FieldDef)>) -> bool {
    forall|t: u64| #[trigger] field_at(fs, t) == def_field_at(defs, t)
}

/// Whether every tag text of a bundle's type version reads as a number.
pub open spec fn tags_valid(defs: Seq<(String, FieldDef)>) -> bool {
    forall|i: int| 0 <= i < defs.len() ==> u64_text_value(#[trigger] defs[i].0@) is Some
}

/// A bundle's type version as the registry keeps it: fields by numeric
/// tag (a later field with the same tag replaces an earlier one), absent
/// `optional` as false, `items` read as [`items_spec`] reads them.
pub fn normalize_version(version: u32, def: &TypeVersion) -> (r: Result<TypeVersionSpec, StoreError>)
    ensures
        r is Ok <==> tags_valid(def.fields@),
        match r {
            Ok(v) => v.version == version && fields_match_defs(v.fields@, def.fields@) && opt_renderer(v.renderer)
                == opt_renderer(def.renderer) && unique_tags(v.fields@),
            Err(e) => e@ == SpecStoreError::InvalidInput("invalid field tag"@),
        },
{
    let mut fields: Vec<(u64, FieldSpec)> = Vec::new();
    let mut i: usize = 0;
    while i < def.fields.len()
        invariant
            i <= def.fields@.len(),
            forall|j: int| 0 <= j < i ==> u64_text_value(#[trigger] def.fields@[j].0@) is Some,
            fields_match_defs(fields@, def.fields@.take(i as int)),
            unique_tags(fields@),
        decreases def.fields@.len() - i,
    {
        let tag = match parse_u64(def.fields[i].0.as_str()) {
            Some(t) => t,
            None => {
                return Err(StoreError::InvalidInput(owned("invalid field tag")));
            },
        };
        let d = &def.fields[i].1;
        let f = FieldSpec {
            name: owned(d.name.as_str()),
            field_type: owned(d.field_type.as_str()),
            enum_ref: copy_opt(&d.enum_ref),
            type_ref: copy_opt(&d.type_ref),
            optional: match d.optional {
                Some(b) => b,
                None => false,
            },
            items: items_spec(&d.items),
        };
        proof {
            assert(field_view(f) == def_view(*d));
        }
        let ghost before = fields@;
        put_field(&mut fields, tag, f);
        proof {
            let pre = def.fields@.take(i as int);
            let post = def.fields@.take(i + 1);
            assert(post.drop_last() =~= pre);
            assert(post.last() == def.fields@[i as int]);
            assert forall|t: u64| #[trigger] field_at(fields@, t) == def_field_at(post, t) by {
                if t != tag {
                    assert(field_at(fields@, t) == field_at(before, t));
                    assert(field_at(before, t) == def_field_at(pre, t));
                }
            }
        }
        i = i + 1;
    }
    assert(def.fields@.take(i as int) =~= def.fields@);
    let renderer = match &def.renderer {
        Some(r) => Some(copy_renderer(r)),
        None => None,
    };
    Ok(TypeVersionSpec { version, fields, renderer })
}

/// The mathematical form of an optional renderer.
pub open spec fn opt_renderer(r: Option<RendererSpec>) -> Option<(Seq<char>, Option<Seq<char>>, Option<Seq<char>>)> {
    match r {
        Some(x) => Some((x.esm_url@, opt_view(x.component), opt_view(x.integrity))),
        None => None,
    }
}

/// The name of a bundle's file: its id with `/`, `:` and `#` made `_`,
/// between `bundle_` and `.json`.
pub open spec fn bundle_filename_spec(id: Seq<char>) -> Seq<char> {
    "bundle_"@ + id.map_values(|c: char| if c == '/' || c == ':' || c == '#' { '_' } else { c }) + ".json"@
}

/// The name of a bundle's file.
pub fn bundle_filename(bundle_id: &str) -> (r: String)
    ensures
        r@ == bundle_filename_spec(bundle_id@),
{
    let cs = chars_of(bundle_id);
    let mut out = chars_of("bundle_");
    let ghost head = out@;
    let mut i: usize = 0;
    while i < cs.len()
        invariant
            cs@ == bundle_id@,
            i <= cs@.len(),
            out@ == head + cs@.take(i as int).map_values(|c: char| if c == '/' || c == ':' || c == '#' { '_' } else { c }),
        decreases cs@.len() - i,
    {
        let c = cs[i];
        out.push(if c == '/' || c == ':' || c == '#' { '_' } else { c });
        assert(cs@.take(i + 1).map_values(|c: char| if c == '/' || c == ':' || c == '#' { '_' } else { c })
            =~= cs@.take(i as int).map_values(|c: char| if c == '/' || c == ':' || c == '#' { '_' } else { c }).push(
            if c == '/' || c == ':' || c == '#' { '_' } else { c },
        ));
        i = i + 1;
    }
    assert(cs@.take(cs@.len() as int) =~= cs@);
    push_str(&mut out, ".json");
    assert(out@ =~= bundle_filename_spec(bundle_id@));
    string_from_chars(out.as_slice())
}


// ---------------------------------------------------------------------------
// Merging a type version into a type
// ---------------------------------------------------------------------------

/// What the tag schema says a tag means: its type and enum.
pub open spec fn sig_at(schema: Seq<(u64, FieldSignature)>, tag: u64) -> Option<(Seq<char>, Option<Seq<char>>)> {
    match index_of_num(schema, tag) {
        Some(i) => Some((schema[i].1.field_type@, opt_view(schema[i].1.enum_ref))),
        None => None,
    }
}

/// The type and enum of a field.
pub open spec fn sig_of(f: FieldSpec) -> (Seq<char>, Option<Seq<char>>) {
    (f.field_type@, opt_view(f.enum_ref))
}

/// A well-formed type: versions in strictly increasing order, each kept
/// under its own number, and every field of every version meaning what the
/// tag schema says its tag means.
pub open spec fn type_wf(ts: TypeSpec) -> bool {
    &&& forall|i: int, j: int|
        0 <= i < j < ts.versions@.len() ==> #[trigger] ts.versions@[i].0 < #[trigger] ts.versions@[j].0
    &&& forall|i: int| 0 <= i < ts.versions@.len() ==> (#[trigger] ts.versions@[i]).1.version == ts.versions@[i].0
    &&& forall|v: int, f: int|
        #![trigger ts.versions@[v].1.fields@[f]]
        0 <= v < ts.versions@.len() && 0 <= f < ts.versions@[v].1.fields@.len() ==> sig_at(
            ts.tag_schema@,
            ts.versions@[v].1.fields@[f].0,
        ) == Some(sig_of(ts.versions@[v].1.fields@[f].1))
}

/// The fields of a type's version, if it has it.
pub open spec fn version_fields_of(ts: TypeSpec, v: u32) -> Option<Seq<(u64, FieldSpec)>> {
    match index_of_num(ts.versions@, v) {
        Some(i) => Some(ts.versions@[i].1.fields@),
        None => None,
    }
}

/// Whether every version of `a` is in `b` with the same fields.
pub open spec fn keeps_versions(a: TypeSpec, b: TypeSpec) -> bool {
    forall|v: u32|
        #![trigger version_fields_of(a, v)]
        version_fields_of(a, v) matches Some(fa) ==> (version_fields_of(b, v) matches Some(fb) && same_fields(fb, fa))
}

proof fn lemma_sorted_index<V>(s: Seq<(u32, V)>, i: int)
    requires
        forall|a: int, b: int| 0 <= a < b < s.len() ==> #[trigger] s[a].0 < #[trigger] s[b].0,
        0 <= i < s.len(),
    ensures
        index_of_num(s, s[i].0) == Some(i),
{
    lemma_index_of_num(s, s[i].0);
    if let Some(j) = index_of_num(s, s[i].0) {
        if j < i {
            assert(s[j].0 < s[i].0);
        } else if j > i {
            assert(s[i].0 < s[j].0);
        }
    }
}

proof fn lemma_index_of_num_push<K, V>(s: Seq<(K, V)>, e: (K, V), k: K)
    ensures
        index_of_num(s.push(e), k) == match index_of_num(s, k) {
            Some(i) => Some(i),
            None => if e.0 == k {
                Some(s.len() as int)
            } else {
                None
            },
        },
{
    assert(s.push(e).drop_last() =~= s);
}

proof fn lemma_same_fields_trans(a: Seq<(u64, FieldSpec)>, b: Seq<(u64, FieldSpec)>, c: Seq<(u64, FieldSpec)>)
    requires
        same_fields(a, b),
        same_fields(b, c),
    ensures
        same_fields(a, c),
{
    assert forall|t: u64| #[trigger] field_at(a, t) == field_at(c, t) by {
        assert(field_at(a, t) == field_at(b, t));
        assert(field_at(b, t) == field_at(c, t));
    }
}

/// Whether every field means what the tag schema says its tag means,
/// where the schema has the tag.
pub open spec fn tags_fit(schema: Seq<(u64, FieldSignature)>, fs: Seq<(u64, FieldSpec)>) -> bool {
    forall|f: int| 0 <= f < fs.len() ==> (sig_at(schema, #[trigger] fs[f].0) matches Some(s) ==> s == sig_of(fs[f].1))
}

/// Adds the tags of a new version's fields to the tag schema; a tag that
/// already means something else is refused.
fn merge_tags(schema: &mut Vec<(u64, FieldSignature)>, type_id: &str, fields: &Vec<(u64, FieldSpec)>) -> (r: Result<(), StoreError>)
    ensures
        forall|t: u64| #[trigger] sig_at(old(schema)@, t) is Some ==> sig_at(final(schema)@, t) == sig_at(old(schema)@, t),
        r is Ok ==> forall|f: int|
            0 <= f < fields@.len() ==> sig_at(final(schema)@, #[trigger] fields@[f].0) == Some(sig_of(fields@[f].1)),
        forall|t: u64|
            #[trigger] sig_at(final(schema)@, t) is Some ==> sig_at(old(schema)@, t) is Some || exists|f: int|
                0 <= f < fields@.len() && #[trigger] fields@[f].0 == t && sig_at(final(schema)@, t) == Some(
                    sig_of(fields@[f].1),
                ),
        tags_fit(old(schema)@, fields@) && unique_tags(fields@) ==> r is Ok,
        r matches Err(e) ==> e is InvalidInput,
{
    let mut k: usize = 0;
    while k < fields.len()
        invariant
            k <= fields@.len(),
            forall|t: u64| #[trigger] sig_at(old(schema)@, t) is Some ==> sig_at(schema@, t) == sig_at(old(schema)@, t),
            forall|f: int| 0 <= f < k ==> sig_at(schema@, #[trigger] fields@[f].0) == Some(sig_of(fields@[f].1)),
            forall|t: u64|
                #[trigger] sig_at(schema@, t) is Some ==> sig_at(old(schema)@, t) is Some || exists|f: int|
                    0 <= f < k && #[trigger] fields@[f].0 == t && sig_at(schema@, t) == Some(sig_of(fields@[f].1)),
        decreases fields@.len() - k,
    {
        let tag = fields[k].0;
        let field = &fields[k].1;
        match find_u64(schema, tag) {
            Some(si) => {
                proof {
                    lemma_index_of_num(schema@, tag);
                }
                if !sig_eq(&schema[si].1, field) {
                    proof {
                        if tags_fit(old(schema)@, fields@) && unique_tags(fields@) {
                            assert(sig_at(schema@, tag) is Some);
                            if sig_at(old(schema)@, tag) is Some {
                                assert(sig_at(old(schema)@, fields@[k as int].0) is Some);
                            } else {
                                let f = choose|f: int|
                                    0 <= f < k && #[trigger] fields@[f].0 == tag && sig_at(schema@, tag) == Some(
                                        sig_of(fields@[f].1),
                                    );
                                assert(fields@[f].0 != fields@[k as int].0);
                            }
                        }
                    }
                    let tid = owned(type_id);
                    let tag_text = decimal_string(tag);
                    let msg = err_text(&vec!["tag reuse conflict for type ", tid.as_str(), " tag ", tag_text.as_str()]);
                    return Err(StoreError::InvalidInput(msg));
                }
            },
            None => {
                let ghost before = schema@;
                let sig = FieldSignature { field_type: owned(field.field_type.as_str()), enum_ref: copy_opt(&field.enum_ref) };
                schema.push((tag, sig));
                proof {
                    assert forall|t: u64| #[trigger] sig_at(before, t) is Some implies sig_at(schema@, t) == sig_at(before, t) by {
                        lemma_index_of_num_push(before, (tag, sig), t);
                        lemma_index_of_num(before, t);
                        if let Some(i) = index_of_num(before, t) {
                            assert(schema@[i] == before[i]);
                        }
                    }
                    assert forall|t: u64| #[trigger] sig_at(old(schema)@, t) is Some implies sig_at(schema@, t) == sig_at(old(schema)@, t) by {
                        assert(sig_at(before, t) == sig_at(old(schema)@, t));
                    }
                    lemma_index_of_num_push(before, (tag, sig), tag);
                    assert forall|f: int| 0 <= f < k + 1 implies sig_at(schema@, #[trigger] fields@[f].0) == Some(sig_of(fields@[f].1)) by {
                        if f < k {
                            assert(sig_at(before, fields@[f].0) is Some);
                        }
                    }
                    assert forall|t: u64|
                        #[trigger] sig_at(schema@, t) is Some implies sig_at(old(schema)@, t) is Some || exists|f: int|
                            0 <= f < k + 1 && #[trigger] fields@[f].0 == t && sig_at(schema@, t) == Some(
                                sig_of(fields@[f].1),
                            ) by {
                        lemma_index_of_num_push(before, (tag, sig), t);
                        if t == tag {
                            assert(fields@[k as int].0 == t);
                        } else {
                            assert(sig_at(before, t) is Some);
                            if sig_at(old(schema)@, t) is None {
                                let f = choose|f: int|
                                    0 <= f < k && #[trigger] fields@[f].0 == t && sig_at(before, t) == Some(
                                        sig_of(fields@[f].1),
                                    );
                                assert(fields@[f].0 == t);
                            }
                        }
                    }
                }
            },
        }
        k = k + 1;
    }
    Ok(())
}

/// The renderer of a type's version, if it has the version.
pub open spec fn version_renderer_of(ts: TypeSpec, v: u32) -> Option<Option<RendererSpec>> {
    match index_of_num(ts.versions@, v) {
        Some(i) => Some(ts.versions@[i].1.renderer),
        None => None,
    }
}

proof fn lemma_sorted_insert<V>(s: Seq<(u32, V)>, p: int, x: (u32, V))
    requires
        forall|a: int, b: int| 0 <= a < b < s.len() ==> #[trigger] s[a].0 < #[trigger] s[b].0,
        0 <= p <= s.len(),
        forall|a: int| 0 <= a < p ==> #[trigger] s[a].0 < x.0,
        p < s.len() ==> x.0 < s[p].0,
    ensures
        forall|a: int, b: int|
            0 <= a < b < s.insert(p, x).len() ==> #[trigger] s.insert(p, x)[a].0 < #[trigger] s.insert(p, x)[b].0,
{
    let n = s.insert(p, x);
    assert forall|a: int, b: int| 0 <= a < b < n.len() implies #[trigger] n[a].0 < #[trigger] n[b].0 by {
        if b < p {
            assert(n[a] == s[a] && n[b] == s[b]);
        } else if b == p {
            assert(n[a] == s[a]);
        } else if a < p {
            assert(n[a] == s[a] && n[b] == s[b - 1]);
        } else if a == p {
            assert(n[b] == s[b - 1]);
            if b - 1 > p {
                assert(s[p].0 < s[b - 1].0);
            }
        } else {
            assert(n[a] == s[a - 1] && n[b] == s[b - 1]);
        }
    }
}

/// Merges one normalised version into a type.  A version the type already
/// has must have the same fields (its renderer is filled in if it had
/// none); a new version's tags must mean what they meant before.
fn ingest_version(ts: &mut TypeSpec, type_id: &str, nv: TypeVersionSpec) -> (r: Result<(), StoreError>)
    requires
        type_wf(*old(ts)),
        nv.version == nv.version,
    ensures
        type_wf(*final(ts)),
        keeps_versions(*old(ts), *final(ts)),
        version_fields_of(*old(ts), nv.version) matches Some(fs) ==> (r is Ok <==> same_fields(fs, nv.fields@)),
        r is Ok ==> (version_fields_of(*final(ts), nv.version) matches Some(fs) && same_fields(fs, nv.fields@)),
        r is Ok ==> (version_renderer_of(*final(ts), nv.version) matches Some(rd) && opt_renderer(rd) == match version_renderer_of(*old(ts), nv.version) {
            Some(Some(o)) => opt_renderer(Some(o)),
            _ => opt_renderer(nv.renderer),
        }),
        forall|v: u32|
            #![trigger version_fields_of(*final(ts), v)]
            version_fields_of(*final(ts), v) matches Some(fs) ==> version_fields_of(*old(ts), v) == Some(fs) || (v
                == nv.version && fs == nv.fields@),
        forall|t: u64| #[trigger] sig_at(old(ts).tag_schema@, t) is Some ==> sig_at(final(ts).tag_schema@, t) == sig_at(old(ts).tag_schema@, t),
        forall|t: u64|
            #[trigger] sig_at(final(ts).tag_schema@, t) is Some ==> sig_at(old(ts).tag_schema@, t) is Some || exists|f: int|
                0 <= f < nv.fields@.len() && #[trigger] nv.fields@[f].0 == t && sig_at(final(ts).tag_schema@, t) == Some(
                    sig_of(nv.fields@[f].1),
                ),
        version_fields_of(*old(ts), nv.version) is None && tags_fit(old(ts).tag_schema@, nv.fields@) && unique_tags(nv.fields@)
            ==> r is Ok,
        r matches Err(e) ==> e is InvalidInput,
{
    let version = nv.version;
    match find_u32(&ts.versions, version) {
        Some(vi) => {
            proof {
                lemma_index_of_num(ts.versions@, version);
            }
            if !fields_eq(&ts.versions[vi].1.fields, &nv.fields) {
                let tid = owned(type_id);
                let ver = decimal_string(version as u64);
                let msg = err_text(&vec!["type ", tid.as_str(), " version ", ver.as_str(), " differs from existing"]);
                return Err(StoreError::InvalidInput(msg));
            }
            if nv.renderer.is_some() && ts.versions[vi].1.renderer.is_none() {
                let ghost before = ts.versions@;
                let mut entry = ts.versions.remove(vi);
                entry.1.renderer = nv.renderer;
                ts.versions.insert(vi, entry);
                proof {
                    assert(ts.versions@ =~= before.update(vi as int, entry));
                    assert forall|v: u32| #[trigger] index_of_num(ts.versions@, v) == index_of_num(before, v) by {
                        lemma_index_of_num_update(before, vi as int, entry, v);
                    }
                    assert forall|v: int, f: int|
                        #![trigger ts.versions@[v].1.fields@[f]]
                        0 <= v < ts.versions@.len() && 0 <= f < ts.versions@[v].1.fields@.len() implies sig_at(
                            ts.tag_schema@,
                            ts.versions@[v].1.fields@[f].0,
                        ) == Some(sig_of(ts.versions@[v].1.fields@[f].1)) by {
                        assert(ts.versions@[v].1.fields == before[v].1.fields);
                    }
                    assert forall|i: int, j: int|
                        0 <= i < j < ts.versions@.len() implies #[trigger] ts.versions@[i].0 < #[trigger] ts.versions@[j].0 by {
                        assert(ts.versions@[i].0 == before[i].0 && ts.versions@[j].0 == before[j].0);
                    }
                    assert forall|i: int| 0 <= i < ts.versions@.len() implies (#[trigger] ts.versions@[i]).1.version
                        == ts.versions@[i].0 by {
                        assert(before[i].1.version == before[i].0);
                    }
                    assert forall|v: u32|
                        #![trigger version_fields_of(*old(ts), v)]
                        version_fields_of(*old(ts), v) is Some implies (version_fields_of(*ts, v) is Some && same_fields(version_fields_of(*ts, v)->0, version_fields_of(*old(ts), v)->0)) by {
                        lemma_index_of_num(before, v);
                        if let Some(i) = index_of_num(before, v) {
                            assert(ts.versions@[i].1.fields == before[i].1.fields);
                        }
                    }
                    assert forall|v: u32|
                        #![trigger version_fields_of(*ts, v)]
                        version_fields_of(*ts, v) is Some implies version_fields_of(*old(ts), v) == version_fields_of(*ts, v) by {
                        lemma_index_of_num(before, v);
                        if let Some(i) = index_of_num(before, v) {
                            assert(ts.versions@[i].1.fields == before[i].1.fields);
                        }
                    }
                }
            } else {
                proof {
                    assert forall|v: u32|
                        #![trigger version_fields_of(*old(ts), v)]
                        version_fields_of(*old(ts), v) is Some implies (version_fields_of(*ts, v) is Some && same_fields(version_fields_of(*ts, v)->0, version_fields_of(*old(ts), v)->0)) by {}
                    assert forall|v: u32|
                        #![trigger version_fields_of(*ts, v)]
                        version_fields_of(*ts, v) is Some implies version_fields_of(*old(ts), v) == version_fields_of(*ts, v) by {}
                }
            }
            Ok(())
        },
        None => {
            proof {
                lemma_index_of_num(ts.versions@, version);
            }
            let ghost before = *ts;
            let merged = merge_tags(&mut ts.tag_schema, type_id, &nv.fields);
            proof {
                assert forall|v: int, f: int|
                    #![trigger ts.versions@[v].1.fields@[f]]
                    0 <= v < ts.versions@.len() && 0 <= f < ts.versions@[v].1.fields@.len() implies sig_at(
                        ts.tag_schema@,
                        ts.versions@[v].1.fields@[f].0,
                    ) == Some(sig_of(ts.versions@[v].1.fields@[f].1)) by {
                    assert(sig_at(before.tag_schema@, before.versions@[v].1.fields@[f].0) is Some);
                }
                assert forall|v: u32|
                    #![trigger version_fields_of(*old(ts), v)]
                    version_fields_of(*old(ts), v) is Some implies (version_fields_of(*ts, v) is Some && same_fields(version_fields_of(*ts, v)->0, version_fields_of(*old(ts), v)->0)) by {}
                assert forall|v: u32|
                    #![trigger version_fields_of(*ts, v)]
                    version_fields_of(*ts, v) is Some implies version_fields_of(*old(ts), v) == version_fields_of(*ts, v) by {}
            }
            match merged {
                Ok(()) => {},
                Err(e) => {
                    return Err(e);
                },
            }
            let mut p: usize = 0;
            while p < ts.versions.len() && ts.versions[p].0 < version
                invariant
                    p <= ts.versions@.len(),
                    forall|a: int| 0 <= a < p ==> #[trigger] ts.versions@[a].0 < version,
                decreases ts.versions@.len() - p,
            {
                p = p + 1;
            }
            let ghost s = ts.versions@;
            let ghost schema = ts.tag_schema@;
            let ghost nfields = nv.fields@;
            let ghost nrend = nv.renderer;
            proof {
                if p < s.len() {
                    assert(s[p as int].0 != version);
                }
                lemma_sorted_insert(s, p as int, (version, nv));
            }
            ts.versions.insert(p, (version, nv));
            proof {
                let n = ts.versions@;
                assert(n == s.insert(p as int, (version, nv)));
                assert(n[p as int].1.fields@ == nfields);
                assert forall|i: int| 0 <= i < n.len() implies (#[trigger] n[i]).1.version == n[i].0 by {
                    if i < p {
                        assert(n[i] == s[i]);
                    } else if i > p {
                        assert(n[i] == s[i - 1]);
                    }
                }
                assert forall|v: int, f: int|
                    #![trigger n[v].1.fields@[f]]
                    0 <= v < n.len() && 0 <= f < n[v].1.fields@.len() implies sig_at(schema, n[v].1.fields@[f].0) == Some(
                        sig_of(n[v].1.fields@[f].1),
                    ) by {
                    if v < p {
                        assert(n[v] == s[v]);
                        assert(sig_at(schema, s[v].1.fields@[f].0) == Some(sig_of(s[v].1.fields@[f].1)));
                    } else if v > p {
                        assert(n[v] == s[v - 1]);
                        assert(sig_at(schema, s[v - 1].1.fields@[f].0) == Some(sig_of(s[v - 1].1.fields@[f].1)));
                    } else {
                        assert(sig_at(schema, nfields[f].0) == Some(sig_of(nfields[f].1)));
                    }
                }
                assert forall|v: u32|
                    #![trigger version_fields_of(*old(ts), v)]
                    version_fields_of(*old(ts), v) is Some implies (version_fields_of(*ts, v) is Some && same_fields(version_fields_of(*ts, v)->0, version_fields_of(*old(ts), v)->0)) by {
                    lemma_index_of_num(s, v);
                    let i = index_of_num(s, v)->0;
                    let ni = if i < p { i } else { i + 1 };
                    assert(n[ni] == s[i]);
                    lemma_sorted_index(n, ni);
                }
                lemma_sorted_index(n, p as int);
                assert forall|v: u32|
                    #![trigger version_fields_of(*ts, v)]
                    version_fields_of(*ts, v) is Some implies (version_fields_of(*old(ts), v) == version_fields_of(*ts, v)
                        || (v == version && version_fields_of(*ts, v)->0 == nfields)) by {
                    lemma_index_of_num(n, v);
                    let i = index_of_num(n, v)->0;
                    if i == p {
                        assert(n[i].1.fields@ == nfields);
                    } else {
                        let si = if i < p { i } else { i - 1 };
                        assert(n[i] == s[si]);
                        lemma_sorted_index(s, si);
                        assert(version_fields_of(*old(ts), v) == Some(s[si].1.fields@));
                    }
                }
                assert(version_renderer_of(*old(ts), version) is None);
                assert(nrend == n[p as int].1.renderer);
            }
            Ok(())
        },
    }
}

/// Whether a bundle's type version is registered in a type: its version
/// text reads as a number, its tags are valid, and the type has that
/// version with the fields the bundle describes.
pub open spec fn entry_registered(ts: TypeSpec, e: (String, TypeVersion)) -> bool {
    &&& version_value(e.0@) is Some
    &&& tags_valid(e.1.fields@)
    &&& version_fields_of(ts, version_value(e.0@)->0) is Some
    &&& fields_match_defs(version_fields_of(ts, version_value(e.0@)->0)->0, e.1.fields@)
}

proof fn lemma_keeps_versions_refl(a: TypeSpec)
    ensures
        keeps_versions(a, a),
{
    assert forall|v: u32|
        #![trigger version_fields_of(a, v)]
        version_fields_of(a, v) is Some implies (version_fields_of(a, v) is Some && same_fields(
            version_fields_of(a, v)->0,
            version_fields_of(a, v)->0,
        )) by {}
}

proof fn lemma_keeps_versions_trans(a: TypeSpec, b: TypeSpec, c: TypeSpec)
    requires
        keeps_versions(a, b),
        keeps_versions(b, c),
    ensures
        keeps_versions(a, c),
{
    assert forall|v: u32|
        #![trigger version_fields_of(a, v)]
        version_fields_of(a, v) is Some implies (version_fields_of(c, v) is Some && same_fields(
            version_fields_of(c, v)->0,
            version_fields_of(a, v)->0,
        )) by {
        assert(version_fields_of(b, v) is Some);
        lemma_same_fields_trans(version_fields_of(c, v)->0, version_fields_of(b, v)->0, version_fields_of(a, v)->0);
    }
}

proof fn lemma_entry_kept(a: TypeSpec, b: TypeSpec, e: (String, TypeVersion))
    requires
        keeps_versions(a, b),
        entry_registered(a, e),
    ensures
        entry_registered(b, e),
{
    let v = version_value(e.0@)->0;
    assert(version_fields_of(a, v) is Some);
    let fa = version_fields_of(a, v)->0;
    let fb = version_fields_of(b, v)->0;
    assert forall|t: u64| #[trigger] field_at(fb, t) == def_field_at(e.1.fields@, t) by {
        assert(field_at(fb, t) == field_at(fa, t));
        assert(field_at(fa, t) == def_field_at(e.1.fields@, t));
    }
}

/// The type and enum a bundle's type version gives a tag, if it has it.
pub open spec fn def_sig_at(defs: Seq<(String, FieldDef)>, tag: u64) -> Option<(Seq<char>, Option<Seq<char>>)> {
    match def_field_at(defs, tag) {
        Some(fv) => Some((fv.field_type, fv.enum_ref)),
        None => None,
    }
}

/// Whether two bundle type versions give the same field at every tag.
pub open spec fn same_defs(a: Seq<(String, FieldDef)>, b: Seq<(String, FieldDef)>) -> bool {
    forall|t: u64| #[trigger] def_field_at(a, t) == def_field_at(b, t)
}

/// Whether registered fields are those of a bundle's type version, each
/// tag once.
pub open spec fn fields_from_entry(fs: Seq<(u64, FieldSpec)>, e: (String, TypeVersion)) -> bool {
    unique_tags(fs) && fields_match_defs(fs, e.1.fields@)
}

/// Whether `cur` is `base` with nothing added but versions and tag
/// meanings taken from the bundle's type versions `src`.
pub open spec fn type_from(base: TypeSpec, cur: TypeSpec, src: Seq<(String, TypeVersion)>) -> bool {
    &&& forall|v: u32|
        #![trigger version_fields_of(cur, v)]
        version_fields_of(cur, v) matches Some(fs) ==> version_fields_of(base, v) == Some(fs) || exists|k: int|
            0 <= k < src.len() && version_value(src[k].0@) == Some(v) && #[trigger] fields_from_entry(fs, src[k])
    &&& forall|t: u64|
        #[trigger] sig_at(base.tag_schema@, t) is Some ==> sig_at(cur.tag_schema@, t) == sig_at(base.tag_schema@, t)
    &&& forall|t: u64|
        #[trigger] sig_at(cur.tag_schema@, t) is Some ==> sig_at(base.tag_schema@, t) is Some || exists|k: int|
            0 <= k < src.len() && #[trigger] def_sig_at(src[k].1.fields@, t) == sig_at(cur.tag_schema@, t)
}

/// Whether the bundle's versions `src` of a type can all be merged into
/// `ts`: each version number and tag reads as a number; a version the type
/// has is described with its fields; two descriptions of one version agree;
/// and every tag means the same in the type's schema and in every
/// description that uses it.
pub open spec fn type_fits(ts: TypeSpec, src: Seq<(String, TypeVersion)>) -> bool {
    &&& forall|k: int|
        0 <= k < src.len() ==> version_value(#[trigger] src[k].0@) is Some && tags_valid(src[k].1.fields@)
    &&& forall|k: int|
        0 <= k < src.len() ==> (version_fields_of(ts, version_value(#[trigger] src[k].0@)->0) matches Some(fs)
            ==> fields_match_defs(fs, src[k].1.fields@))
    &&& forall|k: int, k2: int|
        0 <= k < src.len() && 0 <= k2 < src.len() && version_value(#[trigger] src[k].0@) == version_value(
            #[trigger] src[k2].0@,
        ) ==> same_defs(src[k].1.fields@, src[k2].1.fields@)
    &&& forall|k: int, t: u64|
        0 <= k < src.len() && def_sig_at(src[k].1.fields@, t) is Some && sig_at(ts.tag_schema@, t) is Some
            ==> #[trigger] def_sig_at(src[k].1.fields@, t) == sig_at(ts.tag_schema@, t)
    &&& forall|k: int, k2: int, t: u64|
        0 <= k < src.len() && 0 <= k2 < src.len() && def_sig_at(src[k].1.fields@, t) is Some && def_sig_at(
            src[k2].1.fields@,
            t,
        ) is Some ==> #[trigger] def_sig_at(src[k].1.fields@, t) == #[trigger] def_sig_at(src[k2].1.fields@, t)
}

proof fn lemma_unique_index(s: Seq<(u64, FieldSpec)>, f: int)
    requires
        unique_tags(s),
        0 <= f < s.len(),
    ensures
        index_of_num(s, s[f].0) == Some(f),
        field_at(s, s[f].0) == Some(field_view(s[f].1)),
{
    lemma_index_of_num(s, s[f].0);
    if let Some(i) = index_of_num(s, s[f].0) {
        if i < f {
            assert(s[i].0 != s[f].0);
        } else if i > f {
            assert(s[f].0 != s[i].0);
        }
    }
}

proof fn lemma_entry_sig(s: Seq<(u64, FieldSpec)>, e: (String, TypeVersion), f: int)
    requires
        fields_from_entry(s, e),
        0 <= f < s.len(),
    ensures
        def_sig_at(e.1.fields@, s[f].0) == Some(sig_of(s[f].1)),
{
    lemma_unique_index(s, f);
    assert(field_at(s, s[f].0) == def_field_at(e.1.fields@, s[f].0));
}

proof fn lemma_type_from_widen(base: TypeSpec, cur: TypeSpec, src: Seq<(String, TypeVersion)>, n: int)
    requires
        0 <= n <= src.len(),
        type_from(base, cur, src.take(n)),
    ensures
        type_from(base, cur, src),
{
    let pre = src.take(n);
    assert forall|v: u32|
        #![trigger version_fields_of(cur, v)]
        version_fields_of(cur, v) is Some implies version_fields_of(base, v) == version_fields_of(cur, v) || exists|k: int|
            0 <= k < src.len() && version_value(src[k].0@) == Some(v) && #[trigger] fields_from_entry(version_fields_of(cur, v)->0, src[k]) by {
        let fs = version_fields_of(cur, v)->0;
        if version_fields_of(base, v) != Some(fs) {
            let k = choose|k: int|
                0 <= k < pre.len() && version_value(pre[k].0@) == Some(v) && #[trigger] fields_from_entry(fs, pre[k]);
            assert(pre[k] == src[k]);
        }
    }
    assert forall|t: u64|
        #[trigger] sig_at(cur.tag_schema@, t) is Some implies sig_at(base.tag_schema@, t) is Some || exists|k: int|
            0 <= k < src.len() && #[trigger] def_sig_at(src[k].1.fields@, t) == sig_at(cur.tag_schema@, t) by {
        if sig_at(base.tag_schema@, t) is None {
            let k = choose|k: int| 0 <= k < pre.len() && #[trigger] def_sig_at(pre[k].1.fields@, t) == sig_at(cur.tag_schema@, t);
            assert(pre[k] == src[k]);
        }
    }
}

/// What a type that fits the bundle's versions needs for merging one of
/// them (normalised to `nvf`) after some have been merged.
proof fn lemma_version_fits(
    base: TypeSpec,
    cur: TypeSpec,
    src: Seq<(String, TypeVersion)>,
    k: int,
    nvf: Seq<(u64, FieldSpec)>,
)
    requires
        type_fits(base, src),
        type_from(base, cur, src),
        0 <= k < src.len(),
        fields_from_entry(nvf, src[k]),
    ensures
        version_fields_of(cur, version_value(src[k].0@)->0) matches Some(fs) ==> same_fields(fs, nvf),
        version_fields_of(cur, version_value(src[k].0@)->0) is None ==> tags_fit(cur.tag_schema@, nvf),
{
    let v = version_value(src[k].0@)->0;
    assert(version_value(src[k].0@) is Some);
    let defs = src[k].1.fields@;
    if let Some(fs) = version_fields_of(cur, v) {
        if version_fields_of(base, v) == Some(fs) {
            assert(fields_match_defs(fs, defs));
        } else {
            let k2 = choose|k2: int|
                0 <= k2 < src.len() && version_value(src[k2].0@) == Some(v) && #[trigger] fields_from_entry(fs, src[k2]);
            assert(same_defs(src[k2].1.fields@, defs));
            assert forall|t: u64| #[trigger] field_at(fs, t) == def_field_at(defs, t) by {
                assert(field_at(fs, t) == def_field_at(src[k2].1.fields@, t));
            }
        }
        assert forall|t: u64| #[trigger] field_at(fs, t) == field_at(nvf, t) by {
            assert(field_at(fs, t) == def_field_at(defs, t));
            assert(field_at(nvf, t) == def_field_at(defs, t));
        }
    } else {
        assert forall|f: int| 0 <= f < nvf.len() implies (sig_at(cur.tag_schema@, #[trigger] nvf[f].0) matches Some(sg)
            ==> sg == sig_of(nvf[f].1)) by {
            let t = nvf[f].0;
            lemma_entry_sig(nvf, src[k], f);
            if sig_at(cur.tag_schema@, t) is Some {
                if sig_at(base.tag_schema@, t) is Some {
                    assert(def_sig_at(defs, t) == sig_at(base.tag_schema@, t));
                } else {
                    let k2 = choose|k2: int|
                        0 <= k2 < src.len() && #[trigger] def_sig_at(src[k2].1.fields@, t) == sig_at(cur.tag_schema@, t);
                    assert(def_sig_at(defs, t) == def_sig_at(src[k2].1.fields@, t));
                }
            }
        }
    }
}

/// Merging a normalised version of `src` keeps the type built from `src`.
proof fn lemma_type_from_step(
    base: TypeSpec,
    cur: TypeSpec,
    new: TypeSpec,
    src: Seq<(String, TypeVersion)>,
    k: int,
    nv: TypeVersionSpec,
)
    requires
        type_from(base, cur, src),
        0 <= k < src.len(),
        fields_from_entry(nv.fields@, src[k]),
        version_value(src[k].0@) == Some(nv.version),
        forall|v: u32|
            #![trigger version_fields_of(new, v)]
            version_fields_of(new, v) matches Some(fs) ==> version_fields_of(cur, v) == Some(fs) || (v == nv.version
                && fs == nv.fields@),
        forall|t: u64| #[trigger] sig_at(cur.tag_schema@, t) is Some ==> sig_at(new.tag_schema@, t) == sig_at(cur.tag_schema@, t),
        forall|t: u64|
            #[trigger] sig_at(new.tag_schema@, t) is Some ==> sig_at(cur.tag_schema@, t) is Some || exists|f: int|
                0 <= f < nv.fields@.len() && #[trigger] nv.fields@[f].0 == t && sig_at(new.tag_schema@, t) == Some(
                    sig_of(nv.fields@[f].1),
                ),
    ensures
        type_from(base, new, src),
{
    assert forall|v: u32|
        #![trigger version_fields_of(new, v)]
        version_fields_of(new, v) is Some implies version_fields_of(base, v) == version_fields_of(new, v) || exists|k2: int|
            0 <= k2 < src.len() && version_value(src[k2].0@) == Some(v) && #[trigger] fields_from_entry(version_fields_of(new, v)->0, src[k2]) by {
        let fs = version_fields_of(new, v)->0;
        if version_fields_of(cur, v) == Some(fs) {
            assert(version_fields_of(cur, v) is Some);
        } else {
            assert(fields_from_entry(fs, src[k]));
        }
    }
    assert forall|t: u64|
        #[trigger] sig_at(new.tag_schema@, t) is Some implies sig_at(base.tag_schema@, t) is Some || exists|k2: int|
            0 <= k2 < src.len() && #[trigger] def_sig_at(src[k2].1.fields@, t) == sig_at(new.tag_schema@, t) by {
        if sig_at(cur.tag_schema@, t) is Some {
            if sig_at(base.tag_schema@, t) is None {
                let k2 = choose|k2: int| 0 <= k2 < src.len() && #[trigger] def_sig_at(src[k2].1.fields@, t) == sig_at(cur.tag_schema@, t);
                assert(def_sig_at(src[k2].1.fields@, t) == sig_at(new.tag_schema@, t));
            }
        } else {
            let f = choose|f: int|
                0 <= f < nv.fields@.len() && #[trigger] nv.fields@[f].0 == t && sig_at(new.tag_schema@, t) == Some(
                    sig_of(nv.fields@[f].1),
                );
            lemma_entry_sig(nv.fields@, src[k], f);
            assert(def_sig_at(src[k].1.fields@, t) == sig_at(new.tag_schema@, t));
        }
    }
}

/// Merges a bundle's description of a type into the registered type,
/// version by version; the first version that cannot be merged stops it.
fn ingest_type(ts: &mut TypeSpec, type_id: &str, entry: &TypeEntry) -> (r: Result<(), StoreError>)
    requires
        type_wf(*old(ts)),
    ensures
        type_wf(*final(ts)),
        keeps_versions(*old(ts), *final(ts)),
        r is Ok ==> forall|k: int| 0 <= k < entry.versions@.len() ==> entry_registered(*final(ts), #[trigger] entry.versions@[k]),
        type_from(*old(ts), *final(ts), entry.versions@),
        type_fits(*old(ts), entry.versions@) ==> r is Ok,
        r matches Err(e) ==> e is InvalidInput,
{
    proof {
        lemma_keeps_versions_refl(*ts);
        assert(type_from(*old(ts), *ts, entry.versions@.take(0)));
    }
    let mut k: usize = 0;
    while k < entry.versions.len()
        invariant
            k <= entry.versions@.len(),
            type_wf(*ts),
            keeps_versions(*old(ts), *ts),
            forall|j: int| 0 <= j < k ==> entry_registered(*ts, #[trigger] entry.versions@[j]),
            type_from(*old(ts), *ts, entry.versions@.take(k as int)),
        decreases entry.versions@.len() - k,
    {
        proof {
            lemma_type_from_widen(*old(ts), *ts, entry.versions@, k as int);
            assert(type_fits(*old(ts), entry.versions@) ==> version_value(entry.versions@[k as int].0@) is Some
                && tags_valid(entry.versions@[k as int].1.fields@));
        }
        let version = match parse_version(entry.versions[k].0.as_str()) {
            Ok(v) => v,
            Err(e) => {
                return Err(e);
            },
        };
        let nv = match normalize_version(version, &entry.versions[k].1) {
            Ok(nv) => nv,
            Err(e) => {
                return Err(e);
            },
        };
        let ghost before = *ts;
        let ghost nvg = nv;
        let ghost nfields = nv.fields@;
        proof {
            assert(fields_from_entry(nfields, entry.versions@[k as int]));
            if type_fits(*old(ts), entry.versions@) {
                lemma_version_fits(*old(ts), *ts, entry.versions@, k as int, nfields);
            }
        }
        let res = ingest_version(ts, type_id, nv);
        proof {
            lemma_keeps_versions_trans(*old(ts), before, *ts);
            let pre = entry.versions@.take(k + 1);
            assert(pre[k as int] == entry.versions@[k as int]);
            assert(pre.take(k as int) =~= entry.versions@.take(k as int));
            lemma_type_from_widen(*old(ts), before, pre, k as int);
            lemma_type_from_step(*old(ts), before, *ts, pre, k as int, nvg);
            if res is Err {
                lemma_type_from_widen(*old(ts), *ts, entry.versions@, k + 1);
            }
        }
        match res {
            Ok(()) => {},
            Err(e) => {
                return Err(e);
            },
        }
        proof {
            assert forall|j: int| 0 <= j < k + 1 implies entry_registered(*ts, #[trigger] entry.versions@[j]) by {
                if j < k {
                    lemma_entry_kept(before, *ts, entry.versions@[j]);
                } else {
                    let fs = version_fields_of(*ts, version)->0;
                    assert forall|t: u64| #[trigger] field_at(fs, t) == def_field_at(entry.versions@[j].1.fields@, t) by {
                        assert(field_at(fs, t) == field_at(nfields, t));
                    }
                }
            }
        }
        k = k + 1;
    }
    proof {
        assert(entry.versions@.take(k as int) =~= entry.versions@);
    }
    Ok(())
}

// ---------------------------------------------------------------------------
// The registry
// ---------------------------------------------------------------------------

/// The registered bundles, types and enums.
pub struct Registry {
    bundles: Vec<(String, Vec<u8>)>,
    types: Vec<(String, TypeSpec)>,
    enums: Vec<(String, Vec<(String, String)>)>,
    last_bundle_id: Option<String>,
}

/// A renderer as plain text: its address, component and integrity.
pub open spec fn renderer_view(r: RendererSpec) -> (Seq<char>, Option<Seq<char>>, Option<Seq<char>>) {
    (r.esm_url@, opt_view(r.component), opt_view(r.integrity))
}

/// The renderer of a type's highest version, if any.
pub open spec fn latest_renderer(ts: TypeSpec) -> Option<RendererSpec> {
    if ts.versions@.len() == 0 {
        None
    } else {
        ts.versions@.last().1.renderer
    }
}

/// Each type whose highest version has a renderer, by id with that
/// renderer, in the order of `types`.
pub open spec fn renderers_of(types: Seq<(String, TypeSpec)>) -> Seq<(Seq<char>, (Seq<char>, Option<Seq<char>>, Option<Seq<char>>))>
    decreases types.len(),
{
    if types.len() == 0 {
        Seq::empty()
    } else {
        let prev = renderers_of(types.drop_last());
        match latest_renderer(types.last().1) {
            Some(rs) => prev.push((types.last().0@, renderer_view(rs))),
            None => prev,
        }
    }
}

/// Ids and renderers as plain text.
pub open spec fn renderer_pairs_view(r: Seq<(String, RendererSpec)>) -> Seq<(Seq<char>, (Seq<char>, Option<Seq<char>>, Option<Seq<char>>))> {
    r.map_values(|p: (String, RendererSpec)| (p.0@, renderer_view(p.1)))
}

/// Whether every enum that a field of a type version names is registered.
pub open spec fn refs_resolve(types: Seq<(String, TypeSpec)>, enums: Seq<(String, Vec<(String, String)>)>) -> bool {
    forall|t: int, v: int, f: int|
        #![trigger types[t].1.versions@[v].1.fields@[f]]
        0 <= t < types.len() && 0 <= v < types[t].1.versions@.len() && 0 <= f < types[t].1.versions@[v].1.fields@.len()
            ==> (types[t].1.versions@[v].1.fields@[f].1.enum_ref matches Some(e) ==> index_of_str(enums, e@) is Some)
}

/// Whether an enum id is registered or given by the bundle's enums.
pub open spec fn enum_known(
    enums: Seq<(String, Vec<(String, String)>)>,
    be: Seq<(String, Vec<(String, String)>)>,
    e: Seq<char>,
) -> bool {
    index_of_str(enums, e) is Some || exists|j: int| 0 <= j < be.len() && (#[trigger] be[j]).0@ == e
}

/// Whether every enum that a registered field or a field of the bundle
/// names is registered or given by the bundle.
pub open spec fn refs_fit(types: Seq<(String, TypeSpec)>, enums: Seq<(String, Vec<(String, String)>)>, b: RegistryBundle) -> bool {
    &&& forall|t: int, v: int, f: int|
        #![trigger types[t].1.versions@[v].1.fields@[f]]
        0 <= t < types.len() && 0 <= v < types[t].1.versions@.len() && 0 <= f < types[t].1.versions@[v].1.fields@.len()
            ==> (types[t].1.versions@[v].1.fields@[f].1.enum_ref matches Some(e) ==> enum_known(enums, b.enums@, e@))
    &&& forall|j: int, k: int, t: u64|
        0 <= j < b.types@.len() && 0 <= k < b.types@[j].1.versions@.len() ==> (#[trigger] def_field_at(
            b.types@[j].1.versions@[k].1.fields@,
            t,
        ) matches Some(fv) ==> (fv.enum_ref matches Some(e) ==> enum_known(enums, b.enums@, e)))
}

/// Whether a bundle with a valid version can be merged: its enums, its types
/// and the enums its fields name all fit (see [`enums_fit`], [`types_fit`],
/// [`refs_fit`]).
pub open spec fn bundle_fits(types: Seq<(String, TypeSpec)>, enums: Seq<(String, Vec<(String, String)>)>, b: RegistryBundle) -> bool {
    &&& enums_fit(enums, b.enums@)
    &&& types_fit(types, b.types@)
    &&& refs_fit(types, enums, b)
}

proof fn lemma_versions_for_source(s: Seq<(String, TypeEntry)>, id: Seq<char>, i: int)
    requires
        0 <= i < versions_for(s, id).len(),
    ensures
        exists|j: int, k: int|
            0 <= j < s.len() && 0 <= k < s[j].1.versions@.len() && #[trigger] s[j].1.versions@[k] == versions_for(s, id)[i],
    decreases s.len(),
{
    let d = s.drop_last();
    let p = versions_for(d, id);
    if i < p.len() {
        lemma_versions_for_source(d, id, i);
        let (j, k) = choose|j: int, k: int|
            0 <= j < d.len() && 0 <= k < d[j].1.versions@.len() && #[trigger] d[j].1.versions@[k] == versions_for(d, id)[i];
        assert(s[j] == d[j]);
        assert(s[j].1.versions@[k] == versions_for(s, id)[i]);
    } else {
        let k = i - p.len();
        assert(s[s.len() - 1].1.versions@[k] == versions_for(s, id)[i]);
    }
}

/// A merge built from the registered types and a bundle whose references
/// fit leaves every reference resolved.
proof fn lemma_refs_after(
    old_types: Seq<(String, TypeSpec)>,
    old_enums: Seq<(String, Vec<(String, String)>)>,
    b: RegistryBundle,
    types: Seq<(String, TypeSpec)>,
    enums: Seq<(String, Vec<(String, String)>)>,
)
    requires
        refs_fit(old_types, old_enums, b),
        forall|a: int| 0 <= a < types.len() ==> type_wf(#[trigger] types[a].1),
        forall|a: int, c: int| 0 <= a < c < types.len() ==> #[trigger] types[a].0@ != #[trigger] types[c].0@,
        forall|id: Seq<char>|
            #[trigger] type_of(types, id) is Some ==> type_built(old_types, type_of(types, id)->0, id, versions_for(b.types@, id)),
        enums.len() >= old_enums.len(),
        enums.subrange(0, old_enums.len() as int) == old_enums,
        forall|j: int| 0 <= j < b.enums@.len() ==> enum_of(enums, (#[trigger] b.enums@[j]).0@) is Some,
    ensures
        refs_resolve(types, enums),
{
    assert forall|a: int, v: int, f: int|
        #![trigger types[a].1.versions@[v].1.fields@[f]]
        0 <= a < types.len() && 0 <= v < types[a].1.versions@.len() && 0 <= f < types[a].1.versions@[v].1.fields@.len()
            && types[a].1.versions@[v].1.fields@[f].1.enum_ref is Some implies index_of_str(
            enums,
            types[a].1.versions@[v].1.fields@[f].1.enum_ref->0@,
        ) is Some by {
        let id = types[a].0@;
        let tt = types[a].1;
        let e = tt.versions@[v].1.fields@[f].1.enum_ref->0@;
        lemma_index_of_str(types, id);
        let ai = index_of_str(types, id)->0;
        if ai < a {
            assert(types[ai].0@ != types[a].0@);
        } else if ai > a {
            assert(types[a].0@ != types[ai].0@);
        }
        assert(type_of(types, id) == Some(tt));
        let vnum = tt.versions@[v].0;
        lemma_sorted_index(tt.versions@, v);
        let fs = tt.versions@[v].1.fields@;
        assert(version_fields_of(tt, vnum) == Some(fs));
        let src = versions_for(b.types@, id);
        let from_src = exists|k: int| 0 <= k < src.len() && version_value(src[k].0@) == Some(vnum) && #[trigger] fields_from_entry(fs, src[k]);
        match type_of(old_types, id) {
            Some(bt) => {
                if version_fields_of(bt, vnum) == Some(fs) {
                    lemma_index_of_str(old_types, id);
                    let a2 = index_of_str(old_types, id)->0;
                    lemma_index_of_num(bt.versions@, vnum);
                    let v2 = index_of_num(bt.versions@, vnum)->0;
                    assert(old_types[a2].1.versions@[v2].1.fields@[f] == tt.versions@[v].1.fields@[f]);
                    assert(enum_known(old_enums, b.enums@, e));
                } else {
                    assert(from_src);
                }
            },
            None => {
                let e0 = choose|e0: TypeSpec| empty_type(e0) && #[trigger] type_from(e0, tt, src);
                lemma_index_of_num(e0.versions@, vnum);
                assert(version_fields_of(e0, vnum) is None);
                assert(from_src);
            },
        }
        if from_src {
            let k = choose|k: int| 0 <= k < src.len() && version_value(src[k].0@) == Some(vnum) && #[trigger] fields_from_entry(fs, src[k]);
            lemma_versions_for_source(b.types@, id, k);
            let (j, kk) = choose|j: int, kk: int|
                0 <= j < b.types@.len() && 0 <= kk < b.types@[j].1.versions@.len() && #[trigger] b.types@[j].1.versions@[kk]
                    == src[k];
            lemma_unique_index(fs, f);
            assert(field_at(fs, fs[f].0) == def_field_at(src[k].1.fields@, fs[f].0));
            assert(def_field_at(b.types@[j].1.versions@[kk].1.fields@, fs[f].0) is Some);
            assert(enum_known(old_enums, b.enums@, e));
        }
        if index_of_str(old_enums, e) is Some {
            lemma_index_of_str(old_enums, e);
            let i = index_of_str(old_enums, e)->0;
            assert(enums[i] == old_enums[i]);
            lemma_index_of_str(enums, e);
        } else {
            let j = choose|j: int| 0 <= j < b.enums@.len() && (#[trigger] b.enums@[j]).0@ == e;
            assert(enum_of(enums, b.enums@[j].0@) is Some);
        }
    }
}

/// The pieces written one after another.
pub open spec fn joined(parts: Seq<&str>) -> Seq<char>
    decreases parts.len(),
{
    if parts.len() == 0 {
        Seq::empty()
    } else {
        joined(parts.drop_last()) + parts.last()@
    }
}

fn err_text(parts: &Vec<&str>) -> (r: String)
    ensures
        r@ == joined(parts@),
{
    let mut out: Vec<char> = Vec::new();
    let mut i: usize = 0;
    while i < parts.len()
        invariant
            i <= parts@.len(),
            out@ == joined(parts@.take(i as int)),
        decreases parts@.len() - i,
    {
        proof {
            assert(parts@.take(i + 1).drop_last() =~= parts@.take(i as int));
        }
        push_str(&mut out, parts[i]);
        i = i + 1;
    }
    proof {
        assert(parts@.take(parts@.len() as int) =~= parts@);
    }
    string_from_chars(out.as_slice())
}

fn decimal_string(n: u64) -> (r: String)
    ensures
        r@ == decimal(n as nat),
{
    let mut out: Vec<char> = Vec::new();
    push_decimal(&mut out, n);
    assert(out@ =~= decimal(n as nat));
    string_from_chars(out.as_slice())
}

fn copy_mapping(m: &Vec<(String, String)>) -> (r: Vec<(String, String)>)
    ensures
        same_mapping(r@, m@),
{
    let mut out: Vec<(String, String)> = Vec::new();
    let mut i: usize = 0;
    while i < m.len()
        invariant
            i <= m@.len(),
            out@.len() == i,
            forall|j: int| 0 <= j < i ==> out@[j].0@ == m@[j].0@ && out@[j].1@ == m@[j].1@,
        decreases m@.len() - i,
    {
        out.push((owned(m[i].0.as_str()), owned(m[i].1.as_str())));
        i = i + 1;
    }
    proof {
        assert forall|k: Seq<char>| #[trigger] label_of(out@, k) == label_of(m@, k) by {
            lemma_index_keys_equal(out@, m@, k);
            lemma_index_of_str(out@, k);
            lemma_index_of_str(m@, k);
        }
    }
    out
}

proof fn lemma_index_keys_equal<V, W>(a: Seq<(String, V)>, b: Seq<(String, W)>, k: Seq<char>)
    requires
        a.len() == b.len(),
        forall|j: int| 0 <= j < a.len() ==> a[j].0@ == b[j].0@,
    ensures
        index_of_str(a, k) == index_of_str(b, k),
    decreases a.len(),
{
    if a.len() > 0 {
        lemma_index_keys_equal(a.drop_last(), b.drop_last(), k);
    }
}

fn sig_eq(a: &FieldSignature, f: &FieldSpec) -> (r: bool)
    ensures
        r == (a.field_type@ == f.field_type@ && opt_view(a.enum_ref) == opt_view(f.enum_ref)),
{
    str_eq(a.field_type.as_str(), f.field_type.as_str()) && opt_str_eq(&a.enum_ref, &f.enum_ref)
}

/// The stored bytes of the bundle with this id.
pub open spec fn bundle_of(bundles: Seq<(String, Vec<u8>)>, id: Seq<char>) -> Option<Seq<u8>> {
    match index_of_str(bundles, id) {
        Some(i) => Some(bundles[i].1@),
        None => None,
    }
}

/// How a bundle id that is already stored is answered: the same bytes
/// again are no change; other bytes are refused.
pub open spec fn stored_answer(bundles: Seq<(String, Vec<u8>)>, id: Seq<char>, raw: Seq<u8>) -> Option<
    Result<PutOutcome, SpecStoreError>,
> {
    match bundle_of(bundles, id) {
        Some(b) => if b == raw {
            Some(Ok(PutOutcome::AlreadyExists))
        } else {
            Some(Err(SpecStoreError::InvalidInput("bundle_id already exists with different content"@)))
        },
        None => None,
    }
}

/// A result's mathematical form.
pub open spec fn outcome_view(r: Result<PutOutcome, StoreError>) -> Result<PutOutcome, SpecStoreError> {
    match r {
        Ok(o) => Ok(o),
        Err(e) => Err(e@),
    }
}

fn bytes_eq(a: &[u8], b: &[u8]) -> (r: bool)
    ensures
        r == (a@ == b@),
{
    if a.len() != b.len() {
        return false;
    }
    let mut i: usize = 0;
    while i < a.len()
        invariant
            a@.len() == b@.len(),
            i <= a@.len(),
            forall|j: int| 0 <= j < i ==> a@[j] == b@[j],
        decreases a@.len() - i,
    {
        if a[i] != b[i] {
            return false;
        }
        i = i + 1;
    }
    assert(a@ =~= b@);
    true
}

/// The registered type with this id.
pub open spec fn type_of(types: Seq<(String, TypeSpec)>, id: Seq<char>) -> Option<TypeSpec> {
    match index_of_str(types, id) {
        Some(t) => Some(types[t].1),
        None => None,
    }
}

/// The registered mapping of the enum with this id.
pub open spec fn enum_of(enums: Seq<(String, Vec<(String, String)>)>, id: Seq<char>) -> Option<Seq<(String, String)>> {
    match index_of_str(enums, id) {
        Some(e) => Some(enums[e].1@),
        None => None,
    }
}

/// Whether every type of `a` is in `b` with every version's fields.
pub open spec fn keeps_types(a: Seq<(String, TypeSpec)>, b: Seq<(String, TypeSpec)>) -> bool {
    forall|id: Seq<char>|
        #![trigger type_of(a, id)]
        type_of(a, id) is Some ==> (type_of(b, id) is Some && keeps_versions(type_of(a, id)->0, type_of(b, id)->0))
}

/// Whether everything a bundle describes is registered: each enum with the
/// same mapping, each type version with the fields it describes.
pub open spec fn bundle_registered(
    types: Seq<(String, TypeSpec)>,
    enums: Seq<(String, Vec<(String, String)>)>,
    b: RegistryBundle,
) -> bool {
    &&& forall|j: int|
        0 <= j < b.enums@.len() ==> enum_of(enums, (#[trigger] b.enums@[j]).0@) is Some && same_mapping(
            enum_of(enums, b.enums@[j].0@)->0,
            b.enums@[j].1@,
        )
    &&& forall|j: int|
        0 <= j < b.types@.len() ==> type_of(types, (#[trigger] b.types@[j]).0@) is Some && forall|k: int|
            0 <= k < b.types@[j].1.versions@.len() ==> entry_registered(
                type_of(types, b.types@[j].0@)->0,
                #[trigger] b.types@[j].1.versions@[k],
            )
}

/// Whether every element of `a` is in `b`.
pub open spec fn contained<T>(a: Seq<T>, b: Seq<T>) -> bool {
    forall|i: int| 0 <= i < a.len() ==> b.contains(#[trigger] a[i])
}

/// A type with no versions and no tags.
pub open spec fn empty_type(e: TypeSpec) -> bool {
    e.versions@.len() == 0 && e.tag_schema@.len() == 0
}

/// [`type_fits`] for a type not registered yet.
pub open spec fn type_fits_free(src: Seq<(String, TypeVersion)>) -> bool {
    &&& forall|k: int|
        0 <= k < src.len() ==> version_value(#[trigger] src[k].0@) is Some && tags_valid(src[k].1.fields@)
    &&& forall|k: int, k2: int|
        0 <= k < src.len() && 0 <= k2 < src.len() && version_value(#[trigger] src[k].0@) == version_value(
            #[trigger] src[k2].0@,
        ) ==> same_defs(src[k].1.fields@, src[k2].1.fields@)
    &&& forall|k: int, k2: int, t: u64|
        0 <= k < src.len() && 0 <= k2 < src.len() && def_sig_at(src[k].1.fields@, t) is Some && def_sig_at(
            src[k2].1.fields@,
            t,
        ) is Some ==> #[trigger] def_sig_at(src[k].1.fields@, t) == #[trigger] def_sig_at(src[k2].1.fields@, t)
}

proof fn lemma_empty_fits(e: TypeSpec, src: Seq<(String, TypeVersion)>)
    requires
        empty_type(e),
        type_fits_free(src),
    ensures
        type_fits(e, src),
{
    assert forall|v: u32| version_fields_of(e, v) is None by {
        lemma_index_of_num(e.versions@, v);
    }
    assert forall|t: u64| sig_at(e.tag_schema@, t) is None by {
        lemma_index_of_num(e.tag_schema@, t);
    }
}

proof fn lemma_empty_from(e: TypeSpec, src: Seq<(String, TypeVersion)>)
    requires
        empty_type(e),
    ensures
        type_from(e, e, src),
{
    assert forall|v: u32| version_fields_of(e, v) is None by {
        lemma_index_of_num(e.versions@, v);
    }
    assert forall|t: u64| sig_at(e.tag_schema@, t) is None by {
        lemma_index_of_num(e.tag_schema@, t);
    }
}

proof fn lemma_fits_restrict(b: TypeSpec, all: Seq<(String, TypeVersion)>, ent: Seq<(String, TypeVersion)>)
    requires
        type_fits(b, all),
        contained(ent, all),
    ensures
        type_fits(b, ent),
{
    assert forall|k: int|
        0 <= k < ent.len() implies version_value(#[trigger] ent[k].0@) is Some && tags_valid(ent[k].1.fields@) && (
    version_fields_of(b, version_value(ent[k].0@)->0) matches Some(fs) ==> fields_match_defs(fs, ent[k].1.fields@)) by {
        assert(all.contains(ent[k]));
        let i = choose|i: int| 0 <= i < all.len() && all[i] == ent[k];
        assert(version_value(all[i].0@) is Some);
    }
    assert forall|k: int, k2: int|
        0 <= k < ent.len() && 0 <= k2 < ent.len() && version_value(#[trigger] ent[k].0@) == version_value(
            #[trigger] ent[k2].0@,
        ) implies same_defs(ent[k].1.fields@, ent[k2].1.fields@) by {
        assert(all.contains(ent[k]));
        let i = choose|i: int| 0 <= i < all.len() && all[i] == ent[k];
        assert(all.contains(ent[k2]));
        let i2 = choose|i: int| 0 <= i < all.len() && all[i] == ent[k2];
        assert(version_value(all[i].0@) == version_value(all[i2].0@));
    }
    assert forall|k: int, t: u64|
        0 <= k < ent.len() && def_sig_at(ent[k].1.fields@, t) is Some && sig_at(b.tag_schema@, t) is Some implies #[trigger] def_sig_at(
            ent[k].1.fields@,
            t,
        ) == sig_at(b.tag_schema@, t) by {
        assert(all.contains(ent[k]));
        let i = choose|i: int| 0 <= i < all.len() && all[i] == ent[k];
        assert(def_sig_at(all[i].1.fields@, t) == sig_at(b.tag_schema@, t));
    }
    assert forall|k: int, k2: int, t: u64|
        0 <= k < ent.len() && 0 <= k2 < ent.len() && def_sig_at(ent[k].1.fields@, t) is Some && def_sig_at(
            ent[k2].1.fields@,
            t,
        ) is Some implies #[trigger] def_sig_at(ent[k].1.fields@, t) == #[trigger] def_sig_at(ent[k2].1.fields@, t) by {
        assert(all.contains(ent[k]));
        let i = choose|i: int| 0 <= i < all.len() && all[i] == ent[k];
        assert(all.contains(ent[k2]));
        let i2 = choose|i: int| 0 <= i < all.len() && all[i] == ent[k2];
        assert(def_sig_at(all[i].1.fields@, t) == def_sig_at(all[i2].1.fields@, t));
    }
}

proof fn lemma_from_widen(b: TypeSpec, t: TypeSpec, pre: Seq<(String, TypeVersion)>, all: Seq<(String, TypeVersion)>)
    requires
        type_from(b, t, pre),
        contained(pre, all),
    ensures
        type_from(b, t, all),
{
    assert forall|v: u32|
        #![trigger version_fields_of(t, v)]
        version_fields_of(t, v) is Some implies version_fields_of(b, v) == version_fields_of(t, v) || exists|k: int|
            0 <= k < all.len() && version_value(all[k].0@) == Some(v) && #[trigger] fields_from_entry(
                version_fields_of(t, v)->0,
                all[k],
            ) by {
        let fs = version_fields_of(t, v)->0;
        if version_fields_of(b, v) != Some(fs) {
            let k = choose|k: int|
                0 <= k < pre.len() && version_value(pre[k].0@) == Some(v) && #[trigger] fields_from_entry(fs, pre[k]);
            assert(all.contains(pre[k]));
            let i = choose|i: int| 0 <= i < all.len() && all[i] == pre[k];
            assert(fields_from_entry(fs, all[i]));
        }
    }
    assert forall|x: u64|
        #[trigger] sig_at(t.tag_schema@, x) is Some implies sig_at(b.tag_schema@, x) is Some || exists|k: int|
            0 <= k < all.len() && #[trigger] def_sig_at(all[k].1.fields@, x) == sig_at(t.tag_schema@, x) by {
        if sig_at(b.tag_schema@, x) is None {
            let k = choose|k: int| 0 <= k < pre.len() && #[trigger] def_sig_at(pre[k].1.fields@, x) == sig_at(t.tag_schema@, x);
            assert(all.contains(pre[k]));
            let i = choose|i: int| 0 <= i < all.len() && all[i] == pre[k];
            assert(def_sig_at(all[i].1.fields@, x) == sig_at(t.tag_schema@, x));
        }
    }
}

/// A type built from a base that fits the bundle's versions fits them too.
proof fn lemma_fits_built(b: TypeSpec, t: TypeSpec, all: Seq<(String, TypeVersion)>)
    requires
        type_fits(b, all),
        type_from(b, t, all),
    ensures
        type_fits(t, all),
{
    assert forall|k: int|
        0 <= k < all.len() implies (version_fields_of(t, version_value(#[trigger] all[k].0@)->0) matches Some(fs)
        ==> fields_match_defs(fs, all[k].1.fields@)) by {
        let v = version_value(all[k].0@)->0;
        if let Some(fs) = version_fields_of(t, v) {
            if version_fields_of(b, v) != Some(fs) {
                let k2 = choose|k2: int|
                    0 <= k2 < all.len() && version_value(all[k2].0@) == Some(v) && #[trigger] fields_from_entry(fs, all[k2]);
                assert(same_defs(all[k2].1.fields@, all[k].1.fields@));
                assert forall|x: u64| #[trigger] field_at(fs, x) == def_field_at(all[k].1.fields@, x) by {
                    assert(field_at(fs, x) == def_field_at(all[k2].1.fields@, x));
                }
            }
        }
    }
    assert forall|k: int, x: u64|
        0 <= k < all.len() && def_sig_at(all[k].1.fields@, x) is Some && sig_at(t.tag_schema@, x) is Some implies #[trigger] def_sig_at(
            all[k].1.fields@,
            x,
        ) == sig_at(t.tag_schema@, x) by {
        if sig_at(b.tag_schema@, x) is Some {
            assert(def_sig_at(all[k].1.fields@, x) == sig_at(b.tag_schema@, x));
        } else {
            let k2 = choose|k2: int| 0 <= k2 < all.len() && #[trigger] def_sig_at(all[k2].1.fields@, x) == sig_at(t.tag_schema@, x);
            assert(def_sig_at(all[k].1.fields@, x) == def_sig_at(all[k2].1.fields@, x));
        }
    }
}

/// Building in two steps builds from both sources.
proof fn lemma_from_compose(
    b: TypeSpec,
    t: TypeSpec,
    u: TypeSpec,
    pre: Seq<(String, TypeVersion)>,
    ent: Seq<(String, TypeVersion)>,
)
    requires
        type_from(b, t, pre),
        type_from(t, u, ent),
    ensures
        type_from(b, u, pre + ent),
{
    let all = pre + ent;
    assert forall|v: u32|
        #![trigger version_fields_of(u, v)]
        version_fields_of(u, v) is Some implies version_fields_of(b, v) == version_fields_of(u, v) || exists|k: int|
            0 <= k < all.len() && version_value(all[k].0@) == Some(v) && #[trigger] fields_from_entry(
                version_fields_of(u, v)->0,
                all[k],
            ) by {
        let fs = version_fields_of(u, v)->0;
        if version_fields_of(t, v) == Some(fs) {
            if version_fields_of(b, v) != Some(fs) {
                let k = choose|k: int|
                    0 <= k < pre.len() && version_value(pre[k].0@) == Some(v) && #[trigger] fields_from_entry(fs, pre[k]);
                assert(all[k] == pre[k]);
            }
        } else {
            let k = choose|k: int|
                0 <= k < ent.len() && version_value(ent[k].0@) == Some(v) && #[trigger] fields_from_entry(fs, ent[k]);
            assert(all[pre.len() + k] == ent[k]);
        }
    }
    assert forall|x: u64|
        #[trigger] sig_at(u.tag_schema@, x) is Some implies sig_at(b.tag_schema@, x) is Some || exists|k: int|
            0 <= k < all.len() && #[trigger] def_sig_at(all[k].1.fields@, x) == sig_at(u.tag_schema@, x) by {
        if sig_at(b.tag_schema@, x) is None {
            if sig_at(t.tag_schema@, x) is Some {
                let k = choose|k: int| 0 <= k < pre.len() && #[trigger] def_sig_at(pre[k].1.fields@, x) == sig_at(t.tag_schema@, x);
                assert(all[k] == pre[k]);
                assert(def_sig_at(all[k].1.fields@, x) == sig_at(u.tag_schema@, x));
            } else {
                let k = choose|k: int| 0 <= k < ent.len() && #[trigger] def_sig_at(ent[k].1.fields@, x) == sig_at(u.tag_schema@, x);
                assert(all[pre.len() + k] == ent[k]);
            }
        }
    }
}

/// The versions that a bundle's entries give the type with this id, in
/// order.
pub open spec fn versions_for(types: Seq<(String, TypeEntry)>, id: Seq<char>) -> Seq<(String, TypeVersion)>
    decreases types.len(),
{
    if types.len() == 0 {
        Seq::empty()
    } else if types.last().0@ == id {
        versions_for(types.drop_last(), id) + types.last().1.versions@
    } else {
        versions_for(types.drop_last(), id)
    }
}

proof fn lemma_versions_for_take(s: Seq<(String, TypeEntry)>, a: int, id: Seq<char>)
    requires
        0 <= a <= s.len(),
    ensures
        contained(versions_for(s.take(a), id), versions_for(s, id)),
    decreases s.len(),
{
    if a == s.len() {
        assert(s.take(a) =~= s);
        assert forall|i: int| 0 <= i < versions_for(s, id).len() implies versions_for(s, id).contains(
            #[trigger] versions_for(s, id)[i],
        ) by {}
    } else {
        let d = s.drop_last();
        assert(s.take(a) =~= d.take(a));
        lemma_versions_for_take(d, a, id);
        let p = versions_for(d.take(a), id);
        let w = versions_for(s, id);
        assert forall|i: int| 0 <= i < p.len() implies w.contains(#[trigger] p[i]) by {
            assert(versions_for(d, id).contains(p[i]));
            let j = choose|j: int| 0 <= j < versions_for(d, id).len() && versions_for(d, id)[j] == p[i];
            assert(w[j] == versions_for(d, id)[j]);
        }
    }
}

proof fn lemma_built_widen(
    old: Seq<(String, TypeSpec)>,
    cur: TypeSpec,
    id: Seq<char>,
    pre: Seq<(String, TypeVersion)>,
    all: Seq<(String, TypeVersion)>,
)
    requires
        type_built(old, cur, id, pre),
        contained(pre, all),
    ensures
        type_built(old, cur, id, all),
{
    match type_of(old, id) {
        Some(b) => {
            lemma_from_widen(b, cur, pre, all);
        },
        None => {
            let e = choose|e: TypeSpec| empty_type(e) && #[trigger] type_from(e, cur, pre);
            lemma_from_widen(e, cur, pre, all);
        },
    }
}

/// Whether a bundle's enums can all be registered: each one already
/// registered has the same mapping, and the bundle gives one id one mapping.
pub open spec fn enums_fit(enums: Seq<(String, Vec<(String, String)>)>, be: Seq<(String, Vec<(String, String)>)>) -> bool {
    &&& forall|j: int|
        0 <= j < be.len() ==> (enum_of(enums, (#[trigger] be[j]).0@) matches Some(m) ==> same_mapping(m, be[j].1@))
    &&& forall|i: int, j: int|
        0 <= i < be.len() && 0 <= j < be.len() && (#[trigger] be[i]).0@ == (#[trigger] be[j]).0@ ==> same_mapping(
            be[i].1@,
            be[j].1@,
        )
}

/// Whether every type a bundle describes can be merged: each fits all the
/// versions the bundle gives it (see [`type_fits`]).
pub open spec fn types_fit(types: Seq<(String, TypeSpec)>, b: Seq<(String, TypeEntry)>) -> bool {
    forall|j: int|
        0 <= j < b.len() ==> match type_of(types, (#[trigger] b[j]).0@) {
            Some(ts) => type_fits(ts, versions_for(b, b[j].0@)),
            None => type_fits_free(versions_for(b, b[j].0@)),
        }
}

/// Whether a registered type is built from what was registered before and
/// the versions that the first entries of a bundle give it.
pub open spec fn type_built(old: Seq<(String, TypeSpec)>, cur: TypeSpec, id: Seq<char>, src: Seq<(String, TypeVersion)>) -> bool {
    match type_of(old, id) {
        Some(b) => type_from(b, cur, src),
        None => exists|e: TypeSpec| empty_type(e) && #[trigger] type_from(e, cur, src),
    }
}

impl Registry {
    pub closed spec fn enums_spec(&self) -> Seq<(String, Vec<(String, String)>)> {
        self.enums@
    }

    pub closed spec fn types_spec(&self) -> Seq<(String, TypeSpec)> {
        self.types@
    }

    pub closed spec fn bundles_spec(&self) -> Seq<(String, Vec<u8>)> {
        self.bundles@
    }

    pub closed spec fn last_bundle_spec(&self) -> Option<Seq<char>> {
        opt_view(self.last_bundle_id)
    }

    /// Every registered type is well formed.
    pub closed spec fn wf(&self) -> bool {
        &&& forall|t: int| 0 <= t < self.types@.len() ==> type_wf(#[trigger] self.types@[t].1)
        &&& forall|a: int, b: int| 0 <= a < b < self.types@.len() ==> #[trigger] self.types@[a].0@ != #[trigger] self.types@[b].0@
    }

    /// An empty registry.
    pub fn new() -> (r: Registry)
        ensures
            r.enums_spec().len() == 0,
            r.types_spec().len() == 0,
            r.bundles_spec().len() == 0,
            r.last_bundle_spec() is None,
            r.wf(),
    {
        Registry { bundles: Vec::new(), types: Vec::new(), enums: Vec::new(), last_bundle_id: None }
    }

    /// The id of the bundle taken in last.
    pub fn last_bundle_id(&self) -> (r: Option<String>)
        ensures
            opt_view(r) == self.last_bundle_spec(),
    {
        copy_opt(&self.last_bundle_id)
    }

    /// The bytes of a bundle.
    pub fn get_bundle(&self, bundle_id: &str) -> (r: Option<&[u8]>)
        ensures
            match index_of_str(self.bundles_spec(), bundle_id@) {
                Some(i) => r matches Some(b) && b@ == self.bundles_spec()[i].1@,
                None => r is None,
            },
    {
        match find_str(&self.bundles, bundle_id) {
            Some(i) => {
                proof {
                    lemma_index_of_str(self.bundles@, bundle_id@);
                }
                Some(self.bundles[i].1.as_slice())
            },
            None => None,
        }
    }

    /// A type version.
    pub fn get_type_version(&self, type_id: &str, version: u32) -> (r: Option<&TypeVersionSpec>)
        ensures
            match index_of_str(self.types_spec(), type_id@) {
                Some(t) => match index_of_num(self.types_spec()[t].1.versions@, version) {
                    Some(v) => r == Some(&self.types_spec()[t].1.versions@[v].1),
                    None => r is None,
                },
                None => r is None,
            },
    {
        match find_str(&self.types, type_id) {
            Some(t) => {
                proof {
                    lemma_index_of_str(self.types@, type_id@);
                }
                match find_u32(&self.types[t].1.versions, version) {
                    Some(v) => {
                        proof {
                            lemma_index_of_num(self.types@[t as int].1.versions@, version);
                        }
                        Some(&self.types[t].1.versions[v].1)
                    },
                    None => None,
                }
            },
            None => None,
        }
    }

    /// A type's highest version.
    pub fn get_latest_type_version(&self, type_id: &str) -> (r: Option<&TypeVersionSpec>)
        requires
            self.wf(),
        ensures
            match index_of_str(self.types_spec(), type_id@) {
                Some(t) => {
                    let vs = self.types_spec()[t].1.versions@;
                    if vs.len() == 0 {
                        r is None
                    } else {
                        r == Some(&vs.last().1) && forall|k: int| 0 <= k < vs.len() ==> #[trigger] vs[k].0 <= vs.last().0
                    }
                },
                None => r is None,
            },
    {
        match find_str(&self.types, type_id) {
            Some(t) => {
                proof {
                    lemma_index_of_str(self.types@, type_id@);
                }
                let vs = &self.types[t].1.versions;
                if vs.len() == 0 {
                    None
                } else {
                    proof {
                        assert(type_wf(self.types@[t as int].1));
                        assert forall|k: int| 0 <= k < vs@.len() implies #[trigger] vs@[k].0 <= vs@.last().0 by {
                            if k < vs@.len() - 1 {
                                assert(vs@[k].0 < vs@[vs@.len() - 1].0);
                            }
                        }
                    }
                    Some(&vs[vs.len() - 1].1)
                }
            },
            None => None,
        }
    }

    /// An enum's mapping.
    pub fn get_enum(&self, enum_id: &str) -> (r: Option<&Vec<(String, String)>>)
        ensures
            match index_of_str(self.enums_spec(), enum_id@) {
                Some(i) => r == Some(&self.enums_spec()[i].1),
                None => r is None,
            },
    {
        match find_str(&self.enums, enum_id) {
            Some(i) => {
                proof {
                    lemma_index_of_str(self.enums@, enum_id@);
                }
                Some(&self.enums[i].1)
            },
            None => None,
        }
    }

    /// Counts of bundles, types and enums.
    pub fn stats(&self) -> (s: RegistryStats)
        ensures
            s.bundles_total == self.bundles_spec().len(),
            s.types_total == self.types_spec().len(),
            s.enums_total == self.enums_spec().len(),
    {
        RegistryStats { bundles_total: self.bundles.len(), types_total: self.types.len(), enums_total: self.enums.len() }
    }

    /// The renderer of each type whose highest version has one, in the
    /// order the types were registered.
    pub fn get_all_renderers(&self) -> (r: Vec<(String, RendererSpec)>)
        ensures
            renderer_pairs_view(r@) == renderers_of(self.types_spec()),
    {
        let mut out: Vec<(String, RendererSpec)> = Vec::new();
        let mut t: usize = 0;
        proof {
            assert(renderer_pairs_view(out@) =~= renderers_of(self.types@.take(0)));
        }
        while t < self.types.len()
            invariant
                t <= self.types@.len(),
                renderer_pairs_view(out@) == renderers_of(self.types@.take(t as int)),
            decreases self.types@.len() - t,
        {
            let ghost before = out@;
            proof {
                assert(self.types@.take(t + 1).drop_last() =~= self.types@.take(t as int));
                assert(self.types@.take(t + 1).last() == self.types@[t as int]);
            }
            let vs = &self.types[t].1.versions;
            if vs.len() > 0 {
                match &vs[vs.len() - 1].1.renderer {
                    Some(rs) => {
                        out.push((owned(self.types[t].0.as_str()), copy_renderer(rs)));
                        proof {
                            assert(renderer_pairs_view(out@) =~= renderer_pairs_view(before).push(
                                (self.types@[t as int].0@, renderer_view(*rs)),
                            ));
                        }
                    },
                    None => {},
                }
            }
            t = t + 1;
        }
        proof {
            assert(self.types@.take(self.types@.len() as int) =~= self.types@);
        }
        out
    }

    /// Registers a bundle's enums; one registered with another mapping is
    /// refused.  Enums are only ever added.
    fn ingest_enums(&mut self, bundle: &RegistryBundle) -> (r: Result<(), StoreError>)
        ensures
            final(self).types == old(self).types,
            final(self).bundles == old(self).bundles,
            final(self).last_bundle_id == old(self).last_bundle_id,
            final(self).enums@.len() >= old(self).enums@.len(),
            final(self).enums@.subrange(0, old(self).enums@.len() as int) == old(self).enums@,
            r is Ok ==> forall|j: int|
                0 <= j < bundle.enums@.len() ==> enum_of(final(self).enums@, (#[trigger] bundle.enums@[j]).0@) is Some
                    && same_mapping(enum_of(final(self).enums@, bundle.enums@[j].0@)->0, bundle.enums@[j].1@),
            enums_fit(old(self).enums@, bundle.enums@) ==> r is Ok,
            r matches Err(e) ==> e is InvalidInput,
    {
        let mut j: usize = 0;
        while j < bundle.enums.len()
            invariant
                forall|id: Seq<char>|
                    #[trigger] enum_of(self.enums@, id) is Some ==> enum_of(old(self).enums@, id) == enum_of(self.enums@, id)
                        || exists|i: int|
                        0 <= i < j && (#[trigger] bundle.enums@[i]).0@ == id && same_mapping(
                            enum_of(self.enums@, id)->0,
                            bundle.enums@[i].1@,
                        ),
                j <= bundle.enums@.len(),
                self.types == old(self).types,
                self.bundles == old(self).bundles,
                self.last_bundle_id == old(self).last_bundle_id,
                self.enums@.len() >= old(self).enums@.len(),
                self.enums@.subrange(0, old(self).enums@.len() as int) == old(self).enums@,
                forall|i: int|
                    0 <= i < j ==> enum_of(self.enums@, (#[trigger] bundle.enums@[i]).0@) is Some && same_mapping(
                        enum_of(self.enums@, bundle.enums@[i].0@)->0,
                        bundle.enums@[i].1@,
                    ),
            decreases bundle.enums@.len() - j,
        {
            let eid = bundle.enums[j].0.as_str();
            let mapping = &bundle.enums[j].1;
            match find_str(&self.enums, eid) {
                Some(i) => {
                    proof {
                        lemma_index_of_str(self.enums@, eid@);
                    }
                    if !mapping_eq(&self.enums[i].1, mapping) {
                        proof {
                            if enums_fit(old(self).enums@, bundle.enums@) {
                                let m = enum_of(self.enums@, eid@)->0;
                                assert(m == self.enums@[i as int].1@);
                                if enum_of(old(self).enums@, eid@) == enum_of(self.enums@, eid@) {
                                    assert(bundle.enums@[j as int].0@ == eid@);
                                    assert(same_mapping(m, bundle.enums@[j as int].1@));
                                } else {
                                    let i2 = choose|i2: int|
                                        0 <= i2 < j && (#[trigger] bundle.enums@[i2]).0@ == eid@ && same_mapping(
                                            m,
                                            bundle.enums@[i2].1@,
                                        );
                                    assert(same_mapping(bundle.enums@[i2].1@, bundle.enums@[j as int].1@));
                                    assert forall|x: Seq<char>| #[trigger] label_of(m, x) == label_of(mapping@, x) by {
                                        assert(label_of(m, x) == label_of(bundle.enums@[i2].1@, x));
                                    }
                                }
                            }
                        }
                        let id = owned(eid);
                        let msg = err_text(&vec!["enum ", id.as_str(), " already exists with different mapping"]);
                        return Err(StoreError::InvalidInput(msg));
                    }
                },
                None => {
                    let ghost before = self.enums@;
                    let copy = copy_mapping(mapping);
                    self.enums.push((owned(eid), copy));
                    proof {
                        assert(self.enums@.subrange(0, old(self).enums@.len() as int) =~= old(self).enums@) by {
                            assert(self.enums@.subrange(0, old(self).enums@.len() as int) =~= before.subrange(
                                0,
                                old(self).enums@.len() as int,
                            ));
                        }
                        assert forall|k: Seq<char>| index_of_str(before, k) is Some implies #[trigger] index_of_str(
                            self.enums@,
                            k,
                        ) == index_of_str(before, k) by {
                            lemma_index_of_str_push(before, self.enums@.last(), k);
                            assert(self.enums@ == before.push(self.enums@.last()));
                        }
                        lemma_index_of_str_push(before, self.enums@.last(), eid@);
                        assert(self.enums@ == before.push(self.enums@.last()));
                        assert forall|id: Seq<char>|
                            #[trigger] enum_of(self.enums@, id) is Some implies enum_of(old(self).enums@, id) == enum_of(
                                self.enums@,
                                id,
                            ) || exists|i: int|
                                0 <= i < j + 1 && (#[trigger] bundle.enums@[i]).0@ == id && same_mapping(
                                    enum_of(self.enums@, id)->0,
                                    bundle.enums@[i].1@,
                                ) by {
                            lemma_index_of_str_push(before, self.enums@.last(), id);
                            if id == eid@ {
                                assert(bundle.enums@[j as int].0@ == id);
                            } else {
                                lemma_index_of_str(before, id);
                                let e = index_of_str(before, id)->0;
                                assert(self.enums@[e] == before[e]);
                                assert(enum_of(self.enums@, id) == enum_of(before, id));
                            }
                        }
                        assert forall|i: int|
                            0 <= i < j + 1 implies enum_of(self.enums@, (#[trigger] bundle.enums@[i]).0@) is Some
                            && same_mapping(enum_of(self.enums@, bundle.enums@[i].0@)->0, bundle.enums@[i].1@) by {
                            if i < j {
                                lemma_index_of_str(before, bundle.enums@[i].0@);
                                let e = index_of_str(before, bundle.enums@[i].0@)->0;
                                assert(self.enums@[e] == before[e]);
                            }
                        }
                    }
                },
            }
            j = j + 1;
        }
        Ok(())
    }

    /// Merges a bundle's types; the first that cannot be merged stops it.
    #[verifier::rlimit(40)]
    fn ingest_types(&mut self, bundle: &RegistryBundle) -> (r: Result<(), StoreError>)
        requires
            old(self).wf(),
        ensures
            final(self).wf(),
            final(self).enums == old(self).enums,
            final(self).bundles == old(self).bundles,
            final(self).last_bundle_id == old(self).last_bundle_id,
            keeps_types(old(self).types@, final(self).types@),
            forall|id: Seq<char>|
                #[trigger] type_of(final(self).types@, id) is Some ==> type_built(
                    old(self).types@,
                    type_of(final(self).types@, id)->0,
                    id,
                    versions_for(bundle.types@, id),
                ),
            types_fit(old(self).types@, bundle.types@) ==> r is Ok,
            r is Ok ==> forall|j: int|
                0 <= j < bundle.types@.len() ==> type_of(final(self).types@, (#[trigger] bundle.types@[j]).0@) is Some
                    && forall|k: int|
                    0 <= k < bundle.types@[j].1.versions@.len() ==> entry_registered(
                        type_of(final(self).types@, bundle.types@[j].0@)->0,
                        #[trigger] bundle.types@[j].1.versions@[k],
                    ),
            r matches Err(e) ==> e is InvalidInput,
    {
        proof {
            assert forall|id: Seq<char>|
                #![trigger type_of(self.types@, id)]
                type_of(self.types@, id) is Some implies (type_of(self.types@, id) is Some && keeps_versions(
                    type_of(self.types@, id)->0,
                    type_of(self.types@, id)->0,
                )) by {
                lemma_keeps_versions_refl(type_of(self.types@, id)->0);
            }
        }
        let mut j: usize = 0;
        while j < bundle.types.len()
            invariant
                j <= bundle.types@.len(),
                self.wf(),
                self.enums == old(self).enums,
                self.bundles == old(self).bundles,
                self.last_bundle_id == old(self).last_bundle_id,
                keeps_types(old(self).types@, self.types@),
                forall|i: int|
                    0 <= i < j ==> type_of(self.types@, (#[trigger] bundle.types@[i]).0@) is Some && forall|k: int|
                        0 <= k < bundle.types@[i].1.versions@.len() ==> entry_registered(
                            type_of(self.types@, bundle.types@[i].0@)->0,
                            #[trigger] bundle.types@[i].1.versions@[k],
                        ),
                forall|id: Seq<char>|
                    #[trigger] type_of(self.types@, id) is Some ==> type_built(
                        old(self).types@,
                        type_of(self.types@, id)->0,
                        id,
                        versions_for(bundle.types@.take(j as int), id),
                    ),
            decreases bundle.types@.len() - j,
        {
            let tid = bundle.types[j].0.as_str();
            let ghost start = self.types@;
            let ghost pre = versions_for(bundle.types@.take(j as int), tid@);
            let ghost ent = bundle.types@[j as int].1.versions@;
            let ghost all = versions_for(bundle.types@, tid@);
            proof {
                let tk = bundle.types@.take(j + 1);
                assert(tk.drop_last() =~= bundle.types@.take(j as int));
                assert(tk.last() == bundle.types@[j as int]);
                assert(versions_for(tk, tid@) == pre + ent);
                assert forall|id: Seq<char>| id != tid@ implies #[trigger] versions_for(tk, id) == versions_for(
                    bundle.types@.take(j as int),
                    id,
                ) by {}
                lemma_versions_for_take(bundle.types@, j + 1, tid@);
                lemma_versions_for_take(bundle.types@, j as int, tid@);
                assert(contained(ent, all)) by {
                    assert forall|i: int| 0 <= i < ent.len() implies all.contains(#[trigger] ent[i]) by {
                        assert((pre + ent)[pre.len() + i] == ent[i]);
                        assert((pre + ent).contains(ent[i]));
                    }
                }
            }
            let t = match find_str(&self.types, tid) {
                Some(t) => {
                    proof {
                        lemma_index_of_str(self.types@, tid@);
                    }
                    t
                },
                None => {
                    let ghost before = self.types@;
                    let fresh = TypeSpec { versions: Vec::new(), tag_schema: Vec::new() };
                    proof {
                        assert(fresh.versions@.len() == 0);
                    }
                    self.types.push((owned(tid), fresh));
                    proof {
                        assert(self.types@ == before.push(self.types@.last()));
                        lemma_index_of_str_push(before, self.types@.last(), tid@);
                        assert forall|id: Seq<char>| index_of_str(before, id) is Some implies #[trigger] index_of_str(
                            self.types@,
                            id,
                        ) == index_of_str(before, id) by {
                            lemma_index_of_str_push(before, self.types@.last(), id);
                        }
                        assert forall|a: int| 0 <= a < self.types@.len() implies type_wf(#[trigger] self.types@[a].1) by {
                            if a < before.len() {
                                assert(self.types@[a] == before[a]);
                            }
                        }
                        lemma_index_of_str(before, tid@);
                        assert forall|a: int, b: int|
                            0 <= a < b < self.types@.len() implies #[trigger] self.types@[a].0@ != #[trigger] self.types@[b].0@ by {
                            assert(self.types@[a] == before[a]);
                            if b < before.len() {
                                assert(self.types@[b] == before[b]);
                            }
                        }
                    }
                    self.types.len() - 1
                },
            };
            let ghost mid = self.types@;
            proof {
                assert(index_of_str(mid, tid@) == Some(t as int));
                assert forall|id: Seq<char>| #![trigger type_of(start, id)] type_of(start, id) is Some implies (type_of(
                    mid,
                    id,
                ) is Some && type_of(mid, id) == type_of(start, id)) by {
                    lemma_index_of_str(start, id);
                    let a = index_of_str(start, id)->0;
                    if mid.len() > start.len() {
                        lemma_index_of_str_push(start, mid.last(), id);
                        assert(mid == start.push(mid.last()));
                        assert(mid[a] == start[a]);
                    }
                }
            }
            let mut entry = self.types.remove(t);
            let ghost old_ts = entry.1;
            assert(entry == mid[t as int]);
            let ghost base: TypeSpec = match type_of(old(self).types@, tid@) {
                Some(b) => b,
                None => if type_of(start, tid@) is Some {
                    choose|e: TypeSpec| empty_type(e) && #[trigger] type_from(e, type_of(start, tid@)->0, pre)
                } else {
                    old_ts
                },
            };
            proof {
                assert(type_wf(mid[t as int].1));
                assert(type_of(mid, tid@) == Some(old_ts));
                if type_of(start, tid@) is Some {
                    assert(type_built(old(self).types@, type_of(start, tid@)->0, tid@, pre));
                    assert(type_from(base, old_ts, pre));
                } else {
                    assert(type_of(old(self).types@, tid@) is None);
                    assert(old_ts.versions@.len() == 0);
                    assert(empty_type(old_ts));
                    lemma_empty_from(old_ts, pre);
                }
                if types_fit(old(self).types@, bundle.types@) {
                    assert(bundle.types@[j as int].0@ == tid@);
                    if type_of(old(self).types@, tid@) is None {
                        lemma_empty_fits(base, all);
                    }
                    assert(type_fits(base, all));
                    lemma_from_widen(base, old_ts, pre, all);
                    lemma_fits_built(base, old_ts, all);
                    lemma_fits_restrict(old_ts, all, ent);
                }
            }
            let res = ingest_type(&mut entry.1, tid, &bundle.types[j].1);
            self.types.insert(t, entry);
            proof {
                lemma_from_compose(base, old_ts, entry.1, pre, ent);
                let n = self.types@;
                assert(n =~= mid.update(t as int, entry));
                assert forall|id: Seq<char>| #[trigger] index_of_str(n, id) == index_of_str(mid, id) by {
                    lemma_index_keys_equal(n, mid, id);
                }
                assert forall|a: int| 0 <= a < n.len() implies type_wf(#[trigger] n[a].1) by {
                    if a != t {
                        assert(n[a] == mid[a]);
                    }
                }
                assert forall|a: int, b: int| 0 <= a < b < n.len() implies #[trigger] n[a].0@ != #[trigger] n[b].0@ by {
                    assert(n[a].0 == mid[a].0 && n[b].0 == mid[b].0);
                }
                // what the loop had before this type stays registered
                assert forall|id: Seq<char>|
                    #![trigger type_of(mid, id)]
                    type_of(mid, id) is Some implies (type_of(n, id) is Some && keeps_versions(
                        type_of(mid, id)->0,
                        type_of(n, id)->0,
                    )) by {
                    lemma_index_of_str(mid, id);
                    let a = index_of_str(mid, id)->0;
                    if a == t {
                        assert(type_of(n, id)->0 == entry.1);
                    } else {
                        assert(n[a] == mid[a]);
                        lemma_keeps_versions_refl(mid[a].1);
                    }
                }
                assert forall|id: Seq<char>|
                    #![trigger type_of(old(self).types@, id)]
                    type_of(old(self).types@, id) is Some implies (type_of(n, id) is Some && keeps_versions(
                        type_of(old(self).types@, id)->0,
                        type_of(n, id)->0,
                    )) by {
                    assert(type_of(start, id) is Some);
                    assert(type_of(mid, id) == type_of(start, id));
                    lemma_keeps_versions_trans(type_of(old(self).types@, id)->0, type_of(mid, id)->0, type_of(n, id)->0);
                }
                let tk = bundle.types@.take(j + 1);
                assert forall|id: Seq<char>|
                    #[trigger] type_of(n, id) is Some implies type_built(
                        old(self).types@,
                        type_of(n, id)->0,
                        id,
                        versions_for(tk, id),
                    ) by {
                    lemma_index_of_str(mid, id);
                    let a = index_of_str(mid, id)->0;
                    if a == t {
                        assert(id == tid@);
                        assert(type_of(n, id)->0 == entry.1);
                        assert(type_from(base, entry.1, versions_for(tk, id)));
                    } else {
                        assert(n[a] == mid[a]);
                        if mid.len() > start.len() {
                            assert(mid == start.push(mid.last()));
                            lemma_index_of_str_push(start, mid.last(), id);
                            assert(mid[a] == start[a]);
                        }
                        assert(type_of(start, id) is Some);
                        assert(type_of(n, id) == type_of(start, id));
                        assert(versions_for(tk, id) == versions_for(bundle.types@.take(j as int), id));
                    }
                }
                assert forall|id: Seq<char>|
                    #[trigger] type_of(n, id) is Some implies type_built(
                        old(self).types@,
                        type_of(n, id)->0,
                        id,
                        versions_for(bundle.types@, id),
                    ) by {
                    lemma_versions_for_take(bundle.types@, j + 1, id);
                    lemma_built_widen(old(self).types@, type_of(n, id)->0, id, versions_for(tk, id), versions_for(bundle.types@, id));
                }
            }
            match res {
                Ok(()) => {},
                Err(e) => {
                    return Err(e);
                },
            }
            proof {
                let n = self.types@;
                assert forall|i: int|
                    0 <= i < j + 1 implies type_of(n, (#[trigger] bundle.types@[i]).0@) is Some && forall|k: int|
                        0 <= k < bundle.types@[i].1.versions@.len() ==> entry_registered(
                            type_of(n, bundle.types@[i].0@)->0,
                            #[trigger] bundle.types@[i].1.versions@[k],
                        ) by {
                    if i < j {
                        let id = bundle.types@[i].0@;
                        assert(type_of(start, id) is Some);
                        assert(type_of(mid, id) == type_of(start, id));
                        assert(keeps_versions(type_of(mid, id)->0, type_of(n, id)->0));
                        assert forall|k: int| 0 <= k < bundle.types@[i].1.versions@.len() implies entry_registered(
                            type_of(n, id)->0,
                            #[trigger] bundle.types@[i].1.versions@[k],
                        ) by {
                            lemma_entry_kept(type_of(mid, id)->0, type_of(n, id)->0, bundle.types@[i].1.versions@[k]);
                        }
                    } else {
                        assert(type_of(n, tid@)->0 == entry.1);
                    }
                }
            }
            j = j + 1;
        }
        proof {
            assert(bundle.types@.take(j as int) =~= bundle.types@);
        }
        Ok(())
    }

    /// Merges a bundle into the registry: its enums, then its types, then
    /// checks that every enum a field names exists.  What was merged before
    /// an error stays merged.
    fn ingest_bundle(&mut self, bundle: &RegistryBundle) -> (r: Result<(), StoreError>)
        requires
            old(self).wf(),
        ensures
            final(self).wf(),
            final(self).bundles == old(self).bundles,
            final(self).last_bundle_id == old(self).last_bundle_id,
            bundle.registry_version == 0 ==> (r matches Err(e) && e@ == SpecStoreError::InvalidInput(
                "registry_version must be > 0"@,
            ) && *final(self) == *old(self)),
            final(self).enums@.len() >= old(self).enums@.len(),
            final(self).enums@.subrange(0, old(self).enums@.len() as int) == old(self).enums@,
            keeps_types(old(self).types@, final(self).types@),
            r is Ok ==> bundle.registry_version > 0 && bundle_registered(final(self).types@, final(self).enums@, *bundle)
                && refs_resolve(final(self).types@, final(self).enums@),
            bundle.registry_version > 0 && bundle_fits(old(self).types@, old(self).enums@, *bundle) ==> r is Ok,
            r matches Err(e) ==> e is InvalidInput,
    {
        if bundle.registry_version == 0 {
            return Err(StoreError::InvalidInput(owned("registry_version must be > 0")));
        }
        proof {
            assert(self.enums@.subrange(0, self.enums@.len() as int) =~= self.enums@);
            assert forall|id: Seq<char>|
                #![trigger type_of(self.types@, id)]
                type_of(self.types@, id) is Some implies (type_of(self.types@, id) is Some && keeps_versions(
                    type_of(self.types@, id)->0,
                    type_of(self.types@, id)->0,
                )) by {
                lemma_keeps_versions_refl(type_of(self.types@, id)->0);
            }
        }
        match self.ingest_enums(bundle) {
            Ok(()) => {},
            Err(e) => {
                return Err(e);
            },
        }
        let ghost enums_after = self.enums@;
        match self.ingest_types(bundle) {
            Ok(()) => {},
            Err(e) => {
                return Err(e);
            },
        }
        assert(self.enums@ == enums_after);
        proof {
            if bundle_fits(old(self).types@, old(self).enums@, *bundle) {
                lemma_refs_after(old(self).types@, old(self).enums@, *bundle, self.types@, self.enums@);
            }
        }
        self.check_refs()
    }

    /// Stores a bundle's bytes under its id (replacing what was stored
    /// under it) and makes it the last bundle.
    pub fn record_bundle(&mut self, bundle_id: &str, raw: &[u8])
        ensures
            bundle_of(final(self).bundles_spec(), bundle_id@) == Some(raw@),
            forall|id: Seq<char>|
                id != bundle_id@ ==> #[trigger] bundle_of(final(self).bundles_spec(), id) == bundle_of(
                    old(self).bundles_spec(),
                    id,
                ),
            final(self).last_bundle_spec() == Some(bundle_id@),
            final(self).types_spec() == old(self).types_spec(),
            final(self).enums_spec() == old(self).enums_spec(),
            old(self).wf() ==> final(self).wf(),
    {
        let bytes = vstd::slice::slice_to_vec(raw);
        let ghost before = self.bundles@;
        match find_str(&self.bundles, bundle_id) {
            Some(i) => {
                proof {
                    lemma_index_of_str(before, bundle_id@);
                }
                self.bundles.set(i, (owned(bundle_id), bytes));
                proof {
                    assert forall|id: Seq<char>| #[trigger] index_of_str(self.bundles@, id) == index_of_str(before, id) by {
                        lemma_index_keys_equal(self.bundles@, before, id);
                    }
                    assert forall|id: Seq<char>| id != bundle_id@ implies #[trigger] bundle_of(self.bundles@, id) == bundle_of(
                        before,
                        id,
                    ) by {
                        lemma_index_of_str(before, id);
                        if let Some(k) = index_of_str(before, id) {
                            assert(k != i);
                            assert(self.bundles@[k] == before[k]);
                        }
                    }
                }
            },
            None => {
                self.bundles.push((owned(bundle_id), bytes));
                proof {
                    assert(self.bundles@ == before.push(self.bundles@.last()));
                    lemma_index_of_str_push(before, self.bundles@.last(), bundle_id@);
                    assert forall|id: Seq<char>| id != bundle_id@ implies #[trigger] bundle_of(self.bundles@, id) == bundle_of(
                        before,
                        id,
                    ) by {
                        lemma_index_of_str_push(before, self.bundles@.last(), id);
                        lemma_index_of_str(before, id);
                        if let Some(k) = index_of_str(before, id) {
                            assert(self.bundles@[k] == before[k]);
                        }
                    }
                }
            },
        }
        self.last_bundle_id = Some(owned(bundle_id));
    }

    /// Decides on a bundle offered under an id, from its bytes and what its
    /// JSON parsed to, and merges it if it is new; it does not store the
    /// bytes (see [`Registry::record_bundle`]).  An id already stored
    /// answers by [`stored_answer`] and changes nothing; JSON that did not
    /// parse, or names another id, is refused and changes nothing.
    pub fn admit_bundle(&mut self, bundle_id: &str, raw: &[u8], parsed: Result<RegistryBundle, String>) -> (r: Result<
        PutOutcome,
        StoreError,
    >)
        requires
            old(self).wf(),
        ensures
            final(self).wf(),
            final(self).bundles_spec() == old(self).bundles_spec(),
            final(self).last_bundle_spec() == old(self).last_bundle_spec(),
            match stored_answer(old(self).bundles_spec(), bundle_id@, raw@) {
                Some(a) => outcome_view(r) == a && *final(self) == *old(self),
                None => match parsed {
                    Err(m) => r matches Err(e) && e@ == SpecStoreError::InvalidInput("invalid json: "@ + m@)
                        && *final(self) == *old(self),
                    Ok(b) => if b.bundle_id@ != bundle_id@ {
                        r matches Err(e) && e@ == SpecStoreError::InvalidInput("bundle_id does not match path"@)
                            && *final(self) == *old(self)
                    } else if b.registry_version == 0 {
                        r matches Err(e) && e@ == SpecStoreError::InvalidInput("registry_version must be > 0"@)
                            && *final(self) == *old(self)
                    } else {
                        &&& final(self).enums_spec().len() >= old(self).enums_spec().len()
                        &&& final(self).enums_spec().subrange(0, old(self).enums_spec().len() as int)
                            == old(self).enums_spec()
                        &&& keeps_types(old(self).types_spec(), final(self).types_spec())
                        &&& bundle_fits(old(self).types_spec(), old(self).enums_spec(), b) ==> r == Ok::<
                            PutOutcome,
                            StoreError,
                        >(PutOutcome::Created)
                        &&& r is Ok ==> r == Ok::<PutOutcome, StoreError>(PutOutcome::Created) && bundle_registered(
                            final(self).types_spec(),
                            final(self).enums_spec(),
                            b,
                        ) && refs_resolve(final(self).types_spec(), final(self).enums_spec())
                        &&& r matches Err(e) ==> e is InvalidInput
                    },
                },
            },
    {
        match find_str(&self.bundles, bundle_id) {
            Some(i) => {
                proof {
                    lemma_index_of_str(self.bundles@, bundle_id@);
                }
                if bytes_eq(self.bundles[i].1.as_slice(), raw) {
                    return Ok(PutOutcome::AlreadyExists);
                }
                return Err(StoreError::InvalidInput(owned("bundle_id already exists with different content")));
            },
            None => {},
        }
        let bundle = match parsed {
            Ok(b) => b,
            Err(m) => {
                return Err(StoreError::InvalidInput(concat("invalid json: ", m.as_str())));
            },
        };
        if !str_eq(bundle.bundle_id.as_str(), bundle_id) {
            return Err(StoreError::InvalidInput(owned("bundle_id does not match path")));
        }
        match self.ingest_bundle(&bundle) {
            Ok(()) => Ok(PutOutcome::Created),
            Err(e) => Err(e),
        }
    }

    /// Offers a bundle under an id: decides as [`Registry::admit_bundle`]
    /// does, and stores the bytes of a new bundle, which becomes the last.
    pub fn put_bundle(&mut self, bundle_id: &str, raw: &[u8], parsed: Result<RegistryBundle, String>) -> (r: Result<
        PutOutcome,
        StoreError,
    >)
        requires
            old(self).wf(),
        ensures
            final(self).wf(),
            match stored_answer(old(self).bundles_spec(), bundle_id@, raw@) {
                Some(a) => outcome_view(r) == a && *final(self) == *old(self),
                None => match parsed {
                    Err(m) => r matches Err(e) && e@ == SpecStoreError::InvalidInput("invalid json: "@ + m@)
                        && *final(self) == *old(self),
                    Ok(b) => if b.bundle_id@ != bundle_id@ {
                        r matches Err(e) && e@ == SpecStoreError::InvalidInput("bundle_id does not match path"@)
                            && *final(self) == *old(self)
                    } else if b.registry_version == 0 {
                        r matches Err(e) && e@ == SpecStoreError::InvalidInput("registry_version must be > 0"@)
                            && *final(self) == *old(self)
                    } else {
                        &&& final(self).enums_spec().len() >= old(self).enums_spec().len()
                        &&& final(self).enums_spec().subrange(0, old(self).enums_spec().len() as int)
                            == old(self).enums_spec()
                        &&& keeps_types(old(self).types_spec(), final(self).types_spec())
                        &&& bundle_fits(old(self).types_spec(), old(self).enums_spec(), b) ==> r == Ok::<
                            PutOutcome,
                            StoreError,
                        >(PutOutcome::Created)
                        &&& r is Ok ==> r == Ok::<PutOutcome, StoreError>(PutOutcome::Created) && bundle_registered(
                            final(self).types_spec(),
                            final(self).enums_spec(),
                            b,
                        ) && refs_resolve(final(self).types_spec(), final(self).enums_spec()) && bundle_of(
                            final(self).bundles_spec(),
                            bundle_id@,
                        ) == Some(raw@) && final(self).last_bundle_spec() == Some(bundle_id@) && forall|id: Seq<char>|
                            id != bundle_id@ ==> #[trigger] bundle_of(final(self).bundles_spec(), id) == bundle_of(
                                old(self).bundles_spec(),
                                id,
                            )
                        &&& r matches Err(e) ==> e is InvalidInput && final(self).bundles_spec()
                            == old(self).bundles_spec() && final(self).last_bundle_spec() == old(self).last_bundle_spec()
                    },
                },
            },
    {
        let r = self.admit_bundle(bundle_id, raw, parsed);
        match r {
            Ok(PutOutcome::Created) => {
                self.record_bundle(bundle_id, raw);
            },
            _ => {},
        }
        r
    }

    /// Takes in a bundle read from disk at start: a bundle whose JSON did not
    /// parse is corrupt; otherwise it is merged as [`Registry::put_bundle`]
    /// merges, and on success its bytes are stored under its own id and it
    /// becomes the last bundle.
    pub fn load_bundle(&mut self, raw: &[u8], parsed: Result<RegistryBundle, String>) -> (r: Result<(), StoreError>)
        requires
            old(self).wf(),
        ensures
            final(self).wf(),
            match parsed {
                Err(m) => r matches Err(e) && e@ == SpecStoreError::Corrupt("invalid bundle json: "@ + m@) && *final(self)
                    == *old(self),
                Ok(b) => if b.registry_version == 0 {
                    r matches Err(e) && e@ == SpecStoreError::InvalidInput("registry_version must be > 0"@) && *final(self) == *old(self)
                } else {
                    &&& final(self).enums_spec().len() >= old(self).enums_spec().len()
                    &&& final(self).enums_spec().subrange(0, old(self).enums_spec().len() as int)
                        == old(self).enums_spec()
                    &&& keeps_types(old(self).types_spec(), final(self).types_spec())
                    &&& bundle_fits(old(self).types_spec(), old(self).enums_spec(), b) ==> r is Ok
                    &&& r is Ok ==> bundle_registered(final(self).types_spec(), final(self).enums_spec(), b)
                        && refs_resolve(final(self).types_spec(), final(self).enums_spec()) && bundle_of(
                        final(self).bundles_spec(),
                        b.bundle_id@,
                    ) == Some(raw@) && final(self).last_bundle_spec() == Some(b.bundle_id@)
                    &&& r matches Err(e) ==> e is InvalidInput && final(self).bundles_spec()
                        == old(self).bundles_spec() && final(self).last_bundle_spec() == old(self).last_bundle_spec()
                },
            },
    {
        let bundle = match parsed {
            Ok(b) => b,
            Err(m) => {
                return Err(StoreError::Corrupt(concat("invalid bundle json: ", m.as_str())));
            },
        };
        match self.ingest_bundle(&bundle) {
            Ok(()) => {},
            Err(e) => {
                return Err(e);
            },
        }
        self.record_bundle(bundle.bundle_id.as_str(), raw);
        Ok(())
    }

    /// Checks that every enum a field names is registered; the error names
    /// the first that is not.
    pub fn check_refs(&self) -> (r: Result<(), StoreError>)
        ensures
            r is Ok <==> refs_resolve(self.types_spec(), self.enums_spec()),
            r matches Err(e) ==> e is InvalidInput,
    {
        let mut t: usize = 0;
        while t < self.types.len()
            invariant
                t <= self.types@.len(),
                forall|a: int, v: int, f: int|
                    #![trigger self.types@[a].1.versions@[v].1.fields@[f]]
                    0 <= a < t && 0 <= v < self.types@[a].1.versions@.len() && 0 <= f
                        < self.types@[a].1.versions@[v].1.fields@.len() ==> (
                    self.types@[a].1.versions@[v].1.fields@[f].1.enum_ref matches Some(e) ==> index_of_str(
                        self.enums@,
                        e@,
                    ) is Some),
            decreases self.types@.len() - t,
        {
            let vs = &self.types[t].1.versions;
            let mut v: usize = 0;
            while v < vs.len()
                invariant
                    t < self.types@.len(),
                    *vs == self.types@[t as int].1.versions,
                    v <= vs@.len(),
                    forall|a: int, w: int, f: int|
                        #![trigger self.types@[a].1.versions@[w].1.fields@[f]]
                        0 <= a < t && 0 <= w < self.types@[a].1.versions@.len() && 0 <= f
                            < self.types@[a].1.versions@[w].1.fields@.len() ==> (
                        self.types@[a].1.versions@[w].1.fields@[f].1.enum_ref matches Some(e) ==> index_of_str(
                            self.enums@,
                            e@,
                        ) is Some),
                    forall|w: int, f: int|
                        #![trigger self.types@[t as int].1.versions@[w].1.fields@[f]]
                        0 <= w < v && 0 <= f < self.types@[t as int].1.versions@[w].1.fields@.len() ==> (
                        self.types@[t as int].1.versions@[w].1.fields@[f].1.enum_ref matches Some(e) ==> index_of_str(
                            self.enums@,
                            e@,
                        ) is Some),
                decreases vs@.len() - v,
            {
                let fs = &vs[v].1.fields;
                let mut f: usize = 0;
                while f < fs.len()
                    invariant
                        t < self.types@.len(),
                        *vs == self.types@[t as int].1.versions,
                        v < vs@.len(),
                        *fs == vs@[v as int].1.fields,
                        f <= fs@.len(),
                        forall|a: int, w: int, g: int|
                            #![trigger self.types@[a].1.versions@[w].1.fields@[g]]
                            0 <= a < t && 0 <= w < self.types@[a].1.versions@.len() && 0 <= g
                                < self.types@[a].1.versions@[w].1.fields@.len() ==> (
                            self.types@[a].1.versions@[w].1.fields@[g].1.enum_ref matches Some(e) ==> index_of_str(
                                self.enums@,
                                e@,
                            ) is Some),
                        forall|w: int, g: int|
                            #![trigger self.types@[t as int].1.versions@[w].1.fields@[g]]
                            0 <= w < v && 0 <= g < self.types@[t as int].1.versions@[w].1.fields@.len() ==> (
                            self.types@[t as int].1.versions@[w].1.fields@[g].1.enum_ref matches Some(e)
                                ==> index_of_str(self.enums@, e@) is Some),
                        forall|g: int|
                            #![trigger self.types@[t as int].1.versions@[v as int].1.fields@[g]]
                            0 <= g < f ==> (self.types@[t as int].1.versions@[v as int].1.fields@[g].1.enum_ref matches Some(
                                e,
                            ) ==> index_of_str(self.enums@, e@) is Some),
                    decreases fs@.len() - f,
                {
                    match &fs[f].1.enum_ref {
                        Some(e) => {
                            if find_str(&self.enums, e.as_str()).is_none() {
                                let tid = self.types[t].0.as_str();
                                let ver = decimal_string(vs[v].1.version as u64);
                                let tag = decimal_string(fs[f].0);
                                let msg = err_text(
                                    &vec!["missing enum ", e.as_str(), " for type ", tid, " version ", ver.as_str(), " tag ", tag.as_str()],
                                );
                                proof {
                                    assert(self.types@[t as int].1.versions@[v as int].1.fields@[f as int].1.enum_ref == Some(*e));
                                }
                                return Err(StoreError::InvalidInput(msg));
                            }
                        },
                        None => {},
                    }
                    f = f + 1;
                }
                v = v + 1;
            }
            proof {
                assert forall|a: int, w: int, g: int|
                    #![trigger self.types@[a].1.versions@[w].1.fields@[g]]
                    0 <= a < t + 1 && 0 <= w < self.types@[a].1.versions@.len() && 0 <= g
                        < self.types@[a].1.versions@[w].1.fields@.len() implies (
                    self.types@[a].1.versions@[w].1.fields@[g].1.enum_ref matches Some(e) ==> index_of_str(
                        self.enums@,
                        e@,
                    ) is Some) by {
                    if a == t {
                        assert(self.types@[t as int].1.versions@[w].1.fields@[g]
                            == self.types@[a].1.versions@[w].1.fields@[g]);
                    }
                }
            }
            t = t + 1;
        }
        proof {
            assert forall|a: int, w: int, g: int|
                #![trigger self.types@[a].1.versions@[w].1.fields@[g]]
                0 <= a < self.types@.len() && 0 <= w < self.types@[a].1.versions@.len() && 0 <= g
                    < self.types@[a].1.versions@[w].1.fields@.len() implies (
                self.types@[a].1.versions@[w].1.fields@[g].1.enum_ref matches Some(e) ==> index_of_str(
                    self.enums@,
                    e@,
                ) is Some) by {}
            assert(refs_resolve(self.types@, self.enums@));
        }
        Ok(())
    }
}

// ---------------------------------------------------------------------------
// Laws
// ---------------------------------------------------------------------------

proof fn lemma_index_of_str_extend<V>(s: Seq<(String, V)>, n: int, k: Seq<char>)
    requires
        0 <= n <= s.len(),
        index_of_str(s.subrange(0, n), k) is Some,
    ensures
        index_of_str(s, k) == index_of_str(s.subrange(0, n), k),
    decreases s.len() - n,
{
    if s.len() == n {
        assert(s.subrange(0, n) =~= s);
    } else {
        assert(s.drop_last().subrange(0, n) =~= s.subrange(0, n));
        lemma_index_of_str_extend(s.drop_last(), n, k);
    }
}

/// In a registry, a tag means one thing across all versions of a type:
/// two fields with the same tag, in any two versions, have the same type
/// and the same enum.
pub proof fn law_tag_keeps_meaning(reg: Registry, t: int, v1: int, f1: int, v2: int, f2: int)
    requires
        reg.wf(),
        0 <= t < reg.types_spec().len(),
        0 <= v1 < reg.types_spec()[t].1.versions@.len(),
        0 <= v2 < reg.types_spec()[t].1.versions@.len(),
        0 <= f1 < reg.types_spec()[t].1.versions@[v1].1.fields@.len(),
        0 <= f2 < reg.types_spec()[t].1.versions@[v2].1.fields@.len(),
        reg.types_spec()[t].1.versions@[v1].1.fields@[f1].0 == reg.types_spec()[t].1.versions@[v2].1.fields@[f2].0,
    ensures
        sig_of(reg.types_spec()[t].1.versions@[v1].1.fields@[f1].1) == sig_of(
            reg.types_spec()[t].1.versions@[v2].1.fields@[f2].1,
        ),
{
    let ts = reg.types@[t].1;
    assert(type_wf(ts));
    assert(sig_at(ts.tag_schema@, ts.versions@[v1].1.fields@[f1].0) == Some(sig_of(ts.versions@[v1].1.fields@[f1].1)));
    assert(sig_at(ts.tag_schema@, ts.versions@[v2].1.fields@[f2].0) == Some(sig_of(ts.versions@[v2].1.fields@[f2].1)));
}

/// An accepted bundle never changes an enum: when the enums before are a
/// prefix of the enums after and the bundle is registered in them, every
/// enum of the bundle that existed before has the mapping it had.
pub proof fn law_accepted_bundle_keeps_enums(
    before: Seq<(String, Vec<(String, String)>)>,
    after: Seq<(String, Vec<(String, String)>)>,
    types: Seq<(String, TypeSpec)>,
    b: RegistryBundle,
    j: int,
)
    requires
        before.len() <= after.len(),
        after.subrange(0, before.len() as int) == before,
        bundle_registered(types, after, b),
        0 <= j < b.enums@.len(),
        enum_of(before, b.enums@[j].0@) is Some,
    ensures
        same_mapping(enum_of(before, b.enums@[j].0@)->0, b.enums@[j].1@),
{
    let id = b.enums@[j].0@;
    lemma_index_of_str_extend(after, before.len() as int, id);
    lemma_index_of_str(before, id);
    let i = index_of_str(before, id)->0;
    assert(after[i] == before[i]);
    assert(enum_of(after, id) == enum_of(before, id));
}

/// An accepted bundle never changes a version's fields: when the types
/// after keep every version of the types before and the bundle is
/// registered in them, every version the bundle describes that a type had
/// before has exactly the fields the bundle describes.
pub proof fn law_accepted_bundle_keeps_versions(
    before: Seq<(String, TypeSpec)>,
    after: Seq<(String, TypeSpec)>,
    enums: Seq<(String, Vec<(String, String)>)>,
    b: RegistryBundle,
    j: int,
    k: int,
)
    requires
        keeps_types(before, after),
        bundle_registered(after, enums, b),
        0 <= j < b.types@.len(),
        0 <= k < b.types@[j].1.versions@.len(),
        type_of(before, b.types@[j].0@) is Some,
        version_value(b.types@[j].1.versions@[k].0@) is Some,
        version_fields_of(type_of(before, b.types@[j].0@)->0, version_value(b.types@[j].1.versions@[k].0@)->0) is Some,
    ensures
        fields_match_defs(
            version_fields_of(type_of(before, b.types@[j].0@)->0, version_value(b.types@[j].1.versions@[k].0@)->0)->0,
            b.types@[j].1.versions@[k].1.fields@,
        ),
{
    let id = b.types@[j].0@;
    let e = b.types@[j].1.versions@[k];
    let v = version_value(e.0@)->0;
    let ta = type_of(before, id)->0;
    let tb = type_of(after, id)->0;
    assert(keeps_versions(ta, tb));
    assert(entry_registered(tb, e));
    let fa = version_fields_of(ta, v)->0;
    let fb = version_fields_of(tb, v)->0;
    assert forall|t: u64| #[trigger] field_at(fa, t) == def_field_at(e.1.fields@, t) by {
        assert(field_at(fb, t) == field_at(fa, t));
        assert(field_at(fb, t) == def_field_at(e.1.fields@, t));
    }
}

/// Offering the bytes a bundle id already holds again is answered
/// `AlreadyExists` (and, by the contract of [`Registry::put_bundle`],
/// changes nothing).
pub proof fn law_same_bytes_already_exist(bundles: Seq<(String, Vec<u8>)>, id: Seq<char>, raw: Seq<u8>)
    requires
        bundle_of(bundles, id) == Some(raw),
    ensures
        stored_answer(bundles, id, raw) == Some(Ok::<PutOutcome, SpecStoreError>(PutOutcome::AlreadyExists)),
{
}


/// Once a bundle's bytes are stored under an id, other bytes offered under
/// that id are refused as a conflict.
pub proof fn law_other_bytes_refused(bundles: Seq<(String, Vec<u8>)>, id: Seq<char>, raw: Seq<u8>, other: Seq<u8>)
    requires
        bundle_of(bundles, id) == Some(raw),
        other != raw,
    ensures
        stored_answer(bundles, id, other) == Some(
            Err::<PutOutcome, SpecStoreError>(SpecStoreError::InvalidInput("bundle_id already exists with different content"@)),
        ),
{
}

} // verus!
