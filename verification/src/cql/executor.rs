//! Evaluation of a query over the secondary indexes.
//!
//! [`eval`] states what a query denotes: a set of context ids, or the error the
//! evaluation stops at.  `AND` is intersection, `OR` union and `NOT` the
//! complement within the known contexts; a comparison looks its field up in
//! the indexes.  Subexpressions are evaluated left to right and the first
//! error is the result.
use vstd::prelude::*;
use std::collections::HashSet;
use crate::cql::ast::{
    CqlError, CqlErrorType, Expression, FieldName, Operator, SpecCqlError, SpecExpr, SpecValue,
    Value, invalid_operator, invalid_value, spec_field_from_text, spec_value_as_list,
    spec_value_as_string, spec_value_as_u64, field_text, law_field_name_roundtrip,
};
use crate::cql::dates::{date_result_view, date_value, parse_date_value, unix_time_ms};
use crate::cql::indexes::{has_str, IndexModel, RangeOp, SecondaryIndexes, StrField};
use crate::store::MetaView;
use crate::text::has_prefix;
use crate::idset::{copy_ids, difference_ids, empty_ids, extend_ids, intersect_ids, single_id, union_ids};
use crate::text::{concat, lowercase, owned};

verus! {

broadcast use vstd::std_specs::hash::group_hash_axioms;

// ---------------------------------------------------------------------------
// What a query denotes
// ---------------------------------------------------------------------------

/// The string fields that share one evaluation.
#[derive(Clone, Copy, Debug, PartialEq, Eq, Structural)]
pub enum StringField {
    Tag,
    Title,
    User,
    Service,
    Host,
}

/// The exact index of a string field.
pub open spec fn string_index(f: StringField) -> StrField {
    match f {
        StringField::Tag => StrField::Tag,
        StringField::Title => StrField::Title,
        StringField::User => StrField::User,
        StringField::Service => StrField::Service,
        StringField::Host => StrField::Host,
    }
}

/// The lowercase index of a string field; the host has none.
pub open spec fn lower_index(f: StringField) -> Option<StrField> {
    match f {
        StringField::Tag => Some(StrField::TagLower),
        StringField::Title => Some(StrField::TitleLower),
        StringField::User => Some(StrField::UserLower),
        StringField::Service => Some(StrField::ServiceLower),
        StringField::Host => None,
    }
}

/// How one item of an `IN` list is looked up.
#[derive(Clone, Copy, Debug, PartialEq, Eq, Structural)]
pub enum ItemLookup {
    /// A string item, in a string index.
    Exact(StrField),
    /// A numeric item naming a context.
    Id,
    /// A numeric item naming a parent (`true`) or a root (`false`).
    Linked(bool),
}

/// The contexts one list item selects; an item of the wrong kind selects none.
pub open spec fn item_ids(m: IndexModel, how: ItemLookup, item: SpecValue) -> Set<u64> {
    match how {
        ItemLookup::Exact(f) => match spec_value_as_string(item) {
            Some(s) => m.exact(f, s),
            None => Set::empty(),
        },
        ItemLookup::Id => match spec_value_as_u64(item) {
            Some(id) => if m.all.contains(id) {
                Set::empty().insert(id)
            } else {
                Set::empty()
            },
            None => Set::empty(),
        },
        ItemLookup::Linked(parent) => match spec_value_as_u64(item) {
            Some(id) => m.linked(parent, id),
            None => Set::empty(),
        },
    }
}

/// The contexts any item of a list selects.
pub open spec fn list_ids(m: IndexModel, how: ItemLookup, items: Seq<SpecValue>) -> Set<u64> {
    Set::new(|id: u64| exists|i: int| 0 <= i < items.len() && #[trigger] item_ids(m, how, items[i]).contains(id))
}

/// `IN` over a list literal.
pub open spec fn eval_in(m: IndexModel, how: ItemLookup, v: SpecValue) -> Result<Set<u64>, SpecCqlError> {
    match spec_value_as_list(v) {
        Some(items) => Ok(list_ids(m, how, items)),
        None => Err(invalid_value("Expected list value for IN operator"@)),
    }
}

/// The name `Debug` gives an operator.
pub open spec fn operator_name(op: Operator) -> Seq<char> {
    match op {
        Operator::Eq => "Eq"@,
        Operator::Neq => "Neq"@,
        Operator::Starts => "Starts"@,
        Operator::EqCi => "EqCi"@,
        Operator::StartsCi => "StartsCi"@,
        Operator::Gt => "Gt"@,
        Operator::Gte => "Gte"@,
        Operator::Lt => "Lt"@,
        Operator::Lte => "Lte"@,
        Operator::In => "In"@,
    }
}

/// The error for an operator that a field does not support.
pub open spec fn unsupported(op: Operator, what: Seq<char>) -> SpecCqlError {
    invalid_operator("Operator "@ + operator_name(op) + " not supported for "@ + what)
}

/// A comparison on a string field.
pub open spec fn eval_string_field(m: IndexModel, op: Operator, v: SpecValue, f: StringField) -> Result<Set<u64>, SpecCqlError> {
    let ix = string_index(f);
    match op {
        Operator::Eq | Operator::EqCi | Operator::Starts | Operator::StartsCi | Operator::Neq => {
            match spec_value_as_string(v) {
                None => Err(invalid_value("Expected string value"@)),
                Some(s) => Ok(
                    match op {
                        Operator::Eq => m.exact(ix, s),
                        Operator::EqCi => match lower_index(f) {
                            Some(lf) => m.exact(lf, lowercase(s)),
                            None => m.exact(ix, s),
                        },
                        Operator::Starts => m.prefixed(ix, s),
                        Operator::StartsCi => match lower_index(f) {
                            Some(lf) => m.prefixed(lf, lowercase(s)),
                            None => m.prefixed(ix, s),
                        },
                        _ => m.all.difference(m.exact(ix, s)),
                    },
                ),
            }
        },
        Operator::In => eval_in(m, ItemLookup::Exact(ix), v),
        _ => Err(unsupported(op, "string fields"@)),
    }
}

/// `=`, `!=` and (where `with_in`) `IN` on a string index with no other operator.
pub open spec fn eval_exact_only(
    m: IndexModel,
    op: Operator,
    v: SpecValue,
    ix: StrField,
    with_in: bool,
    what: Seq<char>,
) -> Result<Set<u64>, SpecCqlError> {
    match op {
        Operator::Eq | Operator::Neq => match spec_value_as_string(v) {
            None => Err(invalid_value("Expected string value"@)),
            Some(s) => Ok(
                if op == Operator::Eq {
                    m.exact(ix, s)
                } else {
                    m.all.difference(m.exact(ix, s))
                },
            ),
        },
        Operator::In if with_in => eval_in(m, ItemLookup::Exact(ix), v),
        _ => Err(unsupported(op, what)),
    }
}

/// A comparison on the context id.
pub open spec fn eval_id(m: IndexModel, op: Operator, v: SpecValue) -> Result<Set<u64>, SpecCqlError> {
    match op {
        Operator::Eq | Operator::Neq => match spec_value_as_u64(v) {
            None => Err(invalid_value("Expected numeric value for id"@)),
            Some(id) => Ok(
                if op == Operator::Neq {
                    m.all.remove(id)
                } else if m.all.contains(id) {
                    Set::empty().insert(id)
                } else {
                    Set::empty()
                },
            ),
        },
        Operator::In => eval_in(m, ItemLookup::Id, v),
        _ => Err(unsupported(op, "id field"@)),
    }
}

/// A comparison on the parent (`parent`) or the root context.
pub open spec fn eval_linked(m: IndexModel, op: Operator, v: SpecValue, parent: bool) -> Result<Set<u64>, SpecCqlError> {
    let name = if parent { "parent"@ } else { "root"@ };
    match op {
        Operator::Eq | Operator::Neq => match spec_value_as_u64(v) {
            None => Err(invalid_value("Expected numeric value for "@ + name)),
            Some(id) => Ok(
                if op == Operator::Eq {
                    m.linked(parent, id)
                } else {
                    m.all.difference(m.linked(parent, id))
                },
            ),
        },
        Operator::In => eval_in(m, ItemLookup::Linked(parent), v),
        _ => Err(unsupported(op, name + " field"@)),
    }
}

/// The range comparison of an ordering operator.
pub open spec fn range_of(op: Operator) -> Option<RangeOp> {
    match op {
        Operator::Gt => Some(RangeOp::Gt),
        Operator::Gte => Some(RangeOp::Gte),
        Operator::Lt => Some(RangeOp::Lt),
        Operator::Lte => Some(RangeOp::Lte),
        Operator::Eq => Some(RangeOp::Eq),
        _ => None,
    }
}

/// A comparison on the creation time; the literal is read first.
pub open spec fn eval_created(m: IndexModel, op: Operator, v: SpecValue, now: u64) -> Result<Set<u64>, SpecCqlError> {
    match date_value(v, now) {
        Err(e) => Err(e),
        Ok(t) => if op == Operator::Neq {
            Ok(m.all.difference(m.created_in(RangeOp::Eq, t)))
        } else {
            match range_of(op) {
                Some(r) => Ok(m.created_in(r, t)),
                None => Err(unsupported(op, "created field"@)),
            }
        },
    }
}

/// A comparison on the head depth; the literal is read first and cut to 32 bits.
pub open spec fn eval_depth(m: IndexModel, op: Operator, v: SpecValue) -> Result<Set<u64>, SpecCqlError> {
    match spec_value_as_u64(v) {
        None => Err(invalid_value("Expected numeric value for depth"@)),
        Some(n) => {
            let d = n as u32;
            if op == Operator::Neq {
                Ok(m.all.difference(m.depth_in(RangeOp::Eq, d)))
            } else {
                match range_of(op) {
                    Some(r) => Ok(m.depth_in(r, d)),
                    None => Err(unsupported(op, "depth field"@)),
                }
            }
        },
    }
}

/// A comparison on liveness: `is_live = "true"` gives the live contexts, any
/// other string the known contexts that are not live.
pub open spec fn eval_is_live(m: IndexModel, op: Operator, v: SpecValue, live: Set<u64>) -> Result<Set<u64>, SpecCqlError> {
    match v {
        SpecValue::Str(s) => if op == Operator::Eq {
            Ok(
                if s == "true"@ {
                    live
                } else {
                    m.all.difference(live)
                },
            )
        } else {
            Err(unsupported(op, "is_live field"@))
        },
        _ => Err(invalid_value("Expected boolean value for is_live"@)),
    }
}

/// The error for a field name that is not one of the fields.
pub open spec fn unknown_field(field: Seq<char>) -> SpecCqlError {
    SpecCqlError {
        error_type: CqlErrorType::UnknownField,
        message: "Unknown field: "@ + field,
        position: None,
        field: Some(field),
    }
}

/// A comparison.
pub open spec fn eval_comparison(
    field: Seq<char>,
    op: Operator,
    v: SpecValue,
    m: IndexModel,
    live: Set<u64>,
    now: u64,
) -> Result<Set<u64>, SpecCqlError> {
    match spec_field_from_text(field) {
        None => Err(unknown_field(field)),
        Some(f) => match f {
            FieldName::Id => eval_id(m, op, v),
            FieldName::Tag => eval_string_field(m, op, v, StringField::Tag),
            FieldName::Title => eval_string_field(m, op, v, StringField::Title),
            FieldName::Label => eval_exact_only(m, op, v, StrField::Label, true, "label field"@),
            FieldName::User => eval_string_field(m, op, v, StringField::User),
            FieldName::Service => eval_string_field(m, op, v, StringField::Service),
            FieldName::Host => eval_string_field(m, op, v, StringField::Host),
            FieldName::TraceId => eval_exact_only(m, op, v, StrField::TraceId, false, "trace_id field"@),
            FieldName::Parent => eval_linked(m, op, v, true),
            FieldName::Root => eval_linked(m, op, v, false),
            FieldName::Created => eval_created(m, op, v, now),
            FieldName::Depth => eval_depth(m, op, v),
            FieldName::IsLive => eval_is_live(m, op, v, live),
        },
    }
}

/// What a query denotes over the indexes `m`, the live contexts `live` and
/// the present time `now` (milliseconds since the epoch).
pub open spec fn eval(e: SpecExpr, m: IndexModel, live: Set<u64>, now: u64) -> Result<Set<u64>, SpecCqlError>
    decreases e,
{
    match e {
        SpecExpr::And(l, r) => match eval(*l, m, live, now) {
            Err(x) => Err(x),
            Ok(a) => match eval(*r, m, live, now) {
                Err(x) => Err(x),
                Ok(b) => Ok(a.intersect(b)),
            },
        },
        SpecExpr::Or(l, r) => match eval(*l, m, live, now) {
            Err(x) => Err(x),
            Ok(a) => match eval(*r, m, live, now) {
                Err(x) => Err(x),
                Ok(b) => Ok(a.union(b)),
            },
        },
        SpecExpr::Not(i) => match eval(*i, m, live, now) {
            Err(x) => Err(x),
            Ok(a) => Ok(m.all.difference(a)),
        },
        SpecExpr::Cmp(field, op, v) => eval_comparison(field, op, v, m, live, now),
    }
}

// ---------------------------------------------------------------------------
// Laws of the query language
// ---------------------------------------------------------------------------

/// `a AND b` denotes the contexts both denote; `a OR b` those either denotes;
/// `NOT a` the known contexts `a` does not denote.
pub proof fn law_connectives(a: SpecExpr, b: SpecExpr, m: IndexModel, live: Set<u64>, now: u64)
    ensures
        eval(a, m, live, now) is Ok && eval(b, m, live, now) is Ok ==> {
            &&& eval(SpecExpr::And(Box::new(a), Box::new(b)), m, live, now)
                == Ok::<Set<u64>, SpecCqlError>(eval(a, m, live, now)->Ok_0.intersect(eval(b, m, live, now)->Ok_0))
            &&& eval(SpecExpr::Or(Box::new(a), Box::new(b)), m, live, now)
                == Ok::<Set<u64>, SpecCqlError>(eval(a, m, live, now)->Ok_0.union(eval(b, m, live, now)->Ok_0))
        },
        eval(a, m, live, now) is Ok ==> eval(SpecExpr::Not(Box::new(a)), m, live, now)
            == Ok::<Set<u64>, SpecCqlError>(m.all.difference(eval(a, m, live, now)->Ok_0)),
{
}

/// A query that fails reports the first error met, left to right: a failing
/// left operand makes `AND` and `OR` fail with its error, and a failing
/// operand makes `NOT` fail with its error.
pub proof fn law_first_error(a: SpecExpr, b: SpecExpr, m: IndexModel, live: Set<u64>, now: u64)
    ensures
        eval(a, m, live, now) is Err ==> {
            &&& eval(SpecExpr::And(Box::new(a), Box::new(b)), m, live, now) == eval(a, m, live, now)
            &&& eval(SpecExpr::Or(Box::new(a), Box::new(b)), m, live, now) == eval(a, m, live, now)
            &&& eval(SpecExpr::Not(Box::new(a)), m, live, now) == eval(a, m, live, now)
        },
        eval(a, m, live, now) is Ok && eval(b, m, live, now) is Err ==> {
            &&& eval(SpecExpr::And(Box::new(a), Box::new(b)), m, live, now) == eval(b, m, live, now)
            &&& eval(SpecExpr::Or(Box::new(a), Box::new(b)), m, live, now) == eval(b, m, live, now)
        },
{
}

/// On every field but `is_live`, `field != v` denotes the known contexts that
/// `field = v` does not denote, and fails exactly when `field = v` fails.
pub proof fn law_neq_complements_eq(field: Seq<char>, v: SpecValue, m: IndexModel, live: Set<u64>, now: u64)
    requires
        spec_field_from_text(field) != Some(FieldName::IsLive),
    ensures
        eval_comparison(field, Operator::Eq, v, m, live, now) is Ok ==> eval_comparison(field, Operator::Neq, v, m, live, now)
            == Ok::<Set<u64>, SpecCqlError>(m.all.difference(eval_comparison(field, Operator::Eq, v, m, live, now)->Ok_0)),
        eval_comparison(field, Operator::Eq, v, m, live, now) is Err <==> eval_comparison(field, Operator::Neq, v, m, live, now) is Err,
{
    if spec_value_as_u64(v) is Some && spec_field_from_text(field) == Some(FieldName::Id) {
        let id = spec_value_as_u64(v)->0;
        if m.all.contains(id) {
            assert(m.all.remove(id) =~= m.all.difference(Set::empty().insert(id)));
        } else {
            assert(m.all.remove(id) =~= m.all.difference(Set::empty()));
        }
    }
}

/// `field IN (v1, ..., vn)` on a string field denotes the contexts that some
/// `field = vi` denotes (items that are not strings select nothing).
pub proof fn law_in_is_union_of_eq(f: StringField, items: Seq<SpecValue>, m: IndexModel, id: u64)
    ensures
        eval_string_field(m, Operator::In, SpecValue::List(items), f) is Ok,
        eval_string_field(m, Operator::In, SpecValue::List(items), f)->Ok_0.contains(id) <==> exists|i: int|
            0 <= i < items.len() && (#[trigger] eval_string_field(m, Operator::Eq, items[i], f) is Ok && eval_string_field(m, Operator::Eq, items[i], f)->Ok_0.contains(id)),
{
    if eval_string_field(m, Operator::In, SpecValue::List(items), f)->Ok_0.contains(id) {
        let i = choose|i: int| 0 <= i < items.len() && #[trigger] item_ids(m, ItemLookup::Exact(string_index(f)), items[i]).contains(id);
        assert(eval_string_field(m, Operator::Eq, items[i], f) is Ok && eval_string_field(m, Operator::Eq, items[i], f)->Ok_0.contains(id));
    }
    if exists|i: int| 0 <= i < items.len() && (#[trigger] eval_string_field(m, Operator::Eq, items[i], f) is Ok && eval_string_field(m, Operator::Eq, items[i], f)->Ok_0.contains(id)) {
        let i = choose|i: int| 0 <= i < items.len() && (#[trigger] eval_string_field(m, Operator::Eq, items[i], f) is Ok && eval_string_field(m, Operator::Eq, items[i], f)->Ok_0.contains(id));
        assert(item_ids(m, ItemLookup::Exact(string_index(f)), items[i]).contains(id));
    }
}

/// The view of an evaluation result.
pub open spec fn ids_result_view(r: Result<HashSet<u64>, CqlError>) -> Result<Set<u64>, SpecCqlError> {
    match r {
        Ok(s) => Ok(s@),
        Err(e) => Err(e@),
    }
}

// ---------------------------------------------------------------------------
// Evaluation
// ---------------------------------------------------------------------------

/// The name `Debug` gives an operator.
pub fn operator_debug_name(op: Operator) -> (r: &'static str)
    ensures
        r@ == operator_name(op),
{
    match op {
        Operator::Eq => "Eq",
        Operator::Neq => "Neq",
        Operator::Starts => "Starts",
        Operator::EqCi => "EqCi",
        Operator::StartsCi => "StartsCi",
        Operator::Gt => "Gt",
        Operator::Gte => "Gte",
        Operator::Lt => "Lt",
        Operator::Lte => "Lte",
        Operator::In => "In",
    }
}

fn unsupported_error(op: Operator, what: &str) -> (e: CqlError)
    ensures
        e@ == unsupported(op, what@),
{
    let a = concat("Operator ", operator_debug_name(op));
    let b = concat(a.as_str(), " not supported for ");
    CqlError::invalid_operator(concat(b.as_str(), what))
}

fn lookup_item(indexes: &SecondaryIndexes, how: ItemLookup, item: &Value) -> (r: HashSet<u64>)
    requires
        indexes.wf(),
    ensures
        r@ == item_ids(indexes@, how, item@),
{
    match how {
        ItemLookup::Exact(f) => match item.as_string() {
            Some(s) => indexes.lookup_exact(f, s),
            None => empty_ids(),
        },
        ItemLookup::Id => match item.as_u64() {
            Some(id) => {
                if indexes.all_contexts().contains(&id) {
                    single_id(id)
                } else {
                    empty_ids()
                }
            },
            None => empty_ids(),
        },
        ItemLookup::Linked(parent) => match item.as_u64() {
            Some(id) => indexes.lookup_linked(parent, id),
            None => empty_ids(),
        },
    }
}

/// `IN` over a list literal: the contexts any item selects.
fn execute_in(indexes: &SecondaryIndexes, how: ItemLookup, value: &Value) -> (r: Result<HashSet<u64>, CqlError>)
    requires
        indexes.wf(),
    ensures
        ids_result_view(r) == eval_in(indexes@, how, value@),
{
    match value {
        Value::List { values } => {
            let ghost items = match value@ {
                SpecValue::List(l) => l,
                _ => Seq::empty(),
            };
            let mut result = empty_ids();
            let mut i: usize = 0;
            while i < values.len()
                invariant
                    indexes.wf(),
                    0 <= i <= values@.len(),
                    items.len() == values@.len(),
                    forall|j: int| 0 <= j < values@.len() ==> #[trigger] items[j] == values@[j]@,
                    result@ == list_ids(indexes@, how, items.take(i as int)),
                decreases values@.len() - i,
            {
                let found = lookup_item(indexes, how, &values[i]);
                let ghost before = result@;
                extend_ids(&mut result, &found);
                proof {
                    assert(items[i as int] == values@[i as int]@);
                    assert forall|id: u64| #[trigger] result@.contains(id) <==> list_ids(indexes@, how, items.take(i + 1)).contains(id) by {
                        if before.contains(id) {
                            let j = choose|j: int| 0 <= j < items.take(i as int).len() && #[trigger] item_ids(indexes@, how, items.take(i as int)[j]).contains(id);
                            assert(items.take(i + 1)[j] == items.take(i as int)[j]);
                        }
                        if found@.contains(id) {
                            assert(items.take(i + 1)[i as int] == items[i as int]);
                        }
                        if list_ids(indexes@, how, items.take(i + 1)).contains(id) {
                            let j = choose|j: int| 0 <= j < items.take(i + 1).len() && #[trigger] item_ids(indexes@, how, items.take(i + 1)[j]).contains(id);
                            if j < i {
                                assert(items.take(i + 1)[j] == items.take(i as int)[j]);
                            }
                        }
                    }
                    assert(result@ =~= list_ids(indexes@, how, items.take(i + 1)));
                }
                i += 1;
            }
            assert(items.take(values@.len() as int) =~= items);
            Ok(result)
        },
        _ => Err(CqlError::invalid_value(owned("Expected list value for IN operator"))),
    }
}

/// A comparison on a string field.
fn execute_string_field(
    operator: Operator,
    value: &Value,
    indexes: &SecondaryIndexes,
    field: StringField,
) -> (r: Result<HashSet<u64>, CqlError>)
    requires
        indexes.wf(),
    ensures
        ids_result_view(r) == eval_string_field(indexes@, operator, value@, field),
{
    let ix = match field {
        StringField::Tag => StrField::Tag,
        StringField::Title => StrField::Title,
        StringField::User => StrField::User,
        StringField::Service => StrField::Service,
        StringField::Host => StrField::Host,
    };
    let lower = match field {
        StringField::Tag => Some(StrField::TagLower),
        StringField::Title => Some(StrField::TitleLower),
        StringField::User => Some(StrField::UserLower),
        StringField::Service => Some(StrField::ServiceLower),
        StringField::Host => None,
    };
    match operator {
        Operator::Eq | Operator::EqCi | Operator::Starts | Operator::StartsCi | Operator::Neq => {
            let s = match value.as_string() {
                Some(s) => s,
                None => {
                    return Err(CqlError::invalid_value(owned("Expected string value")));
                },
            };
            let ids = match operator {
                Operator::Eq => indexes.lookup_exact(ix, s),
                Operator::EqCi => match lower {
                    Some(lf) => indexes.lookup_exact_ci(lf, s),
                    None => indexes.lookup_exact(ix, s),
                },
                Operator::Starts => indexes.prefix_search(ix, s),
                Operator::StartsCi => match lower {
                    Some(lf) => indexes.prefix_search_ci(lf, s),
                    None => indexes.prefix_search(ix, s),
                },
                _ => {
                    let matches = indexes.lookup_exact(ix, s);
                    difference_ids(indexes.all_contexts(), &matches)
                },
            };
            Ok(ids)
        },
        Operator::In => execute_in(indexes, ItemLookup::Exact(ix), value),
        _ => Err(unsupported_error(operator, "string fields")),
    }
}

/// `=`, `!=` and (where `with_in`) `IN` on a string index.
fn execute_exact_only(
    operator: Operator,
    value: &Value,
    indexes: &SecondaryIndexes,
    ix: StrField,
    with_in: bool,
    what: &str,
) -> (r: Result<HashSet<u64>, CqlError>)
    requires
        indexes.wf(),
    ensures
        ids_result_view(r) == eval_exact_only(indexes@, operator, value@, ix, with_in, what@),
{
    match operator {
        Operator::Eq | Operator::Neq => {
            let s = match value.as_string() {
                Some(s) => s,
                None => {
                    return Err(CqlError::invalid_value(owned("Expected string value")));
                },
            };
            let matches = indexes.lookup_exact(ix, s);
            if operator == Operator::Eq {
                Ok(matches)
            } else {
                Ok(difference_ids(indexes.all_contexts(), &matches))
            }
        },
        Operator::In if with_in => execute_in(indexes, ItemLookup::Exact(ix), value),
        _ => Err(unsupported_error(operator, what)),
    }
}

/// A comparison on the context id.
fn execute_id(operator: Operator, value: &Value, indexes: &SecondaryIndexes) -> (r: Result<HashSet<u64>, CqlError>)
    requires
        indexes.wf(),
    ensures
        ids_result_view(r) == eval_id(indexes@, operator, value@),
{
    match operator {
        Operator::Eq | Operator::Neq => {
            let id = match value.as_u64() {
                Some(id) => id,
                None => {
                    return Err(CqlError::invalid_value(owned("Expected numeric value for id")));
                },
            };
            if operator == Operator::Neq {
                let mut result = copy_ids(indexes.all_contexts());
                result.remove(&id);
                Ok(result)
            } else if indexes.all_contexts().contains(&id) {
                Ok(single_id(id))
            } else {
                Ok(empty_ids())
            }
        },
        Operator::In => execute_in(indexes, ItemLookup::Id, value),
        _ => Err(unsupported_error(operator, "id field")),
    }
}

/// A comparison on the parent (`parent`) or the root context.
fn execute_linked(
    operator: Operator,
    value: &Value,
    indexes: &SecondaryIndexes,
    parent: bool,
) -> (r: Result<HashSet<u64>, CqlError>)
    requires
        indexes.wf(),
    ensures
        ids_result_view(r) == eval_linked(indexes@, operator, value@, parent),
{
    let name = if parent { "parent" } else { "root" };
    match operator {
        Operator::Eq | Operator::Neq => {
            let id = match value.as_u64() {
                Some(id) => id,
                None => {
                    return Err(CqlError::invalid_value(concat("Expected numeric value for ", name)));
                },
            };
            let matches = indexes.lookup_linked(parent, id);
            if operator == Operator::Eq {
                Ok(matches)
            } else {
                Ok(difference_ids(indexes.all_contexts(), &matches))
            }
        },
        Operator::In => execute_in(indexes, ItemLookup::Linked(parent), value),
        _ => {
            let what = concat(name, " field");
            Err(unsupported_error(operator, what.as_str()))
        },
    }
}

fn range_op(operator: Operator) -> (r: Option<RangeOp>)
    ensures
        r == range_of(operator),
{
    match operator {
        Operator::Gt => Some(RangeOp::Gt),
        Operator::Gte => Some(RangeOp::Gte),
        Operator::Lt => Some(RangeOp::Lt),
        Operator::Lte => Some(RangeOp::Lte),
        Operator::Eq => Some(RangeOp::Eq),
        _ => None,
    }
}

/// A comparison on the creation time.
fn execute_created(
    operator: Operator,
    value: &Value,
    indexes: &SecondaryIndexes,
    now: u64,
) -> (r: Result<HashSet<u64>, CqlError>)
    requires
        indexes.wf(),
    ensures
        ids_result_view(r) == eval_created(indexes@, operator, value@, now),
{
    let timestamp = match parse_date_value(value, now) {
        Ok(t) => t,
        Err(e) => {
            return Err(e);
        },
    };
    if operator == Operator::Neq {
        let matches = indexes.lookup_created(RangeOp::Eq, timestamp);
        return Ok(difference_ids(indexes.all_contexts(), &matches));
    }
    match range_op(operator) {
        Some(r) => Ok(indexes.lookup_created(r, timestamp)),
        None => Err(unsupported_error(operator, "created field")),
    }
}

/// A comparison on the head depth.
fn execute_depth(operator: Operator, value: &Value, indexes: &SecondaryIndexes) -> (r: Result<HashSet<u64>, CqlError>)
    requires
        indexes.wf(),
    ensures
        ids_result_view(r) == eval_depth(indexes@, operator, value@),
{
    let depth = match value.as_u64() {
        Some(n) => n as u32,
        None => {
            return Err(CqlError::invalid_value(owned("Expected numeric value for depth")));
        },
    };
    if operator == Operator::Neq {
        let matches = indexes.lookup_depth(RangeOp::Eq, depth);
        return Ok(difference_ids(indexes.all_contexts(), &matches));
    }
    match range_op(operator) {
        Some(r) => Ok(indexes.lookup_depth(r, depth)),
        None => Err(unsupported_error(operator, "depth field")),
    }
}

/// A comparison on liveness.
fn execute_is_live(
    operator: Operator,
    value: &Value,
    live_contexts: &HashSet<u64>,
    indexes: &SecondaryIndexes,
) -> (r: Result<HashSet<u64>, CqlError>)
    requires
        indexes.wf(),
    ensures
        ids_result_view(r) == eval_is_live(indexes@, operator, value@, live_contexts@),
{
    let is_live = match value {
        Value::String { value } => crate::text::str_eq(value.as_str(), "true"),
        _ => {
            return Err(CqlError::invalid_value(owned("Expected boolean value for is_live")));
        },
    };
    if operator == Operator::Eq {
        if is_live {
            Ok(copy_ids(live_contexts))
        } else {
            Ok(difference_ids(indexes.all_contexts(), live_contexts))
        }
    } else {
        Err(unsupported_error(operator, "is_live field"))
    }
}

/// A comparison, at time `now`.
fn execute_comparison(
    field: &str,
    operator: Operator,
    value: &Value,
    indexes: &SecondaryIndexes,
    live_contexts: &HashSet<u64>,
    now: u64,
) -> (r: Result<HashSet<u64>, CqlError>)
    requires
        indexes.wf(),
    ensures
        ids_result_view(r) == eval_comparison(field@, operator, value@, indexes@, live_contexts@, now),
{
    let field_name = match FieldName::from_str(field) {
        Some(f) => f,
        None => {
            return Err(CqlError {
                error_type: CqlErrorType::UnknownField,
                message: concat("Unknown field: ", field),
                position: None,
                field: Some(owned(field)),
            });
        },
    };
    match field_name {
        FieldName::Id => execute_id(operator, value, indexes),
        FieldName::Tag => execute_string_field(operator, value, indexes, StringField::Tag),
        FieldName::Title => execute_string_field(operator, value, indexes, StringField::Title),
        FieldName::Label => execute_exact_only(operator, value, indexes, StrField::Label, true, "label field"),
        FieldName::User => execute_string_field(operator, value, indexes, StringField::User),
        FieldName::Service => execute_string_field(operator, value, indexes, StringField::Service),
        FieldName::Host => execute_string_field(operator, value, indexes, StringField::Host),
        FieldName::TraceId => execute_exact_only(operator, value, indexes, StrField::TraceId, false, "trace_id field"),
        FieldName::Parent => execute_linked(operator, value, indexes, true),
        FieldName::Root => execute_linked(operator, value, indexes, false),
        FieldName::Created => execute_created(operator, value, indexes, now),
        FieldName::Depth => execute_depth(operator, value, indexes),
        FieldName::IsLive => execute_is_live(operator, value, live_contexts, indexes),
    }
}

/// Evaluates a query at time `now` (milliseconds since the epoch), as
/// [`eval`] says.
pub fn execute_at(
    expr: &Expression,
    indexes: &SecondaryIndexes,
    live_contexts: &HashSet<u64>,
    now: u64,
) -> (r: Result<HashSet<u64>, CqlError>)
    requires
        indexes.wf(),
    ensures
        ids_result_view(r) == eval(expr@, indexes@, live_contexts@, now),
    decreases expr,
{
    match expr {
        Expression::And { left, right } => {
            let a = match execute_at(left, indexes, live_contexts, now) {
                Ok(a) => a,
                Err(e) => {
                    return Err(e);
                },
            };
            let b = match execute_at(right, indexes, live_contexts, now) {
                Ok(b) => b,
                Err(e) => {
                    return Err(e);
                },
            };
            Ok(intersect_ids(&a, &b))
        },
        Expression::Or { left, right } => {
            let a = match execute_at(left, indexes, live_contexts, now) {
                Ok(a) => a,
                Err(e) => {
                    return Err(e);
                },
            };
            let b = match execute_at(right, indexes, live_contexts, now) {
                Ok(b) => b,
                Err(e) => {
                    return Err(e);
                },
            };
            Ok(union_ids(&a, &b))
        },
        Expression::Not { inner } => {
            let a = match execute_at(inner, indexes, live_contexts, now) {
                Ok(a) => a,
                Err(e) => {
                    return Err(e);
                },
            };
            Ok(difference_ids(indexes.all_contexts(), &a))
        },
        Expression::Comparison { field, operator, value } => execute_comparison(
            field.as_str(),
            *operator,
            value,
            indexes,
            live_contexts,
            now,
        ),
    }
}

/// Evaluates a query against the indexes and the live contexts, reading the
/// system clock for relative dates: the result is what [`eval`] gives at some
/// time `now`.
pub fn execute(
    expr: &Expression,
    indexes: &SecondaryIndexes,
    live_contexts: &HashSet<u64>,
) -> (r: Result<HashSet<u64>, CqlError>)
    requires
        indexes.wf(),
    ensures
        exists|now: u64| ids_result_view(r) == eval(expr@, indexes@, live_contexts@, now),
{
    let now = unix_time_ms();
    execute_at(expr, indexes, live_contexts, now)
}


/// A query is evaluated from its parts at one instant: `AND` intersects,
/// `OR` unites, `NOT` takes the complement in every known context, and the
/// first failing operand (the left before the right) gives the error.
pub proof fn law_eval_compositional(l: SpecExpr, r: SpecExpr, m: IndexModel, live: Set<u64>, now: u64)
    ensures
        eval(SpecExpr::And(Box::new(l), Box::new(r)), m, live, now) == match (eval(l, m, live, now), eval(r, m, live, now)) {
            (Ok(a), Ok(b)) => Ok(a.intersect(b)),
            (Err(x), _) => Err(x),
            (Ok(_), Err(x)) => Err(x),
        },
        eval(SpecExpr::Or(Box::new(l), Box::new(r)), m, live, now) == match (eval(l, m, live, now), eval(r, m, live, now)) {
            (Ok(a), Ok(b)) => Ok(a.union(b)),
            (Err(x), _) => Err(x),
            (Ok(_), Err(x)) => Err(x),
        },
        eval(SpecExpr::Not(Box::new(l)), m, live, now) == match eval(l, m, live, now) {
            Ok(a) => Ok(m.all.difference(a)),
            Err(x) => Err::<Set<u64>, SpecCqlError>(x),
        },
{
}


/// An ordering comparison on depth selects exactly the known contexts whose
/// head depth stands in that order to the literal (cut to 32 bits): `<`
/// those strictly below it, `<=` those not above it, `>` those strictly
/// above it, `>=` those not below it, `=` those equal to it.
pub proof fn law_depth_comparisons(m: IndexModel, live: Set<u64>, now: u64, v: SpecValue, op: Operator, id: u64)
    requires
        spec_value_as_u64(v) is Some,
    ensures
        ({
            let n = (spec_value_as_u64(v)->0 as u32) as int;
            let r = eval(SpecExpr::Cmp(field_text(FieldName::Depth), op, v), m, live, now);
            let has = |pred: spec_fn(int) -> bool| exists|c: u64, d: u32| m.heads.contains((id, c, d)) && pred(d as int);
            &&& op == Operator::Lt ==> (r matches Ok(s) && (s.contains(id) <==> has(|d: int| d < n)))
            &&& op == Operator::Lte ==> (r matches Ok(s) && (s.contains(id) <==> has(|d: int| d <= n)))
            &&& op == Operator::Gt ==> (r matches Ok(s) && (s.contains(id) <==> has(|d: int| d > n)))
            &&& op == Operator::Gte ==> (r matches Ok(s) && (s.contains(id) <==> has(|d: int| d >= n)))
            &&& op == Operator::Eq ==> (r matches Ok(s) && (s.contains(id) <==> has(|d: int| d == n)))
        }),
{
    law_field_name_roundtrip(FieldName::Depth);
}

/// An ordering comparison on the creation time selects exactly the known
/// contexts created in that order to the time the literal denotes.
pub proof fn law_created_comparisons(m: IndexModel, live: Set<u64>, now: u64, v: SpecValue, op: Operator, id: u64)
    requires
        date_value(v, now) is Ok,
    ensures
        ({
            let t = date_value(v, now)->Ok_0 as int;
            let r = eval(SpecExpr::Cmp(field_text(FieldName::Created), op, v), m, live, now);
            let has = |pred: spec_fn(int) -> bool| exists|c: u64, d: u32| m.heads.contains((id, c, d)) && pred(c as int);
            &&& op == Operator::Lt ==> (r matches Ok(s) && (s.contains(id) <==> has(|c: int| c < t)))
            &&& op == Operator::Lte ==> (r matches Ok(s) && (s.contains(id) <==> has(|c: int| c <= t)))
            &&& op == Operator::Gt ==> (r matches Ok(s) && (s.contains(id) <==> has(|c: int| c > t)))
            &&& op == Operator::Gte ==> (r matches Ok(s) && (s.contains(id) <==> has(|c: int| c >= t)))
            &&& op == Operator::Eq ==> (r matches Ok(s) && (s.contains(id) <==> has(|c: int| c == t)))
        }),
{
    law_field_name_roundtrip(FieldName::Created);
}


/// On the client tag: `=` selects exactly the contexts indexed with that
/// tag, `!=` the other known contexts, and `^=` the contexts whose tag
/// starts with the text.
pub proof fn law_tag_comparisons(m: IndexModel, live: Set<u64>, now: u64, x: Seq<char>, id: u64)
    ensures
        ({
            let f = field_text(FieldName::Tag);
            let tagged = exists|w: MetaView| m.metas.contains((id, w)) && w.client_tag == Some(x);
            let prefixed = exists|w: MetaView, t: Seq<char>|
                m.metas.contains((id, w)) && w.client_tag == Some(t) && x.len() <= t.len() && t.subrange(0, x.len() as int) == x;
            &&& eval(SpecExpr::Cmp(f, Operator::Eq, SpecValue::Str(x)), m, live, now) matches Ok(s) && (s.contains(id)
                <==> tagged)
            &&& eval(SpecExpr::Cmp(f, Operator::Neq, SpecValue::Str(x)), m, live, now) matches Ok(s) && (s.contains(
                id,
            ) <==> m.all.contains(id) && !tagged)
            &&& eval(SpecExpr::Cmp(f, Operator::Starts, SpecValue::Str(x)), m, live, now) matches Ok(s) && (s.contains(
                id,
            ) <==> prefixed)
        }),
{
    law_field_name_roundtrip(FieldName::Tag);
    let tagged = exists|w: MetaView| m.metas.contains((id, w)) && w.client_tag == Some(x);
    assert(m.exact(StrField::Tag, x).contains(id) <==> tagged) by {
        if tagged {
            let w = choose|w: MetaView| m.metas.contains((id, w)) && w.client_tag == Some(x);
            let pr: (Seq<char>, u64) = (x, id);
            assert(m.metas.contains((pr.1, w)) && has_str(w, StrField::Tag, pr.0));
            assert(m.field_pairs(StrField::Tag).contains(pr));
        }
    }
    let prefixed = exists|w: MetaView, t: Seq<char>|
        m.metas.contains((id, w)) && w.client_tag == Some(t) && x.len() <= t.len() && t.subrange(0, x.len() as int) == x;
    assert(m.prefixed(StrField::Tag, x).contains(id) <==> prefixed) by {
        if prefixed {
            let (w, t) = choose|w: MetaView, t: Seq<char>|
                m.metas.contains((id, w)) && w.client_tag == Some(t) && x.len() <= t.len() && t.subrange(0, x.len() as int)
                    == x;
            let pr: (Seq<char>, u64) = (t, id);
            assert(m.metas.contains((pr.1, w)) && has_str(w, StrField::Tag, pr.0));
            assert(m.field_pairs(StrField::Tag).contains(pr));
            assert(has_prefix(t, x));
        }
        if m.prefixed(StrField::Tag, x).contains(id) {
            let t = choose|t: Seq<char>| m.field_pairs(StrField::Tag).contains((t, id)) && has_prefix(t, x);
            let w = choose|w: MetaView| m.metas.contains((id, w)) && has_str(w, StrField::Tag, t);
            assert(w.client_tag == Some(t));
        }
    }
}

} // verus!
