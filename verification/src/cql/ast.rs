//! Syntax tree of the context query language (CQL).
//!
//! A numeric literal is kept as the decimal text the query wrote.  Read as an
//! unsigned integer it is its integer part, zero when negative, saturating at
//! `u64::MAX` (see [`decimal_text_as_u64`]).
use vstd::prelude::*;
use crate::text::{chars_of, decimal, digits_value, push_decimal, push_str, str_eq, string_from_chars, is_ascii_digit, ascii_digit};

verus! {

/// Where a token starts: 1-based line and column, 0-based byte offset.
#[derive(Clone, Copy, Debug, PartialEq, Eq)]
pub struct Position {
    pub line: usize,
    pub column: usize,
    pub offset: usize,
}

/// Comparison operators.
#[derive(Clone, Copy, Debug, PartialEq, Eq, Structural)]
pub enum Operator {
    Eq,
    Neq,
    Starts,
    EqCi,
    StartsCi,
    Gt,
    Gte,
    Lt,
    Lte,
    In,
}

/// A literal in a comparison.
#[derive(Debug)]
pub enum Value {
    String { value: String },
    /// A numeric literal, as the decimal text of the query.
    Number { value: String },
    Date { value: String, relative: bool },
    List { values: Vec<Value> },
}

/// The mathematical form of a [`Value`].
pub enum SpecValue {
    Str(Seq<char>),
    Number(Seq<char>),
    Date(Seq<char>, bool),
    List(Seq<SpecValue>),
}

impl View for Value {
    type V = SpecValue;

    open spec fn view(&self) -> SpecValue
        decreases self,
    {
        match self {
            Value::String { value } => SpecValue::Str(value@),
            Value::Number { value } => SpecValue::Number(value@),
            Value::Date { value, relative } => SpecValue::Date(value@, *relative),
            Value::List { values } => SpecValue::List(
                Seq::new(
                    values@.len(),
                    |i: int|
                        if 0 <= i < values@.len() {
                            values@[i].view()
                        } else {
                            SpecValue::Str(Seq::empty())
                        },
                ),
            ),
        }
    }
}

/// Number of ASCII digits at the start of `s`, from index `i` on.
pub open spec fn digit_run(s: Seq<char>, i: int) -> nat
    decreases s.len() - i,
{
    if 0 <= i < s.len() && is_ascii_digit(s[i]) {
        1 + digit_run(s, i + 1)
    } else {
        0
    }
}

/// A decimal literal (`-`? digits (`.` digits)?) read as an unsigned integer:
/// zero when it is negative, otherwise its integer part, saturating at
/// `u64::MAX`.
pub open spec fn decimal_text_as_u64(text: Seq<char>) -> u64 {
    if text.len() > 0 && text[0] == '-' {
        0
    } else {
        let v = digits_value(text.take(digit_run(text, 0) as int));
        if v > u64::MAX {
            u64::MAX
        } else {
            v as u64
        }
    }
}

proof fn lemma_digit_run_bounds(s: Seq<char>, i: int)
    requires
        0 <= i <= s.len(),
    ensures
        i + digit_run(s, i) <= s.len(),
        forall|j: int| i <= j < i + digit_run(s, i) ==> is_ascii_digit(#[trigger] s[j]),
        i + digit_run(s, i) < s.len() ==> !is_ascii_digit(s[i + digit_run(s, i)]),
    decreases s.len() - i,
{
    if i < s.len() && is_ascii_digit(s[i]) {
        lemma_digit_run_bounds(s, i + 1);
    }
}

/// Reads a decimal literal as an unsigned integer, as [`decimal_text_as_u64`] says.
pub fn number_as_u64(text: &str) -> (r: u64)
    ensures
        r == decimal_text_as_u64(text@),
{
    let cs = chars_of(text);
    if cs.len() > 0 && cs[0] == '-' {
        return 0;
    }
    proof {
        lemma_digit_run_bounds(cs@, 0);
    }
    let ghost run = digit_run(cs@, 0);
    let mut i: usize = 0;
    let mut acc: u64 = 0;
    while i < cs.len() && ascii_digit(cs[i])
        invariant
            cs@ == text@,
            run == digit_run(cs@, 0),
            run <= cs@.len(),
            forall|j: int| 0 <= j < run ==> is_ascii_digit(#[trigger] cs@[j]),
            run < cs@.len() ==> !is_ascii_digit(cs@[run as int]),
            0 <= i <= run,
            acc == (if digits_value(cs@.take(i as int)) > u64::MAX {
                u64::MAX
            } else {
                digits_value(cs@.take(i as int)) as u64
            }),
        decreases cs@.len() - i,
    {
        let d = (cs[i] as u32 - '0' as u32) as u64;
        assert(cs@.take(i + 1).drop_last() =~= cs@.take(i as int));
        assert(cs@.take(i + 1).last() == cs@[i as int]);
        let next: u128 = acc as u128 * 10 + d as u128;
        if next > u64::MAX as u128 {
            acc = u64::MAX;
        } else {
            acc = next as u64;
        }
        i += 1;
    }
    assert(i == run);
    acc
}

pub open spec fn spec_value_as_string(v: SpecValue) -> Option<Seq<char>> {
    match v {
        SpecValue::Str(s) => Some(s),
        SpecValue::Date(s, _) => Some(s),
        _ => None,
    }
}

pub open spec fn spec_value_as_u64(v: SpecValue) -> Option<u64> {
    match v {
        SpecValue::Number(t) => Some(decimal_text_as_u64(t)),
        _ => None,
    }
}

pub open spec fn spec_value_as_list(v: SpecValue) -> Option<Seq<SpecValue>> {
    match v {
        SpecValue::List(l) => Some(l),
        _ => None,
    }
}

impl Value {
    /// The text of a string or date literal.
    pub fn as_string(&self) -> (r: Option<&str>)
        ensures
            r matches Some(s) ==> spec_value_as_string(self@) == Some(s@),
            r is None ==> spec_value_as_string(self@) is None,
    {
        match self {
            Value::String { value } => Some(value.as_str()),
            Value::Date { value, .. } => Some(value.as_str()),
            _ => None,
        }
    }

    /// The decimal text of a numeric literal.
    pub fn as_number(&self) -> (r: Option<&str>)
        ensures
            r matches Some(s) ==> self@ == SpecValue::Number(s@),
            r is None ==> !(self@ is Number),
    {
        match self {
            Value::Number { value } => Some(value.as_str()),
            _ => None,
        }
    }

    /// A numeric literal as an unsigned integer.
    pub fn as_u64(&self) -> (r: Option<u64>)
        ensures
            r == spec_value_as_u64(self@),
    {
        match self {
            Value::Number { value } => Some(number_as_u64(value.as_str())),
            _ => None,
        }
    }

    /// The items of a list literal.
    pub fn as_list(&self) -> (r: Option<&[Value]>)
        ensures
            r matches Some(l) ==> (self matches Value::List { values } && l@ == values@),
            r is None ==> !(self is List),
    {
        match self {
            Value::List { values } => Some(values.as_slice()),
            _ => None,
        }
    }
}

/// A node of the syntax tree.
#[derive(Debug)]
pub enum Expression {
    And { left: Box<Expression>, right: Box<Expression> },
    Or { left: Box<Expression>, right: Box<Expression> },
    Not { inner: Box<Expression> },
    Comparison { field: String, operator: Operator, value: Value },
}

/// The mathematical form of an [`Expression`].
pub enum SpecExpr {
    And(Box<SpecExpr>, Box<SpecExpr>),
    Or(Box<SpecExpr>, Box<SpecExpr>),
    Not(Box<SpecExpr>),
    Cmp(Seq<char>, Operator, SpecValue),
}

impl View for Expression {
    type V = SpecExpr;

    open spec fn view(&self) -> SpecExpr
        decreases self,
    {
        match self {
            Expression::And { left, right } => SpecExpr::And(
                Box::new((**left).view()),
                Box::new((**right).view()),
            ),
            Expression::Or { left, right } => SpecExpr::Or(
                Box::new((**left).view()),
                Box::new((**right).view()),
            ),
            Expression::Not { inner } => SpecExpr::Not(Box::new((**inner).view())),
            Expression::Comparison { field, operator, value } => SpecExpr::Cmp(
                field@,
                *operator,
                value@,
            ),
        }
    }
}

/// A parsed query: the text and its syntax tree.
#[derive(Debug)]
pub struct CqlQuery {
    pub raw: String,
    pub ast: Expression,
}

/// Fields a comparison can name.
#[derive(Clone, Copy, Debug, PartialEq, Eq, Hash, Structural)]
pub enum FieldName {
    Id,
    Tag,
    Title,
    Label,
    User,
    Service,
    Host,
    TraceId,
    Parent,
    Root,
    Created,
    Depth,
    IsLive,
}

/// The name of each field as a query writes it.
pub open spec fn field_text(f: FieldName) -> Seq<char> {
    match f {
        FieldName::Id => "id"@,
        FieldName::Tag => "tag"@,
        FieldName::Title => "title"@,
        FieldName::Label => "label"@,
        FieldName::User => "user"@,
        FieldName::Service => "service"@,
        FieldName::Host => "host"@,
        FieldName::TraceId => "trace_id"@,
        FieldName::Parent => "parent"@,
        FieldName::Root => "root"@,
        FieldName::Created => "created"@,
        FieldName::Depth => "depth"@,
        FieldName::IsLive => "is_live"@,
    }
}

/// The field a name denotes, if any.
pub open spec fn spec_field_from_text(s: Seq<char>) -> Option<FieldName> {
    if s == "id"@ {
        Some(FieldName::Id)
    } else if s == "tag"@ {
        Some(FieldName::Tag)
    } else if s == "title"@ {
        Some(FieldName::Title)
    } else if s == "label"@ {
        Some(FieldName::Label)
    } else if s == "user"@ {
        Some(FieldName::User)
    } else if s == "service"@ {
        Some(FieldName::Service)
    } else if s == "host"@ {
        Some(FieldName::Host)
    } else if s == "trace_id"@ {
        Some(FieldName::TraceId)
    } else if s == "parent"@ {
        Some(FieldName::Parent)
    } else if s == "root"@ {
        Some(FieldName::Root)
    } else if s == "created"@ {
        Some(FieldName::Created)
    } else if s == "depth"@ {
        Some(FieldName::Depth)
    } else if s == "is_live"@ {
        Some(FieldName::IsLive)
    } else {
        None
    }
}

/// The fields in declaration order.
pub open spec fn all_fields() -> Seq<FieldName> {
    seq![
        FieldName::Id,
        FieldName::Tag,
        FieldName::Title,
        FieldName::Label,
        FieldName::User,
        FieldName::Service,
        FieldName::Host,
        FieldName::TraceId,
        FieldName::Parent,
        FieldName::Root,
        FieldName::Created,
        FieldName::Depth,
        FieldName::IsLive,
    ]
}

/// Every field is found again under its name, and a name finds only the
/// field whose name it is (matching is case-sensitive).
pub proof fn law_field_name_roundtrip(f: FieldName)
    ensures
        spec_field_from_text(field_text(f)) == Some(f),
        forall|s: Seq<char>| #[trigger] spec_field_from_text(s) == Some(f) ==> field_text(f) == s,
{
    reveal_strlit("id");
    reveal_strlit("tag");
    reveal_strlit("title");
    reveal_strlit("label");
    reveal_strlit("user");
    reveal_strlit("service");
    reveal_strlit("host");
    reveal_strlit("trace_id");
    reveal_strlit("parent");
    reveal_strlit("root");
    reveal_strlit("created");
    reveal_strlit("depth");
    reveal_strlit("is_live");
    match f {
        FieldName::Id => {

        },
        FieldName::Tag => {
            assert("tag"@.len() != "id"@.len());
        },
        FieldName::Title => {
            assert("title"@.len() != "id"@.len());
            assert("title"@.len() != "tag"@.len());
        },
        FieldName::Label => {
            assert("label"@.len() != "id"@.len());
            assert("label"@.len() != "tag"@.len());
            assert("label"@[0] != "title"@[0]);
        },
        FieldName::User => {
            assert("user"@.len() != "id"@.len());
            assert("user"@.len() != "tag"@.len());
            assert("user"@.len() != "title"@.len());
            assert("user"@.len() != "label"@.len());
        },
        FieldName::Service => {
            assert("service"@.len() != "id"@.len());
            assert("service"@.len() != "tag"@.len());
            assert("service"@.len() != "title"@.len());
            assert("service"@.len() != "label"@.len());
            assert("service"@.len() != "user"@.len());
        },
        FieldName::Host => {
            assert("host"@.len() != "id"@.len());
            assert("host"@.len() != "tag"@.len());
            assert("host"@.len() != "title"@.len());
            assert("host"@.len() != "label"@.len());
            assert("host"@[0] != "user"@[0]);
            assert("host"@.len() != "service"@.len());
        },
        FieldName::TraceId => {
            assert("trace_id"@.len() != "id"@.len());
            assert("trace_id"@.len() != "tag"@.len());
            assert("trace_id"@.len() != "title"@.len());
            assert("trace_id"@.len() != "label"@.len());
            assert("trace_id"@.len() != "user"@.len());
            assert("trace_id"@.len() != "service"@.len());
            assert("trace_id"@.len() != "host"@.len());
        },
        FieldName::Parent => {
            assert("parent"@.len() != "id"@.len());
            assert("parent"@.len() != "tag"@.len());
            assert("parent"@.len() != "title"@.len());
            assert("parent"@.len() != "label"@.len());
            assert("parent"@.len() != "user"@.len());
            assert("parent"@.len() != "service"@.len());
            assert("parent"@.len() != "host"@.len());
            assert("parent"@.len() != "trace_id"@.len());
        },
        FieldName::Root => {
            assert("root"@.len() != "id"@.len());
            assert("root"@.len() != "tag"@.len());
            assert("root"@.len() != "title"@.len());
            assert("root"@.len() != "label"@.len());
            assert("root"@[0] != "user"@[0]);
            assert("root"@.len() != "service"@.len());
            assert("root"@[0] != "host"@[0]);
            assert("root"@.len() != "trace_id"@.len());
            assert("root"@.len() != "parent"@.len());
        },
        FieldName::Created => {
            assert("created"@.len() != "id"@.len());
            assert("created"@.len() != "tag"@.len());
            assert("created"@.len() != "title"@.len());
            assert("created"@.len() != "label"@.len());
            assert("created"@.len() != "user"@.len());
            assert("created"@[0] != "service"@[0]);
            assert("created"@.len() != "host"@.len());
            assert("created"@.len() != "trace_id"@.len());
            assert("created"@.len() != "parent"@.len());
            assert("created"@.len() != "root"@.len());
        },
        FieldName::Depth => {
            assert("depth"@.len() != "id"@.len());
            assert("depth"@.len() != "tag"@.len());
            assert("depth"@[0] != "title"@[0]);
            assert("depth"@[0] != "label"@[0]);
            assert("depth"@.len() != "user"@.len());
            assert("depth"@.len() != "service"@.len());
            assert("depth"@.len() != "host"@.len());
            assert("depth"@.len() != "trace_id"@.len());
            assert("depth"@.len() != "parent"@.len());
            assert("depth"@.len() != "root"@.len());
            assert("depth"@.len() != "created"@.len());
        },
        FieldName::IsLive => {
            assert("is_live"@.len() != "id"@.len());
            assert("is_live"@.len() != "tag"@.len());
            assert("is_live"@.len() != "title"@.len());
            assert("is_live"@.len() != "label"@.len());
            assert("is_live"@.len() != "user"@.len());
            assert("is_live"@[0] != "service"@[0]);
            assert("is_live"@.len() != "host"@.len());
            assert("is_live"@.len() != "trace_id"@.len());
            assert("is_live"@.len() != "parent"@.len());
            assert("is_live"@.len() != "root"@.len());
            assert("is_live"@[0] != "created"@[0]);
            assert("is_live"@.len() != "depth"@.len());
        },
    }
}

impl FieldName {
    /// The field named by `s`, if `s` is one of the field names.
    #[allow(clippy::should_implement_trait)]
    pub fn from_str(s: &str) -> (r: Option<FieldName>)
        ensures
            r == spec_field_from_text(s@),
    {
        if str_eq(s, "id") {
            Some(FieldName::Id)
        } else if str_eq(s, "tag") {
            Some(FieldName::Tag)
        } else if str_eq(s, "title") {
            Some(FieldName::Title)
        } else if str_eq(s, "label") {
            Some(FieldName::Label)
        } else if str_eq(s, "user") {
            Some(FieldName::User)
        } else if str_eq(s, "service") {
            Some(FieldName::Service)
        } else if str_eq(s, "host") {
            Some(FieldName::Host)
        } else if str_eq(s, "trace_id") {
            Some(FieldName::TraceId)
        } else if str_eq(s, "parent") {
            Some(FieldName::Parent)
        } else if str_eq(s, "root") {
            Some(FieldName::Root)
        } else if str_eq(s, "created") {
            Some(FieldName::Created)
        } else if str_eq(s, "depth") {
            Some(FieldName::Depth)
        } else if str_eq(s, "is_live") {
            Some(FieldName::IsLive)
        } else {
            None
        }
    }

    /// The name of the field as a query writes it.
    pub fn as_str(&self) -> (r: &'static str)
        ensures
            r@ == field_text(*self),
    {
        match self {
            FieldName::Id => "id",
            FieldName::Tag => "tag",
            FieldName::Title => "title",
            FieldName::Label => "label",
            FieldName::User => "user",
            FieldName::Service => "service",
            FieldName::Host => "host",
            FieldName::TraceId => "trace_id",
            FieldName::Parent => "parent",
            FieldName::Root => "root",
            FieldName::Created => "created",
            FieldName::Depth => "depth",
            FieldName::IsLive => "is_live",
        }
    }

    /// Every field, in declaration order.
    pub fn all() -> (r: Vec<FieldName>)
        ensures
            r@ == all_fields(),
    {
        let r = vec![
            FieldName::Id,
            FieldName::Tag,
            FieldName::Title,
            FieldName::Label,
            FieldName::User,
            FieldName::Service,
            FieldName::Host,
            FieldName::TraceId,
            FieldName::Parent,
            FieldName::Root,
            FieldName::Created,
            FieldName::Depth,
            FieldName::IsLive,
        ];
        assert(r@ =~= all_fields());
        r
    }
}

/// Kinds of query errors.
#[derive(Clone, Copy, Debug, PartialEq, Eq, Structural)]
pub enum CqlErrorType {
    SyntaxError,
    UnknownField,
    InvalidOperator,
    InvalidValue,
}

/// A parse or execution error.
#[derive(Clone, Debug)]
pub struct CqlError {
    pub error_type: CqlErrorType,
    pub message: String,
    pub position: Option<Position>,
    pub field: Option<String>,
}

/// The mathematical form of a [`CqlError`].
pub struct SpecCqlError {
    pub error_type: CqlErrorType,
    pub message: Seq<char>,
    pub position: Option<Position>,
    pub field: Option<Seq<char>>,
}

impl View for CqlError {
    type V = SpecCqlError;

    open spec fn view(&self) -> SpecCqlError {
        SpecCqlError {
            error_type: self.error_type,
            message: self.message@,
            position: self.position,
            field: match self.field {
                Some(f) => Some(f@),
                None => None,
            },
        }
    }
}

/// An error about a literal: no position, no field.
pub open spec fn invalid_value(message: Seq<char>) -> SpecCqlError {
    SpecCqlError { error_type: CqlErrorType::InvalidValue, message, position: None, field: None }
}

/// An error about an operator: no position, no field.
pub open spec fn invalid_operator(message: Seq<char>) -> SpecCqlError {
    SpecCqlError { error_type: CqlErrorType::InvalidOperator, message, position: None, field: None }
}

impl CqlError {
    /// An [`invalid_value`] error with this message.
    pub fn invalid_value(message: String) -> (e: CqlError)
        ensures
            e@ == invalid_value(message@),
    {
        CqlError { error_type: CqlErrorType::InvalidValue, message, position: None, field: None }
    }

    /// An [`invalid_operator`] error with this message.
    pub fn invalid_operator(message: String) -> (e: CqlError)
        ensures
            e@ == invalid_operator(message@),
    {
        CqlError { error_type: CqlErrorType::InvalidOperator, message, position: None, field: None }
    }
}

/// The text shown for an error: the message, followed by the line and column
/// when the error has a position.
pub open spec fn error_display(e: SpecCqlError) -> Seq<char> {
    match e.position {
        Some(p) => e.message + " (line "@ + decimal(p.line as nat) + ", column "@ + decimal(
            p.column as nat,
        ) + ")"@,
        None => e.message,
    }
}

impl CqlError {
    /// The text of the error, as its `Display` shows it.
    pub fn to_display_string(&self) -> (r: String)
        ensures
            r@ == error_display(self@),
    {
        match self.position {
            Some(p) => {
                let mut out: Vec<char> = chars_of(self.message.as_str());
                push_str(&mut out, " (line ");
                push_decimal(&mut out, p.line as u64);
                push_str(&mut out, ", column ");
                push_decimal(&mut out, p.column as u64);
                push_str(&mut out, ")");
                string_from_chars(out.as_slice())
            },
            None => self.message.clone(),
        }
    }
}

} // verus!
