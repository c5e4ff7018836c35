//! Recursive-descent parser of the query language.
//!
//! Grammar:
//!
//! ```text
//! query       = expression ;
//! expression  = or_expr ;
//! or_expr     = and_expr { "OR" and_expr } ;
//! and_expr    = unary_expr { "AND" unary_expr } ;
//! unary_expr  = [ "NOT" ] primary ;
//! primary     = comparison | "(" expression ")" ;
//! comparison  = field operator value ;
//! ```
//!
//! The spec functions below state the grammar over the token sequence the
//! lexer produces; the executable parser is proved to return exactly the tree
//! or the error they give.  `AND` binds tighter than `OR`, both associate to
//! the left, and `NOT` applies to a single primary.
use vstd::prelude::*;
use crate::text::{
    chars_of, lowercase, push_str, str_eq, string_from_chars, to_lowercase,
};
use crate::cql::ast::{
    all_fields, field_text, spec_field_from_text, CqlError, CqlErrorType, CqlQuery, Expression,
    FieldName, Operator, Position, SpecCqlError, SpecExpr, SpecValue, Value,
};
use crate::cql::lexer::{syntax_error, tokenize_spec, Lexer, Tok, Token, TokenType, SpecToken};
use crate::cql::dates::{is_relative_date, relative_date_matches};

verus! {

// ---------------------------------------------------------------------------
// The grammar over tokens
// ---------------------------------------------------------------------------

/// The token used past the end of the sequence.
pub open spec fn dummy_eof() -> SpecToken {
    SpecToken { tok: Tok::Eof, pos: Position { line: 1, column: 1, offset: 0 } }
}

pub open spec fn cur(toks: Seq<SpecToken>, p: int) -> SpecToken {
    if 0 <= p < toks.len() {
        toks[p]
    } else {
        dummy_eof()
    }
}

/// Which variant a token is, ignoring its text.
pub open spec fn kind_index(t: Tok) -> int {
    match t {
        Tok::And => 0,
        Tok::Or => 1,
        Tok::Not => 2,
        Tok::In => 3,
        Tok::LParen => 4,
        Tok::RParen => 5,
        Tok::Comma => 6,
        Tok::Eq => 7,
        Tok::Neq => 8,
        Tok::Starts => 9,
        Tok::EqCi => 10,
        Tok::StartsCi => 11,
        Tok::Gt => 12,
        Tok::Gte => 13,
        Tok::Lt => 14,
        Tok::Lte => 15,
        Tok::Str(_) => 16,
        Tok::Num(_) => 17,
        Tok::Ident(_) => 18,
        Tok::Eof => 19,
    }
}

pub open spec fn tok_operator(t: Tok) -> Option<Operator> {
    match t {
        Tok::Eq => Some(Operator::Eq),
        Tok::Neq => Some(Operator::Neq),
        Tok::Starts => Some(Operator::Starts),
        Tok::EqCi => Some(Operator::EqCi),
        Tok::StartsCi => Some(Operator::StartsCi),
        Tok::Gt => Some(Operator::Gt),
        Tok::Gte => Some(Operator::Gte),
        Tok::Lt => Some(Operator::Lt),
        Tok::Lte => Some(Operator::Lte),
        Tok::In => Some(Operator::In),
        _ => None,
    }
}

/// Field names joined by ", ".
pub open spec fn join_fields(fs: Seq<FieldName>) -> Seq<char>
    decreases fs.len(),
{
    if fs.len() == 0 {
        Seq::empty()
    } else if fs.len() == 1 {
        field_text(fs[0])
    } else {
        join_fields(fs.drop_last()) + ", "@ + field_text(fs.last())
    }
}

pub open spec fn unknown_field_error(name: Seq<char>, p: Position) -> SpecCqlError {
    SpecCqlError {
        error_type: CqlErrorType::UnknownField,
        message: "Unknown field '"@ + name + "'. Valid fields: "@ + join_fields(all_fields()),
        position: Some(p),
        field: Some(name),
    }
}

/// A literal: a string (a relative date when it has that form), a number, or
/// `true`/`false` in any case.
pub open spec fn parse_value_spec(toks: Seq<SpecToken>, p: int) -> Result<(SpecValue, int), SpecCqlError> {
    let t = cur(toks, p);
    match t.tok {
        Tok::Str(s) => Ok(
            (if is_relative_date(s) { SpecValue::Date(s, true) } else { SpecValue::Str(s) }, p + 1),
        ),
        Tok::Num(n) => Ok((SpecValue::Number(n), p + 1)),
        Tok::Ident(s) => {
            if lowercase(s) == "true"@ || lowercase(s) == "false"@ {
                Ok((SpecValue::Str(lowercase(s)), p + 1))
            } else {
                Err(syntax_error("Expected value"@, t.pos))
            }
        },
        _ => Err(syntax_error("Expected value"@, t.pos)),
    }
}

/// `{ "," value }` after the first value of a list.
pub open spec fn list_rest(toks: Seq<SpecToken>, acc: Seq<SpecValue>, p: int) -> Result<
    (Seq<SpecValue>, int),
    SpecCqlError,
>
    decreases toks.len() - p,
{
    if cur(toks, p).tok is Comma {
        match parse_value_spec(toks, p + 1) {
            Ok((v, p2)) => {
                if p < p2 <= toks.len() {
                    list_rest(toks, acc.push(v), p2)
                } else {
                    Ok((acc, p))
                }
            },
            Err(e) => Err(e),
        }
    } else {
        Ok((acc, p))
    }
}

/// `"(" value { "," value } ")"`.
pub open spec fn parse_list_spec(toks: Seq<SpecToken>, p: int) -> Result<(SpecValue, int), SpecCqlError> {
    if !(cur(toks, p).tok is LParen) {
        Err(syntax_error("Expected '(' after IN"@, cur(toks, p).pos))
    } else {
        match parse_value_spec(toks, p + 1) {
            Err(e) => Err(e),
            Ok((v, p2)) => match list_rest(toks, seq![v], p2) {
                Err(e) => Err(e),
                Ok((vs, p3)) => {
                    if cur(toks, p3).tok is RParen {
                        Ok((SpecValue::List(vs), p3 + 1))
                    } else {
                        Err(syntax_error("Expected ')' after list values"@, cur(toks, p3).pos))
                    }
                },
            },
        }
    }
}

/// `field operator value`; `IN` takes a list.
pub open spec fn parse_comparison_spec(toks: Seq<SpecToken>, p: int) -> Result<
    (SpecExpr, int),
    SpecCqlError,
> {
    let ft = cur(toks, p);
    match ft.tok {
        Tok::Ident(name) => {
            if spec_field_from_text(name) is None {
                Err(unknown_field_error(name, ft.pos))
            } else {
                let ot = cur(toks, p + 1);
                match tok_operator(ot.tok) {
                    None => Err(syntax_error("Expected operator"@, ot.pos)),
                    Some(op) => {
                        let v = if op == Operator::In {
                            parse_list_spec(toks, p + 2)
                        } else {
                            parse_value_spec(toks, p + 2)
                        };
                        match v {
                            Ok((val, p3)) => Ok((SpecExpr::Cmp(name, op, val), p3)),
                            Err(e) => Err(e),
                        }
                    },
                }
            }
        },
        _ => Err(syntax_error("Expected field name"@, ft.pos)),
    }
}

pub open spec fn parse_or_spec(toks: Seq<SpecToken>, p: int) -> Result<(SpecExpr, int), SpecCqlError>
    decreases toks.len() - p, 4int,
{
    if !(0 <= p <= toks.len()) {
        Err(syntax_error(Seq::empty(), dummy_eof().pos))
    } else {
        match parse_and_spec(toks, p) {
            Err(e) => Err(e),
            Ok((l, p1)) => {
                if p <= p1 <= toks.len() {
                    or_rest(toks, l, p1)
                } else {
                    Ok((l, p1))
                }
            },
        }
    }
}

pub open spec fn or_rest(toks: Seq<SpecToken>, left: SpecExpr, p: int) -> Result<
    (SpecExpr, int),
    SpecCqlError,
>
    decreases toks.len() - p, 3int,
{
    if cur(toks, p).tok is Or {
        match parse_and_spec(toks, p + 1) {
            Err(e) => Err(e),
            Ok((r, p2)) => {
                if p + 1 <= p2 <= toks.len() {
                    or_rest(toks, SpecExpr::Or(Box::new(left), Box::new(r)), p2)
                } else {
                    Ok((left, p))
                }
            },
        }
    } else {
        Ok((left, p))
    }
}

pub open spec fn parse_and_spec(toks: Seq<SpecToken>, p: int) -> Result<(SpecExpr, int), SpecCqlError>
    decreases toks.len() - p, 2int,
{
    if !(0 <= p <= toks.len()) {
        Err(syntax_error(Seq::empty(), dummy_eof().pos))
    } else {
        match parse_unary_spec(toks, p) {
            Err(e) => Err(e),
            Ok((l, p1)) => {
                if p <= p1 <= toks.len() {
                    and_rest(toks, l, p1)
                } else {
                    Ok((l, p1))
                }
            },
        }
    }
}

pub open spec fn and_rest(toks: Seq<SpecToken>, left: SpecExpr, p: int) -> Result<
    (SpecExpr, int),
    SpecCqlError,
>
    decreases toks.len() - p, 1int,
{
    if cur(toks, p).tok is And {
        match parse_unary_spec(toks, p + 1) {
            Err(e) => Err(e),
            Ok((r, p2)) => {
                if p + 1 <= p2 <= toks.len() {
                    and_rest(toks, SpecExpr::And(Box::new(left), Box::new(r)), p2)
                } else {
                    Ok((left, p))
                }
            },
        }
    } else {
        Ok((left, p))
    }
}

pub open spec fn parse_unary_spec(toks: Seq<SpecToken>, p: int) -> Result<(SpecExpr, int), SpecCqlError>
    decreases toks.len() - p, 1int,
{
    if cur(toks, p).tok is Not {
        match parse_primary_spec(toks, p + 1) {
            Err(e) => Err(e),
            Ok((inner, p2)) => Ok((SpecExpr::Not(Box::new(inner)), p2)),
        }
    } else {
        parse_primary_spec(toks, p)
    }
}

pub open spec fn parse_primary_spec(toks: Seq<SpecToken>, p: int) -> Result<(SpecExpr, int), SpecCqlError>
    decreases toks.len() - p, 0int,
{
    if cur(toks, p).tok is LParen {
        match parse_or_spec(toks, p + 1) {
            Err(e) => Err(e),
            Ok((e, p2)) => {
                if cur(toks, p2).tok is RParen {
                    Ok((e, p2 + 1))
                } else {
                    Err(syntax_error("Expected ')' after expression"@, cur(toks, p2).pos))
                }
            },
        }
    } else {
        parse_comparison_spec(toks, p)
    }
}

/// The tree of a token sequence, or the first error.
pub open spec fn parse_tokens_spec(toks: Seq<SpecToken>) -> Result<SpecExpr, SpecCqlError> {
    if cur(toks, 0).tok is Eof {
        Err(syntax_error("Empty query"@, cur(toks, 0).pos))
    } else {
        match parse_or_spec(toks, 0) {
            Err(e) => Err(e),
            Ok((e, p)) => {
                if cur(toks, p).tok is Eof {
                    Ok(e)
                } else {
                    Err(syntax_error("Unexpected token after expression"@, cur(toks, p).pos))
                }
            },
        }
    }
}

/// The tree of a query, or the first lexical or syntax error.
pub open spec fn parse_spec(input: Seq<char>) -> Result<SpecExpr, SpecCqlError> {
    match tokenize_spec(input) {
        Err(e) => Err(e),
        Ok(toks) => parse_tokens_spec(toks),
    }
}

pub open spec fn expr_outcome(
    r: Result<Expression, CqlError>,
    s: Result<(SpecExpr, int), SpecCqlError>,
    pos: usize,
) -> bool {
    match s {
        Ok((e, p)) => r matches Ok(x) && x@ == e && pos == p,
        Err(e) => r matches Err(x) && x@ == e,
    }
}

pub open spec fn value_outcome(
    r: Result<Value, CqlError>,
    s: Result<(SpecValue, int), SpecCqlError>,
    pos: usize,
) -> bool {
    match s {
        Ok((v, p)) => r matches Ok(x) && x@ == v && pos == p,
        Err(e) => r matches Err(x) && x@ == e,
    }
}

// ---------------------------------------------------------------------------
// The executable parser
// ---------------------------------------------------------------------------

/// A parser over the tokens of one query.
pub struct Parser {
    tokens: Vec<Token>,
    pos: usize,
}

impl Default for Parser {
    fn default() -> (r: Parser)
        ensures
            r.toks() == Seq::<SpecToken>::empty(),
    {
        Parser::new()
    }
}

fn syntax_err(msg: &str, p: Position) -> (e: CqlError)
    ensures
        e@ == syntax_error(msg@, p),
{
    CqlError {
        error_type: CqlErrorType::SyntaxError,
        message: msg.to_owned(),
        position: Some(p),
        field: None,
    }
}

/// The field names joined by ", ".
fn valid_fields_text() -> (r: Vec<char>)
    ensures
        r@ == join_fields(all_fields()),
{
    let all = FieldName::all();
    let mut out: Vec<char> = Vec::new();
    let mut i: usize = 0;
    while i < all.len()
        invariant
            all@ == all_fields(),
            0 <= i <= all@.len(),
            out@ == join_fields(all@.take(i as int)),
        decreases all@.len() - i,
    {
        assert(all@.take(i + 1).drop_last() =~= all@.take(i as int));
        if i > 0 {
            push_str(&mut out, ", ");
        }
        push_str(&mut out, all[i].as_str());
        i += 1;
    }
    assert(all@.take(all@.len() as int) =~= all@);
    out
}

impl Parser {
    pub closed spec fn toks(&self) -> Seq<SpecToken> {
        self.tokens@.map_values(|t: Token| t@)
    }

    pub closed spec fn at(&self) -> int {
        self.pos as int
    }

    pub closed spec fn wf(&self) -> bool {
        self.pos <= self.tokens@.len()
    }

    /// A parser with no tokens.
    pub fn new() -> (r: Parser)
        ensures
            r.toks() == Seq::<SpecToken>::empty(),
            r.at() == 0,
    {
        let r = Parser { tokens: Vec::new(), pos: 0 };
        assert(r.toks() =~= Seq::<SpecToken>::empty());
        r
    }

    fn current_position(&self) -> (p: Position)
        requires
            self.wf(),
        ensures
            p == cur(self.toks(), self.at()).pos,
    {
        if self.pos < self.tokens.len() {
            self.tokens[self.pos].position
        } else {
            Position { line: 1, column: 1, offset: 0 }
        }
    }

    /// The variant of the current token.
    fn current_kind(&self) -> (k: u8)
        requires
            self.wf(),
        ensures
            k as int == kind_index(cur(self.toks(), self.at()).tok),
    {
        if self.pos < self.tokens.len() {
            token_kind(&self.tokens[self.pos].token_type)
        } else {
            19
        }
    }

    /// Moves past the current token, which is not the end.
    fn advance(&mut self)
        requires
            old(self).wf(),
            !(cur(old(self).toks(), old(self).at()).tok is Eof),
        ensures
            final(self).wf(),
            final(self).toks() == old(self).toks(),
            final(self).at() == old(self).at() + 1,
    {
        assert(self.toks().len() == self.tokens@.len());
        let n = self.tokens.len();
        assert(self.pos < n);
        self.pos = self.pos + 1;
    }

    /// Consumes the current token when it has the expected variant.
    fn match_kind(&mut self, kind: u8) -> (r: bool)
        requires
            old(self).wf(),
            kind < 19,
        ensures
            final(self).wf(),
            final(self).toks() == old(self).toks(),
            r == (kind_index(cur(old(self).toks(), old(self).at()).tok) == kind),
            final(self).at() == if r { old(self).at() + 1 } else { old(self).at() },
    {
        if self.current_kind() == kind {
            self.advance();
            true
        } else {
            false
        }
    }

    /// Parses a query.
    pub fn parse(&mut self, input: &str) -> (r: Result<CqlQuery, CqlError>)
        requires
            input@.len() < usize::MAX / 4,
        ensures
            match parse_spec(input@) {
                Ok(e) => r matches Ok(q) && q.raw@ == input@ && q.ast@ == e,
                Err(e) => r matches Err(x) && x@ == e,
            },
    {
        let mut lexer = Lexer::new(input);
        let tokens = lexer.tokenize()?;
        self.tokens = tokens;
        self.pos = 0;
        assert(self.toks() == self.tokens@.map_values(|t: Token| t@));
        if self.current_kind() == 19 {
            let p = self.current_position();
            return Err(syntax_err("Empty query", p));
        }
        let ast = self.parse_or_expr()?;
        if self.current_kind() != 19 {
            let p = self.current_position();
            return Err(syntax_err("Unexpected token after expression", p));
        }
        Ok(CqlQuery { raw: input.to_owned(), ast })
    }

    fn parse_or_expr(&mut self) -> (r: Result<Expression, CqlError>)
        requires
            old(self).wf(),
        ensures
            final(self).wf(),
            final(self).toks() == old(self).toks(),
            old(self).at() <= final(self).at(),
            expr_outcome(r, parse_or_spec(old(self).toks(), old(self).at()), final(self).pos),
        decreases old(self).toks().len() - old(self).at(), 4int,
    {
        proof {
            assert(self.toks().len() == self.tokens@.len());
        }
        let mut left = self.parse_and_expr()?;
        let ghost toks = self.toks();
        let ghost p0 = old(self).at();
        loop
            invariant
                self.wf(),
                self.toks() == toks,
                toks == old(self).toks(),
                toks.len() == self.tokens@.len(),
                p0 == old(self).at(),
                p0 <= self.at() <= toks.len(),
                parse_or_spec(toks, p0) == or_rest(toks, left@, self.at()),
            decreases toks.len() - self.at(),
        {
            let ghost before = self.at();
            if !self.match_kind(1) {
                return Ok(left);
            }
            let right = self.parse_and_expr()?;
            left = Expression::Or { left: Box::new(left), right: Box::new(right) };
        }
    }

    fn parse_and_expr(&mut self) -> (r: Result<Expression, CqlError>)
        requires
            old(self).wf(),
        ensures
            final(self).wf(),
            final(self).toks() == old(self).toks(),
            old(self).at() <= final(self).at(),
            expr_outcome(r, parse_and_spec(old(self).toks(), old(self).at()), final(self).pos),
        decreases old(self).toks().len() - old(self).at(), 2int,
    {
        proof {
            assert(self.toks().len() == self.tokens@.len());
        }
        let mut left = self.parse_unary_expr()?;
        let ghost toks = self.toks();
        let ghost p0 = old(self).at();
        loop
            invariant
                self.wf(),
                self.toks() == toks,
                toks == old(self).toks(),
                toks.len() == self.tokens@.len(),
                p0 == old(self).at(),
                p0 <= self.at() <= toks.len(),
                parse_and_spec(toks, p0) == and_rest(toks, left@, self.at()),
            decreases toks.len() - self.at(),
        {
            if !self.match_kind(0) {
                return Ok(left);
            }
            let right = self.parse_unary_expr()?;
            left = Expression::And { left: Box::new(left), right: Box::new(right) };
        }
    }

    fn parse_unary_expr(&mut self) -> (r: Result<Expression, CqlError>)
        requires
            old(self).wf(),
        ensures
            final(self).wf(),
            final(self).toks() == old(self).toks(),
            old(self).at() <= final(self).at(),
            expr_outcome(r, parse_unary_spec(old(self).toks(), old(self).at()), final(self).pos),
        decreases old(self).toks().len() - old(self).at(), 1int,
    {
        proof {
            assert(self.toks().len() == self.tokens@.len());
        }
        if self.match_kind(2) {
            let inner = self.parse_primary()?;
            return Ok(Expression::Not { inner: Box::new(inner) });
        }
        self.parse_primary()
    }

    fn parse_primary(&mut self) -> (r: Result<Expression, CqlError>)
        requires
            old(self).wf(),
        ensures
            final(self).wf(),
            final(self).toks() == old(self).toks(),
            old(self).at() <= final(self).at(),
            expr_outcome(r, parse_primary_spec(old(self).toks(), old(self).at()), final(self).pos),
        decreases old(self).toks().len() - old(self).at(), 0int,
    {
        proof {
            assert(self.toks().len() == self.tokens@.len());
        }
        if self.match_kind(4) {
            let expr = self.parse_or_expr()?;
            if !self.match_kind(5) {
                let p = self.current_position();
                return Err(syntax_err("Expected ')' after expression", p));
            }
            return Ok(expr);
        }
        self.parse_comparison()
    }

    fn parse_comparison(&mut self) -> (r: Result<Expression, CqlError>)
        requires
            old(self).wf(),
        ensures
            final(self).wf(),
            final(self).toks() == old(self).toks(),
            old(self).at() <= final(self).at(),
            expr_outcome(r, parse_comparison_spec(old(self).toks(), old(self).at()), final(self).pos),
    {
        proof {
            assert(self.toks().len() == self.tokens@.len());
        }
        let field_pos = self.current_position();
        if self.current_kind() != 18 {
            return Err(syntax_err("Expected field name", field_pos));
        }
        let field_name = match &self.tokens[self.pos].token_type {
            TokenType::Ident(name) => name.clone(),
            _ => {
                proof {
                    assert(false);
                }
                String::new()
            },
        };
        self.advance();
        if FieldName::from_str(field_name.as_str()).is_none() {
            let mut msg = chars_of("Unknown field '");
            push_str(&mut msg, field_name.as_str());
            push_str(&mut msg, "'. Valid fields: ");
            let fields = valid_fields_text();
            let ghost m0 = msg@;
            let mut i: usize = 0;
            while i < fields.len()
                invariant
                    0 <= i <= fields@.len(),
                    msg@ == m0 + fields@.take(i as int),
                decreases fields@.len() - i,
            {
                msg.push(fields[i]);
                assert(fields@.take(i + 1) =~= fields@.take(i as int).push(fields@[i as int]));
                i += 1;
            }
            assert(fields@.take(fields@.len() as int) =~= fields@);
            return Err(
                CqlError {
                    error_type: CqlErrorType::UnknownField,
                    message: string_from_chars(msg.as_slice()),
                    position: Some(field_pos),
                    field: Some(field_name),
                },
            );
        }
        let op_pos = self.current_position();
        let kind = self.current_kind();
        let operator = if kind == 7 {
            Operator::Eq
        } else if kind == 8 {
            Operator::Neq
        } else if kind == 9 {
            Operator::Starts
        } else if kind == 10 {
            Operator::EqCi
        } else if kind == 11 {
            Operator::StartsCi
        } else if kind == 12 {
            Operator::Gt
        } else if kind == 13 {
            Operator::Gte
        } else if kind == 14 {
            Operator::Lt
        } else if kind == 15 {
            Operator::Lte
        } else if kind == 3 {
            Operator::In
        } else {
            return Err(syntax_err("Expected operator", op_pos));
        };
        self.advance();
        let value = if kind == 3 {
            self.parse_list()?
        } else {
            self.parse_value()?
        };
        Ok(Expression::Comparison { field: field_name, operator, value })
    }

    fn parse_value(&mut self) -> (r: Result<Value, CqlError>)
        requires
            old(self).wf(),
        ensures
            final(self).wf(),
            final(self).toks() == old(self).toks(),
            old(self).at() <= final(self).at(),
            value_outcome(r, parse_value_spec(old(self).toks(), old(self).at()), final(self).pos),
    {
        proof {
            assert(self.toks().len() == self.tokens@.len());
        }
        let p = self.current_position();
        let kind = self.current_kind();
        if kind == 16 {
            let s = match &self.tokens[self.pos].token_type {
                TokenType::String(s) => s.clone(),
                _ => {
                    proof {
                        assert(false);
                    }
                    String::new()
                },
            };
            self.advance();
            if relative_date_matches(s.as_str()) {
                Ok(Value::Date { value: s, relative: true })
            } else {
                Ok(Value::String { value: s })
            }
        } else if kind == 17 {
            let n = match &self.tokens[self.pos].token_type {
                TokenType::Number(n) => n.clone(),
                _ => {
                    proof {
                        assert(false);
                    }
                    String::new()
                },
            };
            self.advance();
            Ok(Value::Number { value: n })
        } else if kind == 18 {
            let s = match &self.tokens[self.pos].token_type {
                TokenType::Ident(s) => s.clone(),
                _ => {
                    proof {
                        assert(false);
                    }
                    String::new()
                },
            };
            let lower = to_lowercase(s.as_str());
            if str_eq(lower.as_str(), "true") || str_eq(lower.as_str(), "false") {
                self.advance();
                Ok(Value::String { value: lower })
            } else {
                Err(syntax_err("Expected value", p))
            }
        } else {
            Err(syntax_err("Expected value", p))
        }
    }

    fn parse_list(&mut self) -> (r: Result<Value, CqlError>)
        requires
            old(self).wf(),
        ensures
            final(self).wf(),
            final(self).toks() == old(self).toks(),
            old(self).at() <= final(self).at(),
            value_outcome(r, parse_list_spec(old(self).toks(), old(self).at()), final(self).pos),
    {
        proof {
            assert(self.toks().len() == self.tokens@.len());
        }
        if !self.match_kind(4) {
            let p = self.current_position();
            return Err(syntax_err("Expected '(' after IN", p));
        }
        let first = self.parse_value()?;
        let mut values: Vec<Value> = Vec::new();
        values.push(first);
        let ghost toks = self.toks();
        let ghost p_first = self.at();
        proof {
            assert(values@.map_values(|v: Value| v@) =~= seq![first@]);
        }
        while self.match_kind(6)
            invariant_except_break
                self.wf(),
                self.toks() == toks,
                toks == old(self).toks(),
                toks.len() == self.tokens@.len(),
                old(self).at() <= self.at() <= toks.len(),
                cur(toks, old(self).at()).tok is LParen,
                parse_value_spec(toks, old(self).at() + 1) == Ok::<(SpecValue, int), SpecCqlError>(
                    (first@, p_first),
                ),
                list_rest(toks, seq![first@], p_first) == list_rest(
                    toks,
                    values@.map_values(|v: Value| v@),
                    self.at(),
                ),
            ensures
                self.wf(),
                self.toks() == toks,
                old(self).at() <= self.at(),
                list_rest(toks, seq![first@], p_first) == Ok::<(Seq<SpecValue>, int), SpecCqlError>(
                    (values@.map_values(|v: Value| v@), self.at()),
                ),
            decreases toks.len() - self.at(),
        {
            let v = self.parse_value()?;
            let ghost before = values@.map_values(|v: Value| v@);
            values.push(v);
            assert(values@.map_values(|v: Value| v@) =~= before.push(v@));
        }
        if !self.match_kind(5) {
            let p = self.current_position();
            return Err(syntax_err("Expected ')' after list values", p));
        }
        let r = Value::List { values };
        proof {
            assert(r@ matches SpecValue::List(l) && l =~= values@.map_values(|v: Value| v@));
        }
        Ok(r)
    }
}

fn token_kind(t: &TokenType) -> (k: u8)
    ensures
        k as int == kind_index(t@),
{
    match t {
        TokenType::And => 0,
        TokenType::Or => 1,
        TokenType::Not => 2,
        TokenType::In => 3,
        TokenType::LParen => 4,
        TokenType::RParen => 5,
        TokenType::Comma => 6,
        TokenType::Eq => 7,
        TokenType::Neq => 8,
        TokenType::Starts => 9,
        TokenType::EqCi => 10,
        TokenType::StartsCi => 11,
        TokenType::Gt => 12,
        TokenType::Gte => 13,
        TokenType::Lt => 14,
        TokenType::Lte => 15,
        TokenType::String(_) => 16,
        TokenType::Number(_) => 17,
        TokenType::Ident(_) => 18,
        TokenType::Eof => 19,
    }
}

/// Parses a query into its syntax tree.
pub fn parse(input: &str) -> (r: Result<CqlQuery, CqlError>)
    requires
        input@.len() < usize::MAX / 4,
    ensures
        match parse_spec(input@) {
            Ok(e) => r matches Ok(q) && q.raw@ == input@ && q.ast@ == e,
            Err(e) => r matches Err(x) && x@ == e,
        },
{
    let mut parser = Parser::new();
    parser.parse(input)
}


/// `AND` binds tighter than `OR`: three comparisons joined as
/// `A OR B AND C` read as `A OR (B AND C)`, and joined as `A AND B OR C`
/// read as `(A AND B) OR C`, whatever the comparisons are.
pub proof fn law_and_binds_tighter(
    toks: Seq<SpecToken>,
    a: SpecExpr,
    b: SpecExpr,
    c: SpecExpr,
    q1: int,
    q2: int,
    q3: int,
    first_or: bool,
)
    requires
        0 < q1,
        q1 + 1 < q2,
        q2 + 1 < q3 <= toks.len(),
        parse_comparison_spec(toks, 0) == Ok::<(SpecExpr, int), SpecCqlError>((a, q1)),
        parse_comparison_spec(toks, q1 + 1) == Ok::<(SpecExpr, int), SpecCqlError>((b, q2)),
        parse_comparison_spec(toks, q2 + 1) == Ok::<(SpecExpr, int), SpecCqlError>((c, q3)),
        cur(toks, q1).tok == (if first_or { Tok::Or } else { Tok::And }),
        cur(toks, q2).tok == (if first_or { Tok::And } else { Tok::Or }),
        cur(toks, q3).tok is Eof,
    ensures
        first_or ==> parse_tokens_spec(toks) == Ok::<SpecExpr, SpecCqlError>(
            SpecExpr::Or(Box::new(a), Box::new(SpecExpr::And(Box::new(b), Box::new(c)))),
        ),
        !first_or ==> parse_tokens_spec(toks) == Ok::<SpecExpr, SpecCqlError>(
            SpecExpr::Or(Box::new(SpecExpr::And(Box::new(a), Box::new(b))), Box::new(c)),
        ),
{
    assert(cur(toks, 0).tok is Ident);
    assert(cur(toks, q1 + 1).tok is Ident);
    assert(cur(toks, q2 + 1).tok is Ident);
    assert(parse_unary_spec(toks, 0) == Ok::<(SpecExpr, int), SpecCqlError>((a, q1)));
    assert(parse_unary_spec(toks, q1 + 1) == Ok::<(SpecExpr, int), SpecCqlError>((b, q2)));
    assert(parse_unary_spec(toks, q2 + 1) == Ok::<(SpecExpr, int), SpecCqlError>((c, q3)));
    assert(and_rest(toks, c, q3) == Ok::<(SpecExpr, int), SpecCqlError>((c, q3)));
    if first_or {
        assert(and_rest(toks, a, q1) == Ok::<(SpecExpr, int), SpecCqlError>((a, q1)));
        assert(parse_and_spec(toks, 0) == Ok::<(SpecExpr, int), SpecCqlError>((a, q1)));
        let bc = SpecExpr::And(Box::new(b), Box::new(c));
        assert(and_rest(toks, bc, q3) == Ok::<(SpecExpr, int), SpecCqlError>((bc, q3)));
        assert(and_rest(toks, b, q2) == Ok::<(SpecExpr, int), SpecCqlError>((bc, q3)));
        assert(parse_and_spec(toks, q1 + 1) == Ok::<(SpecExpr, int), SpecCqlError>((bc, q3)));
        let all = SpecExpr::Or(Box::new(a), Box::new(bc));
        assert(or_rest(toks, all, q3) == Ok::<(SpecExpr, int), SpecCqlError>((all, q3)));
        assert(or_rest(toks, a, q1) == Ok::<(SpecExpr, int), SpecCqlError>((all, q3)));
        assert(parse_or_spec(toks, 0) == Ok::<(SpecExpr, int), SpecCqlError>((all, q3)));
    } else {
        let ab = SpecExpr::And(Box::new(a), Box::new(b));
        assert(and_rest(toks, b, q2) == Ok::<(SpecExpr, int), SpecCqlError>((b, q2)));
        assert(and_rest(toks, ab, q2) == Ok::<(SpecExpr, int), SpecCqlError>((ab, q2)));
        assert(and_rest(toks, a, q1) == Ok::<(SpecExpr, int), SpecCqlError>((ab, q2)));
        assert(parse_and_spec(toks, 0) == Ok::<(SpecExpr, int), SpecCqlError>((ab, q2)));
        assert(parse_and_spec(toks, q2 + 1) == Ok::<(SpecExpr, int), SpecCqlError>((c, q3)));
        let all = SpecExpr::Or(Box::new(ab), Box::new(c));
        assert(or_rest(toks, all, q3) == Ok::<(SpecExpr, int), SpecCqlError>((all, q3)));
        assert(or_rest(toks, ab, q2) == Ok::<(SpecExpr, int), SpecCqlError>((all, q3)));
        assert(parse_or_spec(toks, 0) == Ok::<(SpecExpr, int), SpecCqlError>((all, q3)));
    }
}


/// `NOT` applies to the comparison right after it: `NOT A AND B` reads as
/// `(NOT A) AND B`.
pub proof fn law_not_binds_tightest(toks: Seq<SpecToken>, a: SpecExpr, b: SpecExpr, q1: int, q2: int)
    requires
        cur(toks, 0).tok is Not,
        1 < q1,
        q1 + 1 < q2 <= toks.len(),
        parse_comparison_spec(toks, 1) == Ok::<(SpecExpr, int), SpecCqlError>((a, q1)),
        parse_comparison_spec(toks, q1 + 1) == Ok::<(SpecExpr, int), SpecCqlError>((b, q2)),
        cur(toks, q1).tok is And,
        cur(toks, q2).tok is Eof,
    ensures
        parse_tokens_spec(toks) == Ok::<SpecExpr, SpecCqlError>(
            SpecExpr::And(Box::new(SpecExpr::Not(Box::new(a))), Box::new(b)),
        ),
{
    assert(cur(toks, 1).tok is Ident);
    assert(cur(toks, q1 + 1).tok is Ident);
    let na = SpecExpr::Not(Box::new(a));
    assert(parse_primary_spec(toks, 1) == Ok::<(SpecExpr, int), SpecCqlError>((a, q1)));
    assert(parse_unary_spec(toks, 0) == Ok::<(SpecExpr, int), SpecCqlError>((na, q1)));
    assert(parse_unary_spec(toks, q1 + 1) == Ok::<(SpecExpr, int), SpecCqlError>((b, q2)));
    let all = SpecExpr::And(Box::new(na), Box::new(b));
    assert(and_rest(toks, all, q2) == Ok::<(SpecExpr, int), SpecCqlError>((all, q2)));
    assert(and_rest(toks, na, q1) == Ok::<(SpecExpr, int), SpecCqlError>((all, q2)));
    assert(parse_and_spec(toks, 0) == Ok::<(SpecExpr, int), SpecCqlError>((all, q2)));
    assert(or_rest(toks, all, q2) == Ok::<(SpecExpr, int), SpecCqlError>((all, q2)));
    assert(parse_or_spec(toks, 0) == Ok::<(SpecExpr, int), SpecCqlError>((all, q2)));
}

/// Parentheses group first: `(A OR B) AND C` reads as `(A OR B) AND C`,
/// not `A OR (B AND C)`.
pub proof fn law_parentheses_group(toks: Seq<SpecToken>, a: SpecExpr, b: SpecExpr, c: SpecExpr, q1: int, q2: int, q3: int)
    requires
        cur(toks, 0).tok is LParen,
        1 < q1,
        q1 + 1 < q2,
        q2 + 2 < q3 <= toks.len(),
        parse_comparison_spec(toks, 1) == Ok::<(SpecExpr, int), SpecCqlError>((a, q1)),
        parse_comparison_spec(toks, q1 + 1) == Ok::<(SpecExpr, int), SpecCqlError>((b, q2)),
        parse_comparison_spec(toks, q2 + 2) == Ok::<(SpecExpr, int), SpecCqlError>((c, q3)),
        cur(toks, q1).tok is Or,
        cur(toks, q2).tok is RParen,
        cur(toks, q2 + 1).tok is And,
        cur(toks, q3).tok is Eof,
    ensures
        parse_tokens_spec(toks) == Ok::<SpecExpr, SpecCqlError>(
            SpecExpr::And(Box::new(SpecExpr::Or(Box::new(a), Box::new(b))), Box::new(c)),
        ),
{
    assert(cur(toks, 1).tok is Ident);
    assert(cur(toks, q1 + 1).tok is Ident);
    assert(cur(toks, q2 + 2).tok is Ident);
    assert(parse_unary_spec(toks, 1) == Ok::<(SpecExpr, int), SpecCqlError>((a, q1)));
    assert(and_rest(toks, a, q1) == Ok::<(SpecExpr, int), SpecCqlError>((a, q1)));
    assert(parse_and_spec(toks, 1) == Ok::<(SpecExpr, int), SpecCqlError>((a, q1)));
    assert(parse_unary_spec(toks, q1 + 1) == Ok::<(SpecExpr, int), SpecCqlError>((b, q2)));
    assert(and_rest(toks, b, q2) == Ok::<(SpecExpr, int), SpecCqlError>((b, q2)));
    assert(parse_and_spec(toks, q1 + 1) == Ok::<(SpecExpr, int), SpecCqlError>((b, q2)));
    let ab = SpecExpr::Or(Box::new(a), Box::new(b));
    assert(or_rest(toks, ab, q2) == Ok::<(SpecExpr, int), SpecCqlError>((ab, q2)));
    assert(or_rest(toks, a, q1) == Ok::<(SpecExpr, int), SpecCqlError>((ab, q2)));
    assert(parse_or_spec(toks, 1) == Ok::<(SpecExpr, int), SpecCqlError>((ab, q2)));
    assert(parse_primary_spec(toks, 0) == Ok::<(SpecExpr, int), SpecCqlError>((ab, q2 + 1)));
    assert(parse_unary_spec(toks, 0) == Ok::<(SpecExpr, int), SpecCqlError>((ab, q2 + 1)));
    assert(parse_unary_spec(toks, q2 + 2) == Ok::<(SpecExpr, int), SpecCqlError>((c, q3)));
    let all = SpecExpr::And(Box::new(ab), Box::new(c));
    assert(and_rest(toks, all, q3) == Ok::<(SpecExpr, int), SpecCqlError>((all, q3)));
    assert(and_rest(toks, ab, q2 + 1) == Ok::<(SpecExpr, int), SpecCqlError>((all, q3)));
    assert(parse_and_spec(toks, 0) == Ok::<(SpecExpr, int), SpecCqlError>((all, q3)));
    assert(or_rest(toks, all, q3) == Ok::<(SpecExpr, int), SpecCqlError>((all, q3)));
    assert(parse_or_spec(toks, 0) == Ok::<(SpecExpr, int), SpecCqlError>((all, q3)));
}

} // verus!
