//! Lexer of the query language.
//!
//! The lexer walks the characters of the query, tracking the 1-based line and
//! column and the byte offset of each token.  Its behaviour is stated by the
//! spec functions of this file, a character-level description of each kind of
//! token; the executable lexer is proved to produce exactly their tokens and
//! errors.
use vstd::prelude::*;
use crate::text::{
    char_is_alphabetic, char_is_alphanumeric, char_is_whitespace, char_utf8_len, chars_of,
    decimal, is_ascii_digit, ascii_digit, push_decimal, push_str, string_from_chars, to_uppercase,
    unicode_alphabetic, ascii_upper_char, is_ascii_char, unicode_alphanumeric, unicode_whitespace, uppercase, utf8_len,
};
use crate::cql::ast::{CqlError, CqlErrorType, Position, SpecCqlError};

verus! {

/// Kinds of tokens, with the text of strings, numbers and identifiers.
#[derive(Debug)]
pub enum TokenType {
    And,
    Or,
    Not,
    In,
    LParen,
    RParen,
    Comma,
    Eq,
    Neq,
    Starts,
    EqCi,
    StartsCi,
    Gt,
    Gte,
    Lt,
    Lte,
    String(String),
    Number(String),
    Ident(String),
    Eof,
}

/// The mathematical form of a [`TokenType`].
pub enum Tok {
    And,
    Or,
    Not,
    In,
    LParen,
    RParen,
    Comma,
    Eq,
    Neq,
    Starts,
    EqCi,
    StartsCi,
    Gt,
    Gte,
    Lt,
    Lte,
    Str(Seq<char>),
    Num(Seq<char>),
    Ident(Seq<char>),
    Eof,
}

impl View for TokenType {
    type V = Tok;

    open spec fn view(&self) -> Tok {
        match self {
            TokenType::And => Tok::And,
            TokenType::Or => Tok::Or,
            TokenType::Not => Tok::Not,
            TokenType::In => Tok::In,
            TokenType::LParen => Tok::LParen,
            TokenType::RParen => Tok::RParen,
            TokenType::Comma => Tok::Comma,
            TokenType::Eq => Tok::Eq,
            TokenType::Neq => Tok::Neq,
            TokenType::Starts => Tok::Starts,
            TokenType::EqCi => Tok::EqCi,
            TokenType::StartsCi => Tok::StartsCi,
            TokenType::Gt => Tok::Gt,
            TokenType::Gte => Tok::Gte,
            TokenType::Lt => Tok::Lt,
            TokenType::Lte => Tok::Lte,
            TokenType::String(s) => Tok::Str(s@),
            TokenType::Number(s) => Tok::Num(s@),
            TokenType::Ident(s) => Tok::Ident(s@),
            TokenType::Eof => Tok::Eof,
        }
    }
}

/// A token and where it starts.
#[derive(Debug)]
pub struct Token {
    pub token_type: TokenType,
    pub position: Position,
}

pub struct SpecToken {
    pub tok: Tok,
    pub pos: Position,
}

impl View for Token {
    type V = SpecToken;

    open spec fn view(&self) -> SpecToken {
        SpecToken { tok: self.token_type@, pos: self.position }
    }
}

// ---------------------------------------------------------------------------
// Character-level description of the lexer
// ---------------------------------------------------------------------------

/// Where the lexer stands: index of the next character, line, column, byte offset.
pub struct LexState {
    pub i: int,
    pub line: nat,
    pub col: nat,
    pub off: nat,
}

pub open spec fn lex_start() -> LexState {
    LexState { i: 0, line: 1, col: 1, off: 0 }
}

/// Consuming one character: a newline starts the next line at column 1.
pub open spec fn adv(s: Seq<char>, st: LexState) -> LexState {
    if 0 <= st.i < s.len() {
        let c = s[st.i];
        LexState {
            i: st.i + 1,
            line: if c == '\n' { st.line + 1 } else { st.line },
            col: if c == '\n' { 1 } else { st.col + 1 },
            off: st.off + utf8_len(c),
        }
    } else {
        st
    }
}

pub open spec fn pos_of(st: LexState) -> Position {
    Position { line: st.line as usize, column: st.col as usize, offset: st.off as usize }
}

pub open spec fn at(s: Seq<char>, st: LexState, c: char) -> bool {
    0 <= st.i < s.len() && s[st.i] == c
}

pub open spec fn skip_ws(s: Seq<char>, st: LexState) -> LexState
    decreases s.len() - st.i,
{
    if 0 <= st.i < s.len() && unicode_whitespace(s[st.i]) {
        skip_ws(s, adv(s, st))
    } else {
        st
    }
}

pub open spec fn syntax_error(message: Seq<char>, pos: Position) -> SpecCqlError {
    SpecCqlError {
        error_type: CqlErrorType::SyntaxError,
        message,
        position: Some(pos),
        field: None,
    }
}

/// `prefix` followed by " at line L, column C".
pub open spec fn at_line_col(prefix: Seq<char>, p: Position) -> Seq<char> {
    prefix + " at line "@ + decimal(p.line as nat) + ", column "@ + decimal(p.column as nat)
}

/// The character an escape sequence `\e` stands for.
pub open spec fn unescape(e: char) -> char {
    if e == 'n' {
        '\n'
    } else if e == 't' {
        '\t'
    } else if e == 'r' {
        '\r'
    } else {
        e
    }
}

/// The rest of a quoted string after the opening quote: `acc` holds what was
/// read so far, `start` is where the string started.
pub open spec fn string_body(
    s: Seq<char>,
    st: LexState,
    quote: char,
    start: Position,
    acc: Seq<char>,
) -> Result<(Seq<char>, LexState), SpecCqlError>
    decreases s.len() - st.i,
{
    if !(0 <= st.i < s.len()) {
        Err(syntax_error(at_line_col("Unterminated string starting"@, start), start))
    } else if s[st.i] == quote {
        Ok((acc, adv(s, st)))
    } else if s[st.i] == '\\' {
        let st1 = adv(s, st);
        if !(0 <= st1.i < s.len()) {
            Err(syntax_error("Unterminated escape sequence"@, pos_of(st1)))
        } else {
            string_body(s, adv(s, st1), quote, start, acc.push(unescape(s[st1.i])))
        }
    } else {
        string_body(s, adv(s, st), quote, start, acc.push(s[st.i]))
    }
}

pub open spec fn skip_digits(s: Seq<char>, st: LexState) -> LexState
    decreases s.len() - st.i,
{
    if 0 <= st.i < s.len() && is_ascii_digit(s[st.i]) {
        skip_digits(s, adv(s, st))
    } else {
        st
    }
}

/// End of a number: an optional `-`, digits, and optionally `.` and digits.
pub open spec fn number_end(s: Seq<char>, st: LexState) -> LexState {
    let st1 = if at(s, st, '-') { adv(s, st) } else { st };
    let st2 = skip_digits(s, st1);
    if at(s, st2, '.') {
        skip_digits(s, adv(s, st2))
    } else {
        st2
    }
}

pub open spec fn ident_char(c: char) -> bool {
    unicode_alphanumeric(c) || c == '_'
}

pub open spec fn ident_end(s: Seq<char>, st: LexState) -> LexState
    decreases s.len() - st.i,
{
    if 0 <= st.i < s.len() && ident_char(s[st.i]) {
        ident_end(s, adv(s, st))
    } else {
        st
    }
}

/// Keywords are recognised whatever their case (by the Unicode uppercase mapping).
pub open spec fn keyword_or_ident(v: Seq<char>) -> Tok {
    let u = uppercase(v);
    if u == "AND"@ {
        Tok::And
    } else if u == "OR"@ {
        Tok::Or
    } else if u == "NOT"@ {
        Tok::Not
    } else if u == "IN"@ {
        Tok::In
    } else {
        Tok::Ident(v)
    }
}

pub open spec fn starts_number(s: Seq<char>, st: LexState) -> bool {
    0 <= st.i < s.len() && (is_ascii_digit(s[st.i]) || (s[st.i] == '-' && st.i + 1 < s.len()
        && is_ascii_digit(s[st.i + 1])))
}

pub open spec fn tok_at(t: Tok, p: Position) -> SpecToken {
    SpecToken { tok: t, pos: p }
}

/// A token of one or two characters: `c` alone gives `one`, `c` followed by
/// `=` gives `two`.
pub open spec fn one_or_two(s: Seq<char>, st: LexState, one: Tok, two: Tok) -> (
    Result<SpecToken, SpecCqlError>,
    LexState,
) {
    let st1 = adv(s, st);
    if at(s, st1, '=') {
        (Ok(tok_at(two, pos_of(st))), adv(s, st1))
    } else {
        (Ok(tok_at(one, pos_of(st))), st1)
    }
}

/// The next token after whitespace, and where the lexer then stands.
pub open spec fn next_token(s: Seq<char>, st0: LexState) -> (
    Result<SpecToken, SpecCqlError>,
    LexState,
) {
    let st = skip_ws(s, st0);
    let p = pos_of(st);
    if !(0 <= st.i < s.len()) {
        (Ok(tok_at(Tok::Eof, p)), st)
    } else {
        let c = s[st.i];
        if c == '"' || c == '\'' {
            match string_body(s, adv(s, st), c, p, Seq::empty()) {
                Ok((v, st2)) => (Ok(tok_at(Tok::Str(v), p)), st2),
                Err(e) => (Err(e), st),
            }
        } else if starts_number(s, st) {
            let st2 = number_end(s, st);
            (Ok(tok_at(Tok::Num(s.subrange(st.i, st2.i)), p)), st2)
        } else if unicode_alphabetic(c) || c == '_' {
            let st2 = ident_end(s, st);
            (Ok(tok_at(keyword_or_ident(s.subrange(st.i, st2.i)), p)), st2)
        } else if c == '(' {
            (Ok(tok_at(Tok::LParen, p)), adv(s, st))
        } else if c == ')' {
            (Ok(tok_at(Tok::RParen, p)), adv(s, st))
        } else if c == ',' {
            (Ok(tok_at(Tok::Comma, p)), adv(s, st))
        } else if c == '=' {
            (Ok(tok_at(Tok::Eq, p)), adv(s, st))
        } else if c == '!' {
            let st1 = adv(s, st);
            if at(s, st1, '=') {
                (Ok(tok_at(Tok::Neq, p)), adv(s, st1))
            } else {
                (Err(syntax_error(at_line_col("Expected '=' after '!'"@, p), p)), st)
            }
        } else if c == '^' {
            let st1 = adv(s, st);
            if at(s, st1, '~') {
                let st2 = adv(s, st1);
                if at(s, st2, '=') {
                    (Ok(tok_at(Tok::StartsCi, p)), adv(s, st2))
                } else {
                    (Err(syntax_error(at_line_col("Expected '=' after '^~'"@, p), p)), st)
                }
            } else if at(s, st1, '=') {
                (Ok(tok_at(Tok::Starts, p)), adv(s, st1))
            } else {
                (Err(syntax_error(at_line_col("Expected '=' or '~=' after '^'"@, p), p)), st)
            }
        } else if c == '~' {
            let st1 = adv(s, st);
            if at(s, st1, '=') {
                (Ok(tok_at(Tok::EqCi, p)), adv(s, st1))
            } else {
                (Err(syntax_error(at_line_col("Expected '=' after '~'"@, p), p)), st)
            }
        } else if c == '>' {
            one_or_two(s, st, Tok::Gt, Tok::Gte)
        } else if c == '<' {
            one_or_two(s, st, Tok::Lt, Tok::Lte)
        } else {
            (
                Err(
                    syntax_error(
                        at_line_col("Unexpected character '"@ + seq![c] + "'"@, p),
                        p,
                    ),
                ),
                st,
            )
        }
    }
}

/// All tokens from `st` on, ending with `Eof`, or the first error.
pub open spec fn tokens_from(s: Seq<char>, st: LexState) -> Result<Seq<SpecToken>, SpecCqlError>
    decreases s.len() - st.i,
{
    match next_token(s, st) {
        (Err(e), _) => Err(e),
        (Ok(t), st2) => {
            if t.tok is Eof {
                Ok(seq![t])
            } else if st.i < st2.i <= s.len() {
                match tokens_from(s, st2) {
                    Ok(rest) => Ok(seq![t] + rest),
                    Err(e) => Err(e),
                }
            } else {
                Ok(seq![t])
            }
        },
    }
}

/// The tokens of a query, or the first lexical error.
pub open spec fn tokenize_spec(s: Seq<char>) -> Result<Seq<SpecToken>, SpecCqlError> {
    tokens_from(s, lex_start())
}

// ---------------------------------------------------------------------------
// The executable lexer
// ---------------------------------------------------------------------------

/// The lexer's state over the characters of a query.
pub struct Lexer {
    chars: Vec<char>,
    idx: usize,
    pos: usize,
    line: usize,
    column: usize,
}

/// Builds a message `prefix at line L, column C`.
fn message_at(prefix: Vec<char>, p: Position) -> (r: String)
    ensures
        r@ == at_line_col(prefix@, p),
{
    let mut out = prefix;
    push_str(&mut out, " at line ");
    push_decimal(&mut out, p.line as u64);
    push_str(&mut out, ", column ");
    push_decimal(&mut out, p.column as u64);
    string_from_chars(out.as_slice())
}

fn syntax_error_at(message: String, p: Position) -> (e: CqlError)
    ensures
        e@ == syntax_error(message@, p),
{
    CqlError { error_type: CqlErrorType::SyntaxError, message, position: Some(p), field: None }
}

fn lit(s: &str) -> (v: Vec<char>)
    ensures
        v@ == s@,
{
    chars_of(s)
}

impl Lexer {
    pub closed spec fn chars(&self) -> Seq<char> {
        self.chars@
    }

    pub closed spec fn state(&self) -> LexState {
        LexState {
            i: self.idx as int,
            line: self.line as nat,
            col: self.column as nat,
            off: self.pos as nat,
        }
    }

    /// The counters stay small enough for `usize`: the input has fewer than a
    /// quarter of `usize::MAX` characters and each counter grows by at most
    /// four per character.
    pub closed spec fn wf(&self) -> bool {
        &&& self.chars@.len() < usize::MAX / 4
        &&& self.idx <= self.chars@.len()
        &&& 1 <= self.line <= 1 + self.idx
        &&& 1 <= self.column <= 1 + self.idx
        &&& self.pos <= 4 * self.idx
    }

    /// A lexer at the start of `input`.
    pub fn new(input: &str) -> (r: Lexer)
        requires
            input@.len() < usize::MAX / 4,
        ensures
            r.wf(),
            r.chars() == input@,
            r.state() == lex_start(),
    {
        Lexer { chars: chars_of(input), idx: 0, pos: 0, line: 1, column: 1 }
    }

    /// Where the next character stands.
    pub fn current_position(&self) -> (p: Position)
        ensures
            p == pos_of(self.state()),
    {
        Position { line: self.line, column: self.column, offset: self.pos }
    }

    /// Consumes and returns the next character.
    pub fn advance(&mut self) -> (r: Option<char>)
        requires
            old(self).wf(),
        ensures
            final(self).wf(),
            final(self).chars() == old(self).chars(),
            final(self).state() == adv(old(self).chars(), old(self).state()),
            r == (if old(self).state().i < old(self).chars().len() {
                Some(old(self).chars()[old(self).state().i])
            } else {
                None
            }),
    {
        if self.idx < self.chars.len() {
            let ch = self.chars[self.idx];
            self.pos = self.pos + char_utf8_len(ch);
            self.idx = self.idx + 1;
            if ch == '\n' {
                self.line = self.line + 1;
                self.column = 1;
            } else {
                self.column = self.column + 1;
            }
            Some(ch)
        } else {
            None
        }
    }

    /// The next character, not consumed.
    pub fn peek(&self) -> (r: Option<char>)
        requires
            self.wf(),
        ensures
            r == (if self.state().i < self.chars().len() {
                Some(self.chars()[self.state().i])
            } else {
                None
            }),
    {
        if self.idx < self.chars.len() {
            Some(self.chars[self.idx])
        } else {
            None
        }
    }

    fn peek_is(&self, c: char) -> (r: bool)
        requires
            self.wf(),
        ensures
            r == at(self.chars(), self.state(), c),
    {
        self.idx < self.chars.len() && self.chars[self.idx] == c
    }

    /// Skips whitespace.
    pub fn skip_whitespace(&mut self)
        requires
            old(self).wf(),
        ensures
            final(self).wf(),
            final(self).chars() == old(self).chars(),
            final(self).state() == skip_ws(old(self).chars(), old(self).state()),
    {
        while self.idx < self.chars.len() && char_is_whitespace(self.chars[self.idx])
            invariant
                self.wf(),
                self.chars() == old(self).chars(),
                skip_ws(self.chars(), self.state()) == skip_ws(old(self).chars(), old(self).state()),
            decreases self.chars().len() - self.idx,
        {
            self.advance();
        }
    }

    /// Reads a quoted string; the next character is the opening quote.
    fn read_string(&mut self, quote: char) -> (r: Result<Token, CqlError>)
        requires
            old(self).wf(),
            at(old(self).chars(), old(self).state(), quote),
        ensures
            final(self).wf(),
            final(self).chars() == old(self).chars(),
            match string_body(
                old(self).chars(),
                adv(old(self).chars(), old(self).state()),
                quote,
                pos_of(old(self).state()),
                Seq::empty(),
            ) {
                Ok((v, st2)) => r matches Ok(t) && t@ == tok_at(Tok::Str(v), pos_of(old(self).state()))
                    && final(self).state() == st2,
                Err(e) => r matches Err(x) && x@ == e,
            },
    {
        let start_pos = self.current_position();
        self.advance();
        let mut value: Vec<char> = Vec::new();
        let ghost s = self.chars();
        loop
            invariant
                self.wf(),
                self.chars() == s,
                s == old(self).chars(),
                start_pos == pos_of(old(self).state()),
                string_body(s, self.state(), quote, start_pos, value@) == string_body(
                    s,
                    adv(s, old(self).state()),
                    quote,
                    start_pos,
                    Seq::empty(),
                ),
            decreases s.len() - self.state().i,
        {
            match self.peek() {
                None => {
                    let msg = message_at(lit("Unterminated string starting"), start_pos);
                    return Err(syntax_error_at(msg, start_pos));
                },
                Some(ch) => {
                    if ch == quote {
                        self.advance();
                        return Ok(
                            Token {
                                token_type: TokenType::String(string_from_chars(value.as_slice())),
                                position: start_pos,
                            },
                        );
                    } else if ch == '\\' {
                        self.advance();
                        match self.advance() {
                            Some(e) => {
                                let u = if e == 'n' {
                                    '\n'
                                } else if e == 't' {
                                    '\t'
                                } else if e == 'r' {
                                    '\r'
                                } else {
                                    e
                                };
                                value.push(u);
                            },
                            None => {
                                let p = self.current_position();
                                let msg = string_from_chars(
                                    lit("Unterminated escape sequence").as_slice(),
                                );
                                return Err(syntax_error_at(msg, p));
                            },
                        }
                    } else {
                        value.push(ch);
                        self.advance();
                    }
                },
            }
        }
    }

    /// Reads a number; the next characters start one.
    fn read_number(&mut self) -> (t: Token)
        requires
            old(self).wf(),
        ensures
            final(self).wf(),
            final(self).chars() == old(self).chars(),
            final(self).state() == number_end(old(self).chars(), old(self).state()),
            t@ == tok_at(
                Tok::Num(
                    old(self).chars().subrange(
                        old(self).state().i,
                        number_end(old(self).chars(), old(self).state()).i,
                    ),
                ),
                pos_of(old(self).state()),
            ),
            old(self).state().i <= final(self).state().i,
    {
        let start_pos = self.current_position();
        let start = self.idx;
        let ghost s = self.chars();
        if self.peek_is('-') {
            self.advance();
        }
        let ghost st1 = self.state();
        self.skip_digits();
        if self.peek_is('.') {
            self.advance();
            self.skip_digits();
        }
        let text = string_from_chars(slice_of(&self.chars, start, self.idx).as_slice());
        Token { token_type: TokenType::Number(text), position: start_pos }
    }

    fn skip_digits(&mut self)
        requires
            old(self).wf(),
        ensures
            final(self).wf(),
            final(self).chars() == old(self).chars(),
            final(self).state() == skip_digits(old(self).chars(), old(self).state()),
            old(self).state().i <= final(self).state().i,
    {
        while self.idx < self.chars.len() && ascii_digit(self.chars[self.idx])
            invariant
                self.wf(),
                self.chars() == old(self).chars(),
                old(self).state().i <= self.state().i,
                skip_digits(self.chars(), self.state()) == skip_digits(
                    old(self).chars(),
                    old(self).state(),
                ),
            decreases self.chars().len() - self.idx,
        {
            self.advance();
        }
    }

    /// Reads an identifier or keyword; the next character starts one.
    fn read_identifier(&mut self) -> (t: Token)
        requires
            old(self).wf(),
        ensures
            final(self).wf(),
            final(self).chars() == old(self).chars(),
            final(self).state() == ident_end(old(self).chars(), old(self).state()),
            t@ == tok_at(
                keyword_or_ident(
                    old(self).chars().subrange(
                        old(self).state().i,
                        ident_end(old(self).chars(), old(self).state()).i,
                    ),
                ),
                pos_of(old(self).state()),
            ),
            old(self).state().i <= final(self).state().i,
    {
        let start_pos = self.current_position();
        let start = self.idx;
        while self.idx < self.chars.len() && (char_is_alphanumeric(self.chars[self.idx])
            || self.chars[self.idx] == '_')
            invariant
                self.wf(),
                self.chars() == old(self).chars(),
                start == old(self).state().i,
                start <= self.idx,
                ident_end(self.chars(), self.state()) == ident_end(
                    old(self).chars(),
                    old(self).state(),
                ),
            decreases self.chars().len() - self.idx,
        {
            self.advance();
        }
        let text = string_from_chars(slice_of(&self.chars, start, self.idx).as_slice());
        let upper = to_uppercase(text.as_str());
        let token_type = if crate::text::str_eq(upper.as_str(), "AND") {
            TokenType::And
        } else if crate::text::str_eq(upper.as_str(), "OR") {
            TokenType::Or
        } else if crate::text::str_eq(upper.as_str(), "NOT") {
            TokenType::Not
        } else if crate::text::str_eq(upper.as_str(), "IN") {
            TokenType::In
        } else {
            TokenType::Ident(text)
        };
        Token { token_type, position: start_pos }
    }

    fn single(&mut self, tt: TokenType, p: Position) -> (r: Result<Token, CqlError>)
        requires
            old(self).wf(),
        ensures
            final(self).wf(),
            final(self).chars() == old(self).chars(),
            final(self).state() == adv(old(self).chars(), old(self).state()),
            r matches Ok(t) && t@ == tok_at(tt@, p),
    {
        self.advance();
        Ok(Token { token_type: tt, position: p })
    }

    /// The next token, skipping whitespace first.
    pub fn next_token(&mut self) -> (r: Result<Token, CqlError>)
        requires
            old(self).wf(),
        ensures
            final(self).wf(),
            final(self).chars() == old(self).chars(),
            ({
                let (spec_r, st2) = next_token(old(self).chars(), old(self).state());
                match spec_r {
                    Ok(t) => r matches Ok(x) && x@ == t && final(self).state() == st2 && (
                    !(t.tok is Eof) ==> old(self).state().i < st2.i),
                    Err(e) => r matches Err(x) && x@ == e,
                }
            }),
    {
        let ghost s = self.chars();
        let ghost st0 = self.state();
        self.skip_whitespace();
        proof {
            lemma_skip_ws_monotone(s, st0);
        }
        let start_pos = self.current_position();
        match self.peek() {
            None => Ok(Token { token_type: TokenType::Eof, position: start_pos }),
            Some(ch) => {
                if ch == '"' || ch == '\'' {
                    proof {
                        lemma_string_body_advances(s, adv(s, self.state()), ch, start_pos, Seq::empty());
                    }
                    self.read_string(ch)
                } else if ascii_digit(ch) || (ch == '-' && self.idx + 1 < self.chars.len()
                    && ascii_digit(self.chars[self.idx + 1])) {
                    let t = self.read_number();
                    proof {
                        lemma_number_end_advances(s, skip_ws(s, st0));
                    }
                    Ok(t)
                } else if char_is_alphabetic(ch) || ch == '_' {
                    proof {
                        lemma_ident_end_advances(s, skip_ws(s, st0));
                    }
                    Ok(self.read_identifier())
                } else if ch == '(' {
                    self.single(TokenType::LParen, start_pos)
                } else if ch == ')' {
                    self.single(TokenType::RParen, start_pos)
                } else if ch == ',' {
                    self.single(TokenType::Comma, start_pos)
                } else if ch == '=' {
                    self.single(TokenType::Eq, start_pos)
                } else if ch == '!' {
                    self.advance();
                    if self.peek_is('=') {
                        self.single(TokenType::Neq, start_pos)
                    } else {
                        let msg = message_at(lit("Expected '=' after '!'"), start_pos);
                        Err(syntax_error_at(msg, start_pos))
                    }
                } else if ch == '^' {
                    self.advance();
                    if self.peek_is('~') {
                        self.advance();
                        if self.peek_is('=') {
                            self.single(TokenType::StartsCi, start_pos)
                        } else {
                            let msg = message_at(lit("Expected '=' after '^~'"), start_pos);
                            Err(syntax_error_at(msg, start_pos))
                        }
                    } else if self.peek_is('=') {
                        self.single(TokenType::Starts, start_pos)
                    } else {
                        let msg = message_at(lit("Expected '=' or '~=' after '^'"), start_pos);
                        Err(syntax_error_at(msg, start_pos))
                    }
                } else if ch == '~' {
                    self.advance();
                    if self.peek_is('=') {
                        self.single(TokenType::EqCi, start_pos)
                    } else {
                        let msg = message_at(lit("Expected '=' after '~'"), start_pos);
                        Err(syntax_error_at(msg, start_pos))
                    }
                } else if ch == '>' {
                    self.advance();
                    if self.peek_is('=') {
                        self.single(TokenType::Gte, start_pos)
                    } else {
                        Ok(Token { token_type: TokenType::Gt, position: start_pos })
                    }
                } else if ch == '<' {
                    self.advance();
                    if self.peek_is('=') {
                        self.single(TokenType::Lte, start_pos)
                    } else {
                        Ok(Token { token_type: TokenType::Lt, position: start_pos })
                    }
                } else {
                    let mut prefix = lit("Unexpected character '");
                    prefix.push(ch);
                    push_str(&mut prefix, "'");
                    assert(prefix@ =~= "Unexpected character '"@ + seq![ch] + "'"@);
                    let msg = message_at(prefix, start_pos);
                    Err(syntax_error_at(msg, start_pos))
                }
            },
        }
    }

    /// All tokens of the input, ending with `Eof`, or the first error.
    pub fn tokenize(&mut self) -> (r: Result<Vec<Token>, CqlError>)
        requires
            old(self).wf(),
        ensures
            match tokens_from(old(self).chars(), old(self).state()) {
                Ok(ts) => r matches Ok(v) && v@.map_values(|t: Token| t@) == ts,
                Err(e) => r matches Err(x) && x@ == e,
            },
    {
        let mut tokens: Vec<Token> = Vec::new();
        let ghost s = self.chars();
        loop
            invariant
                self.wf(),
                self.chars() == s,
                s == old(self).chars(),
                match tokens_from(s, self.state()) {
                    Ok(rest) => tokens_from(s, old(self).state()) == Ok::<
                        Seq<SpecToken>,
                        SpecCqlError,
                    >(tokens@.map_values(|t: Token| t@) + rest),
                    Err(e) => tokens_from(s, old(self).state()) == Err::<
                        Seq<SpecToken>,
                        SpecCqlError,
                    >(e),
                },
            decreases s.len() - self.state().i,
        {
            let ghost st = self.state();
            let token = self.next_token()?;
            let is_eof = match token.token_type {
                TokenType::Eof => true,
                _ => false,
            };
            proof {
                assert(st.i < self.state().i ==> self.state().i <= s.len());
            }
            let ghost before = tokens@.map_values(|t: Token| t@);
            tokens.push(token);
            assert(tokens@.map_values(|t: Token| t@) =~= before.push(token@));
            if is_eof {
                proof {
                    assert(before.push(token@) =~= before + seq![token@]);
                }
                return Ok(tokens);
            }
            proof {
                match tokens_from(s, self.state()) {
                    Ok(rest) => {
                        assert(before + seq![token@] + rest =~= before + (seq![token@] + rest));
                        assert(before.push(token@) =~= before + seq![token@]);
                    },
                    Err(e) => {},
                }
            }
        }
    }
}

/// Characters `start..end` of `v`.
fn slice_of(v: &Vec<char>, start: usize, end: usize) -> (r: Vec<char>)
    requires
        start <= end <= v@.len(),
    ensures
        r@ == v@.subrange(start as int, end as int),
{
    let mut r: Vec<char> = Vec::new();
    let mut i = start;
    while i < end
        invariant
            start <= i <= end <= v@.len(),
            r@ == v@.subrange(start as int, i as int),
        decreases end - i,
    {
        r.push(v[i]);
        assert(v@.subrange(start as int, i + 1) =~= v@.subrange(start as int, i as int).push(
            v@[i as int],
        ));
        i += 1;
    }
    r
}

// ---------------------------------------------------------------------------
// Facts about the description
// ---------------------------------------------------------------------------

pub proof fn lemma_skip_ws_monotone(s: Seq<char>, st: LexState)
    ensures
        skip_ws(s, st).i >= st.i,
    decreases s.len() - st.i,
{
    if 0 <= st.i < s.len() && unicode_whitespace(s[st.i]) {
        lemma_skip_ws_monotone(s, adv(s, st));
    }
}

proof fn lemma_skip_digits_monotone(s: Seq<char>, st: LexState)
    ensures
        skip_digits(s, st).i >= st.i,
    decreases s.len() - st.i,
{
    if 0 <= st.i < s.len() && is_ascii_digit(s[st.i]) {
        lemma_skip_digits_monotone(s, adv(s, st));
    }
}

proof fn lemma_number_end_advances(s: Seq<char>, st: LexState)
    requires
        starts_number(s, st),
    ensures
        number_end(s, st).i > st.i,
{
    let st1 = if at(s, st, '-') { adv(s, st) } else { st };
    lemma_skip_digits_monotone(s, st1);
    let st2 = skip_digits(s, st1);
    if !at(s, st, '-') {
        assert(skip_digits(s, st) == skip_digits(s, adv(s, st)));
        lemma_skip_digits_monotone(s, adv(s, st));
    }
    if at(s, st2, '.') {
        lemma_skip_digits_monotone(s, adv(s, st2));
    }
}

proof fn lemma_ident_end_monotone(s: Seq<char>, st: LexState)
    ensures
        ident_end(s, st).i >= st.i,
    decreases s.len() - st.i,
{
    if 0 <= st.i < s.len() && ident_char(s[st.i]) {
        lemma_ident_end_monotone(s, adv(s, st));
    }
}

proof fn lemma_ident_end_advances(s: Seq<char>, st: LexState)
    requires
        0 <= st.i < s.len(),
        ident_char(s[st.i]),
    ensures
        ident_end(s, st).i > st.i,
{
    lemma_ident_end_monotone(s, adv(s, st));
}

proof fn lemma_string_body_advances(
    s: Seq<char>,
    st: LexState,
    quote: char,
    start: Position,
    acc: Seq<char>,
)
    ensures
        string_body(s, st, quote, start, acc) matches Ok((_, st2)) ==> st2.i > st.i,
    decreases s.len() - st.i,
{
    if !(0 <= st.i < s.len()) {
    } else if s[st.i] == quote {
    } else if s[st.i] == '\\' {
        let st1 = adv(s, st);
        if 0 <= st1.i < s.len() {
            lemma_string_body_advances(s, adv(s, st1), quote, start, acc.push(unescape(s[st1.i])));
        }
    } else {
        lemma_string_body_advances(s, adv(s, st), quote, start, acc.push(s[st.i]));
    }
}


/// Each comparison symbol lexes as its own operator, starting where the
/// symbol stands and ending right after it: `<` alone is `Lt` and `<=` is
/// `Lte`, `>` alone is `Gt` and `>=` is `Gte`, `=` is `Eq`, `!=` is `Neq`.
/// (The one premise is what std documents of `char::is_alphabetic`: the
/// ASCII symbol at hand is not alphabetic.)
pub proof fn law_comparison_symbols(s: Seq<char>, st0: LexState)
    requires
        ({
            let st = skip_ws(s, st0);
            0 <= st.i < s.len() ==> !unicode_alphabetic(s[st.i]) || !(s[st.i] == '<' || s[st.i] == '>' || s[st.i] == '='
                || s[st.i] == '!')
        }),
    ensures
        ({
            let st = skip_ws(s, st0);
            let r = next_token(s, st0);
            let eq_next = st.i + 1 < s.len() && s[st.i + 1] == '=';
            0 <= st.i < s.len() ==> {
                &&& s[st.i] == '<' && !eq_next ==> r.0 == Ok::<SpecToken, SpecCqlError>(tok_at(Tok::Lt, pos_of(st)))
                    && r.1.i == st.i + 1
                &&& s[st.i] == '<' && eq_next ==> r.0 == Ok::<SpecToken, SpecCqlError>(tok_at(Tok::Lte, pos_of(st)))
                    && r.1.i == st.i + 2
                &&& s[st.i] == '>' && !eq_next ==> r.0 == Ok::<SpecToken, SpecCqlError>(tok_at(Tok::Gt, pos_of(st)))
                    && r.1.i == st.i + 1
                &&& s[st.i] == '>' && eq_next ==> r.0 == Ok::<SpecToken, SpecCqlError>(tok_at(Tok::Gte, pos_of(st)))
                    && r.1.i == st.i + 2
                &&& s[st.i] == '=' ==> r.0 == Ok::<SpecToken, SpecCqlError>(tok_at(Tok::Eq, pos_of(st))) && r.1.i
                    == st.i + 1
                &&& s[st.i] == '!' && eq_next ==> r.0 == Ok::<SpecToken, SpecCqlError>(tok_at(Tok::Neq, pos_of(st)))
                    && r.1.i == st.i + 2
            }
        }),
{
}


/// A word is a keyword whatever its case: on ASCII text (where the upper
/// case mapping is the ASCII one, as std documents) a word that upper-cases
/// to `AND`, `OR`, `NOT` or `IN` is that keyword, and any other word is a
/// name.
pub proof fn law_keywords_ignore_case(v: Seq<char>)
    requires
        forall|i: int| 0 <= i < v.len() ==> is_ascii_char(#[trigger] v[i]),
        uppercase(v) == v.map_values(|c: char| ascii_upper_char(c)),
    ensures
        ({
            let u = v.map_values(|c: char| ascii_upper_char(c));
            &&& u == "AND"@ ==> keyword_or_ident(v) == Tok::And
            &&& u == "OR"@ ==> keyword_or_ident(v) == Tok::Or
            &&& u == "NOT"@ ==> keyword_or_ident(v) == Tok::Not
            &&& u == "IN"@ ==> keyword_or_ident(v) == Tok::In
            &&& u != "AND"@ && u != "OR"@ && u != "NOT"@ && u != "IN"@ ==> keyword_or_ident(v) == Tok::Ident(v)
        }),
{
    reveal_strlit("AND");
    reveal_strlit("OR");
    reveal_strlit("NOT");
    reveal_strlit("IN");
    assert("OR"@ != "AND"@) by {
        assert("OR"@.len() != "AND"@.len());
    }
    assert("NOT"@ != "AND"@) by {
        assert("NOT"@[0] != "AND"@[0]);
    }
    assert("NOT"@ != "OR"@) by {
        assert("NOT"@.len() != "OR"@.len());
    }
    assert("IN"@ != "AND"@) by {
        assert("IN"@.len() != "AND"@.len());
    }
    assert("IN"@ != "OR"@) by {
        assert("IN"@[0] != "OR"@[0]);
    }
    assert("IN"@ != "NOT"@) by {
        assert("IN"@.len() != "NOT"@.len());
    }
}

} // verus!
