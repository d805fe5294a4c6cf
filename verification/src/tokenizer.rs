//! The lexical scanner.
//!
//! The lexer consumes the source text once, left to right, producing a
//! sequence of positioned tokens; whitespace and comments are skipped and
//! produce no token.  Lines and columns are 1-based; a newline resets the
//! column and advances the line.  Its one piece of inter-token memory is an
//! expectation slot: immediately after the function keyword the next word is
//! read as a function identifier, and immediately after a thin arrow the next
//! word is read as a type name and resolved against the type registry.
//!
//! The lexical classes are ASCII: whitespace is space, tab, carriage return
//! or newline; a word starts with an ASCII letter or `_` and continues with
//! ASCII letters, digits or `_`; an integer literal is a run of ASCII
//! digits.  Any other character is an unexpected-character diagnostic.
//!
//! The whole behaviour of `tokenize` is pinned by the spec function
//! `lex_rest`, which maps the remaining input, the current position and the
//! expectation slot to either the sequence of remaining tokens or an error
//! report.

use vstd::prelude::*;

use crate::err::{Diagnostic, ErrorHandler, Report, diag_of_report};
use crate::typing::{Type, TypeRegistry};

verus! {

broadcast use vstd::string::group_string_axioms;

/// The closed enumeration of token kinds.
#[derive(Debug, Clone, Copy, PartialEq, Eq, Hash, Structural)]
pub enum TokenType {
    FunctionKeyword,
    FunctionIdent,
    ThinArrow,
    TypeIdent,
    OpenParen,
    CloseParen,
    OpenCurly,
    CloseCurly,
    ReturnKeyword,
    IntLiteral,
    Semicolon,
}

/// The payload of a token, for the kinds that carry one.  A type token
/// carries an owned copy of the registry's `Type`.
#[derive(Debug, Clone, PartialEq, Eq)]
pub enum TokenValue {
    FunctionIdent(String),
    TypeIdent(Type),
    IntLiteral(u64),
}

/// A classified, source-positioned atomic lexical unit.  Tokens are
/// immutable once produced and own their position metadata; they do not own
/// the source text.
#[derive(Debug, Clone, PartialEq, Eq)]
pub struct Token {
    pub line: usize,
    pub column: usize,
    pub token_type: TokenType,
    pub value: Option<TokenValue>,
}

/// The mathematical image of a `TokenValue`.
#[verifier::ext_equal]
pub ghost enum SpecTokenValue {
    FunctionIdent(Seq<char>),
    TypeIdent(Type),
    IntLiteral(u64),
}

/// The mathematical image of a `Token`.
#[verifier::ext_equal]
pub ghost struct SpecToken {
    pub line: int,
    pub column: int,
    pub kind: TokenType,
    pub value: Option<SpecTokenValue>,
}

impl View for TokenValue {
    type V = SpecTokenValue;

    open spec fn view(&self) -> SpecTokenValue {
        match self {
            TokenValue::FunctionIdent(s) => SpecTokenValue::FunctionIdent(s@),
            TokenValue::TypeIdent(t) => SpecTokenValue::TypeIdent(*t),
            TokenValue::IntLiteral(v) => SpecTokenValue::IntLiteral(*v),
        }
    }
}

impl View for Token {
    type V = SpecToken;

    open spec fn view(&self) -> SpecToken {
        SpecToken {
            line: self.line as int,
            column: self.column as int,
            kind: self.token_type,
            value: match self.value {
                Some(v) => Some(v@),
                None => None,
            },
        }
    }
}

/// The image of a token sequence.
pub open spec fn tokens_view(ts: Seq<Token>) -> Seq<SpecToken> {
    ts.map_values(|tok: Token| tok@)
}

/// The display name of a token kind.
pub open spec fn kind_name(k: TokenType) -> Seq<char> {
    match k {
        TokenType::FunctionKeyword => "FunctionKeyword"@,
        TokenType::FunctionIdent => "FunctionIdent"@,
        TokenType::ThinArrow => "ThinArrow"@,
        TokenType::TypeIdent => "TypeIdent"@,
        TokenType::OpenParen => "OpenParen"@,
        TokenType::CloseParen => "CloseParen"@,
        TokenType::OpenCurly => "OpenCurly"@,
        TokenType::CloseCurly => "CloseCurly"@,
        TokenType::ReturnKeyword => "ReturnKeyword"@,
        TokenType::IntLiteral => "IntLiteral"@,
        TokenType::Semicolon => "Semicolon"@,
    }
}

impl TokenType {
    /// The kind's display name.
    pub fn to_string(&self) -> (s: String)
        ensures
            s@ == kind_name(*self),
    {
        match self {
            TokenType::FunctionKeyword => String::from_str("FunctionKeyword"),
            TokenType::FunctionIdent => String::from_str("FunctionIdent"),
            TokenType::ThinArrow => String::from_str("ThinArrow"),
            TokenType::TypeIdent => String::from_str("TypeIdent"),
            TokenType::OpenParen => String::from_str("OpenParen"),
            TokenType::CloseParen => String::from_str("CloseParen"),
            TokenType::OpenCurly => String::from_str("OpenCurly"),
            TokenType::CloseCurly => String::from_str("CloseCurly"),
            TokenType::ReturnKeyword => String::from_str("ReturnKeyword"),
            TokenType::IntLiteral => String::from_str("IntLiteral"),
            TokenType::Semicolon => String::from_str("Semicolon"),
        }
    }
}

impl Token {
    /// The identifier a function-identifier token carries.  Only a
    /// function-identifier token has one, so every other token is excluded
    /// up front; this function never aborts.
    pub fn get_funcid(&self) -> (r: String)
        requires
            self.value matches Some(TokenValue::FunctionIdent(_)),
        ensures
            self@.value == Some(SpecTokenValue::FunctionIdent(r@)),
    {
        match &self.value {
            Some(TokenValue::FunctionIdent(ident)) => ident.clone(),
            _ => {
                proof {
                    assert(false);
                }
                String::new()
            },
        }
    }
}

impl Token {
    /// The token rendered for a diagnostic: its kind's name and the word
    /// `Token`.
    pub fn to_string(&self) -> (s: String)
        ensures
            s@ == kind_name(self.token_type) + " Token"@,
    {
        let mut s = self.token_type.to_string();
        s.append(" Token");
        s
    }
}

/// What the lexer expects the next word to be: its only inter-token memory.
#[derive(Debug, Clone, Copy, PartialEq, Eq, Structural)]
pub enum Expectation {
    /// No pending context: words are keywords, or unexpected.
    Free,
    /// Immediately after the function keyword: the next word is the
    /// function's identifier.
    FuncIdent,
    /// Immediately after a thin arrow: the next word is a type name.
    TypeIdent,
}

// ---------------------------------------------------------------------------
// Character classes
// ---------------------------------------------------------------------------

pub open spec fn is_ws_char(c: char) -> bool {
    c == ' ' || c == '\t' || c == '\r' || c == '\n'
}

pub open spec fn is_word_start_char(c: char) -> bool {
    ('a' <= c && c <= 'z') || ('A' <= c && c <= 'Z') || c == '_'
}

pub open spec fn is_digit_char(c: char) -> bool {
    '0' <= c && c <= '9'
}

pub open spec fn is_word_char(c: char) -> bool {
    is_word_start_char(c) || is_digit_char(c)
}

/// The numeric value of a decimal digit character.
pub open spec fn digit_val(c: char) -> int {
    c as int - '0' as int
}

fn ws_char(c: char) -> (b: bool)
    ensures
        b == is_ws_char(c),
{
    c == ' ' || c == '\t' || c == '\r' || c == '\n'
}

fn word_start_char(c: char) -> (b: bool)
    ensures
        b == is_word_start_char(c),
{
    ('a' <= c && c <= 'z') || ('A' <= c && c <= 'Z') || c == '_'
}

fn digit_char(c: char) -> (b: bool)
    ensures
        b == is_digit_char(c),
{
    '0' <= c && c <= '9'
}

fn word_char(c: char) -> (b: bool)
    ensures
        b == is_word_char(c),
{
    word_start_char(c) || digit_char(c)
}

// ---------------------------------------------------------------------------
// Scan lengths and positions
// ---------------------------------------------------------------------------

/// The length of the whitespace prefix of `t`.
pub open spec fn ws_len(t: Seq<char>) -> int
    decreases t.len(),
{
    if t.len() == 0 || !is_ws_char(t[0]) {
        0
    } else {
        1 + ws_len(t.subrange(1, t.len() as int))
    }
}

/// The length of the word prefix of `t`.
pub open spec fn word_len(t: Seq<char>) -> int
    decreases t.len(),
{
    if t.len() == 0 || !is_word_char(t[0]) {
        0
    } else {
        1 + word_len(t.subrange(1, t.len() as int))
    }
}

/// The length of the digit prefix of `t`.
pub open spec fn digit_len(t: Seq<char>) -> int
    decreases t.len(),
{
    if t.len() == 0 || !is_digit_char(t[0]) {
        0
    } else {
        1 + digit_len(t.subrange(1, t.len() as int))
    }
}

/// The value of a sequence of decimal digits, most significant first.
pub open spec fn digits_val(t: Seq<char>) -> int
    decreases t.len(),
{
    if t.len() == 0 {
        0
    } else {
        digits_val(t.subrange(0, t.len() - 1)) * 10 + digit_val(t[t.len() - 1])
    }
}

/// How many characters a line comment's tail occupies: everything up to and
/// including the first newline, or the whole of `u` if none follows.
pub open spec fn newline_scan(u: Seq<char>) -> int
    decreases u.len(),
{
    if u.len() == 0 {
        0
    } else if u[0] == '\n' {
        1
    } else {
        1 + newline_scan(u.subrange(1, u.len() as int))
    }
}

/// The index just past the first `*/` in `u`, if any.
pub open spec fn block_close(u: Seq<char>) -> Option<int>
    decreases u.len(),
{
    if u.len() < 2 {
        None
    } else if u[0] == '*' && u[1] == '/' {
        Some(2)
    } else {
        match block_close(u.subrange(1, u.len() as int)) {
            Some(k) => Some(1 + k),
            None => None,
        }
    }
}

/// The position after consuming character `c` at line `ln`, column `cl`.
pub open spec fn advance_pos(ln: int, cl: int, c: char) -> (int, int) {
    if c == '\n' {
        (ln + 1, 1)
    } else {
        (ln, cl + 1)
    }
}

/// The position after consuming the characters of `s` in order.
pub open spec fn advance_pos_seq(ln: int, cl: int, s: Seq<char>) -> (int, int)
    decreases s.len(),
{
    if s.len() == 0 {
        (ln, cl)
    } else {
        let p = advance_pos_seq(ln, cl, s.subrange(0, s.len() - 1));
        advance_pos(p.0, p.1, s[s.len() - 1])
    }
}

// ---------------------------------------------------------------------------
// Diagnostic messages
// ---------------------------------------------------------------------------

pub open spec fn msg_expected_func_ident() -> Seq<char> {
    "Expected function identifier after 'f' keyword"@
}

pub open spec fn msg_unexpected_ident(w: Seq<char>) -> Seq<char> {
    "Unexpected identifier: '"@ + w + "'"@
}

pub open spec fn msg_unknown_type(w: Seq<char>) -> Seq<char> {
    "Unknown type identifier: '"@ + w + "'"@
}

pub open spec fn msg_int_too_large() -> Seq<char> {
    "Integer literal too large"@
}

pub open spec fn msg_unterminated_block_comment() -> Seq<char> {
    "Unterminated block comment"@
}

pub open spec fn msg_after_slash(c: char) -> Seq<char> {
    "Unexpected character after '/': '"@ + seq![c] + "'"@
}

pub open spec fn msg_eof_after_slash() -> Seq<char> {
    "Unexpected end of input after '/'"@
}

pub open spec fn msg_after_hyphen(c: char) -> Seq<char> {
    "Unexpected character after '-': '"@ + seq![c] + "'"@
}

pub open spec fn msg_eof_after_hyphen() -> Seq<char> {
    "Unexpected end of input after '-'"@
}

pub open spec fn msg_unexpected_char(c: char) -> Seq<char> {
    "Unexpected character: '"@ + seq![c] + "'"@
}

/// A user-level lexer report at the given position.
pub open spec fn lex_report(ln: int, cl: int, message: Seq<char>) -> Report {
    Report { line: ln, column: cl, message, suggestion: None, comperr: false }
}

// ---------------------------------------------------------------------------
// The lexer's defining function
// ---------------------------------------------------------------------------

/// Prepends a token to the result of lexing the rest.
pub open spec fn cons_tok(
    tok: SpecToken,
    r: Result<Seq<SpecToken>, Report>,
) -> Result<Seq<SpecToken>, Report> {
    match r {
        Ok(ts) => Ok(seq![tok] + ts),
        Err(e) => Err(e),
    }
}

/// A positioned token without payload.
pub open spec fn plain_tok(ln: int, cl: int, kind: TokenType) -> SpecToken {
    SpecToken { line: ln, column: cl, kind, value: None }
}

/// A whitespace prefix is never longer than the sequence.
pub proof fn lemma_ws_len_bounds(t: Seq<char>)
    ensures
        0 <= ws_len(t) <= t.len(),
    decreases t.len(),
{
    if t.len() > 0 && is_ws_char(t[0]) {
        lemma_ws_len_bounds(t.subrange(1, t.len() as int));
    }
}

/// A word prefix is never longer than the sequence, and is non-empty exactly
/// when the sequence starts with a word character.
pub proof fn lemma_word_len_bounds(t: Seq<char>)
    ensures
        0 <= word_len(t) <= t.len(),
        t.len() > 0 && is_word_char(t[0]) ==> word_len(t) >= 1,
    decreases t.len(),
{
    if t.len() > 0 && is_word_char(t[0]) {
        lemma_word_len_bounds(t.subrange(1, t.len() as int));
    }
}

/// A digit prefix is never longer than the sequence.
pub proof fn lemma_digit_len_bounds(t: Seq<char>)
    ensures
        0 <= digit_len(t) <= t.len(),
        t.len() > 0 && is_digit_char(t[0]) ==> digit_len(t) >= 1,
    decreases t.len(),
{
    if t.len() > 0 && is_digit_char(t[0]) {
        lemma_digit_len_bounds(t.subrange(1, t.len() as int));
    }
}

/// A line comment's tail ends within the sequence.
pub proof fn lemma_newline_scan_bounds(u: Seq<char>)
    ensures
        0 <= newline_scan(u) <= u.len(),
    decreases u.len(),
{
    if u.len() > 0 && u[0] != '\n' {
        lemma_newline_scan_bounds(u.subrange(1, u.len() as int));
    }
}

/// A block comment's close, where found, lies within the sequence.
pub proof fn lemma_block_close_bounds(u: Seq<char>)
    ensures
        block_close(u) matches Some(k) ==> 2 <= k <= u.len(),
    decreases u.len(),
{
    if u.len() >= 2 && !(u[0] == '*' && u[1] == '/') {
        lemma_block_close_bounds(u.subrange(1, u.len() as int));
    }
}

/// The tokens of the remaining input `t`, scanned at line `ln`, column `cl`
/// with expectation `exp` against the type table `reg` — or the first error.
pub open spec fn lex_rest(
    t: Seq<char>,
    ln: int,
    cl: int,
    exp: Expectation,
    reg: Map<Seq<char>, Type>,
) -> Result<Seq<SpecToken>, Report>
    decreases t.len(),
    via lex_rest_decreases
{
    if t.len() == 0 {
        if exp is FuncIdent {
            Err(lex_report(ln, cl, msg_expected_func_ident()))
        } else {
            Ok(Seq::empty())
        }
    } else {
        let c = t[0];
        if is_ws_char(c) {
            let p = advance_pos(ln, cl, c);
            lex_rest(t.subrange(1, t.len() as int), p.0, p.1, exp, reg)
        } else if c == '/' {
            if t.len() >= 2 && t[1] == '/' {
                let k = 2 + newline_scan(t.subrange(2, t.len() as int));
                let p = advance_pos_seq(ln, cl, t.subrange(0, k));
                lex_rest(t.subrange(k, t.len() as int), p.0, p.1, exp, reg)
            } else if t.len() >= 2 && t[1] == '*' {
                match block_close(t.subrange(2, t.len() as int)) {
                    Some(k0) => {
                        let k = 2 + k0;
                        let p = advance_pos_seq(ln, cl, t.subrange(0, k));
                        lex_rest(t.subrange(k, t.len() as int), p.0, p.1, exp, reg)
                    },
                    None => Err(lex_report(ln, cl, msg_unterminated_block_comment())),
                }
            } else if t.len() >= 2 {
                Err(lex_report(ln, cl, msg_after_slash(t[1])))
            } else {
                Err(lex_report(ln, cl, msg_eof_after_slash()))
            }
        } else if is_word_start_char(c) {
            let wl = word_len(t);
            let w = t.subrange(0, wl);
            let p = advance_pos_seq(ln, cl, w);
            let rest = t.subrange(wl, t.len() as int);
            if exp is FuncIdent {
                cons_tok(
                    SpecToken {
                        line: ln,
                        column: cl,
                        kind: TokenType::FunctionIdent,
                        value: Some(SpecTokenValue::FunctionIdent(w)),
                    },
                    lex_rest(rest, p.0, p.1, Expectation::Free, reg),
                )
            } else if exp is TypeIdent {
                if reg.contains_key(w) {
                    cons_tok(
                        SpecToken {
                            line: ln,
                            column: cl,
                            kind: TokenType::TypeIdent,
                            value: Some(SpecTokenValue::TypeIdent(reg[w])),
                        },
                        lex_rest(rest, p.0, p.1, Expectation::Free, reg),
                    )
                } else {
                    Err(lex_report(ln, cl, msg_unknown_type(w)))
                }
            } else if w == "f"@ {
                cons_tok(
                    plain_tok(ln, cl, TokenType::FunctionKeyword),
                    lex_rest(rest, p.0, p.1, Expectation::FuncIdent, reg),
                )
            } else if w == "return"@ {
                cons_tok(
                    plain_tok(ln, cl, TokenType::ReturnKeyword),
                    lex_rest(rest, p.0, p.1, Expectation::Free, reg),
                )
            } else {
                Err(lex_report(ln, cl, msg_unexpected_ident(w)))
            }
        } else if exp is FuncIdent {
            Err(lex_report(ln, cl, msg_expected_func_ident()))
        } else if is_digit_char(c) {
            let dl = digit_len(t);
            let d = t.subrange(0, dl);
            if digits_val(d) > u64::MAX as int {
                Err(lex_report(ln, cl, msg_int_too_large()))
            } else {
                let p = advance_pos_seq(ln, cl, d);
                cons_tok(
                    SpecToken {
                        line: ln,
                        column: cl,
                        kind: TokenType::IntLiteral,
                        value: Some(SpecTokenValue::IntLiteral(digits_val(d) as u64)),
                    },
                    lex_rest(t.subrange(dl, t.len() as int), p.0, p.1, Expectation::Free, reg),
                )
            }
        } else if c == '-' {
            if t.len() >= 2 && t[1] == '>' {
                cons_tok(
                    plain_tok(ln, cl, TokenType::ThinArrow),
                    lex_rest(
                        t.subrange(2, t.len() as int),
                        ln,
                        cl + 2,
                        Expectation::TypeIdent,
                        reg,
                    ),
                )
            } else if t.len() >= 2 {
                Err(lex_report(ln, cl, msg_after_hyphen(t[1])))
            } else {
                Err(lex_report(ln, cl, msg_eof_after_hyphen()))
            }
        } else if c == '(' {
            cons_tok(
                plain_tok(ln, cl, TokenType::OpenParen),
                lex_rest(t.subrange(1, t.len() as int), ln, cl + 1, Expectation::Free, reg),
            )
        } else if c == ')' {
            cons_tok(
                plain_tok(ln, cl, TokenType::CloseParen),
                lex_rest(t.subrange(1, t.len() as int), ln, cl + 1, Expectation::Free, reg),
            )
        } else if c == '{' {
            cons_tok(
                plain_tok(ln, cl, TokenType::OpenCurly),
                lex_rest(t.subrange(1, t.len() as int), ln, cl + 1, Expectation::Free, reg),
            )
        } else if c == '}' {
            cons_tok(
                plain_tok(ln, cl, TokenType::CloseCurly),
                lex_rest(t.subrange(1, t.len() as int), ln, cl + 1, Expectation::Free, reg),
            )
        } else if c == ';' {
            cons_tok(
                plain_tok(ln, cl, TokenType::Semicolon),
                lex_rest(t.subrange(1, t.len() as int), ln, cl + 1, Expectation::Free, reg),
            )
        } else {
            Err(lex_report(ln, cl, msg_unexpected_char(c)))
        }
    }
}

#[via_fn]
proof fn lex_rest_decreases(
    t: Seq<char>,
    ln: int,
    cl: int,
    exp: Expectation,
    reg: Map<Seq<char>, Type>,
) {
    if t.len() >= 2 {
        lemma_newline_scan_bounds(t.subrange(2, t.len() as int));
        lemma_block_close_bounds(t.subrange(2, t.len() as int));
    }
    lemma_word_len_bounds(t);
    lemma_digit_len_bounds(t);
}

/// Prepends already-produced tokens to the outcome of lexing the rest.
pub open spec fn lex_glue(
    ts: Seq<SpecToken>,
    r: Result<Seq<SpecToken>, Report>,
) -> Result<Seq<SpecToken>, Report> {
    match r {
        Ok(us) => Ok(ts + us),
        Err(e) => Err(e),
    }
}

proof fn lemma_glue_cons(ts: Seq<SpecToken>, tok: SpecToken, r: Result<Seq<SpecToken>, Report>)
    ensures
        lex_glue(ts, cons_tok(tok, r)) == lex_glue(ts.push(tok), r),
{
    match r {
        Ok(us) => {
            assert(ts + (seq![tok] + us) =~= ts.push(tok) + us);
        },
        Err(_) => {},
    }
}

/// Positions compose over concatenation.
pub proof fn lemma_advance_pos_seq_concat(ln: int, cl: int, a: Seq<char>, b: Seq<char>)
    ensures
        advance_pos_seq(ln, cl, a + b) == {
            let p = advance_pos_seq(ln, cl, a);
            advance_pos_seq(p.0, p.1, b)
        },
    decreases b.len(),
{
    if b.len() == 0 {
        assert(a + b =~= a);
    } else {
        let b0 = b.subrange(0, b.len() - 1);
        lemma_advance_pos_seq_concat(ln, cl, a, b0);
        assert((a + b).subrange(0, (a + b).len() - 1) =~= a + b0);
        assert((a + b)[(a + b).len() - 1] == b[b.len() - 1]);
    }
}

/// Over characters that are no newline, a position only moves right.
pub proof fn lemma_advance_pos_seq_no_newline(ln: int, cl: int, s: Seq<char>)
    requires
        forall|i: int| 0 <= i < s.len() ==> s[i] != '\n',
    ensures
        advance_pos_seq(ln, cl, s) == (ln, cl + s.len()),
    decreases s.len(),
{
    if s.len() > 0 {
        lemma_advance_pos_seq_no_newline(ln, cl, s.subrange(0, s.len() - 1));
    }
}

/// The value of a digit run is non-negative.
pub proof fn lemma_digits_val_nonneg(t: Seq<char>)
    requires
        forall|i: int| 0 <= i < t.len() ==> is_digit_char(t[i]),
    ensures
        digits_val(t) >= 0,
    decreases t.len(),
{
    if t.len() > 0 {
        lemma_digits_val_nonneg(t.subrange(0, t.len() - 1));
    }
}

proof fn lemma_tokens_view_push(ts: Seq<Token>, tok: Token)
    ensures
        tokens_view(ts.push(tok)) =~= tokens_view(ts).push(tok@),
{
}

// ---------------------------------------------------------------------------
// The scanner
// ---------------------------------------------------------------------------

/// The lexical scanner's state: the source text as characters, the cursor,
/// the current 1-based position, the expectation slot, and the fixed type
/// table that type names are resolved against.
pub struct Tokenizer {
    input: Vec<char>,
    index: usize,
    ln: usize,
    cl: usize,
    filename: String,
    error_handler: ErrorHandler,
    registry: TypeRegistry,
    expect: Expectation,
}

impl Tokenizer {
    /// The full source text.
    pub closed spec fn source(&self) -> Seq<char> {
        self.input@
    }

    /// The not-yet-consumed tail of the source text.
    pub closed spec fn remaining(&self) -> Seq<char> {
        self.input@.subrange(self.index as int, self.input@.len() as int)
    }

    /// The current line, 1-based.
    pub closed spec fn line(&self) -> int {
        self.ln as int
    }

    /// The current column, 1-based.
    pub closed spec fn col(&self) -> int {
        self.cl as int
    }

    /// The expectation slot.
    pub closed spec fn expectation(&self) -> Expectation {
        self.expect
    }

    /// The type table, as a map from name to type.
    pub closed spec fn reg(&self) -> Map<Seq<char>, Type> {
        self.registry@
    }

    /// The file name cited by this scanner's diagnostics.
    pub closed spec fn file(&self) -> Seq<char> {
        self.error_handler.filename@
    }

    /// The scanner's invariant: the cursor lies within the text, positions
    /// are 1-based and bounded by the cursor, and the type table is sound.
    pub closed spec fn wf(&self) -> bool {
        &&& self.registry.wf()
        &&& self.index <= self.input@.len()
        &&& 1 <= self.ln
        &&& 1 <= self.cl
        &&& self.ln + self.cl <= 2 + self.index
        &&& self.input@.len() < usize::MAX
    }

    /// Everything but the cursor, the position and the expectation is fixed.
    pub open spec fn same_run(&self, other: &Tokenizer) -> bool {
        &&& self.source() == other.source()
        &&& self.reg() == other.reg()
        &&& self.file() == other.file()
    }

    /// Builds a scanner over `input`, positioned at line 1, column 1.  The
    /// diagnostics it produces cite `error_handler`'s file name.
    pub fn new(
        input: &String,
        filename: String,
        error_handler: &ErrorHandler,
        registry: TypeRegistry,
    ) -> (r: Tokenizer)
        requires
            input@.len() < usize::MAX,
            registry.wf(),
        ensures
            r.wf(),
            r.source() == input@,
            r.remaining() == input@,
            r.line() == 1,
            r.col() == 1,
            r.expectation() == Expectation::Free,
            r.reg() == registry@,
            r.file() == error_handler.filename@,
    {
        let chars = crate::strutil::string_to_chars(input.as_str());
        let r = Tokenizer {
            input: chars,
            index: 0,
            ln: 1,
            cl: 1,
            filename,
            error_handler: ErrorHandler::new(
                error_handler.source_code.clone(),
                error_handler.filename.as_str(),
            ),
            registry,
            expect: Expectation::Free,
        };
        proof {
            assert(r.remaining() =~= input@);
        }
        r
    }

    /// The next character, if any, without consuming it.
    fn peek(&self) -> (r: Option<char>)
        requires
            self.wf(),
        ensures
            r == (if self.remaining().len() > 0 {
                Some(self.remaining()[0])
            } else {
                None::<char>
            }),
    {
        if self.index < self.input.len() {
            Some(self.input[self.index])
        } else {
            None
        }
    }

    /// The character after the next one, if any, without consuming.
    fn peek_second(&self) -> (r: Option<char>)
        requires
            self.wf(),
        ensures
            r == (if self.remaining().len() > 1 {
                Some(self.remaining()[1])
            } else {
                None::<char>
            }),
    {
        if self.index < self.input.len() && self.index + 1 < self.input.len() {
            Some(self.input[self.index + 1])
        } else {
            None
        }
    }

    /// Consumes and returns the next character, advancing the position: a
    /// newline moves to column 1 of the next line, anything else moves one
    /// column right.
    fn consume(&mut self) -> (r: Option<char>)
        requires
            old(self).wf(),
        ensures
            final(self).wf(),
            final(self).same_run(old(self)),
            final(self).expectation() == old(self).expectation(),
            old(self).remaining().len() == 0 ==> r is None && *final(self) == *old(self),
            old(self).remaining().len() > 0 ==> {
                let t = old(self).remaining();
                let p = advance_pos(old(self).line(), old(self).col(), t[0]);
                &&& r == Some(t[0])
                &&& final(self).remaining() == t.subrange(1, t.len() as int)
                &&& final(self).line() == p.0
                &&& final(self).col() == p.1
            },
    {
        if self.index < self.input.len() {
            let c = self.input[self.index];
            self.index = self.index + 1;
            if c == '\n' {
                self.cl = 1;
                self.ln = self.ln + 1;
            } else {
                self.cl = self.cl + 1;
            }
            proof {
                let t = old(self).remaining();
                assert(self.remaining() =~= t.subrange(1, t.len() as int));
            }
            Some(c)
        } else {
            None
        }
    }

    /// Skips the maximal run of whitespace at the cursor, emitting nothing.
    pub fn consume_whitespace(&mut self)
        requires
            old(self).wf(),
        ensures
            final(self).wf(),
            final(self).same_run(old(self)),
            final(self).expectation() == old(self).expectation(),
            ({
                let t = old(self).remaining();
                let k = ws_len(t);
                let p = advance_pos_seq(old(self).line(), old(self).col(), t.subrange(0, k));
                &&& final(self).remaining() == t.subrange(k, t.len() as int)
                &&& final(self).line() == p.0
                &&& final(self).col() == p.1
            }),
    {
        proof {
            lemma_ws_len_bounds(old(self).remaining());
        }
        let ghost t0 = old(self).remaining();
        let ghost j: int = 0;
        loop
            invariant
                self.wf(),
                self.same_run(old(self)),
                self.expectation() == old(self).expectation(),
                0 <= j <= t0.len(),
                forall|i: int| 0 <= i < j ==> is_ws_char(t0[i]),
                self.remaining() == t0.subrange(j, t0.len() as int),
                ws_len(t0) == j + ws_len(self.remaining()),
                ({
                    let p = advance_pos_seq(old(self).line(), old(self).col(), t0.subrange(0, j));
                    self.line() == p.0 && self.col() == p.1
                }),
            ensures
                self.wf(),
                self.same_run(old(self)),
                self.expectation() == old(self).expectation(),
                0 <= j <= t0.len(),
                self.remaining() == t0.subrange(j, t0.len() as int),
                ws_len(t0) == j,
                ({
                    let p = advance_pos_seq(old(self).line(), old(self).col(), t0.subrange(0, j));
                    self.line() == p.0 && self.col() == p.1
                }),
            decreases t0.len() - j,
        {
            let c_opt = self.peek();
            match c_opt {
                Some(c) => {
                    if ws_char(c) {
                        proof {
                            let cur = self.remaining();
                            assert(cur.subrange(1, cur.len() as int) =~= t0.subrange(
                                j + 1,
                                t0.len() as int,
                            ));
                            assert(t0.subrange(0, j + 1).subrange(0, j) =~= t0.subrange(0, j));
                            assert(t0.subrange(0, j + 1).last() == t0[j]);
                        }
                        self.consume();
                        proof {
                            j = j + 1;
                        }
                    } else {
                        proof {
                            assert(ws_len(self.remaining()) == 0);
                        }
                        break;
                    }
                },
                None => {
                    proof {
                        assert(self.remaining().len() == 0);
                        assert(ws_len(self.remaining()) == 0);
                    }
                    break;
                },
            }
        }
    }

    /// Skips whitespace, then consumes the maximal run of word characters at
    /// the cursor.  Returns `None`, with the whitespace consumed, when no
    /// word character follows.
    pub fn consume_word(&mut self) -> (r: Option<String>)
        requires
            old(self).wf(),
        ensures
            final(self).wf(),
            final(self).same_run(old(self)),
            final(self).expectation() == old(self).expectation(),
            ({
                let t0 = old(self).remaining();
                let k = ws_len(t0);
                let t1 = t0.subrange(k, t0.len() as int);
                let wl = word_len(t1);
                let p1 = advance_pos_seq(old(self).line(), old(self).col(), t0.subrange(0, k));
                let p2 = advance_pos_seq(p1.0, p1.1, t1.subrange(0, wl));
                &&& final(self).remaining() == t1.subrange(wl, t1.len() as int)
                &&& final(self).line() == p2.0
                &&& final(self).col() == p2.1
                &&& (if wl == 0 {
                    r is None
                } else {
                    r matches Some(w) && w@ == t1.subrange(0, wl)
                })
            }),
    {
        self.consume_whitespace();
        let ghost t1 = self.remaining();
        let ghost line1 = self.line();
        let ghost col1 = self.col();
        proof {
            lemma_word_len_bounds(t1);
        }
        let mut word: Vec<char> = Vec::new();
        let ghost j: int = 0;
        loop
            invariant
                self.wf(),
                self.same_run(old(self)),
                self.expectation() == old(self).expectation(),
                0 <= j <= t1.len(),
                word@ == t1.subrange(0, j),
                forall|i: int| 0 <= i < j ==> is_word_char(t1[i]),
                self.remaining() == t1.subrange(j, t1.len() as int),
                word_len(t1) == j + word_len(self.remaining()),
                ({
                    let p = advance_pos_seq(line1, col1, t1.subrange(0, j));
                    self.line() == p.0 && self.col() == p.1
                }),
            ensures
                self.wf(),
                self.same_run(old(self)),
                self.expectation() == old(self).expectation(),
                j == word_len(t1),
                word@ == t1.subrange(0, j),
                self.remaining() == t1.subrange(j, t1.len() as int),
                ({
                    let p = advance_pos_seq(line1, col1, t1.subrange(0, j));
                    self.line() == p.0 && self.col() == p.1
                }),
            decreases t1.len() - j,
        {
            let c_opt = self.peek();
            match c_opt {
                Some(c) => {
                    if word_char(c) {
                        proof {
                            let cur = self.remaining();
                            assert(cur.subrange(1, cur.len() as int) =~= t1.subrange(
                                j + 1,
                                t1.len() as int,
                            ));
                            assert(t1.subrange(0, j + 1).subrange(0, j) =~= t1.subrange(0, j));
                            assert(t1.subrange(0, j + 1).last() == t1[j]);
                        }
                        word.push(c);
                        self.consume();
                        proof {
                            j = j + 1;
                            assert(word@ =~= t1.subrange(0, j));
                        }
                    } else {
                        proof {
                            assert(word_len(self.remaining()) == 0);
                        }
                        break;
                    }
                },
                None => {
                    proof {
                        assert(self.remaining().len() == 0);
                        assert(word_len(self.remaining()) == 0);
                    }
                    break;
                },
            }
        }
        if word.len() == 0 {
            None
        } else {
            Some(crate::strutil::chars_to_string(&word))
        }
    }

    /// Drains the entire remaining input into a token sequence, or returns
    /// the first diagnostic.  The outcome is exactly what `lex_rest` says of
    /// the remaining input, the current position and the expectation slot.
    #[verifier::rlimit(100)]
    pub fn tokenize(&mut self) -> (r: Result<Vec<Token>, Diagnostic>)
        requires
            old(self).wf(),
        ensures
            final(self).same_run(old(self)),
            ({
                let outcome = lex_rest(
                    old(self).remaining(),
                    old(self).line(),
                    old(self).col(),
                    old(self).expectation(),
                    old(self).reg(),
                );
                match r {
                    Ok(ts) => outcome == Ok::<Seq<SpecToken>, Report>(tokens_view(ts@)),
                    Err(d) => outcome is Err && diag_of_report(
                        d@,
                        old(self).file(),
                        outcome->Err_0,
                    ),
                }
            }),
    {
        let ghost start = *old(self);
        let ghost whole = lex_rest(
            start.remaining(),
            start.line(),
            start.col(),
            start.expectation(),
            start.reg(),
        );
        let mut tokens: Vec<Token> = Vec::new();
        proof {
            assert(tokens_view(tokens@) =~= Seq::<SpecToken>::empty());
            match whole {
                Ok(us) => {
                    assert(Seq::<SpecToken>::empty() + us =~= us);
                },
                Err(_) => {},
            }
        }
        loop
            invariant
                start == *old(self),
                self.wf(),
                self.same_run(&start),
                whole == lex_rest(
                    start.remaining(),
                    start.line(),
                    start.col(),
                    start.expectation(),
                    start.reg(),
                ),
                whole == lex_glue(
                    tokens_view(tokens@),
                    lex_rest(
                        self.remaining(),
                        self.line(),
                        self.col(),
                        self.expectation(),
                        self.reg(),
                    ),
                ),
            ensures
                self.wf(),
                self.same_run(&start),
                self.remaining().len() == 0,
                whole == lex_glue(
                    tokens_view(tokens@),
                    lex_rest(
                        self.remaining(),
                        self.line(),
                        self.col(),
                        self.expectation(),
                        self.reg(),
                    ),
                ),
            decreases self.remaining().len(),
        {
            let c = match self.peek() {
                Some(c) => c,
                None => {
                    break;
                },
            };
            let ghost t = self.remaining();
            let ghost ln0 = self.line();
            let ghost cl0 = self.col();
            let ghost exp0 = self.expectation();
            let ghost toks0 = tokens@;
            let line0 = self.ln;
            let col0 = self.cl;
            if ws_char(c) {
                self.consume();
            } else if c == '/' {
                match self.peek_second() {
                    None => {
                        let d = self.error_handler.err(
                            line0,
                            col0,
                            String::from_str("Unexpected end of input after '/'"),
                            None,
                        );
                        return Err(d);
                    },
                    Some(c2) => {
                        if c2 == '/' {
                            self.consume();
                            self.consume();
                            proof {
                                assert(self.remaining() =~= t.subrange(2, t.len() as int));
                            }
                            let ghost u = self.remaining();
                            let ghost base_ln = self.line();
                            let ghost base_cl = self.col();
                            let ghost m: int = 0;
                            proof {
                                lemma_newline_scan_bounds(u);
                            }
                            loop
                                invariant_except_break
                                    newline_scan(u) == m + newline_scan(self.remaining()),
                                invariant
                                    self.wf(),
                                    self.same_run(&start),
                                    self.expectation() == exp0,
                                    0 <= m <= u.len(),
                                    self.remaining() == u.subrange(m, u.len() as int),
                                    ({
                                        let p = advance_pos_seq(base_ln, base_cl, u.subrange(0, m));
                                        self.line() == p.0 && self.col() == p.1
                                    }),
                                ensures
                                    self.wf(),
                                    self.same_run(&start),
                                    self.expectation() == exp0,
                                    0 <= m <= u.len(),
                                    m == newline_scan(u),
                                    self.remaining() == u.subrange(m, u.len() as int),
                                    ({
                                        let p = advance_pos_seq(base_ln, base_cl, u.subrange(0, m));
                                        self.line() == p.0 && self.col() == p.1
                                    }),
                                decreases u.len() - m,
                            {
                                match self.peek() {
                                    None => {
                                        proof {
                                            assert(newline_scan(self.remaining()) == 0);
                                        }
                                        break;
                                    },
                                    Some(cc) => {
                                        proof {
                                            let cur = self.remaining();
                                            assert(cur[0] == u[m]);
                                            assert(cur.subrange(1, cur.len() as int) =~= u.subrange(
                                                m + 1,
                                                u.len() as int,
                                            ));
                                            assert(u.subrange(0, m + 1).subrange(0, m)
                                                =~= u.subrange(0, m));
                                            assert(u.subrange(0, m + 1).last() == u[m]);
                                        }
                                        self.consume();
                                        proof {
                                            m = m + 1;
                                        }
                                        if cc == '\n' {
                                            break;
                                        }
                                    },
                                }
                            }
                            proof {
                                let k = 2 + newline_scan(t.subrange(2, t.len() as int));
                                assert(newline_scan(u) == newline_scan(
                                    t.subrange(2, t.len() as int),
                                ));
                                assert(t.subrange(0, k) =~= t.subrange(0, 2) + u.subrange(0, m));
                                lemma_advance_pos_seq_concat(
                                    ln0,
                                    cl0,
                                    t.subrange(0, 2),
                                    u.subrange(0, m),
                                );
                                assert(forall|i: int|
                                    0 <= i < t.subrange(0, 2).len() ==> t.subrange(0, 2)[i]
                                        != '\n');
                                lemma_advance_pos_seq_no_newline(ln0, cl0, t.subrange(0, 2));
                                assert(self.remaining() =~= t.subrange(k, t.len() as int));
                            }
                        } else if c2 == '*' {
                            self.consume();
                            self.consume();
                            proof {
                                assert(self.remaining() =~= t.subrange(2, t.len() as int));
                            }
                            let ghost u = self.remaining();
                            let ghost base_ln = self.line();
                            let ghost base_cl = self.col();
                            let ghost m: int = 0;
                            proof {
                                lemma_block_close_bounds(u);
                            }
                            let mut closed = false;
                            loop
                                invariant_except_break
                                    !closed,
                                    block_close(u) == (match block_close(self.remaining()) {
                                        Some(k) => Some(m + k),
                                        None => None::<int>,
                                    }),
                                invariant
                                    self.wf(),
                                    self.same_run(&start),
                                    self.expectation() == exp0,
                                    0 <= m <= u.len(),
                                    self.remaining() == u.subrange(m, u.len() as int),
                                    ({
                                        let p = advance_pos_seq(base_ln, base_cl, u.subrange(0, m));
                                        self.line() == p.0 && self.col() == p.1
                                    }),
                                ensures
                                    self.wf(),
                                    self.same_run(&start),
                                    self.expectation() == exp0,
                                    0 <= m <= u.len(),
                                    self.remaining() == u.subrange(m, u.len() as int),
                                    closed ==> block_close(u) == Some(m),
                                    !closed ==> block_close(u) is None && self.remaining().len()
                                        == 0,
                                    ({
                                        let p = advance_pos_seq(base_ln, base_cl, u.subrange(0, m));
                                        self.line() == p.0 && self.col() == p.1
                                    }),
                                decreases u.len() - m,
                            {
                                match self.peek() {
                                    None => {
                                        break;
                                    },
                                    Some(cc) => {
                                        let close = cc == '*' && (match self.peek_second() {
                                            Some(c3) => c3 == '/',
                                            None => false,
                                        });
                                        proof {
                                            let cur = self.remaining();
                                            assert(cur[0] == u[m]);
                                            assert(cur.subrange(1, cur.len() as int) =~= u.subrange(
                                                m + 1,
                                                u.len() as int,
                                            ));
                                            assert(u.subrange(0, m + 1).subrange(0, m)
                                                =~= u.subrange(0, m));
                                            assert(u.subrange(0, m + 1).last() == u[m]);
                                        }
                                        if close {
                                            proof {
                                                let cur = self.remaining();
                                                assert(cur[1] == u[m + 1]);
                                                assert(block_close(cur) == Some(2int));
                                                assert(u.subrange(0, m + 2).subrange(0, m + 1)
                                                    =~= u.subrange(0, m + 1));
                                                assert(u.subrange(0, m + 2).last() == u[m + 1]);
                                            }
                                            self.consume();
                                            proof {
                                                m = m + 1;
                                                assert(self.remaining() =~= u.subrange(
                                                    m,
                                                    u.len() as int,
                                                ));
                                                let cur = self.remaining();
                                                assert(cur.subrange(1, cur.len() as int)
                                                    =~= u.subrange(m + 1, u.len() as int));
                                                assert(cur[0] == u[m]);
                                                let p = advance_pos_seq(
                                                    base_ln,
                                                    base_cl,
                                                    u.subrange(0, m),
                                                );
                                                assert(self.line() == p.0 && self.col() == p.1);
                                            }
                                            self.consume();
                                            closed = true;
                                            proof {
                                                m = m + 1;
                                                let p = advance_pos_seq(
                                                    base_ln,
                                                    base_cl,
                                                    u.subrange(0, m),
                                                );
                                                assert(self.line() == p.0 && self.col() == p.1);
                                            }
                                            break;
                                        } else {
                                            self.consume();
                                            proof {
                                                m = m + 1;
                                            }
                                        }
                                    },
                                }
                            }
                            if !closed {
                                let d = self.error_handler.err(
                                    line0,
                                    col0,
                                    String::from_str("Unterminated block comment"),
                                    None,
                                );
                                return Err(d);
                            }
                            proof {
                                let k = m + 2;
                                assert(block_close(t.subrange(2, t.len() as int)) == Some(m));
                                assert(t.subrange(0, k) =~= t.subrange(0, 2) + u.subrange(0, m));
                                lemma_advance_pos_seq_concat(
                                    ln0,
                                    cl0,
                                    t.subrange(0, 2),
                                    u.subrange(0, m),
                                );
                                assert(forall|i: int|
                                    0 <= i < t.subrange(0, 2).len() ==> t.subrange(0, 2)[i]
                                        != '\n');
                                lemma_advance_pos_seq_no_newline(ln0, cl0, t.subrange(0, 2));
                                assert(self.remaining() =~= t.subrange(k, t.len() as int));
                            }
                        } else {
                            let mut msg = String::from_str("Unexpected character after '/': '");
                            let cv = vec![c2];
                            msg.append(crate::strutil::chars_to_string(&cv).as_str());
                            msg.append("'");
                            let d = self.error_handler.err(line0, col0, msg, None);
                            proof {
                                assert(msg@ =~= msg_after_slash(t[1]));
                            }
                            return Err(d);
                        }
                    },
                }
            } else if word_start_char(c) {
                let w_opt = self.consume_word();
                proof {
                    assert(ws_len(t) == 0);
                    assert(t.subrange(0, t.len() as int) =~= t);
                    lemma_word_len_bounds(t);
                    assert(advance_pos_seq(ln0, cl0, t.subrange(0, 0)) == (ln0, cl0)) by {
                        assert(t.subrange(0, 0).len() == 0);
                    };
                }
                let w = match w_opt {
                    Some(w) => w,
                    None => {
                        proof {
                            assert(false);
                        }
                        String::new()
                    },
                };
                let ghost wl = word_len(t);
                let ghost wv = t.subrange(0, wl);
                match self.expect {
                    Expectation::FuncIdent => {
                        let tok = Token {
                            line: line0,
                            column: col0,
                            token_type: TokenType::FunctionIdent,
                            value: Some(TokenValue::FunctionIdent(w)),
                        };
                        proof {
                            lemma_tokens_view_push(toks0, tok);
                            lemma_glue_cons(
                                tokens_view(toks0),
                                tok@,
                                lex_rest(
                                    t.subrange(wl, t.len() as int),
                                    advance_pos_seq(ln0, cl0, wv).0,
                                    advance_pos_seq(ln0, cl0, wv).1,
                                    Expectation::Free,
                                    start.reg(),
                                ),
                            );
                        }
                        tokens.push(tok);
                        self.expect = Expectation::Free;
                    },
                    Expectation::TypeIdent => {
                        match self.registry.lookup(&w) {
                            Some(ty) => {
                                let tok = Token {
                                    line: line0,
                                    column: col0,
                                    token_type: TokenType::TypeIdent,
                                    value: Some(TokenValue::TypeIdent(ty)),
                                };
                                proof {
                                    lemma_tokens_view_push(toks0, tok);
                                    lemma_glue_cons(
                                        tokens_view(toks0),
                                        tok@,
                                        lex_rest(
                                            t.subrange(wl, t.len() as int),
                                            advance_pos_seq(ln0, cl0, wv).0,
                                            advance_pos_seq(ln0, cl0, wv).1,
                                            Expectation::Free,
                                            start.reg(),
                                        ),
                                    );
                                }
                                tokens.push(tok);
                                self.expect = Expectation::Free;
                            },
                            None => {
                                let mut msg = String::from_str("Unknown type identifier: '");
                                msg.append(w.as_str());
                                msg.append("'");
                                let d = self.error_handler.err(line0, col0, msg, None);
                                proof {
                                    assert(msg@ =~= msg_unknown_type(wv));
                                }
                                return Err(d);
                            },
                        }
                    },
                    Expectation::Free => {
                        if w == String::from_str("f") {
                            let tok = Token {
                                line: line0,
                                column: col0,
                                token_type: TokenType::FunctionKeyword,
                                value: None,
                            };
                            proof {
                                lemma_tokens_view_push(toks0, tok);
                                lemma_glue_cons(
                                    tokens_view(toks0),
                                    tok@,
                                    lex_rest(
                                        t.subrange(wl, t.len() as int),
                                        advance_pos_seq(ln0, cl0, wv).0,
                                        advance_pos_seq(ln0, cl0, wv).1,
                                        Expectation::FuncIdent,
                                        start.reg(),
                                    ),
                                );
                            }
                            tokens.push(tok);
                            self.expect = Expectation::FuncIdent;
                        } else if w == String::from_str("return") {
                            let tok = Token {
                                line: line0,
                                column: col0,
                                token_type: TokenType::ReturnKeyword,
                                value: None,
                            };
                            proof {
                                lemma_tokens_view_push(toks0, tok);
                                lemma_glue_cons(
                                    tokens_view(toks0),
                                    tok@,
                                    lex_rest(
                                        t.subrange(wl, t.len() as int),
                                        advance_pos_seq(ln0, cl0, wv).0,
                                        advance_pos_seq(ln0, cl0, wv).1,
                                        Expectation::Free,
                                        start.reg(),
                                    ),
                                );
                            }
                            tokens.push(tok);
                            self.expect = Expectation::Free;
                        } else {
                            let mut msg = String::from_str("Unexpected identifier: '");
                            msg.append(w.as_str());
                            msg.append("'");
                            let d = self.error_handler.err(line0, col0, msg, None);
                            proof {
                                assert(msg@ =~= msg_unexpected_ident(wv));
                            }
                            return Err(d);
                        }
                    },
                }
            } else if matches!(self.expect, Expectation::FuncIdent) {
                let d = self.error_handler.err(
                    line0,
                    col0,
                    String::from_str("Expected function identifier after 'f' keyword"),
                    None,
                );
                return Err(d);
            } else if digit_char(c) {
                proof {
                    lemma_digit_len_bounds(t);
                }
                let ghost dl = digit_len(t);
                let ghost m: int = 0;
                let mut val: u64 = 0;
                let mut toolarge = false;
                loop
                    invariant
                        self.wf(),
                        self.same_run(&start),
                        self.expectation() == exp0,
                        0 <= m <= t.len(),
                        forall|i: int| 0 <= i < m ==> is_digit_char(t[i]),
                        self.remaining() == t.subrange(m, t.len() as int),
                        digit_len(t) == m + digit_len(self.remaining()),
                        self.line() == ln0,
                        self.col() == cl0 + m,
                        !toolarge ==> val == digits_val(t.subrange(0, m)),
                        toolarge ==> digits_val(t.subrange(0, m)) > u64::MAX,
                    ensures
                        self.wf(),
                        self.same_run(&start),
                        self.expectation() == exp0,
                        m == digit_len(t),
                        forall|i: int| 0 <= i < m ==> is_digit_char(t[i]),
                        self.remaining() == t.subrange(m, t.len() as int),
                        self.line() == ln0,
                        self.col() == cl0 + m,
                        !toolarge ==> val == digits_val(t.subrange(0, m)),
                        toolarge ==> digits_val(t.subrange(0, m)) > u64::MAX,
                    decreases t.len() - m,
                {
                    let cc = match self.peek() {
                        Some(cc) => cc,
                        None => {
                            break;
                        },
                    };
                    if !digit_char(cc) {
                        break;
                    }
                    let ghost pre = t.subrange(0, m);
                    let ghost pre1 = t.subrange(0, m + 1);
                    proof {
                        let cur = self.remaining();
                        assert(cur[0] == t[m]);
                        assert(cur.subrange(1, cur.len() as int) =~= t.subrange(
                            m + 1,
                            t.len() as int,
                        ));
                        assert(pre1.subrange(0, m) =~= pre);
                        assert(pre1.last() == t[m]);
                        assert(digits_val(pre1) == digits_val(pre) * 10 + digit_val(t[m]));
                        lemma_digits_val_nonneg(pre);
                    }
                    let d: u64 = ((cc as u32) - 48) as u64;
                    proof {
                        assert(d == digit_val(t[m]));
                        assert(0 <= d <= 9);
                    }
                    if toolarge {
                        proof {
                            assert(digits_val(pre1) > u64::MAX);
                        }
                    } else if val > (u64::MAX - d) / 10 {
                        toolarge = true;
                        proof {
                            assert(val >= (u64::MAX - d) / 10 + 1);
                            assert(((u64::MAX - d) / 10) * 10 + 10 > (u64::MAX - d) as int) by {
                                assert((u64::MAX - d) as int == ((u64::MAX - d) / 10) * 10 + (
                                u64::MAX - d) % 10);
                            };
                            assert(val * 10 >= ((u64::MAX - d) / 10) * 10 + 10);
                            assert(digits_val(pre1) > u64::MAX);
                        }
                    } else {
                        proof {
                            assert(((u64::MAX - d) / 10) * 10 <= (u64::MAX - d) as int) by {
                                assert((u64::MAX - d) as int == ((u64::MAX - d) / 10) * 10 + (
                                u64::MAX - d) % 10);
                            };
                            assert(val * 10 <= ((u64::MAX - d) / 10) * 10);
                            assert(val * 10 + d <= u64::MAX);
                        }
                        val = val * 10 + d;
                    }
                    self.consume();
                    proof {
                        m = m + 1;
                    }
                }
                if toolarge {
                    let d = self.error_handler.err(
                        line0,
                        col0,
                        String::from_str("Integer literal too large"),
                        None,
                    );
                    return Err(d);
                }
                let tok = Token {
                    line: line0,
                    column: col0,
                    token_type: TokenType::IntLiteral,
                    value: Some(TokenValue::IntLiteral(val)),
                };
                proof {
                    lemma_advance_pos_seq_no_newline(ln0, cl0, t.subrange(0, dl));
                    lemma_tokens_view_push(toks0, tok);
                    lemma_glue_cons(
                        tokens_view(toks0),
                        tok@,
                        lex_rest(
                            t.subrange(dl, t.len() as int),
                            ln0,
                            cl0 + dl,
                            Expectation::Free,
                            start.reg(),
                        ),
                    );
                }
                tokens.push(tok);
                self.expect = Expectation::Free;
            } else if c == '-' {
                match self.peek_second() {
                    None => {
                        let d = self.error_handler.err(
                            line0,
                            col0,
                            String::from_str("Unexpected end of input after '-'"),
                            None,
                        );
                        return Err(d);
                    },
                    Some(c2) => {
                        if c2 == '>' {
                            proof {
                                let cur = self.remaining();
                                let cur2 = cur.subrange(1, cur.len() as int);
                                assert(cur2.subrange(1, cur2.len() as int) =~= t.subrange(
                                    2,
                                    t.len() as int,
                                ));
                            }
                            self.consume();
                            self.consume();
                            let tok = Token {
                                line: line0,
                                column: col0,
                                token_type: TokenType::ThinArrow,
                                value: None,
                            };
                            proof {
                                lemma_tokens_view_push(toks0, tok);
                                lemma_glue_cons(
                                    tokens_view(toks0),
                                    tok@,
                                    lex_rest(
                                        t.subrange(2, t.len() as int),
                                        ln0,
                                        cl0 + 2,
                                        Expectation::TypeIdent,
                                        start.reg(),
                                    ),
                                );
                            }
                            tokens.push(tok);
                            self.expect = Expectation::TypeIdent;
                        } else {
                            let mut msg = String::from_str("Unexpected character after '-': '");
                            let cv = vec![c2];
                            msg.append(crate::strutil::chars_to_string(&cv).as_str());
                            msg.append("'");
                            let d = self.error_handler.err(line0, col0, msg, None);
                            proof {
                                assert(msg@ =~= msg_after_hyphen(t[1]));
                            }
                            return Err(d);
                        }
                    },
                }
            } else if c == '(' || c == ')' || c == '{' || c == '}' || c == ';' {
                let kind = if c == '(' {
                    TokenType::OpenParen
                } else if c == ')' {
                    TokenType::CloseParen
                } else if c == '{' {
                    TokenType::OpenCurly
                } else if c == '}' {
                    TokenType::CloseCurly
                } else {
                    TokenType::Semicolon
                };
                self.consume();
                let tok = Token { line: line0, column: col0, token_type: kind, value: None };
                proof {
                    lemma_tokens_view_push(toks0, tok);
                    lemma_glue_cons(
                        tokens_view(toks0),
                        tok@,
                        lex_rest(
                            t.subrange(1, t.len() as int),
                            ln0,
                            cl0 + 1,
                            Expectation::Free,
                            start.reg(),
                        ),
                    );
                }
                tokens.push(tok);
                self.expect = Expectation::Free;
            } else {
                let mut msg = String::from_str("Unexpected character: '");
                let cv = vec![c];
                msg.append(crate::strutil::chars_to_string(&cv).as_str());
                msg.append("'");
                let d = self.error_handler.err(line0, col0, msg, None);
                proof {
                    assert(msg@ =~= msg_unexpected_char(t[0]));
                }
                return Err(d);
            }
        }
        if matches!(self.expect, Expectation::FuncIdent) {
            let d = self.error_handler.err(
                self.ln,
                self.cl,
                String::from_str("Expected function identifier after 'f' keyword"),
                None,
            );
            return Err(d);
        }
        proof {
            assert(lex_rest(
                self.remaining(),
                self.line(),
                self.col(),
                self.expectation(),
                self.reg(),
            ) == Ok::<Seq<SpecToken>, Report>(Seq::empty()));
            assert(tokens_view(tokens@) + Seq::<SpecToken>::empty() =~= tokens_view(tokens@));
        }
        Ok(tokens)
    }
}

} // verus!
