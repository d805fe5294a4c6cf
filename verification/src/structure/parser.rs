//! The recursive-descent parser.
//!
//! The parser consumes the token sequence, dispatching on each token's kind,
//! and produces a tree of nested `Scope`s containing `Statement`s of
//! `AstNode`s.  A brace-delimited region is parsed by scanning forward with a
//! depth counter to the matching close brace and recursively parsing the
//! tokens strictly between the braces as a non-outer nested scope; a
//! completed nested scope terminates the current statement, as a semicolon
//! does.  An integer literal used after the return keyword must fit in eight
//! bits; a larger value is a terminal diagnostic at the literal's position,
//! never a truncation.  A statement still open at the end of the token range
//! is a diagnostic too, as every other malformed construct is.
//!
//! The whole behaviour of `parse` is pinned by the spec function
//! `parse_toks` over the token-sequence image.

use vstd::prelude::*;

use crate::err::{Diagnostic, ErrorHandler, Report, diag_of_report};
use crate::structure::{
    AstNode, AstNodeType, Scope, SpecExpression, SpecNode, SpecNodeValue, SpecScope, SpecStatement,
    Statement, lemma_stmts_view_push, nodes_view, stmts_view,
};
use crate::tokenizer::{
    SpecToken, SpecTokenValue, Token, TokenType, TokenValue, kind_name, tokens_view,
};
use crate::typing::Type;

verus! {

// ---------------------------------------------------------------------------
// Diagnostic messages
// ---------------------------------------------------------------------------

pub open spec fn msg_ice_func_ident() -> Seq<char> {
    "Function keyword not followed by a function identifier"@
}

pub open spec fn msg_ice_type_value() -> Seq<char> {
    "Type identifier token carries no type"@
}

pub open spec fn msg_ice_literal_value() -> Seq<char> {
    "Integer literal token carries no value"@
}

pub open spec fn msg_expected_close_paren(k: TokenType) -> Seq<char> {
    "Expected closing parentheses (found "@ + kind_name(k) + " Token)"@
}

pub open spec fn msg_eof_close_paren() -> Seq<char> {
    "Unexpected EOF (expected closing parentheses)"@
}

pub open spec fn msg_unexpected_close_paren() -> Seq<char> {
    "Unexpected closing parentheses"@
}

pub open spec fn msg_expected_type_ident() -> Seq<char> {
    "Expected type identifier after ->"@
}

pub open spec fn msg_eof_type_ident() -> Seq<char> {
    "Unexpected EOF (expected type identifier after ->)"@
}

pub open spec fn msg_unexpected_type_ident() -> Seq<char> {
    "Unexpected type identifier"@
}

pub open spec fn msg_eof_scope() -> Seq<char> {
    "Unexpected EOF while parsing scope"@
}

pub open spec fn msg_unexpected_close_brace() -> Seq<char> {
    "Unexpected closing brace"@
}

pub open spec fn msg_expected_int_literal() -> Seq<char> {
    "Expected integer literal after return keyword"@
}

pub open spec fn msg_eof_return() -> Seq<char> {
    "Unexpected EOF (expected statement end after return)"@
}

pub open spec fn msg_literal_range() -> Seq<char> {
    "Integer literal out of range for an 8-bit value"@
}

pub open spec fn sugg_literal_range() -> Seq<char> {
    "Use a value between 0 and 255"@
}

pub open spec fn msg_unexpected_token() -> Seq<char> {
    "Unexpected token"@
}

pub open spec fn msg_unterminated_statement() -> Seq<char> {
    "Unterminated statement at end of input"@
}

pub open spec fn sugg_unterminated_statement() -> Seq<char> {
    "Terminate the statement with ';'"@
}

/// A user-level parser report.
pub open spec fn user_report(ln: int, cl: int, message: Seq<char>) -> Report {
    Report { line: ln, column: cl, message, suggestion: None, comperr: false }
}

/// A user-level parser report with a fix suggestion.
pub open spec fn user_report_sugg(ln: int, cl: int, message: Seq<char>, sugg: Seq<char>) -> Report {
    Report { line: ln, column: cl, message, suggestion: Some(sugg), comperr: false }
}

/// An internal-compiler-error report: the lexer's or the parser's own
/// invariant was violated.
pub open spec fn ice_report(ln: int, cl: int, message: Seq<char>) -> Report {
    Report { line: ln, column: cl, message, suggestion: None, comperr: true }
}

// ---------------------------------------------------------------------------
// Spec-level nodes and brace matching
// ---------------------------------------------------------------------------

/// A payload-less node at a token's position.
pub open spec fn spec_plain_node(t: SpecToken, kind: AstNodeType) -> SpecNode {
    SpecNode { line: t.line, column: t.column, kind, value: None }
}

/// A function-identifier node at a token's position.
pub open spec fn spec_fi_node(t: SpecToken, w: Seq<char>) -> SpecNode {
    SpecNode {
        line: t.line,
        column: t.column,
        kind: AstNodeType::FunctionIdent,
        value: Some(SpecNodeValue::FunctionIdent(w)),
    }
}

/// An empty parameter-tuple node at a token's position.
pub open spec fn spec_tup_node(t: SpecToken) -> SpecNode {
    SpecNode {
        line: t.line,
        column: t.column,
        kind: AstNodeType::ParamTypeTuple,
        value: Some(SpecNodeValue::ParamTypeTuple),
    }
}

/// A type-annotation node at a token's position.
pub open spec fn spec_ti_node(t: SpecToken, ty: Type) -> SpecNode {
    SpecNode {
        line: t.line,
        column: t.column,
        kind: AstNodeType::TypeIdent,
        value: Some(SpecNodeValue::TypeIdent(ty)),
    }
}

/// A return node carrying its 8-bit literal, at a token's position.
pub open spec fn spec_ret_node(t: SpecToken, content: u8) -> SpecNode {
    SpecNode {
        line: t.line,
        column: t.column,
        kind: AstNodeType::ReturnKeyword,
        value: Some(SpecNodeValue::Expression(
            SpecExpression { eval_type: Type::uint8_spec(), content },
        )),
    }
}

/// A nested-scope node at a token's position.
pub open spec fn spec_scope_node(t: SpecToken, s: SpecScope) -> SpecNode {
    SpecNode {
        line: t.line,
        column: t.column,
        kind: AstNodeType::Scope,
        value: Some(SpecNodeValue::Scope(s)),
    }
}

/// The index, within `toks`, of the close brace that brings the entering
/// depth `depth` back to zero — the matching close brace — if any.
pub open spec fn scan_close(toks: Seq<SpecToken>, depth: int) -> Option<int>
    decreases toks.len(),
{
    if toks.len() == 0 {
        None
    } else if toks[0].kind is CloseCurly && depth == 1 {
        Some(0)
    } else {
        let d2 = if toks[0].kind is OpenCurly {
            depth + 1
        } else if toks[0].kind is CloseCurly {
            depth - 1
        } else {
            depth
        };
        match scan_close(toks.subrange(1, toks.len() as int), d2) {
            Some(k) => Some(1 + k),
            None => None,
        }
    }
}

/// A matching close brace, where found, lies within the sequence.
pub proof fn lemma_scan_close_bounds(toks: Seq<SpecToken>, depth: int)
    ensures
        scan_close(toks, depth) matches Some(k) ==> 0 <= k < toks.len(),
    decreases toks.len(),
{
    if toks.len() > 0 && !(toks[0].kind is CloseCurly && depth == 1) {
        let d2 = if toks[0].kind is OpenCurly {
            depth + 1
        } else if toks[0].kind is CloseCurly {
            depth - 1
        } else {
            depth
        };
        lemma_scan_close_bounds(toks.subrange(1, toks.len() as int), d2);
    }
}

// ---------------------------------------------------------------------------
// The parser's defining function
// ---------------------------------------------------------------------------

/// Parses the token range `toks` into a scope, with `cur` the statement
/// under construction and `acc` the statements already completed: the first
/// token is dispatched on, and the scan continues on the rest.  `outer`
/// marks the scope under construction as the top-level scope.
pub open spec fn parse_toks(
    toks: Seq<SpecToken>,
    cur: Seq<SpecNode>,
    acc: Seq<SpecStatement>,
    outer: bool,
) -> Result<SpecScope, Report>
    decreases toks.len(),
    via parse_toks_decreases
{
    if toks.len() == 0 {
        if cur.len() == 0 {
            Ok(SpecScope { stmts: acc, is_outer: outer })
        } else {
            Err(user_report_sugg(
                cur[0].line,
                cur[0].column,
                msg_unterminated_statement(),
                sugg_unterminated_statement(),
            ))
        }
    } else {
        let t0 = toks[0];
        let rest = toks.subrange(1, toks.len() as int);
        match t0.kind {
            TokenType::FunctionKeyword => {
                if toks.len() < 2 {
                    Err(ice_report(t0.line, t0.column, msg_ice_func_ident()))
                } else if toks[1].kind is FunctionIdent && toks[1].value matches Some(
                    SpecTokenValue::FunctionIdent(_),
                ) {
                    parse_toks(
                        toks.subrange(2, toks.len() as int),
                        cur.push(spec_plain_node(t0, AstNodeType::FunctionKeyword)).push(
                            spec_fi_node(toks[1], toks[1].value->Some_0->FunctionIdent_0),
                        ),
                        acc,
                        outer,
                    )
                } else {
                    Err(ice_report(toks[1].line, toks[1].column, msg_ice_func_ident()))
                }
            },
            TokenType::FunctionIdent => Err(
                user_report(t0.line, t0.column, msg_unexpected_token()),
            ),
            TokenType::OpenParen => {
                if toks.len() < 2 {
                    Err(user_report(t0.line, t0.column, msg_eof_close_paren()))
                } else if toks[1].kind is CloseParen {
                    parse_toks(
                        toks.subrange(2, toks.len() as int),
                        cur.push(spec_tup_node(t0)),
                        acc,
                        outer,
                    )
                } else {
                    Err(user_report(
                        toks[1].line,
                        toks[1].column,
                        msg_expected_close_paren(toks[1].kind),
                    ))
                }
            },
            TokenType::CloseParen => Err(
                user_report(t0.line, t0.column, msg_unexpected_close_paren()),
            ),
            TokenType::ThinArrow => {
                if toks.len() < 2 {
                    Err(user_report(t0.line, t0.column, msg_eof_type_ident()))
                } else if toks[1].kind is TypeIdent && toks[1].value matches Some(
                    SpecTokenValue::TypeIdent(_),
                ) {
                    parse_toks(
                        toks.subrange(2, toks.len() as int),
                        cur.push(spec_ti_node(toks[1], toks[1].value->Some_0->TypeIdent_0)),
                        acc,
                        outer,
                    )
                } else if toks[1].kind is TypeIdent {
                    Err(ice_report(toks[1].line, toks[1].column, msg_ice_type_value()))
                } else {
                    Err(user_report(toks[1].line, toks[1].column, msg_expected_type_ident()))
                }
            },
            TokenType::TypeIdent => Err(
                user_report(t0.line, t0.column, msg_unexpected_type_ident()),
            ),
            TokenType::OpenCurly => {
                match scan_close(rest, 1) {
                    None => Err(user_report(t0.line, t0.column, msg_eof_scope())),
                    Some(k) => {
                        let inner = toks.subrange(1, 1 + k);
                        match parse_toks(inner, Seq::empty(), Seq::empty(), false) {
                            Err(e) => Err(e),
                            Ok(inner_scope) => parse_toks(
                                toks.subrange(2 + k, toks.len() as int),
                                Seq::empty(),
                                acc.push(
                                    SpecStatement {
                                        nodes: cur.push(spec_scope_node(t0, inner_scope)),
                                    },
                                ),
                                outer,
                            ),
                        }
                    },
                }
            },
            TokenType::CloseCurly => Err(
                user_report(t0.line, t0.column, msg_unexpected_close_brace()),
            ),
            TokenType::ReturnKeyword => {
                if toks.len() < 2 {
                    Err(user_report(t0.line, t0.column, msg_eof_return()))
                } else if toks[1].kind is IntLiteral && toks[1].value matches Some(
                    SpecTokenValue::IntLiteral(_),
                ) {
                    if toks[1].value->Some_0->IntLiteral_0 <= 255 {
                        parse_toks(
                            toks.subrange(2, toks.len() as int),
                            cur.push(spec_ret_node(t0, toks[1].value->Some_0->IntLiteral_0 as u8)),
                            acc,
                            outer,
                        )
                    } else {
                        Err(user_report_sugg(
                            toks[1].line,
                            toks[1].column,
                            msg_literal_range(),
                            sugg_literal_range(),
                        ))
                    }
                } else if toks[1].kind is IntLiteral {
                    Err(ice_report(toks[1].line, toks[1].column, msg_ice_literal_value()))
                } else {
                    Err(user_report(toks[1].line, toks[1].column, msg_expected_int_literal()))
                }
            },
            TokenType::IntLiteral => Err(user_report(t0.line, t0.column, msg_unexpected_token())),
            TokenType::Semicolon => parse_toks(
                toks.subrange(1, toks.len() as int),
                Seq::empty(),
                acc.push(SpecStatement { nodes: cur }),
                outer,
            ),
        }
    }
}

#[via_fn]
proof fn parse_toks_decreases(
    toks: Seq<SpecToken>,
    cur: Seq<SpecNode>,
    acc: Seq<SpecStatement>,
    outer: bool,
) {
    if toks.len() > 0 {
        lemma_scan_close_bounds(toks.subrange(1, toks.len() as int), 1);
    }
}

// ---------------------------------------------------------------------------
// The parser
// ---------------------------------------------------------------------------

/// The parser's state: the full token sequence — an immutable arena that
/// nested ranges index into — and the handler its diagnostics go through.
pub struct Parser {
    input: Vec<Token>,
    error_handler: ErrorHandler,
}

impl Parser {
    /// The image of the token sequence.
    pub closed spec fn toks(&self) -> Seq<SpecToken> {
        tokens_view(self.input@)
    }

    /// The file name cited by this parser's diagnostics.
    pub closed spec fn file(&self) -> Seq<char> {
        self.error_handler.filename@
    }

    pub fn new(input: Vec<Token>, error_handler: &ErrorHandler) -> (r: Parser)
        ensures
            r.toks() == tokens_view(input@),
            r.file() == error_handler.filename@,
    {
        Parser {
            input,
            error_handler: ErrorHandler::new(
                error_handler.source_code.clone(),
                error_handler.filename.as_str(),
            ),
        }
    }

    /// Parses the entire token sequence as the outer scope.
    pub fn parse(&mut self) -> (r: Result<Scope, Diagnostic>)
        ensures
            *final(self) == *old(self),
            ({
                let outcome = parse_toks(
                    old(self).toks(),
                    Seq::empty(),
                    Seq::empty(),
                    true,
                );
                match r {
                    Ok(s) => outcome == Ok::<SpecScope, Report>(s@),
                    Err(d) => outcome is Err && diag_of_report(
                        d@,
                        old(self).file(),
                        outcome->Err_0,
                    ),
                }
            }),
    {
        let n = self.input.len();
        proof {
            assert(tokens_view(self.input@).subrange(0, self.input@.len() as int) =~= tokens_view(
                self.input@,
            ));
        }
        self.parse_range(0, n, true)
    }

    /// Parses the half-open token range `start..end_` as one scope; `outer`
    /// marks it as the top-level scope.
    #[verifier::rlimit(100)]
    fn parse_range(&self, start: usize, end_: usize, outer: bool) -> (r: Result<Scope, Diagnostic>)
        requires
            start <= end_ <= self.input@.len(),
        ensures
            ({
                let outcome = parse_toks(
                    self.toks().subrange(start as int, end_ as int),
                    Seq::empty(),
                    Seq::empty(),
                    outer,
                );
                match r {
                    Ok(s) => outcome == Ok::<SpecScope, Report>(s@),
                    Err(d) => outcome is Err && diag_of_report(d@, self.file(), outcome->Err_0),
                }
            }),
        decreases end_ - start,
    {
        let ghost whole_range = self.toks().subrange(start as int, end_ as int);
        let ghost whole = parse_toks(whole_range, Seq::empty(), Seq::empty(), outer);
        let mut parsed = Scope { children: Vec::new(), is_outer: outer };
        let mut current = Statement::new();
        let mut i: usize = start;
        proof {
            assert(nodes_view(current.children@) =~= Seq::<SpecNode>::empty());
            assert(stmts_view(parsed.children@) =~= Seq::<SpecStatement>::empty());
        }
        loop
            invariant
                start <= i <= end_ <= self.input@.len(),
                parsed.is_outer == outer,
                whole_range == self.toks().subrange(start as int, end_ as int),
                whole == parse_toks(whole_range, Seq::empty(), Seq::empty(), outer),
                whole == parse_toks(
                    self.toks().subrange(i as int, end_ as int),
                    nodes_view(current.children@),
                    stmts_view(parsed.children@),
                    outer,
                ),
            ensures
                i == end_,
                parsed.is_outer == outer,
                whole == parse_toks(
                    self.toks().subrange(i as int, end_ as int),
                    nodes_view(current.children@),
                    stmts_view(parsed.children@),
                    outer,
                ),
            decreases end_ - i,
        {
            if i >= end_ {
                break;
            }
            let ghost t_i = self.toks().subrange(i as int, end_ as int);
            let ghost cur_v = nodes_view(current.children@);
            let ghost acc_v = stmts_view(parsed.children@);
            proof {
                assert(t_i[0] == self.input@[i as int]@);
                assert(t_i.subrange(1, t_i.len() as int) =~= self.toks().subrange(
                    i + 1,
                    end_ as int,
                ));
                if i + 1 < end_ {
                    assert(t_i[1] == self.input@[i + 1]@);
                    assert(t_i.subrange(2, t_i.len() as int) =~= self.toks().subrange(
                        i + 2,
                        end_ as int,
                    ));
                }
            }
            let tok_line = self.input[i].line;
            let tok_column = self.input[i].column;
            match self.input[i].token_type {
                TokenType::FunctionKeyword => {
                    if i + 1 >= end_ {
                        return Err(self.error_handler.comperr(
                            tok_line,
                            tok_column,
                            String::from_str(
                                "Function keyword not followed by a function identifier",
                            ),
                            None,
                        ));
                    }
                    let next_line = self.input[i + 1].line;
                    let next_column = self.input[i + 1].column;
                    let is_fi = matches!(self.input[i + 1].token_type, TokenType::FunctionIdent)
                        && matches!(self.input[i + 1].value, Some(TokenValue::FunctionIdent(_)));
                    if !is_fi {
                        return Err(self.error_handler.comperr(
                            next_line,
                            next_column,
                            String::from_str(
                                "Function keyword not followed by a function identifier",
                            ),
                            None,
                        ));
                    }
                    let name = self.input[i + 1].get_funcid();
                    current.push(AstNodeType::fk(tok_line, tok_column));
                    current.push(AstNode::fi(name, next_line, next_column));
                    i = i + 2;
                },
                TokenType::FunctionIdent => {
                    return Err(self.error_handler.err(
                        tok_line,
                        tok_column,
                        String::from_str("Unexpected token"),
                        None,
                    ));
                },
                TokenType::OpenParen => {
                    if i + 1 >= end_ {
                        return Err(self.error_handler.err(
                            tok_line,
                            tok_column,
                            String::from_str("Unexpected EOF (expected closing parentheses)"),
                            None,
                        ));
                    }
                    if matches!(self.input[i + 1].token_type, TokenType::CloseParen) {
                        current.push(AstNode::tup(tok_line, tok_column));
                        i = i + 2;
                    } else {
                        let mut msg = String::from_str("Expected closing parentheses (found ");
                        let shown = self.input[i + 1].to_string();
                        msg.append(shown.as_str());
                        msg.append(")");
                        let d = self.error_handler.err(
                            self.input[i + 1].line,
                            self.input[i + 1].column,
                            msg,
                            None,
                        );
                        proof {
                            reveal_strlit(" Token");
                            reveal_strlit(")");
                            reveal_strlit(" Token)");
                            assert(" Token"@ + ")"@ =~= " Token)"@);
                            assert(d@.message =~= msg_expected_close_paren(t_i[1].kind));
                        }
                        return Err(d);
                    }
                },
                TokenType::CloseParen => {
                    return Err(self.error_handler.err(
                        tok_line,
                        tok_column,
                        String::from_str("Unexpected closing parentheses"),
                        None,
                    ));
                },
                TokenType::ThinArrow => {
                    if i + 1 >= end_ {
                        return Err(self.error_handler.err(
                            tok_line,
                            tok_column,
                            String::from_str("Unexpected EOF (expected type identifier after ->)"),
                            None,
                        ));
                    }
                    let next_line = self.input[i + 1].line;
                    let next_column = self.input[i + 1].column;
                    if matches!(self.input[i + 1].token_type, TokenType::TypeIdent) {
                        match &self.input[i + 1].value {
                            Some(TokenValue::TypeIdent(ty)) => {
                                current.push(AstNode::ti(*ty, next_line, next_column));
                                i = i + 2;
                            },
                            _ => {
                                return Err(self.error_handler.comperr(
                                    next_line,
                                    next_column,
                                    String::from_str("Type identifier token carries no type"),
                                    None,
                                ));
                            },
                        }
                    } else {
                        return Err(self.error_handler.err(
                            next_line,
                            next_column,
                            String::from_str("Expected type identifier after ->"),
                            None,
                        ));
                    }
                },
                TokenType::TypeIdent => {
                    return Err(self.error_handler.err(
                        tok_line,
                        tok_column,
                        String::from_str("Unexpected type identifier"),
                        None,
                    ));
                },
                TokenType::OpenCurly => {
                    let ghost r1 = self.toks().subrange(i + 1, end_ as int);
                    let mut depth: usize = 1;
                    let mut j: usize = i + 1;
                    let mut found = false;
                    loop
                        invariant_except_break
                            !found,
                            1 <= depth,
                            depth <= j - i,
                            scan_close(r1, 1) == (match scan_close(
                                self.toks().subrange(j as int, end_ as int),
                                depth as int,
                            ) {
                                Some(k) => Some::<int>(j - (i + 1) + k),
                                None => None::<int>,
                            }),
                        invariant
                            i + 1 <= j <= end_ <= self.input@.len(),
                            r1 == self.toks().subrange(i + 1, end_ as int),
                            t_i == self.toks().subrange(i as int, end_ as int),
                        ensures
                            found ==> i + 2 <= j <= end_ && scan_close(r1, 1) == Some(
                                (j - i - 2) as int,
                            ),
                            !found ==> scan_close(r1, 1) is None,
                        decreases end_ - j,
                    {
                        if j >= end_ {
                            proof {
                                assert(self.toks().subrange(j as int, end_ as int)
                                    =~= Seq::<SpecToken>::empty());
                            }
                            break;
                        }
                        let ghost rj = self.toks().subrange(j as int, end_ as int);
                        proof {
                            assert(rj[0] == self.input@[j as int]@);
                            assert(rj.subrange(1, rj.len() as int) =~= self.toks().subrange(
                                j + 1,
                                end_ as int,
                            ));
                        }
                        match self.input[j].token_type {
                            TokenType::OpenCurly => {
                                depth = depth + 1;
                                j = j + 1;
                            },
                            TokenType::CloseCurly => {
                                depth = depth - 1;
                                j = j + 1;
                                if depth == 0 {
                                    found = true;
                                    break;
                                }
                            },
                            _ => {
                                j = j + 1;
                            },
                        }
                    }
                    if !found {
                        return Err(self.error_handler.err(
                            tok_line,
                            tok_column,
                            String::from_str("Unexpected EOF while parsing scope"),
                            None,
                        ));
                    }
                    let inner = match self.parse_range(i + 1, j - 1, false) {
                        Ok(inner) => inner,
                        Err(d) => {
                            proof {
                                let k = (j - i - 2) as int;
                                assert(t_i.subrange(1, 1 + k) =~= self.toks().subrange(
                                    i + 1,
                                    j - 1,
                                ));
                            }
                            return Err(d);
                        },
                    };
                    proof {
                        let k = (j - i - 2) as int;
                        assert(t_i.subrange(1, 1 + k) =~= self.toks().subrange(i + 1, j - 1));
                        assert(t_i.subrange(2 + k, t_i.len() as int) =~= self.toks().subrange(
                            j as int,
                            end_ as int,
                        ));
                    }
                    current.push(AstNode::scope(inner, tok_line, tok_column));
                    let finished = current;
                    current = Statement::new();
                    proof {
                        lemma_stmts_view_push(parsed.children@, finished);
                    }
                    parsed.children.push(finished);
                    i = j;
                },
                TokenType::CloseCurly => {
                    return Err(self.error_handler.err(
                        tok_line,
                        tok_column,
                        String::from_str("Unexpected closing brace"),
                        None,
                    ));
                },
                TokenType::ReturnKeyword => {
                    if i + 1 >= end_ {
                        return Err(self.error_handler.err(
                            tok_line,
                            tok_column,
                            String::from_str(
                                "Unexpected EOF (expected statement end after return)",
                            ),
                            None,
                        ));
                    }
                    let next_line = self.input[i + 1].line;
                    let next_column = self.input[i + 1].column;
                    if matches!(self.input[i + 1].token_type, TokenType::IntLiteral) {
                        match &self.input[i + 1].value {
                            Some(TokenValue::IntLiteral(v)) => {
                                let v = *v;
                                if v <= 255 {
                                    current.push(AstNode::ret(v as u8, tok_line, tok_column));
                                    i = i + 2;
                                } else {
                                    return Err(self.error_handler.err(
                                        next_line,
                                        next_column,
                                        String::from_str(
                                            "Integer literal out of range for an 8-bit value",
                                        ),
                                        Some(String::from_str("Use a value between 0 and 255")),
                                    ));
                                }
                            },
                            _ => {
                                return Err(self.error_handler.comperr(
                                    next_line,
                                    next_column,
                                    String::from_str("Integer literal token carries no value"),
                                    None,
                                ));
                            },
                        }
                    } else {
                        return Err(self.error_handler.err(
                            next_line,
                            next_column,
                            String::from_str("Expected integer literal after return keyword"),
                            None,
                        ));
                    }
                },
                TokenType::IntLiteral => {
                    return Err(self.error_handler.err(
                        tok_line,
                        tok_column,
                        String::from_str("Unexpected token"),
                        None,
                    ));
                },
                TokenType::Semicolon => {
                    let finished = current;
                    current = Statement::new();
                    proof {
                        lemma_stmts_view_push(parsed.children@, finished);
                    }
                    parsed.children.push(finished);
                    i = i + 1;
                },
            }
        }
        if current.children.len() > 0 {
            let first_line = current.children[0].line;
            let first_column = current.children[0].column;
            proof {
                crate::structure::lemma_nodes_view(current.children@);
            }
            return Err(self.error_handler.err(
                first_line,
                first_column,
                String::from_str("Unterminated statement at end of input"),
                Some(String::from_str("Terminate the statement with ';'")),
            ));
        }
        proof {
            assert(self.toks().subrange(i as int, end_ as int) =~= Seq::<SpecToken>::empty());
        }
        Ok(parsed)
    }
}

} // verus!
