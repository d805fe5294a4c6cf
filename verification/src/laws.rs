//! Laws of the front end, stated and proved once and for all inputs: how
//! the stages compose on a function declaration; what the parser does with
//! 8-bit literals; that whitespace and comments between tokens are
//! invisible to the lexer; that token positions never decrease; that every
//! type annotation in a parsed tree refers to a registry type; and that a
//! brace sequence parses exactly when its braces are balanced, into a tree
//! that nests exactly as deep as the braces do.

use vstd::prelude::*;

use crate::codegen::{concat_strs, gen_scope_stmts, gen_stmt_nodes, label_line, section_text};
use crate::err::Report;
use crate::structure::parser::{
    lemma_scan_close_bounds, msg_literal_range, parse_toks, scan_close, spec_fi_node,
    spec_plain_node, spec_ret_node, spec_scope_node, spec_ti_node, spec_tup_node,
    sugg_literal_range, user_report_sugg,
};
use crate::structure::{SpecNode, SpecNodeValue, SpecScope, SpecStatement};
use crate::tokenizer::{
    Expectation, SpecToken, SpecTokenValue, TokenType, advance_pos, block_close, cons_tok,
    digit_len, is_digit_char, is_word_char, is_word_start_char, is_ws_char,
    advance_pos_seq, digits_val, lemma_block_close_bounds, lemma_digit_len_bounds,
    lemma_newline_scan_bounds, lemma_word_len_bounds, lex_rest, newline_scan, plain_tok, word_len,
};
use crate::typing::Type;

verus! {

// ---------------------------------------------------------------------------
// The whole pipeline on one input
// ---------------------------------------------------------------------------

/// The front end as one function: lex the source, parse the tokens as the
/// outer scope, generate the assembly text.  Each stage's verified
/// executable function is pinned to the corresponding piece of this
/// composition.
pub open spec fn spec_compile(src: Seq<char>, reg: Map<Seq<char>, Type>) -> Result<
    Seq<char>,
    Report,
> {
    match lex_rest(src, 1, 1, Expectation::Free, reg) {
        Err(e) => Err(e),
        Ok(toks) => match parse_toks(toks, Seq::empty(), Seq::empty(), true) {
            Err(e) => Err(e),
            Ok(scope) => match gen_scope_stmts(scope.stmts) {
                Err(e) => Err(e),
                Ok(entries) => Ok(section_text(".section .text\n"@, entries)),
            },
        },
    }
}

// ---------------------------------------------------------------------------
// A bare function declaration compiles to one label
// ---------------------------------------------------------------------------

proof fn lemma_word_len_concat(a: Seq<char>, b: Seq<char>)
    requires
        forall|i: int| 0 <= i < a.len() ==> is_word_char(#[trigger] a[i]),
        b.len() > 0,
        !is_word_char(b[0]),
    ensures
        word_len(a + b) == a.len(),
    decreases a.len(),
{
    if a.len() == 0 {
        assert(a + b =~= b);
    } else {
        assert((a + b).subrange(1, (a + b).len() as int) =~= a.subrange(1, a.len() as int) + b);
        lemma_word_len_concat(a.subrange(1, a.len() as int), b);
    }
}

/// For every function name, the input `f <name>() { }` lexes, parses and
/// generates to exactly one label line for `<name>`, at the fixed
/// indentation, in the text section — and nothing else.
#[verifier::rlimit(100)]
pub proof fn lemma_function_decl_pipeline(name: Seq<char>, reg: Map<Seq<char>, Type>)
    requires
        name.len() >= 1,
        is_word_start_char(name[0]),
        forall|i: int| 0 <= i < name.len() ==> is_word_char(#[trigger] name[i]),
    ensures
        spec_compile("f "@ + name + "() { }"@, reg) == Ok::<Seq<char>, Report>(
            ".section .text\n"@ + label_line(name),
        ),
{
    reveal_strlit("f ");
    reveal_strlit("() { }");
    reveal_strlit("f");
    let src = "f "@ + name + "() { }"@;
    let tail6 = "() { }"@;
    assert(src[0] == 'f');
    assert(src[1] == ' ');

    // Lexing: the word `f` is the function keyword.
    let s1 = src.subrange(1, src.len() as int);
    assert(s1[0] == ' ');
    assert(word_len(s1) == 0);
    assert(src.subrange(1, src.len() as int) == s1);
    assert(word_len(src) == 1);
    assert(src.subrange(0, 1) =~= "f"@);

    // After the keyword and one space the lexer expects the identifier.
    let s2 = s1.subrange(1, s1.len() as int);
    assert(s2 =~= name + tail6);
    assert(!is_word_char('('));
    assert(tail6[0] == '(');
    lemma_word_len_concat(name, tail6);
    assert(word_len(s2) == name.len());
    assert(s2.subrange(0, name.len() as int) =~= name);
    assert(is_word_start_char(s2[0]));
    let s3 = s2.subrange(name.len() as int, s2.len() as int);
    assert(s3 =~= tail6);

    // The six remaining characters: `(`, `)`, space, `{`, space, `}`.
    let u1 = tail6.subrange(1, 6);
    let u2 = tail6.subrange(2, 6);
    let u3 = tail6.subrange(3, 6);
    let u4 = tail6.subrange(4, 6);
    let u5 = tail6.subrange(5, 6);
    assert(tail6[0] == '(' && u1[0] == ')' && u2[0] == ' ' && u3[0] == '{' && u4[0] == ' '
        && u5[0] == '}');
    assert(u1.subrange(1, u1.len() as int) =~= u2);
    assert(u2.subrange(1, u2.len() as int) =~= u3);
    assert(u3.subrange(1, u3.len() as int) =~= u4);
    assert(u4.subrange(1, u4.len() as int) =~= u5);
    assert(u5.subrange(1, u5.len() as int) =~= Seq::<char>::empty());
    assert(!is_word_start_char('(') && !is_digit_char('(') && !is_ws_char('('));
    assert(!is_word_start_char(')') && !is_digit_char(')') && !is_ws_char(')'));
    assert(!is_word_start_char('{') && !is_digit_char('{') && !is_ws_char('{'));
    assert(!is_word_start_char('}') && !is_digit_char('}') && !is_ws_char('}'));

    // Walk the lexer through the input, one step at a time.
    let pa = advance_pos_seq(1, 1, src.subrange(0, 1));
    let t_fk = plain_tok(1, 1, TokenType::FunctionKeyword);
    assert(lex_rest(src, 1, 1, Expectation::Free, reg) == cons_tok(
        t_fk,
        lex_rest(s1, pa.0, pa.1, Expectation::FuncIdent, reg),
    ));
    let pb = advance_pos(pa.0, pa.1, ' ');
    assert(lex_rest(s1, pa.0, pa.1, Expectation::FuncIdent, reg) == lex_rest(
        s2,
        pb.0,
        pb.1,
        Expectation::FuncIdent,
        reg,
    ));
    let pc = advance_pos_seq(pb.0, pb.1, s2.subrange(0, word_len(s2)));
    let t_fi = SpecToken {
        line: pb.0,
        column: pb.1,
        kind: TokenType::FunctionIdent,
        value: Some(SpecTokenValue::FunctionIdent(name)),
    };
    assert(s2.subrange(0, word_len(s2)) == name);
    assert(lex_rest(s2, pb.0, pb.1, Expectation::FuncIdent, reg) == cons_tok(
        t_fi,
        lex_rest(tail6, pc.0, pc.1, Expectation::Free, reg),
    ));
    let t_op = plain_tok(pc.0, pc.1, TokenType::OpenParen);
    assert(lex_rest(tail6, pc.0, pc.1, Expectation::Free, reg) == cons_tok(
        t_op,
        lex_rest(u1, pc.0, pc.1 + 1, Expectation::Free, reg),
    ));
    let t_cp = plain_tok(pc.0, pc.1 + 1, TokenType::CloseParen);
    assert(lex_rest(u1, pc.0, pc.1 + 1, Expectation::Free, reg) == cons_tok(
        t_cp,
        lex_rest(u2, pc.0, pc.1 + 2, Expectation::Free, reg),
    ));
    assert(lex_rest(u2, pc.0, pc.1 + 2, Expectation::Free, reg) == lex_rest(
        u3,
        pc.0,
        pc.1 + 3,
        Expectation::Free,
        reg,
    ));
    let t_oc = plain_tok(pc.0, pc.1 + 3, TokenType::OpenCurly);
    assert(lex_rest(u3, pc.0, pc.1 + 3, Expectation::Free, reg) == cons_tok(
        t_oc,
        lex_rest(u4, pc.0, pc.1 + 4, Expectation::Free, reg),
    ));
    assert(lex_rest(u4, pc.0, pc.1 + 4, Expectation::Free, reg) == lex_rest(
        u5,
        pc.0,
        pc.1 + 5,
        Expectation::Free,
        reg,
    ));
    let t_cc = plain_tok(pc.0, pc.1 + 5, TokenType::CloseCurly);
    assert(u5.subrange(1, u5.len() as int).len() == 0);
    assert(lex_rest(u5, pc.0, pc.1 + 5, Expectation::Free, reg) == cons_tok(
        t_cc,
        lex_rest(u5.subrange(1, u5.len() as int), pc.0, pc.1 + 6, Expectation::Free, reg),
    ));
    assert(lex_rest(u5.subrange(1, u5.len() as int), pc.0, pc.1 + 6, Expectation::Free, reg)
        == Ok::<Seq<SpecToken>, Report>(Seq::empty()));
    let lexed = lex_rest(src, 1, 1, Expectation::Free, reg);
    let toks = seq![t_fk, t_fi, t_op, t_cp, t_oc, t_cc];
    assert(seq![t_fk] + (seq![t_fi] + (seq![t_op] + (seq![t_cp] + (seq![t_oc] + (seq![t_cc]
        + Seq::<SpecToken>::empty()))))) =~= toks);
    assert(lexed == Ok::<Seq<SpecToken>, Report>(toks));
    assert(toks.len() == 6);
    assert(toks[0] == t_fk && toks[1] == t_fi && toks[2] == t_op && toks[3] == t_cp && toks[4]
        == t_oc && toks[5] == t_cc);
    // Parsing: one statement holding the declaration and its empty scope.
    let toks2 = toks.subrange(2, 6);
    let toks4 = toks.subrange(4, 6);
    assert(toks.subrange(2, toks.len() as int) == toks2);
    assert(toks2[0] == toks[2] && toks2[1] == toks[3]);
    assert(toks2.subrange(2, toks2.len() as int) =~= toks4);
    assert(toks4[0] == toks[4] && toks4[1] == toks[5]);
    let rest5 = toks4.subrange(1, toks4.len() as int);
    assert(rest5.len() == 1 && rest5[0] == toks[5]);
    assert(scan_close(rest5, 1) == Some(0int));
    assert(toks4.subrange(1, 1) =~= Seq::<SpecToken>::empty());
    assert(toks4.subrange(2, 2) =~= Seq::<SpecToken>::empty());
    let parsed = parse_toks(toks, Seq::empty(), Seq::empty(), true);
    let inner = SpecScope { stmts: Seq::empty(), is_outer: false };
    assert(parse_toks(toks4.subrange(1, 1), Seq::empty(), Seq::empty(), false) == Ok::<
        SpecScope,
        Report,
    >(inner));
    let n_fk = spec_plain_node(toks[0], crate::structure::AstNodeType::FunctionKeyword);
    let n_fi = spec_fi_node(toks[1], name);
    let n_tup = spec_tup_node(toks[2]);
    let n_sc = spec_scope_node(toks[4], inner);
    let cur1 = Seq::<SpecNode>::empty().push(n_fk).push(n_fi);
    let cur2 = Seq::<SpecNode>::empty().push(n_fk).push(n_fi).push(n_tup);
    let stmt = SpecStatement { nodes: cur2.push(n_sc) };
    assert(toks[1].value->Some_0->FunctionIdent_0 == name);
    assert(parse_toks(toks, Seq::empty(), Seq::empty(), true) == parse_toks(
        toks2,
        cur1,
        Seq::empty(),
        true,
    ));
    assert(parse_toks(toks2, cur1, Seq::empty(), true) == parse_toks(
        toks4,
        cur2,
        Seq::empty(),
        true,
    ));
    let acc1 = Seq::<SpecStatement>::empty().push(stmt);
    assert(parse_toks(toks4, cur2, Seq::empty(), true) == parse_toks(
        toks4.subrange(2, 2),
        Seq::empty(),
        acc1,
        true,
    ));
    assert(parse_toks(toks4.subrange(2, 2), Seq::empty(), acc1, true) == Ok::<SpecScope, Report>(
        SpecScope { stmts: acc1, is_outer: true },
    ));
    assert(parsed == Ok::<SpecScope, Report>(SpecScope { stmts: acc1, is_outer: true }));
    let stmts = parsed->Ok_0.stmts;
    assert(stmts.len() == 1 && stmts[0] == stmt);
    assert(stmt.nodes.len() == 4);
    assert(stmt.nodes[0] == n_fk && stmt.nodes[1] == n_fi && stmt.nodes[2] == n_tup
        && stmt.nodes[3] == n_sc);

    // Generation: the declaration lowers to one label line.
    let ns2 = stmt.nodes.subrange(2, 4);
    assert(ns2[0] == n_tup && ns2[1] == n_sc);
    assert(ns2.subrange(1, ns2.len() as int) =~= stmt.nodes.subrange(3, 4));
    assert(stmt.nodes.subrange(3, 4)[0] == n_sc);
    assert(stmt.nodes.subrange(3, 4).subrange(1, 1) =~= Seq::<SpecNode>::empty());
    assert(stmt.nodes.subrange(2, stmt.nodes.len() as int) == ns2);
    let ns3 = stmt.nodes.subrange(3, 4);
    assert(gen_stmt_nodes(ns3.subrange(1, 1)) == Ok::<Seq<Seq<char>>, Report>(Seq::empty()));
    assert(ns3.subrange(1, ns3.len() as int) == ns3.subrange(1, 1));
    assert(gen_stmt_nodes(ns3) == Ok::<Seq<Seq<char>>, Report>(Seq::empty()));
    assert(ns2.subrange(1, ns2.len() as int) == ns3);
    assert(gen_stmt_nodes(ns2) == Ok::<Seq<Seq<char>>, Report>(Seq::empty()));
    assert(gen_stmt_nodes(stmt.nodes) == Ok::<Seq<Seq<char>>, Report>(
        seq![label_line(name)] + Seq::<Seq<char>>::empty(),
    ));
    assert(stmts.subrange(1, 1) =~= Seq::<SpecStatement>::empty());
    assert(stmts.subrange(1, stmts.len() as int) == stmts.subrange(1, 1));
    assert(gen_scope_stmts(stmts.subrange(1, 1)) == Ok::<Seq<Seq<char>>, Report>(Seq::empty()));
    assert(stmts[0] == stmt);
    assert(gen_scope_stmts(stmts) == Ok::<Seq<Seq<char>>, Report>(
        (seq![label_line(name)] + Seq::<Seq<char>>::empty()) + Seq::<Seq<char>>::empty(),
    ));
    let entries = gen_scope_stmts(stmts)->Ok_0;
    assert(entries =~= seq![label_line(name)]);
    assert(concat_strs(entries) == concat_strs(entries.subrange(0, 0)) + entries[0]);
    assert(entries.subrange(0, 0) =~= Seq::<Seq<char>>::empty());
    assert(concat_strs(entries) =~= label_line(name));
    assert(section_text(".section .text\n"@, entries) =~= ".section .text\n"@ + label_line(name));
}

// ---------------------------------------------------------------------------
// 8-bit literals after `return`
// ---------------------------------------------------------------------------

/// A return statement preserves its literal exactly when the literal fits
/// in eight bits, and is rejected at the literal's own position when it
/// does not: for every value `n` of an integer-literal token following the
/// return keyword, `return n;` parses to a single statement whose return
/// node carries `n` itself if `n <= 255`, and parsing fails with the
/// out-of-range diagnostic at the literal's position if `n > 255`.
pub proof fn lemma_return_literal(n: u64, ret: SpecToken, lit: SpecToken, semi: SpecToken)
    requires
        ret.kind == TokenType::ReturnKeyword,
        lit.kind == TokenType::IntLiteral,
        lit.value == Some(SpecTokenValue::IntLiteral(n)),
        semi.kind == TokenType::Semicolon,
    ensures
        n <= 255 ==> parse_toks(seq![ret, lit, semi], Seq::empty(), Seq::empty(), true) == Ok::<
            SpecScope,
            Report,
        >(
            SpecScope {
                stmts: seq![SpecStatement { nodes: seq![spec_ret_node(ret, n as u8)] }],
                is_outer: true,
            },
        ),
        n > 255 ==> parse_toks(seq![ret, lit, semi], Seq::empty(), Seq::empty(), true) == Err::<
            SpecScope,
            Report,
        >(user_report_sugg(lit.line, lit.column, msg_literal_range(), sugg_literal_range())),
        n <= 255 ==> spec_ret_node(ret, n as u8).value->Some_0->Expression_0.content == n,
{
    let toks = seq![ret, lit, semi];
    assert(toks.subrange(2, 3) =~= seq![semi]);
    if n <= 255 {
        let cur = Seq::<SpecNode>::empty().push(spec_ret_node(ret, n as u8));
        assert(seq![semi].subrange(1, 1) =~= Seq::<SpecToken>::empty());
        assert(parse_toks(seq![semi], cur, Seq::empty(), true) == parse_toks(
            Seq::empty(),
            Seq::empty(),
            Seq::<SpecStatement>::empty().push(SpecStatement { nodes: cur }),
            true,
        ));
        assert(Seq::<SpecStatement>::empty().push(SpecStatement { nodes: cur })
            =~= seq![SpecStatement { nodes: seq![spec_ret_node(ret, n as u8)] }]) by {
            assert(cur =~= seq![spec_ret_node(ret, n as u8)]);
        };
    }
}

// ---------------------------------------------------------------------------
// Whitespace and comment transparency
// ---------------------------------------------------------------------------

/// Two lexer outcomes that agree on every token's kind and value — and on
/// whether they fail at all — though their positions may differ.
pub open spec fn same_kinds_vals(
    a: Result<Seq<SpecToken>, Report>,
    b: Result<Seq<SpecToken>, Report>,
) -> bool {
    match (a, b) {
        (Ok(x), Ok(y)) => x.len() == y.len() && forall|i: int|
            0 <= i < x.len() ==> x[i].kind == y[i].kind && x[i].value == y[i].value,
        (Err(_), Err(_)) => true,
        _ => false,
    }
}

proof fn lemma_same_trans(
    a: Result<Seq<SpecToken>, Report>,
    b: Result<Seq<SpecToken>, Report>,
    c: Result<Seq<SpecToken>, Report>,
)
    requires
        same_kinds_vals(a, b),
        same_kinds_vals(b, c),
    ensures
        same_kinds_vals(a, c),
{
}

proof fn lemma_cons_same(
    tok1: SpecToken,
    tok2: SpecToken,
    r1: Result<Seq<SpecToken>, Report>,
    r2: Result<Seq<SpecToken>, Report>,
)
    requires
        tok1.kind == tok2.kind,
        tok1.value == tok2.value,
        same_kinds_vals(r1, r2),
    ensures
        same_kinds_vals(cons_tok(tok1, r1), cons_tok(tok2, r2)),
{
    match (r1, r2) {
        (Ok(x), Ok(y)) => {
            let a = seq![tok1] + x;
            let b = seq![tok2] + y;
            assert forall|i: int| 0 <= i < a.len() implies a[i].kind == b[i].kind && a[i].value
                == b[i].value by {
                if i > 0 {
                    assert(a[i] == x[i - 1]);
                    assert(b[i] == y[i - 1]);
                }
            }
        },
        _ => {},
    }
}

/// The lexer's starting position changes which positions its tokens and
/// errors carry, and nothing else.
pub proof fn lemma_lex_pos_irrelevant(
    t: Seq<char>,
    ln1: int,
    cl1: int,
    ln2: int,
    cl2: int,
    exp: Expectation,
    reg: Map<Seq<char>, Type>,
)
    ensures
        same_kinds_vals(
            lex_rest(t, ln1, cl1, exp, reg),
            lex_rest(t, ln2, cl2, exp, reg),
        ),
    decreases t.len(),
{
    if t.len() == 0 {
    } else {
        let c = t[0];
        let rest1 = t.subrange(1, t.len() as int);
        if is_ws_char(c) {
            let p1 = advance_pos(ln1, cl1, c);
            let p2 = advance_pos(ln2, cl2, c);
            lemma_lex_pos_irrelevant(rest1, p1.0, p1.1, p2.0, p2.1, exp, reg);
        } else if c == '/' {
            if t.len() >= 2 && t[1] == '/' {
                let k = 2 + newline_scan(t.subrange(2, t.len() as int));
                lemma_newline_scan_bounds(t.subrange(2, t.len() as int));
                let p1 = advance_pos_seq(ln1, cl1, t.subrange(0, k));
                let p2 = advance_pos_seq(ln2, cl2, t.subrange(0, k));
                lemma_lex_pos_irrelevant(
                    t.subrange(k, t.len() as int),
                    p1.0,
                    p1.1,
                    p2.0,
                    p2.1,
                    exp,
                    reg,
                );
            } else if t.len() >= 2 && t[1] == '*' {
                match block_close(t.subrange(2, t.len() as int)) {
                    Some(k0) => {
                        let k = 2 + k0;
                        lemma_block_close_bounds(t.subrange(2, t.len() as int));
                        let p1 = advance_pos_seq(ln1, cl1, t.subrange(0, k));
                        let p2 = advance_pos_seq(ln2, cl2, t.subrange(0, k));
                        lemma_lex_pos_irrelevant(
                            t.subrange(k, t.len() as int),
                            p1.0,
                            p1.1,
                            p2.0,
                            p2.1,
                            exp,
                            reg,
                        );
                    },
                    None => {},
                }
            }
        } else if is_word_start_char(c) {
            lemma_word_len_bounds(t);
            let wl = word_len(t);
            let w = t.subrange(0, wl);
            let rest = t.subrange(wl, t.len() as int);
            let p1 = advance_pos_seq(ln1, cl1, w);
            let p2 = advance_pos_seq(ln2, cl2, w);
            if exp is FuncIdent {
                lemma_lex_pos_irrelevant(rest, p1.0, p1.1, p2.0, p2.1, Expectation::Free, reg);
                lemma_cons_same(
                    SpecToken {
                        line: ln1,
                        column: cl1,
                        kind: TokenType::FunctionIdent,
                        value: Some(SpecTokenValue::FunctionIdent(w)),
                    },
                    SpecToken {
                        line: ln2,
                        column: cl2,
                        kind: TokenType::FunctionIdent,
                        value: Some(SpecTokenValue::FunctionIdent(w)),
                    },
                    lex_rest(rest, p1.0, p1.1, Expectation::Free, reg),
                    lex_rest(rest, p2.0, p2.1, Expectation::Free, reg),
                );
            } else if exp is TypeIdent {
                if reg.contains_key(w) {
                    lemma_lex_pos_irrelevant(rest, p1.0, p1.1, p2.0, p2.1, Expectation::Free, reg);
                    lemma_cons_same(
                        SpecToken {
                            line: ln1,
                            column: cl1,
                            kind: TokenType::TypeIdent,
                            value: Some(SpecTokenValue::TypeIdent(reg[w])),
                        },
                        SpecToken {
                            line: ln2,
                            column: cl2,
                            kind: TokenType::TypeIdent,
                            value: Some(SpecTokenValue::TypeIdent(reg[w])),
                        },
                        lex_rest(rest, p1.0, p1.1, Expectation::Free, reg),
                        lex_rest(rest, p2.0, p2.1, Expectation::Free, reg),
                    );
                }
            } else if w == "f"@ {
                lemma_lex_pos_irrelevant(rest, p1.0, p1.1, p2.0, p2.1, Expectation::FuncIdent, reg);
                lemma_cons_same(
                    plain_tok(ln1, cl1, TokenType::FunctionKeyword),
                    plain_tok(ln2, cl2, TokenType::FunctionKeyword),
                    lex_rest(rest, p1.0, p1.1, Expectation::FuncIdent, reg),
                    lex_rest(rest, p2.0, p2.1, Expectation::FuncIdent, reg),
                );
            } else if w == "return"@ {
                lemma_lex_pos_irrelevant(rest, p1.0, p1.1, p2.0, p2.1, Expectation::Free, reg);
                lemma_cons_same(
                    plain_tok(ln1, cl1, TokenType::ReturnKeyword),
                    plain_tok(ln2, cl2, TokenType::ReturnKeyword),
                    lex_rest(rest, p1.0, p1.1, Expectation::Free, reg),
                    lex_rest(rest, p2.0, p2.1, Expectation::Free, reg),
                );
            }
        } else if exp is FuncIdent {
        } else if is_digit_char(c) {
            lemma_digit_len_bounds(t);
            let dl = digit_len(t);
            let d = t.subrange(0, dl);
            if !(digits_val(d) > u64::MAX as int) {
                let p1 = advance_pos_seq(ln1, cl1, d);
                let p2 = advance_pos_seq(ln2, cl2, d);
                lemma_lex_pos_irrelevant(
                    t.subrange(dl, t.len() as int),
                    p1.0,
                    p1.1,
                    p2.0,
                    p2.1,
                    Expectation::Free,
                    reg,
                );
                lemma_cons_same(
                    SpecToken {
                        line: ln1,
                        column: cl1,
                        kind: TokenType::IntLiteral,
                        value: Some(SpecTokenValue::IntLiteral(digits_val(d) as u64)),
                    },
                    SpecToken {
                        line: ln2,
                        column: cl2,
                        kind: TokenType::IntLiteral,
                        value: Some(SpecTokenValue::IntLiteral(digits_val(d) as u64)),
                    },
                    lex_rest(t.subrange(dl, t.len() as int), p1.0, p1.1, Expectation::Free, reg),
                    lex_rest(t.subrange(dl, t.len() as int), p2.0, p2.1, Expectation::Free, reg),
                );
            }
        } else if c == '-' {
            if t.len() >= 2 && t[1] == '>' {
                lemma_lex_pos_irrelevant(
                    t.subrange(2, t.len() as int),
                    ln1,
                    cl1 + 2,
                    ln2,
                    cl2 + 2,
                    Expectation::TypeIdent,
                    reg,
                );
                lemma_cons_same(
                    plain_tok(ln1, cl1, TokenType::ThinArrow),
                    plain_tok(ln2, cl2, TokenType::ThinArrow),
                    lex_rest(t.subrange(2, t.len() as int), ln1, cl1 + 2, Expectation::TypeIdent,
                        reg),
                    lex_rest(t.subrange(2, t.len() as int), ln2, cl2 + 2, Expectation::TypeIdent,
                        reg),
                );
            }
        } else if c == '(' || c == ')' || c == '{' || c == '}' || c == ';' {
            let kind = if c == '(' {
                TokenType::OpenParen
            } else if c == ')' {
                TokenType::CloseParen
            } else if c == '{' {
                TokenType::OpenCurly
            } else if c == '}' {
                TokenType::CloseCurly
            } else {
                TokenType::Semicolon
            };
            lemma_lex_pos_irrelevant(rest1, ln1, cl1 + 1, ln2, cl2 + 1, Expectation::Free, reg);
            lemma_cons_same(
                plain_tok(ln1, cl1, kind),
                plain_tok(ln2, cl2, kind),
                lex_rest(rest1, ln1, cl1 + 1, Expectation::Free, reg),
                lex_rest(rest1, ln2, cl2 + 1, Expectation::Free, reg),
            );
        }
    }
}

// ---------------------------------------------------------------------------
// Token positions never decrease
// ---------------------------------------------------------------------------

/// Position `(l1, c1)` does not come after `(l2, c2)`.
pub open spec fn pos_le(l1: int, c1: int, l2: int, c2: int) -> bool {
    l1 < l2 || (l1 == l2 && c1 <= c2)
}

/// Every token of `ts` sits at or after `(ln, cl)`, and the tokens are in
/// non-decreasing position order.
pub open spec fn toks_pos_sorted(ts: Seq<SpecToken>, ln: int, cl: int) -> bool {
    &&& forall|i: int|
        0 <= i < ts.len() ==> pos_le(ln, cl, (#[trigger] ts[i]).line, ts[i].column)
    &&& forall|i: int, j: int|
        0 <= i <= j < ts.len() ==> pos_le(ts[i].line, ts[i].column, ts[j].line, ts[j].column)
}

proof fn lemma_advance_pos_seq_ge(ln: int, cl: int, s: Seq<char>)
    ensures
        pos_le(ln, cl, advance_pos_seq(ln, cl, s).0, advance_pos_seq(ln, cl, s).1),
        advance_pos_seq(ln, cl, s).0 >= ln,
    decreases s.len(),
{
    if s.len() > 0 {
        lemma_advance_pos_seq_ge(ln, cl, s.subrange(0, s.len() - 1));
    }
}

proof fn lemma_cons_pos_sorted(
    tok: SpecToken,
    ts: Seq<SpecToken>,
    ln: int,
    cl: int,
    ln2: int,
    cl2: int,
)
    requires
        tok.line == ln && tok.column == cl,
        pos_le(ln, cl, ln2, cl2),
        toks_pos_sorted(ts, ln2, cl2),
    ensures
        toks_pos_sorted(seq![tok] + ts, ln, cl),
{
    let a = seq![tok] + ts;
    assert forall|i: int| 0 <= i < a.len() implies pos_le(ln, cl, (#[trigger] a[i]).line,
        a[i].column) by {
        if i > 0 {
            assert(a[i] == ts[i - 1]);
        }
    }
    assert forall|i: int, j: int| 0 <= i <= j < a.len() implies pos_le(a[i].line, a[i].column,
        a[j].line, a[j].column) by {
        if i > 0 {
            assert(a[i] == ts[i - 1]);
        }
        if j > 0 {
            assert(a[j] == ts[j - 1]);
        }
    }
}

/// Every token's position is monotonically non-decreasing across the token
/// sequence, and no token sits before the position the lexer started at.
pub proof fn lemma_lex_positions_monotone(
    t: Seq<char>,
    ln: int,
    cl: int,
    exp: Expectation,
    reg: Map<Seq<char>, Type>,
)
    ensures
        lex_rest(t, ln, cl, exp, reg) matches Ok(ts) ==> toks_pos_sorted(ts, ln, cl),
    decreases t.len(),
{
    if t.len() == 0 {
    } else {
        let c = t[0];
        let rest1 = t.subrange(1, t.len() as int);
        if is_ws_char(c) {
            let p = advance_pos(ln, cl, c);
            lemma_lex_positions_monotone(rest1, p.0, p.1, exp, reg);
            match lex_rest(rest1, p.0, p.1, exp, reg) {
                Ok(ts) => {
                    assert(toks_pos_sorted(ts, ln, cl));
                },
                Err(_) => {},
            }
        } else if c == '/' {
            if t.len() >= 2 && t[1] == '/' {
                let k = 2 + newline_scan(t.subrange(2, t.len() as int));
                lemma_newline_scan_bounds(t.subrange(2, t.len() as int));
                let p = advance_pos_seq(ln, cl, t.subrange(0, k));
                lemma_advance_pos_seq_ge(ln, cl, t.subrange(0, k));
                lemma_lex_positions_monotone(t.subrange(k, t.len() as int), p.0, p.1, exp, reg);
            } else if t.len() >= 2 && t[1] == '*' {
                match block_close(t.subrange(2, t.len() as int)) {
                    Some(k0) => {
                        let k = 2 + k0;
                        lemma_block_close_bounds(t.subrange(2, t.len() as int));
                        let p = advance_pos_seq(ln, cl, t.subrange(0, k));
                        lemma_advance_pos_seq_ge(ln, cl, t.subrange(0, k));
                        lemma_lex_positions_monotone(
                            t.subrange(k, t.len() as int),
                            p.0,
                            p.1,
                            exp,
                            reg,
                        );
                    },
                    None => {},
                }
            }
        } else if is_word_start_char(c) {
            lemma_word_len_bounds(t);
            let wl = word_len(t);
            let w = t.subrange(0, wl);
            let rest = t.subrange(wl, t.len() as int);
            let p = advance_pos_seq(ln, cl, w);
            lemma_advance_pos_seq_ge(ln, cl, w);
            lemma_lex_positions_monotone(rest, p.0, p.1, Expectation::Free, reg);
            lemma_lex_positions_monotone(rest, p.0, p.1, Expectation::FuncIdent, reg);
            match lex_rest(t, ln, cl, exp, reg) {
                Ok(_) => {
                    if exp is FuncIdent || (exp is TypeIdent && reg.contains_key(w)) || w == "f"@
                        || w == "return"@ {
                        let nexp = if w == "f"@ && !(exp is FuncIdent) && !(exp is TypeIdent) {
                            Expectation::FuncIdent
                        } else {
                            Expectation::Free
                        };
                        match lex_rest(rest, p.0, p.1, nexp, reg) {
                            Ok(ts) => {
                                let tok = lex_rest(t, ln, cl, exp, reg)->Ok_0[0];
                                assert(lex_rest(t, ln, cl, exp, reg)->Ok_0 == seq![tok] + ts);
                                lemma_cons_pos_sorted(tok, ts, ln, cl, p.0, p.1);
                            },
                            Err(_) => {},
                        }
                    }
                },
                Err(_) => {},
            }
        } else if exp is FuncIdent {
        } else if is_digit_char(c) {
            lemma_digit_len_bounds(t);
            let dl = digit_len(t);
            let d = t.subrange(0, dl);
            if !(digits_val(d) > u64::MAX as int) {
                let p = advance_pos_seq(ln, cl, d);
                lemma_advance_pos_seq_ge(ln, cl, d);
                let rest = t.subrange(dl, t.len() as int);
                lemma_lex_positions_monotone(rest, p.0, p.1, Expectation::Free, reg);
                match lex_rest(rest, p.0, p.1, Expectation::Free, reg) {
                    Ok(ts) => {
                        let tok = lex_rest(t, ln, cl, exp, reg)->Ok_0[0];
                        assert(lex_rest(t, ln, cl, exp, reg)->Ok_0 == seq![tok] + ts);
                        lemma_cons_pos_sorted(tok, ts, ln, cl, p.0, p.1);
                    },
                    Err(_) => {},
                }
            }
        } else if c == '-' {
            if t.len() >= 2 && t[1] == '>' {
                let rest = t.subrange(2, t.len() as int);
                lemma_lex_positions_monotone(rest, ln, cl + 2, Expectation::TypeIdent, reg);
                match lex_rest(rest, ln, cl + 2, Expectation::TypeIdent, reg) {
                    Ok(ts) => {
                        lemma_cons_pos_sorted(
                            plain_tok(ln, cl, TokenType::ThinArrow),
                            ts,
                            ln,
                            cl,
                            ln,
                            cl + 2,
                        );
                    },
                    Err(_) => {},
                }
            }
        } else if c == '(' || c == ')' || c == '{' || c == '}' || c == ';' {
            lemma_lex_positions_monotone(rest1, ln, cl + 1, Expectation::Free, reg);
            match lex_rest(rest1, ln, cl + 1, Expectation::Free, reg) {
                Ok(ts) => {
                    let tok = lex_rest(t, ln, cl, exp, reg)->Ok_0[0];
                    assert(lex_rest(t, ln, cl, exp, reg)->Ok_0 == seq![tok] + ts);
                    lemma_cons_pos_sorted(tok, ts, ln, cl, ln, cl + 1);
                },
                Err(_) => {},
            }
        }
    }
}

// ---------------------------------------------------------------------------
// Type annotations come from the registry
// ---------------------------------------------------------------------------

/// Every type a token of `ts` carries is one of the registry's types.
pub open spec fn tok_types_in_reg(ts: Seq<SpecToken>, reg: Map<Seq<char>, Type>) -> bool {
    forall|i: int|
        0 <= i < ts.len() ==> ((#[trigger] ts[i]).value matches Some(
            SpecTokenValue::TypeIdent(ty),
        ) ==> reg.contains_value(ty))
}

/// Every type annotation in the tree refers to one of the registry's
/// types, nested scopes included.
pub open spec fn scope_types_in_reg(s: SpecScope, reg: Map<Seq<char>, Type>) -> bool
    decreases s,
{
    stmts_types_in_reg(s.stmts, reg)
}

pub open spec fn stmts_types_in_reg(ss: Seq<SpecStatement>, reg: Map<Seq<char>, Type>) -> bool
    decreases ss,
{
    if ss.len() == 0 {
        true
    } else {
        stmts_types_in_reg(ss.subrange(0, ss.len() - 1), reg) && stmt_types_in_reg(
            ss[ss.len() - 1],
            reg,
        )
    }
}

pub open spec fn stmt_types_in_reg(st: SpecStatement, reg: Map<Seq<char>, Type>) -> bool
    decreases st,
{
    nodes_types_in_reg(st.nodes, reg)
}

pub open spec fn nodes_types_in_reg(ns: Seq<SpecNode>, reg: Map<Seq<char>, Type>) -> bool
    decreases ns,
{
    if ns.len() == 0 {
        true
    } else {
        nodes_types_in_reg(ns.subrange(0, ns.len() - 1), reg) && node_types_in_reg(
            ns[ns.len() - 1],
            reg,
        )
    }
}

pub open spec fn node_types_in_reg(n: SpecNode, reg: Map<Seq<char>, Type>) -> bool
    decreases n,
{
    match n.value {
        Some(SpecNodeValue::TypeIdent(ty)) => reg.contains_value(ty),
        Some(SpecNodeValue::Scope(sub)) => scope_types_in_reg(sub, reg),
        _ => true,
    }
}

proof fn lemma_nodes_types_push(ns: Seq<SpecNode>, n: SpecNode, reg: Map<Seq<char>, Type>)
    ensures
        nodes_types_in_reg(ns.push(n), reg) == (nodes_types_in_reg(ns, reg) && node_types_in_reg(
            n,
            reg,
        )),
{
    assert(ns.push(n).subrange(0, ns.push(n).len() - 1) =~= ns);
}

proof fn lemma_stmts_types_push(ss: Seq<SpecStatement>, st: SpecStatement, reg: Map<
    Seq<char>,
    Type,
>)
    ensures
        stmts_types_in_reg(ss.push(st), reg) == (stmts_types_in_reg(ss, reg)
            && stmt_types_in_reg(st, reg)),
{
    assert(ss.push(st).subrange(0, ss.push(st).len() - 1) =~= ss);
}

proof fn lemma_tok_types_cons(
    tok: SpecToken,
    r: Result<Seq<SpecToken>, Report>,
    reg: Map<Seq<char>, Type>,
)
    requires
        tok.value matches Some(SpecTokenValue::TypeIdent(ty)) ==> reg.contains_value(ty),
        r matches Ok(ts) ==> tok_types_in_reg(ts, reg),
    ensures
        cons_tok(tok, r) matches Ok(a) ==> tok_types_in_reg(a, reg),
{
    match r {
        Ok(ts) => {
            let a = seq![tok] + ts;
            assert forall|i: int| 0 <= i < a.len() implies ((#[trigger] a[i]).value matches Some(
                SpecTokenValue::TypeIdent(ty),
            ) ==> reg.contains_value(ty)) by {
                if i > 0 {
                    assert(a[i] == ts[i - 1]);
                }
            }
        },
        Err(_) => {},
    }
}

/// Every type a lexed token carries was resolved against the registry.
pub proof fn lemma_lex_types_from_registry(
    t: Seq<char>,
    ln: int,
    cl: int,
    exp: Expectation,
    reg: Map<Seq<char>, Type>,
)
    ensures
        lex_rest(t, ln, cl, exp, reg) matches Ok(ts) ==> tok_types_in_reg(ts, reg),
    decreases t.len(),
{
    if t.len() == 0 {
    } else {
        let c = t[0];
        let rest1 = t.subrange(1, t.len() as int);
        if is_ws_char(c) {
            let p = advance_pos(ln, cl, c);
            lemma_lex_types_from_registry(rest1, p.0, p.1, exp, reg);
        } else if c == '/' {
            if t.len() >= 2 && t[1] == '/' {
                let k = 2 + newline_scan(t.subrange(2, t.len() as int));
                lemma_newline_scan_bounds(t.subrange(2, t.len() as int));
                let p = advance_pos_seq(ln, cl, t.subrange(0, k));
                lemma_lex_types_from_registry(t.subrange(k, t.len() as int), p.0, p.1, exp, reg);
            } else if t.len() >= 2 && t[1] == '*' {
                match block_close(t.subrange(2, t.len() as int)) {
                    Some(k0) => {
                        let k = 2 + k0;
                        lemma_block_close_bounds(t.subrange(2, t.len() as int));
                        let p = advance_pos_seq(ln, cl, t.subrange(0, k));
                        lemma_lex_types_from_registry(
                            t.subrange(k, t.len() as int),
                            p.0,
                            p.1,
                            exp,
                            reg,
                        );
                    },
                    None => {},
                }
            }
        } else if is_word_start_char(c) {
            lemma_word_len_bounds(t);
            let wl = word_len(t);
            let w = t.subrange(0, wl);
            let rest = t.subrange(wl, t.len() as int);
            let p = advance_pos_seq(ln, cl, w);
            lemma_lex_types_from_registry(rest, p.0, p.1, Expectation::Free, reg);
            lemma_lex_types_from_registry(rest, p.0, p.1, Expectation::FuncIdent, reg);
            if exp is FuncIdent {
                lemma_tok_types_cons(
                    SpecToken {
                        line: ln,
                        column: cl,
                        kind: TokenType::FunctionIdent,
                        value: Some(SpecTokenValue::FunctionIdent(w)),
                    },
                    lex_rest(rest, p.0, p.1, Expectation::Free, reg),
                    reg,
                );
            } else if exp is TypeIdent {
                if reg.contains_key(w) {
                    assert(reg.contains_value(reg[w]));
                    lemma_tok_types_cons(
                        SpecToken {
                            line: ln,
                            column: cl,
                            kind: TokenType::TypeIdent,
                            value: Some(SpecTokenValue::TypeIdent(reg[w])),
                        },
                        lex_rest(rest, p.0, p.1, Expectation::Free, reg),
                        reg,
                    );
                }
            } else if w == "f"@ {
                lemma_tok_types_cons(
                    plain_tok(ln, cl, TokenType::FunctionKeyword),
                    lex_rest(rest, p.0, p.1, Expectation::FuncIdent, reg),
                    reg,
                );
            } else if w == "return"@ {
                lemma_tok_types_cons(
                    plain_tok(ln, cl, TokenType::ReturnKeyword),
                    lex_rest(rest, p.0, p.1, Expectation::Free, reg),
                    reg,
                );
            }
        } else if exp is FuncIdent {
        } else if is_digit_char(c) {
            lemma_digit_len_bounds(t);
            let dl = digit_len(t);
            let d = t.subrange(0, dl);
            if !(digits_val(d) > u64::MAX as int) {
                let p = advance_pos_seq(ln, cl, d);
                lemma_lex_types_from_registry(
                    t.subrange(dl, t.len() as int),
                    p.0,
                    p.1,
                    Expectation::Free,
                    reg,
                );
                lemma_tok_types_cons(
                    SpecToken {
                        line: ln,
                        column: cl,
                        kind: TokenType::IntLiteral,
                        value: Some(SpecTokenValue::IntLiteral(digits_val(d) as u64)),
                    },
                    lex_rest(t.subrange(dl, t.len() as int), p.0, p.1, Expectation::Free, reg),
                    reg,
                );
            }
        } else if c == '-' {
            if t.len() >= 2 && t[1] == '>' {
                lemma_lex_types_from_registry(
                    t.subrange(2, t.len() as int),
                    ln,
                    cl + 2,
                    Expectation::TypeIdent,
                    reg,
                );
                lemma_tok_types_cons(
                    plain_tok(ln, cl, TokenType::ThinArrow),
                    lex_rest(t.subrange(2, t.len() as int), ln, cl + 2, Expectation::TypeIdent,
                        reg),
                    reg,
                );
            }
        } else if c == '(' || c == ')' || c == '{' || c == '}' || c == ';' {
            let kind = if c == '(' {
                TokenType::OpenParen
            } else if c == ')' {
                TokenType::CloseParen
            } else if c == '{' {
                TokenType::OpenCurly
            } else if c == '}' {
                TokenType::CloseCurly
            } else {
                TokenType::Semicolon
            };
            lemma_lex_types_from_registry(rest1, ln, cl + 1, Expectation::Free, reg);
            lemma_tok_types_cons(
                plain_tok(ln, cl, kind),
                lex_rest(rest1, ln, cl + 1, Expectation::Free, reg),
                reg,
            );
        }
    }
}

/// A tree parsed from tokens whose types come from the registry has all
/// its type annotations from the registry.
proof fn lemma_parse_types_from_registry(
    toks: Seq<SpecToken>,
    cur: Seq<SpecNode>,
    acc: Seq<SpecStatement>,
    outer: bool,
    reg: Map<Seq<char>, Type>,
)
    requires
        tok_types_in_reg(toks, reg),
        nodes_types_in_reg(cur, reg),
        stmts_types_in_reg(acc, reg),
    ensures
        parse_toks(toks, cur, acc, outer) matches Ok(s) ==> scope_types_in_reg(s, reg),
    decreases toks.len(),
{
    if toks.len() == 0 {
    } else {
        let t0 = toks[0];
        let rest1 = toks.subrange(1, toks.len() as int);
        let rest2 = toks.subrange(2, toks.len() as int);
        assert(tok_types_in_reg(rest1, reg)) by {
            assert(forall|i: int| 0 <= i < rest1.len() ==> rest1[i] == toks[i + 1]);
        };
        if toks.len() >= 2 {
            assert(tok_types_in_reg(rest2, reg)) by {
                assert(forall|i: int| 0 <= i < rest2.len() ==> rest2[i] == toks[i + 2]);
            };
        }
        match t0.kind {
            TokenType::FunctionKeyword => {
                if toks.len() >= 2 && toks[1].kind is FunctionIdent && toks[1].value matches Some(
                    SpecTokenValue::FunctionIdent(_),
                ) {
                    let n1 = spec_plain_node(t0, crate::structure::AstNodeType::FunctionKeyword);
                    let n2 = spec_fi_node(toks[1], toks[1].value->Some_0->FunctionIdent_0);
                    lemma_nodes_types_push(cur, n1, reg);
                    lemma_nodes_types_push(cur.push(n1), n2, reg);
                    lemma_parse_types_from_registry(rest2, cur.push(n1).push(n2), acc, outer, reg);
                }
            },
            TokenType::OpenParen => {
                if toks.len() >= 2 && toks[1].kind is CloseParen {
                    lemma_nodes_types_push(cur, spec_tup_node(t0), reg);
                    lemma_parse_types_from_registry(
                        rest2,
                        cur.push(spec_tup_node(t0)),
                        acc,
                        outer,
                        reg,
                    );
                }
            },
            TokenType::ThinArrow => {
                if toks.len() >= 2 && toks[1].kind is TypeIdent && toks[1].value matches Some(
                    SpecTokenValue::TypeIdent(_),
                ) {
                    let ty = toks[1].value->Some_0->TypeIdent_0;
                    assert(reg.contains_value(ty));
                    lemma_nodes_types_push(cur, spec_ti_node(toks[1], ty), reg);
                    lemma_parse_types_from_registry(
                        rest2,
                        cur.push(spec_ti_node(toks[1], ty)),
                        acc,
                        outer,
                        reg,
                    );
                }
            },
            TokenType::OpenCurly => {
                match scan_close(rest1, 1) {
                    None => {},
                    Some(k) => {
                        lemma_scan_close_bounds(rest1, 1);
                        let inner = toks.subrange(1, 1 + k);
                        let v = toks.subrange(2 + k, toks.len() as int);
                        assert(tok_types_in_reg(inner, reg)) by {
                            assert(forall|i: int| 0 <= i < inner.len() ==> inner[i] == toks[i + 1]);
                        };
                        assert(tok_types_in_reg(v, reg)) by {
                            assert(forall|i: int| 0 <= i < v.len() ==> v[i] == toks[i + 2 + k]);
                        };
                        lemma_parse_types_from_registry(
                            inner,
                            Seq::empty(),
                            Seq::empty(),
                            false,
                            reg,
                        );
                        match parse_toks(inner, Seq::empty(), Seq::empty(), false) {
                            Err(_) => {},
                            Ok(si) => {
                                let node = spec_scope_node(t0, si);
                                let stmt = SpecStatement { nodes: cur.push(node) };
                                lemma_nodes_types_push(cur, node, reg);
                                lemma_stmts_types_push(acc, stmt, reg);
                                lemma_parse_types_from_registry(
                                    v,
                                    Seq::empty(),
                                    acc.push(stmt),
                                    outer,
                                    reg,
                                );
                            },
                        }
                    },
                }
            },
            TokenType::ReturnKeyword => {
                if toks.len() >= 2 && toks[1].kind is IntLiteral && toks[1].value matches Some(
                    SpecTokenValue::IntLiteral(_),
                ) {
                    let n = toks[1].value->Some_0->IntLiteral_0;
                    if n <= 255 {
                        lemma_nodes_types_push(cur, spec_ret_node(t0, n as u8), reg);
                        lemma_parse_types_from_registry(
                            rest2,
                            cur.push(spec_ret_node(t0, n as u8)),
                            acc,
                            outer,
                            reg,
                        );
                    }
                }
            },
            TokenType::Semicolon => {
                lemma_stmts_types_push(acc, SpecStatement { nodes: cur }, reg);
                lemma_parse_types_from_registry(
                    rest1,
                    Seq::empty(),
                    acc.push(SpecStatement { nodes: cur }),
                    outer,
                    reg,
                );
            },
            _ => {},
        }
    }
}

/// A type annotation's referenced type always exists in the type registry:
/// whatever tree the lexer and parser together produce, every type carried
/// by a type-annotation node is one of the registry's types.
pub proof fn lemma_type_annotations_from_registry(src: Seq<char>, reg: Map<Seq<char>, Type>)
    ensures
        lex_rest(src, 1, 1, Expectation::Free, reg) matches Ok(ts) ==> (parse_toks(
            ts,
            Seq::empty(),
            Seq::empty(),
            true,
        ) matches Ok(s) ==> scope_types_in_reg(s, reg)),
{
    lemma_lex_types_from_registry(src, 1, 1, Expectation::Free, reg);
    match lex_rest(src, 1, 1, Expectation::Free, reg) {
        Ok(ts) => {
            lemma_parse_types_from_registry(ts, Seq::empty(), Seq::empty(), true, reg);
        },
        Err(_) => {},
    }
}

// ---------------------------------------------------------------------------
// Brace balance and nesting depth
// ---------------------------------------------------------------------------

/// The larger of two integers.
pub open spec fn imax(a: int, b: int) -> int {
    if a >= b {
        a
    } else {
        b
    }
}

/// A sequence of open and close braces only.
pub open spec fn all_braces(toks: Seq<SpecToken>) -> bool {
    forall|i: int|
        0 <= i < toks.len() ==> ((#[trigger] toks[i]).kind is OpenCurly || toks[i].kind
            is CloseCurly)
}

/// A brace sequence is balanced when it is empty, or starts with an open
/// brace that has a matching close, with the region strictly between them
/// balanced and the rest after the close balanced.
pub open spec fn braces_balanced(toks: Seq<SpecToken>) -> bool
    decreases toks.len(),
    via braces_balanced_decreases
{
    if toks.len() == 0 {
        true
    } else if toks[0].kind is OpenCurly {
        match scan_close(toks.subrange(1, toks.len() as int), 1) {
            None => false,
            Some(k) => braces_balanced(toks.subrange(1, 1 + k)) && braces_balanced(
                toks.subrange(2 + k, toks.len() as int),
            ),
        }
    } else {
        false
    }
}

#[via_fn]
proof fn braces_balanced_decreases(toks: Seq<SpecToken>) {
    if toks.len() > 0 {
        lemma_scan_close_bounds(toks.subrange(1, toks.len() as int), 1);
    }
}

/// The brace nesting depth of a balanced brace sequence: one more than the
/// depth between each matched pair, whichever pair nests deepest.
pub open spec fn braces_depth(toks: Seq<SpecToken>) -> int
    decreases toks.len(),
    via braces_depth_decreases
{
    if toks.len() == 0 {
        0
    } else if toks[0].kind is OpenCurly {
        match scan_close(toks.subrange(1, toks.len() as int), 1) {
            None => 0,
            Some(k) => imax(
                1 + braces_depth(toks.subrange(1, 1 + k)),
                braces_depth(toks.subrange(2 + k, toks.len() as int)),
            ),
        }
    } else {
        0
    }
}

#[via_fn]
proof fn braces_depth_decreases(toks: Seq<SpecToken>) {
    if toks.len() > 0 {
        lemma_scan_close_bounds(toks.subrange(1, toks.len() as int), 1);
    }
}

/// The scope nesting depth of a parsed tree: how deeply scope nodes nest.
pub open spec fn scope_depth(s: SpecScope) -> int
    decreases s,
{
    stmts_depth(s.stmts)
}

pub open spec fn stmts_depth(ss: Seq<SpecStatement>) -> int
    decreases ss,
{
    if ss.len() == 0 {
        0
    } else {
        imax(stmts_depth(ss.subrange(0, ss.len() - 1)), stmt_depth(ss[ss.len() - 1]))
    }
}

pub open spec fn stmt_depth(st: SpecStatement) -> int
    decreases st,
{
    nodes_depth(st.nodes)
}

pub open spec fn nodes_depth(ns: Seq<SpecNode>) -> int
    decreases ns,
{
    if ns.len() == 0 {
        0
    } else {
        imax(nodes_depth(ns.subrange(0, ns.len() - 1)), node_depth(ns[ns.len() - 1]))
    }
}

pub open spec fn node_depth(n: SpecNode) -> int
    decreases n,
{
    match n.value {
        Some(SpecNodeValue::Scope(sub)) => 1 + scope_depth(sub),
        _ => 0,
    }
}

proof fn lemma_nodes_depth_nonneg(ns: Seq<SpecNode>)
    ensures
        nodes_depth(ns) >= 0,
    decreases ns.len(),
{
    if ns.len() > 0 {
        lemma_nodes_depth_nonneg(ns.subrange(0, ns.len() - 1));
    }
}

proof fn lemma_stmts_depth_nonneg(ss: Seq<SpecStatement>)
    ensures
        stmts_depth(ss) >= 0,
    decreases ss.len(),
{
    if ss.len() > 0 {
        lemma_stmts_depth_nonneg(ss.subrange(0, ss.len() - 1));
    }
}

proof fn lemma_braces_depth_nonneg(toks: Seq<SpecToken>)
    ensures
        braces_depth(toks) >= 0,
    decreases toks.len(),
{
    if toks.len() > 0 && toks[0].kind is OpenCurly {
        lemma_scan_close_bounds(toks.subrange(1, toks.len() as int), 1);
        match scan_close(toks.subrange(1, toks.len() as int), 1) {
            None => {},
            Some(k) => {
                lemma_braces_depth_nonneg(toks.subrange(1, 1 + k));
                lemma_braces_depth_nonneg(toks.subrange(2 + k, toks.len() as int));
            },
        }
    }
}

proof fn lemma_stmts_depth_push(ss: Seq<SpecStatement>, st: SpecStatement)
    ensures
        stmts_depth(ss.push(st)) == imax(stmts_depth(ss), stmt_depth(st)),
{
    assert(ss.push(st).subrange(0, ss.push(st).len() - 1) =~= ss);
}

/// Brace balance, proving half: a balanced sequence of braces parses to a
/// tree, with `acc` the statements already completed, and the tree's scope
/// nesting depth is exactly the braces' nesting depth (joined with what
/// `acc` already holds).
proof fn lemma_braces_parse(toks: Seq<SpecToken>, acc: Seq<SpecStatement>, outer: bool)
    requires
        all_braces(toks),
        braces_balanced(toks),
    ensures
        parse_toks(toks, Seq::empty(), acc, outer) matches Ok(s) && (s.is_outer == outer
            && stmts_depth(s.stmts) == imax(stmts_depth(acc), braces_depth(toks))),
    decreases toks.len(),
{
    lemma_stmts_depth_nonneg(acc);
    if toks.len() == 0 {
    } else {
        let rest = toks.subrange(1, toks.len() as int);
        lemma_scan_close_bounds(rest, 1);
        let k = scan_close(rest, 1)->Some_0;
        let inner = toks.subrange(1, 1 + k);
        let v = toks.subrange(2 + k, toks.len() as int);
        assert(all_braces(inner)) by {
            assert(forall|i: int| 0 <= i < inner.len() ==> inner[i] == toks[i + 1]);
        };
        assert(all_braces(v)) by {
            assert(forall|i: int| 0 <= i < v.len() ==> v[i] == toks[i + 2 + k]);
        };
        lemma_braces_parse(inner, Seq::empty(), false);
        let si = parse_toks(inner, Seq::empty(), Seq::empty(), false)->Ok_0;
        lemma_braces_depth_nonneg(inner);
        lemma_braces_depth_nonneg(v);
        assert(stmts_depth(Seq::<SpecStatement>::empty()) == 0);
        assert(stmts_depth(si.stmts) == braces_depth(inner));
        let node = spec_scope_node(toks[0], si);
        let stmt = SpecStatement { nodes: Seq::<SpecNode>::empty().push(node) };
        assert(stmt_depth(stmt) == 1 + braces_depth(inner)) by {
            assert(stmt.nodes.subrange(0, 0) =~= Seq::<SpecNode>::empty());
            assert(stmt.nodes[0] == node);
            assert(node_depth(node) == 1 + scope_depth(si));
        };
        lemma_braces_parse(v, acc.push(stmt), outer);
        lemma_stmts_depth_push(acc, stmt);
    }
}

/// Brace balance, failing half: a brace sequence with an unmatched brace
/// never yields a tree; parsing fails with a diagnostic.
proof fn lemma_braces_unbalanced(toks: Seq<SpecToken>, acc: Seq<SpecStatement>, outer: bool)
    requires
        all_braces(toks),
        !braces_balanced(toks),
    ensures
        parse_toks(toks, Seq::empty(), acc, outer) is Err,
    decreases toks.len(),
{
    if toks.len() == 0 {
    } else if toks[0].kind is OpenCurly {
        let rest = toks.subrange(1, toks.len() as int);
        lemma_scan_close_bounds(rest, 1);
        match scan_close(rest, 1) {
            None => {},
            Some(k) => {
                let inner = toks.subrange(1, 1 + k);
                let v = toks.subrange(2 + k, toks.len() as int);
                assert(all_braces(inner)) by {
                    assert(forall|i: int| 0 <= i < inner.len() ==> inner[i] == toks[i + 1]);
                };
                assert(all_braces(v)) by {
                    assert(forall|i: int| 0 <= i < v.len() ==> v[i] == toks[i + 2 + k]);
                };
                if !braces_balanced(inner) {
                    lemma_braces_unbalanced(inner, Seq::empty(), false);
                } else {
                    lemma_braces_parse(inner, Seq::empty(), false);
                    let si = parse_toks(inner, Seq::empty(), Seq::empty(), false)->Ok_0;
                    let node = spec_scope_node(toks[0], si);
                    let stmt = SpecStatement { nodes: Seq::<SpecNode>::empty().push(node) };
                    lemma_braces_unbalanced(v, acc.push(stmt), outer);
                }
            },
        }
    }
}

/// Brace balance: for any brace-only token sequence, if the braces are
/// balanced the parser produces a scope tree whose nesting depth equals the
/// brace nesting depth; with an unmatched brace it fails with a diagnostic
/// and never returns a tree.
pub proof fn lemma_brace_nesting(toks: Seq<SpecToken>)
    requires
        all_braces(toks),
    ensures
        braces_balanced(toks) ==> (parse_toks(toks, Seq::empty(), Seq::empty(), true) matches Ok(s)
            && scope_depth(s) == braces_depth(toks)),
        !braces_balanced(toks) ==> parse_toks(toks, Seq::empty(), Seq::empty(), true) is Err,
{
    if braces_balanced(toks) {
        lemma_braces_parse(toks, Seq::empty(), true);
        assert(stmts_depth(Seq::<SpecStatement>::empty()) == 0);
        lemma_braces_depth_nonneg(toks);
    } else {
        lemma_braces_unbalanced(toks, Seq::empty(), true);
    }
}

// ---------------------------------------------------------------------------
// Whitespace and comment shapes
// ---------------------------------------------------------------------------

/// Nothing but whitespace.
pub open spec fn all_ws(w: Seq<char>) -> bool {
    forall|i: int| 0 <= i < w.len() ==> is_ws_char(w[i])
}

/// A complete line comment: `//`, any characters but a newline, and the
/// terminating newline.
pub open spec fn line_comment(w: Seq<char>) -> bool {
    &&& w.len() >= 3
    &&& w[0] == '/'
    &&& w[1] == '/'
    &&& w[w.len() - 1] == '\n'
    &&& forall|i: int| 2 <= i < w.len() - 1 ==> w[i] != '\n'
}

/// A complete block comment: `/*`, any characters without an earlier `*/`,
/// and the closing `*/`.
pub open spec fn block_comment(w: Seq<char>) -> bool {
    &&& w.len() >= 4
    &&& w[0] == '/'
    &&& w[1] == '*'
    &&& w[w.len() - 2] == '*'
    &&& w[w.len() - 1] == '/'
    &&& forall|i: int| 2 <= i < w.len() - 2 ==> !(#[trigger] w[i] == '*' && w[i + 1] == '/')
}

proof fn lemma_newline_scan_at(u: Seq<char>, j: int)
    requires
        0 <= j < u.len(),
        forall|i: int| 0 <= i < j ==> u[i] != '\n',
        u[j] == '\n',
    ensures
        newline_scan(u) == j + 1,
    decreases j,
{
    if j > 0 {
        lemma_newline_scan_at(u.subrange(1, u.len() as int), j - 1);
    }
}

proof fn lemma_block_close_at(u: Seq<char>, j: int)
    requires
        0 <= j,
        j + 1 < u.len(),
        forall|i: int| 0 <= i < j ==> !(#[trigger] u[i] == '*' && u[i + 1] == '/'),
        u[j] == '*',
        u[j + 1] == '/',
    ensures
        block_close(u) == Some(j + 2),
    decreases j,
{
    if j > 0 {
        lemma_block_close_at(u.subrange(1, u.len() as int), j - 1);
    }
}

/// Idempotence of whitespace between tokens: wherever the lexer stands
/// between two tokens — about to scan `t` with some position and
/// expectation — inserting any amount and kind of whitespace there yields
/// the same token kinds and values, and errors exactly when the unmodified
/// input does; only the recorded positions may change.
pub proof fn lemma_whitespace_transparent(
    w: Seq<char>,
    t: Seq<char>,
    ln: int,
    cl: int,
    exp: Expectation,
    reg: Map<Seq<char>, Type>,
)
    requires
        all_ws(w),
    ensures
        same_kinds_vals(lex_rest(w + t, ln, cl, exp, reg), lex_rest(t, ln, cl, exp, reg)),
    decreases w.len(),
{
    if w.len() == 0 {
        assert(w + t =~= t);
    } else {
        let u = w + t;
        let w1 = w.subrange(1, w.len() as int);
        let p = advance_pos(ln, cl, w[0]);
        assert(u.subrange(1, u.len() as int) =~= w1 + t);
        lemma_whitespace_transparent(w1, t, p.0, p.1, exp, reg);
        lemma_lex_pos_irrelevant(t, p.0, p.1, ln, cl, exp, reg);
        lemma_same_trans(
            lex_rest(w + t, ln, cl, exp, reg),
            lex_rest(t, p.0, p.1, exp, reg),
            lex_rest(t, ln, cl, exp, reg),
        );
    }
}

/// Comment transparency: wherever the lexer stands between two tokens —
/// about to scan `t` with some position and expectation — inserting a
/// complete line comment or a complete block comment there yields the same
/// token kinds and values, and errors exactly when the unmodified input
/// does; only the recorded positions may change.
pub proof fn lemma_comment_transparent(
    w: Seq<char>,
    t: Seq<char>,
    ln: int,
    cl: int,
    exp: Expectation,
    reg: Map<Seq<char>, Type>,
)
    requires
        line_comment(w) || block_comment(w),
    ensures
        same_kinds_vals(lex_rest(w + t, ln, cl, exp, reg), lex_rest(t, ln, cl, exp, reg)),
{
    let u = w + t;
    let u2 = u.subrange(2, u.len() as int);
    assert(u2 =~= w.subrange(2, w.len() as int) + t);
    if line_comment(w) {
        assert(u[0] == '/' && u[1] == '/');
        assert forall|i: int| 0 <= i < w.len() - 3 implies u2[i] != '\n' by {
            assert(u2[i] == w[i + 2]);
        }
        assert(u2[w.len() - 3] == w[w.len() - 1]);
        lemma_newline_scan_at(u2, w.len() - 3);
        let k = 2 + newline_scan(u2);
        assert(k == w.len());
        assert(u.subrange(k, u.len() as int) =~= t);
        let p = advance_pos_seq(ln, cl, u.subrange(0, k));
        lemma_lex_pos_irrelevant(t, p.0, p.1, ln, cl, exp, reg);
    } else {
        assert(u[0] == '/' && u[1] == '*');
        assert forall|i: int| 0 <= i < w.len() - 4 implies !(#[trigger] u2[i] == '*' && u2[i + 1]
            == '/') by {
            assert(u2[i] == w[i + 2]);
            assert(u2[i + 1] == w[i + 3]);
        }
        assert(u2[w.len() - 4] == w[w.len() - 2]);
        assert(u2[w.len() - 3] == w[w.len() - 1]);
        lemma_block_close_at(u2, w.len() - 4);
        let k = 2 + (w.len() - 2);
        assert(block_close(u2) == Some(w.len() - 2));
        assert(u.subrange(k, u.len() as int) =~= t);
        let p = advance_pos_seq(ln, cl, u.subrange(0, k));
        lemma_lex_pos_irrelevant(t, p.0, p.1, ln, cl, exp, reg);
    }
}

} // verus!
