//! The code generator.
//!
//! The generator walks the top-level scope's statements and their AST nodes
//! in source order.  A function declaration lowers to a single label line at
//! a fixed indentation in the text section: on a function-keyword node it
//! consumes the following function-identifier node, increases the
//! indentation counter and emits `<name>:`.  The empty parameter tuple, a
//! return-type annotation and a nested scope's body carry no code yet and
//! are passed over.  Any node kind the generator has no case for — a return
//! statement or a bare expression, which are not lowered into instructions
//! yet — is an internal-compiler-error condition, not a user-facing
//! diagnostic: this is the explicit seam marking unfinished language
//! features.
//!
//! Output assembly is assembled from four independently optional sections,
//! each rendered as a section header followed by its accumulated lines and
//! omitted entirely when empty.

use vstd::prelude::*;

use crate::err::{Diagnostic, ErrorHandler, Report, diag_of_report};
use crate::strutil::strs_view;
use crate::structure::{
    AstNode, AstNodeType, AstNodeValue, Scope, SpecNode, SpecNodeValue, SpecScope, SpecStatement,
    lemma_nodes_view, lemma_stmts_view, nodes_view, stmts_view,
};

verus! {

/// The characters of `es` joined in order.
pub open spec fn concat_strs(es: Seq<Seq<char>>) -> Seq<char>
    decreases es.len(),
{
    if es.len() == 0 {
        Seq::empty()
    } else {
        concat_strs(es.subrange(0, es.len() - 1)) + es[es.len() - 1]
    }
}

/// One named section of the generated assembly text.
pub struct Section {
    entries: Vec<String>,
}

impl View for Section {
    type V = Seq<Seq<char>>;

    closed spec fn view(&self) -> Seq<Seq<char>> {
        strs_view(self.entries@)
    }
}

/// The mathematical image of `Generated`.
#[verifier::ext_equal]
pub ghost struct SpecGenerated {
    pub data: Seq<Seq<char>>,
    pub rodata: Seq<Seq<char>>,
    pub bss: Seq<Seq<char>>,
    pub text: Seq<Seq<char>>,
}

/// The assembly text under construction, split into the four sections:
/// data, read-only data, zero-initialized data, and executable text.
pub struct Generated {
    data: Section,
    rodata: Section,
    bss: Section,
    text: Section,
}

impl View for Generated {
    type V = SpecGenerated;

    closed spec fn view(&self) -> SpecGenerated {
        SpecGenerated { data: self.data@, rodata: self.rodata@, bss: self.bss@, text: self.text@ }
    }
}

/// A section's rendering: its header followed by its lines, or nothing at
/// all when it has no lines.
pub open spec fn section_text(header: Seq<char>, entries: Seq<Seq<char>>) -> Seq<char> {
    if entries.len() == 0 {
        Seq::empty()
    } else {
        header + concat_strs(entries)
    }
}

/// The full rendering of the generated assembly.
pub open spec fn generated_text(g: SpecGenerated) -> Seq<char> {
    section_text(".section .data\n"@, g.data) + section_text(".section .rodata\n"@, g.rodata)
        + section_text(".section .bss\n"@, g.bss) + section_text(".section .text\n"@, g.text)
}

proof fn lemma_strs_view_push(ss: Seq<String>, s: String)
    ensures
        strs_view(ss.push(s)) =~= strs_view(ss).push(s@),
{
}

impl Generated {
    /// Four empty sections.
    pub fn new() -> (r: Generated)
        ensures
            r@.data == Seq::<Seq<char>>::empty(),
            r@.rodata == Seq::<Seq<char>>::empty(),
            r@.bss == Seq::<Seq<char>>::empty(),
            r@.text == Seq::<Seq<char>>::empty(),
    {
        let r = Generated {
            data: Section { entries: Vec::new() },
            rodata: Section { entries: Vec::new() },
            bss: Section { entries: Vec::new() },
            text: Section { entries: Vec::new() },
        };
        proof {
            assert(r@.data =~= Seq::<Seq<char>>::empty());
            assert(r@.rodata =~= Seq::<Seq<char>>::empty());
            assert(r@.bss =~= Seq::<Seq<char>>::empty());
            assert(r@.text =~= Seq::<Seq<char>>::empty());
        }
        r
    }

    /// Appends a section's rendering to `out`.
    fn append_section(out: &mut String, header: &str, section: &Section)
        ensures
            final(out)@ == old(out)@ + section_text(header@, section@),
    {
        if section.entries.len() == 0 {
            proof {
                assert(section@.len() == 0);
                assert(old(out)@ + section_text(header@, section@) =~= old(out)@);
            }
            return ;
        }
        out.append(header);
        let n = section.entries.len();
        let mut i: usize = 0;
        proof {
            assert(strs_view(section.entries@).subrange(0, 0) =~= Seq::<Seq<char>>::empty());
        }
        while i < n
            invariant
                n == section.entries@.len(),
                0 <= i <= n,
                n > 0,
                out@ == old(out)@ + header@ + concat_strs(section@.subrange(0, i as int)),
            decreases n - i,
        {
            out.append(section.entries[i].as_str());
            proof {
                assert(section@[i as int] == section.entries@[i as int]@);
                assert(section@.subrange(0, i + 1).subrange(0, i as int) =~= section@.subrange(
                    0,
                    i as int,
                ));
                assert(section@.subrange(0, i + 1)[i as int] == section@[i as int]);
            }
            i = i + 1;
        }
        proof {
            assert(section@.subrange(0, n as int) =~= section@);
        }
    }

    /// Renders the four sections in their fixed order, each omitted when
    /// empty.
    pub fn to_string(&self) -> (s: String)
        ensures
            s@ == generated_text(self@),
    {
        let mut s = String::new();
        Generated::append_section(&mut s, ".section .data\n", &self.data);
        Generated::append_section(&mut s, ".section .rodata\n", &self.rodata);
        Generated::append_section(&mut s, ".section .bss\n", &self.bss);
        Generated::append_section(&mut s, ".section .text\n", &self.text);
        proof {
            assert(s@ =~= generated_text(self@));
        }
        s
    }
}

// ---------------------------------------------------------------------------
// The generator's defining function
// ---------------------------------------------------------------------------

pub open spec fn msg_gen_no_func_ident() -> Seq<char> {
    "Expected function identifier node to have value"@
}

pub open spec fn msg_gen_unimplemented() -> Seq<char> {
    "Unimplemented branch in code generator"@
}

/// The fix suggestion every generator failure carries: these are compiler
/// bugs, not user mistakes.
pub open spec fn sugg_gen_report() -> Seq<char> {
    "Please report this error to GitHub: https://github.com/AmosBarSinai/sabbahc/issues"@
}

pub open spec fn gen_ice(ln: int, cl: int, message: Seq<char>) -> Report {
    Report { line: ln, column: cl, message, suggestion: Some(sugg_gen_report()), comperr: true }
}

/// A function's label line: fixed four-space indentation, the name, a colon.
pub open spec fn label_line(name: Seq<char>) -> Seq<char> {
    "    "@ + name + ":\n"@
}

/// The text-section lines one statement's nodes contribute, walked left to
/// right — or the internal-compiler-error report on the first node the
/// generator has no case for.
pub open spec fn gen_stmt_nodes(nodes: Seq<SpecNode>) -> Result<Seq<Seq<char>>, Report>
    decreases nodes.len(),
{
    if nodes.len() == 0 {
        Ok(Seq::empty())
    } else {
        let n0 = nodes[0];
        match n0.kind {
            AstNodeType::FunctionKeyword => {
                if nodes.len() >= 2 && nodes[1].kind is FunctionIdent && nodes[1].value matches Some(
                    SpecNodeValue::FunctionIdent(_),
                ) {
                    match gen_stmt_nodes(nodes.subrange(2, nodes.len() as int)) {
                        Ok(es) => Ok(
                            seq![label_line(nodes[1].value->Some_0->FunctionIdent_0)] + es,
                        ),
                        Err(e) => Err(e),
                    }
                } else {
                    Err(gen_ice(n0.line, n0.column, msg_gen_no_func_ident()))
                }
            },
            AstNodeType::ParamTypeTuple => gen_stmt_nodes(nodes.subrange(1, nodes.len() as int)),
            AstNodeType::TypeIdent => gen_stmt_nodes(nodes.subrange(1, nodes.len() as int)),
            AstNodeType::Scope => gen_stmt_nodes(nodes.subrange(1, nodes.len() as int)),
            _ => Err(gen_ice(n0.line, n0.column, msg_gen_unimplemented())),
        }
    }
}

/// The text-section lines of a scope's statements in order, or the first
/// failure.
pub open spec fn gen_scope_stmts(stmts: Seq<SpecStatement>) -> Result<Seq<Seq<char>>, Report>
    decreases stmts.len(),
{
    if stmts.len() == 0 {
        Ok(Seq::empty())
    } else {
        match gen_stmt_nodes(stmts[0].nodes) {
            Err(e) => Err(e),
            Ok(es) => match gen_scope_stmts(stmts.subrange(1, stmts.len() as int)) {
                Err(e) => Err(e),
                Ok(rest) => Ok(es + rest),
            },
        }
    }
}

/// Prepends already-emitted lines to the outcome of generating the rest.
pub open spec fn gen_glue(
    es: Seq<Seq<char>>,
    r: Result<Seq<Seq<char>>, Report>,
) -> Result<Seq<Seq<char>>, Report> {
    match r {
        Ok(rest) => Ok(es + rest),
        Err(e) => Err(e),
    }
}

proof fn lemma_gen_glue_cons(es: Seq<Seq<char>>, e: Seq<char>, r: Result<Seq<Seq<char>>, Report>)
    ensures
        gen_glue(es, match r {
            Ok(rest) => Ok::<Seq<Seq<char>>, Report>(seq![e] + rest),
            Err(er) => Err(er),
        }) == gen_glue(es.push(e), r),
{
    match r {
        Ok(rest) => {
            assert(es + (seq![e] + rest) =~= es.push(e) + rest);
        },
        Err(_) => {},
    }
}

// ---------------------------------------------------------------------------
// The generator
// ---------------------------------------------------------------------------

/// The code generator's state: the parsed top-level scope, the handler its
/// internal-compiler-error diagnostics go through, and the indentation
/// counter for the instruction lowering still to come.
pub struct CodeGenerator {
    input: Scope,
    error_handler: ErrorHandler,
    indent: usize,
}

impl CodeGenerator {
    /// The image of the scope being lowered.
    pub closed spec fn input_view(&self) -> SpecScope {
        self.input@
    }

    /// The file name cited by this generator's diagnostics.
    pub closed spec fn file(&self) -> Seq<char> {
        self.error_handler.filename@
    }

    pub fn new(input: Scope, error_handler: &ErrorHandler) -> (r: CodeGenerator)
        ensures
            r.input_view() == input@,
            r.file() == error_handler.filename@,
    {
        CodeGenerator {
            input,
            error_handler: ErrorHandler::new(
                error_handler.source_code.clone(),
                error_handler.filename.as_str(),
            ),
            indent: 0,
        }
    }

    /// Walks the scope and renders the generated assembly: exactly the
    /// label lines `gen_scope_stmts` says, in the text section, and nothing
    /// in the other three — or the first internal-compiler-error report.
    #[verifier::rlimit(60)]
    pub fn out(&mut self) -> (r: Result<String, Diagnostic>)
        ensures
            ({
                let outcome = gen_scope_stmts(old(self).input_view().stmts);
                match r {
                    Ok(s) => outcome is Ok && s@ == section_text(
                        ".section .text\n"@,
                        outcome->Ok_0,
                    ),
                    Err(d) => outcome is Err && diag_of_report(
                        d@,
                        old(self).file(),
                        outcome->Err_0,
                    ),
                }
            }),
    {
        let ghost stmts = old(self).input_view().stmts;
        let ghost whole = gen_scope_stmts(stmts);
        let mut generated = Generated::new();
        let n = self.input.children.len();
        proof {
            lemma_stmts_view(self.input.children@);
            assert(stmts.subrange(0, stmts.len() as int) =~= stmts);
            assert(Seq::<Seq<char>>::empty() + (match whole {
                Ok(es) => es,
                Err(_) => Seq::empty(),
            }) =~= (match whole {
                Ok(es) => es,
                Err(_) => Seq::empty(),
            }));
        }
        let mut i: usize = 0;
        loop
            invariant
                self.input == old(self).input,
                self.error_handler == old(self).error_handler,
                n == self.input.children@.len(),
                stmts == old(self).input_view().stmts,
                whole == gen_scope_stmts(stmts),
                stmts == stmts_view(self.input.children@),
                stmts.len() == n,
                0 <= i <= n,
                generated@.data == Seq::<Seq<char>>::empty(),
                generated@.rodata == Seq::<Seq<char>>::empty(),
                generated@.bss == Seq::<Seq<char>>::empty(),
                whole == gen_glue(generated@.text, gen_scope_stmts(stmts.subrange(i as int, n as int))),
            ensures
                self.input == old(self).input,
                self.error_handler == old(self).error_handler,
                i == n,
                generated@.data == Seq::<Seq<char>>::empty(),
                generated@.rodata == Seq::<Seq<char>>::empty(),
                generated@.bss == Seq::<Seq<char>>::empty(),
                whole == gen_glue(generated@.text, gen_scope_stmts(stmts.subrange(i as int, n as int))),
            decreases n - i,
        {
            if i >= n {
                break;
            }
            proof {
                lemma_stmts_view(self.input.children@);
                assert(stmts.subrange(i as int, n as int)[0] == stmts[i as int]);
                assert(stmts.subrange(i as int, n as int).subrange(
                    1,
                    stmts.subrange(i as int, n as int).len() as int,
                ) =~= stmts.subrange(i + 1, n as int));
            }
            let ghost ns = stmts[i as int].nodes;
            let m = self.input.children[i].children.len();
            proof {
                lemma_nodes_view(self.input.children@[i as int].children@);
                assert(ns == nodes_view(self.input.children@[i as int].children@));
                assert(ns.len() == m);
                assert(ns.subrange(0, ns.len() as int) =~= ns);
            }
            let mut j: usize = 0;
            loop
                invariant
                    self.input == old(self).input,
                    self.error_handler == old(self).error_handler,
                    n == self.input.children@.len(),
                    stmts == old(self).input_view().stmts,
                    whole == gen_scope_stmts(stmts),
                    stmts == stmts_view(self.input.children@),
                    stmts.len() == n,
                    0 <= i < n,
                    ns == stmts[i as int].nodes,
                    m == ns.len(),
                    m == self.input.children@[i as int].children@.len(),
                    0 <= j <= m,
                    generated@.data == Seq::<Seq<char>>::empty(),
                    generated@.rodata == Seq::<Seq<char>>::empty(),
                    generated@.bss == Seq::<Seq<char>>::empty(),
                    whole == gen_glue(generated@.text, match gen_stmt_nodes(
                        ns.subrange(j as int, m as int),
                    ) {
                        Err(e) => Err::<Seq<Seq<char>>, Report>(e),
                        Ok(es) => match gen_scope_stmts(stmts.subrange(i + 1, n as int)) {
                            Err(e) => Err::<Seq<Seq<char>>, Report>(e),
                            Ok(rest) => Ok::<Seq<Seq<char>>, Report>(es + rest),
                        },
                    }),
                ensures
                    self.input == old(self).input,
                    self.error_handler == old(self).error_handler,
                    j == m,
                    generated@.data == Seq::<Seq<char>>::empty(),
                    generated@.rodata == Seq::<Seq<char>>::empty(),
                    generated@.bss == Seq::<Seq<char>>::empty(),
                    whole == gen_glue(generated@.text, match gen_stmt_nodes(
                        ns.subrange(j as int, m as int),
                    ) {
                        Err(e) => Err::<Seq<Seq<char>>, Report>(e),
                        Ok(es) => match gen_scope_stmts(stmts.subrange(i + 1, n as int)) {
                            Err(e) => Err::<Seq<Seq<char>>, Report>(e),
                            Ok(rest) => Ok::<Seq<Seq<char>>, Report>(es + rest),
                        },
                    }),
                decreases m - j,
            {
                if j >= m {
                    break;
                }
                let ghost nj = ns.subrange(j as int, m as int);
                proof {
                    lemma_stmts_view(self.input.children@);
                    assert(stmts[i as int] == crate::structure::stmt_view(
                        self.input.children@[i as int],
                    ));
                    assert(ns == crate::structure::nodes_view(
                        self.input.children@[i as int].children@,
                    ));
                    lemma_nodes_view(self.input.children@[i as int].children@);
                    assert(nj[0] == ns[j as int]);
                    assert(nj[0] == crate::structure::node_view(
                        self.input.children@[i as int].children@[j as int],
                    ));
                    assert(nj.subrange(1, nj.len() as int) =~= ns.subrange(j + 1, m as int));
                    if j + 1 < m {
                        assert(nj[1] == ns[j + 1]);
                        assert(nj[1] == crate::structure::node_view(
                            self.input.children@[i as int].children@[j + 1],
                        ));
                        assert(nj.subrange(2, nj.len() as int) =~= ns.subrange(j + 2, m as int));
                    }
                }
                let node_line = self.input.children[i].children[j].line;
                let node_column = self.input.children[i].children[j].column;
                match self.input.children[i].children[j].node_type {
                    AstNodeType::FunctionKeyword => {
                        if j + 1 >= m {
                            return Err(self.error_handler.comperr(
                                node_line,
                                node_column,
                                String::from_str("Expected function identifier node to have value"),
                                Some(String::from_str(
                                    "Please report this error to GitHub: https://github.com/AmosBarSinai/sabbahc/issues",
                                )),
                            ));
                        }
                        let ok_fi = matches!(
                            self.input.children[i].children[j + 1].node_type,
                            AstNodeType::FunctionIdent,
                        ) && matches!(
                            self.input.children[i].children[j + 1].value,
                            Some(AstNodeValue::FunctionIdent(_)),
                        );
                        if !ok_fi {
                            return Err(self.error_handler.comperr(
                                node_line,
                                node_column,
                                String::from_str("Expected function identifier node to have value"),
                                Some(String::from_str(
                                    "Please report this error to GitHub: https://github.com/AmosBarSinai/sabbahc/issues",
                                )),
                            ));
                        }
                        let name = match &self.input.children[i].children[j + 1].value {
                            Some(AstNodeValue::FunctionIdent(name)) => name.clone(),
                            _ => {
                                proof {
                                    assert(false);
                                }
                                String::new()
                            },
                        };
                        let mut line = String::from_str("    ");
                        line.append(name.as_str());
                        line.append(":\n");
                        proof {
                            assert(name@ == nj[1].value->Some_0->FunctionIdent_0);
                            assert(line@ =~= label_line(nj[1].value->Some_0->FunctionIdent_0));
                            lemma_strs_view_push(generated.text.entries@, line);
                            lemma_gen_glue_cons(
                                generated@.text,
                                line@,
                                match gen_stmt_nodes(ns.subrange(j + 2, m as int)) {
                                    Err(e) => Err::<Seq<Seq<char>>, Report>(e),
                                    Ok(es) => match gen_scope_stmts(
                                        stmts.subrange(i + 1, n as int),
                                    ) {
                                        Err(e) => Err::<Seq<Seq<char>>, Report>(e),
                                        Ok(rest) => Ok::<Seq<Seq<char>>, Report>(es + rest),
                                    },
                                },
                            );
                            if gen_stmt_nodes(ns.subrange(j + 2, m as int)) is Ok
                                && gen_scope_stmts(stmts.subrange(i + 1, n as int)) is Ok {
                                let es = gen_stmt_nodes(ns.subrange(j + 2, m as int))->Ok_0;
                                let rest = gen_scope_stmts(stmts.subrange(i + 1, n as int))->Ok_0;
                                assert(seq![line@] + (es + rest) =~= (seq![line@] + es) + rest);
                            }
                        }
                        generated.text.entries.push(line);
                        self.indent = if self.indent < usize::MAX {
                            self.indent + 1
                        } else {
                            self.indent
                        };
                        j = j + 2;
                    },
                    AstNodeType::ParamTypeTuple => {
                        j = j + 1;
                    },
                    AstNodeType::TypeIdent => {
                        j = j + 1;
                    },
                    AstNodeType::Scope => {
                        j = j + 1;
                    },
                    _ => {
                        return Err(self.error_handler.comperr(
                            node_line,
                            node_column,
                            String::from_str("Unimplemented branch in code generator"),
                            Some(String::from_str(
                                "Please report this error to GitHub: https://github.com/AmosBarSinai/sabbahc/issues",
                            )),
                        ));
                    },
                }
            }
            proof {
                assert(ns.subrange(m as int, m as int) =~= Seq::<SpecNode>::empty());
            }
            i = i + 1;
        }
        proof {
            assert(stmts.subrange(n as int, n as int) =~= Seq::<SpecStatement>::empty());
            match whole {
                Ok(es) => {
                    assert(generated@.text + Seq::<Seq<char>>::empty() =~= generated@.text);
                },
                Err(_) => {},
            }
        }
        let s = generated.to_string();
        proof {
            assert(section_text(".section .data\n"@, generated@.data) =~= Seq::<char>::empty());
            assert(section_text(".section .rodata\n"@, generated@.rodata) =~= Seq::<char>::empty());
            assert(section_text(".section .bss\n"@, generated@.bss) =~= Seq::<char>::empty());
            assert(s@ =~= section_text(".section .text\n"@, generated@.text));
        }
        Ok(s)
    }
}

} // verus!
