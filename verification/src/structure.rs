//! The abstract-syntax-tree data model.
//!
//! A `Scope` is an ordered sequence of `Statement`s; a `Statement` is an
//! ordered sequence of `AstNode`s, terminated by a semicolon or by a
//! completed nested-scope block.  An `AstNode` pairs a kind discriminant with
//! an optional payload and its source position; whether a payload is present
//! is fixed per kind at construction.  Ownership is strictly tree-shaped:
//! nested scopes hold owned child containers, and a type-annotation node
//! holds an owned copy of the registry's `Type` rather than a reference.

pub mod parser;

use vstd::prelude::*;

use crate::typing::Type;

verus! {

/// The kind discriminant of an AST node.
#[derive(Debug, Clone, Copy, PartialEq, Eq, Hash, Structural)]
pub enum AstNodeType {
    Scope,
    ReturnKeyword,
    Expression,
    FunctionKeyword,
    FunctionIdent,
    ParamTypeTuple,
    TypeIdent,
    ThinArrow,
}

/// The payload of an AST node, for the kinds that carry one.
#[derive(Debug, PartialEq, Eq)]
pub enum AstNodeValue {
    Scope(Scope),
    Expression(Expression),
    FunctionIdent(String),
    ParamTypeTuple(ParamTypeTuple),
    TypeIdent(Type),
}

/// One syntactic construct in the parsed tree, with its source position.
#[derive(Debug, PartialEq, Eq)]
pub struct AstNode {
    pub line: usize,
    pub column: usize,
    pub node_type: AstNodeType,
    pub value: Option<AstNodeValue>,
}

/// The empty parameter tuple: parameter lists beyond `()` are not yet part
/// of the language.
#[derive(Debug, PartialEq, Eq)]
pub struct ParamTypeTuple {}

/// An expression together with the type it evaluates to.  The only content
/// so far is an unsigned 8-bit integer literal; this is the seam where a
/// future expression grammar plugs in.
#[derive(Debug, PartialEq, Eq)]
pub struct Expression {
    pub eval_type: Type,
    pub content: u8,
}

/// An ordered sequence of AST nodes forming one statement.
#[derive(Debug, PartialEq, Eq)]
pub struct Statement {
    pub children: Vec<AstNode>,
}

/// An ordered sequence of statements; `is_outer` marks the top-level scope
/// of a compilation unit.
#[derive(Debug, PartialEq, Eq)]
pub struct Scope {
    pub children: Vec<Statement>,
    pub is_outer: bool,
}

/// The mathematical image of a `Scope`.
#[verifier::ext_equal]
pub ghost struct SpecScope {
    pub stmts: Seq<SpecStatement>,
    pub is_outer: bool,
}

/// The mathematical image of a `Statement`.
#[verifier::ext_equal]
pub ghost struct SpecStatement {
    pub nodes: Seq<SpecNode>,
}

/// The mathematical image of an `AstNode`.
#[verifier::ext_equal]
pub ghost struct SpecNode {
    pub line: int,
    pub column: int,
    pub kind: AstNodeType,
    pub value: Option<SpecNodeValue>,
}

/// The mathematical image of an `AstNodeValue`.
#[verifier::ext_equal]
pub ghost enum SpecNodeValue {
    Scope(SpecScope),
    Expression(SpecExpression),
    FunctionIdent(Seq<char>),
    ParamTypeTuple,
    TypeIdent(Type),
}

/// The mathematical image of an `Expression`.
#[verifier::ext_equal]
pub ghost struct SpecExpression {
    pub eval_type: Type,
    pub content: u8,
}

pub open spec fn scope_view(s: Scope) -> SpecScope
    decreases s,
{
    SpecScope { stmts: stmts_view(s.children@), is_outer: s.is_outer }
}

pub open spec fn stmts_view(ss: Seq<Statement>) -> Seq<SpecStatement>
    decreases ss,
{
    if ss.len() == 0 {
        Seq::empty()
    } else {
        stmts_view(ss.subrange(0, ss.len() - 1)).push(stmt_view(ss[ss.len() - 1]))
    }
}

pub open spec fn stmt_view(st: Statement) -> SpecStatement
    decreases st,
{
    SpecStatement { nodes: nodes_view(st.children@) }
}

pub open spec fn nodes_view(ns: Seq<AstNode>) -> Seq<SpecNode>
    decreases ns,
{
    if ns.len() == 0 {
        Seq::empty()
    } else {
        nodes_view(ns.subrange(0, ns.len() - 1)).push(node_view(ns[ns.len() - 1]))
    }
}

pub open spec fn node_view(n: AstNode) -> SpecNode
    decreases n,
{
    SpecNode {
        line: n.line as int,
        column: n.column as int,
        kind: n.node_type,
        value: match n.value {
            Some(v) => Some(value_view(v)),
            None => None,
        },
    }
}

pub open spec fn value_view(v: AstNodeValue) -> SpecNodeValue
    decreases v,
{
    match v {
        AstNodeValue::Scope(s) => SpecNodeValue::Scope(scope_view(s)),
        AstNodeValue::Expression(e) => SpecNodeValue::Expression(
            SpecExpression { eval_type: e.eval_type, content: e.content },
        ),
        AstNodeValue::FunctionIdent(s) => SpecNodeValue::FunctionIdent(s@),
        AstNodeValue::ParamTypeTuple(_) => SpecNodeValue::ParamTypeTuple,
        AstNodeValue::TypeIdent(t) => SpecNodeValue::TypeIdent(t),
    }
}

impl View for Scope {
    type V = SpecScope;

    open spec fn view(&self) -> SpecScope {
        scope_view(*self)
    }
}

impl View for Statement {
    type V = SpecStatement;

    open spec fn view(&self) -> SpecStatement {
        stmt_view(*self)
    }
}

impl View for AstNode {
    type V = SpecNode;

    open spec fn view(&self) -> SpecNode {
        node_view(*self)
    }
}

impl View for Expression {
    type V = SpecExpression;

    open spec fn view(&self) -> SpecExpression {
        SpecExpression { eval_type: self.eval_type, content: self.content }
    }
}

impl AstNodeType {
    /// A bare function-keyword node.
    pub fn fk(line: usize, column: usize) -> (n: AstNode)
        ensures
            n@ == (SpecNode {
                line: line as int,
                column: column as int,
                kind: AstNodeType::FunctionKeyword,
                value: None,
            }),
    {
        AstNode { line, column, node_type: AstNodeType::FunctionKeyword, value: None }
    }
}

impl AstNode {
    /// A node wrapping a nested scope.
    pub fn scope(input: Scope, line: usize, column: usize) -> (n: AstNode)
        ensures
            n@ == (SpecNode {
                line: line as int,
                column: column as int,
                kind: AstNodeType::Scope,
                value: Some(SpecNodeValue::Scope(input@)),
            }),
    {
        AstNode {
            line,
            column,
            node_type: AstNodeType::Scope,
            value: Some(AstNodeValue::Scope(input)),
        }
    }

    /// A return node carrying its 8-bit literal expression.
    pub fn ret(content: u8, line: usize, column: usize) -> (n: AstNode)
        ensures
            n@ == (SpecNode {
                line: line as int,
                column: column as int,
                kind: AstNodeType::ReturnKeyword,
                value: Some(SpecNodeValue::Expression(
                    SpecExpression { eval_type: Type::uint8_spec(), content },
                )),
            }),
    {
        AstNode {
            line,
            column,
            node_type: AstNodeType::ReturnKeyword,
            value: Some(AstNodeValue::Expression(Expression::new(content))),
        }
    }

    /// A function-identifier node.
    pub fn fi(funcident: String, line: usize, column: usize) -> (n: AstNode)
        ensures
            n@ == (SpecNode {
                line: line as int,
                column: column as int,
                kind: AstNodeType::FunctionIdent,
                value: Some(SpecNodeValue::FunctionIdent(funcident@)),
            }),
    {
        AstNode {
            line,
            column,
            node_type: AstNodeType::FunctionIdent,
            value: Some(AstNodeValue::FunctionIdent(funcident)),
        }
    }

    /// An empty parameter-tuple node.
    pub fn tup(line: usize, column: usize) -> (n: AstNode)
        ensures
            n@ == (SpecNode {
                line: line as int,
                column: column as int,
                kind: AstNodeType::ParamTypeTuple,
                value: Some(SpecNodeValue::ParamTypeTuple),
            }),
    {
        AstNode {
            line,
            column,
            node_type: AstNodeType::ParamTypeTuple,
            value: Some(AstNodeValue::ParamTypeTuple(ParamTypeTuple {})),
        }
    }

    /// A type-annotation node; the type it references always comes from the
    /// type registry.
    pub fn ti(typeident: Type, line: usize, column: usize) -> (n: AstNode)
        ensures
            n@ == (SpecNode {
                line: line as int,
                column: column as int,
                kind: AstNodeType::TypeIdent,
                value: Some(SpecNodeValue::TypeIdent(typeident)),
            }),
    {
        AstNode {
            line,
            column,
            node_type: AstNodeType::TypeIdent,
            value: Some(AstNodeValue::TypeIdent(typeident)),
        }
    }
}

impl Expression {
    /// An 8-bit literal expression; its type is the builtin `uint8`.
    pub fn new(content: u8) -> (e: Expression)
        ensures
            e@ == (SpecExpression { eval_type: Type::uint8_spec(), content }),
    {
        Expression { eval_type: Type::uint8(), content }
    }
}

/// `stmts_view` maps the statements pointwise.
pub proof fn lemma_stmts_view(ss: Seq<Statement>)
    ensures
        stmts_view(ss).len() == ss.len(),
        forall|i: int| 0 <= i < ss.len() ==> stmts_view(ss)[i] == stmt_view(ss[i]),
    decreases ss.len(),
{
    if ss.len() > 0 {
        lemma_stmts_view(ss.subrange(0, ss.len() - 1));
    }
}

/// `nodes_view` maps the nodes pointwise.
pub proof fn lemma_nodes_view(ns: Seq<AstNode>)
    ensures
        nodes_view(ns).len() == ns.len(),
        forall|i: int| 0 <= i < ns.len() ==> nodes_view(ns)[i] == node_view(ns[i]),
    decreases ns.len(),
{
    if ns.len() > 0 {
        lemma_nodes_view(ns.subrange(0, ns.len() - 1));
    }
}

/// Appending a statement appends its image.
pub proof fn lemma_stmts_view_push(ss: Seq<Statement>, st: Statement)
    ensures
        stmts_view(ss.push(st)) =~= stmts_view(ss).push(stmt_view(st)),
{
    assert(ss.push(st).subrange(0, ss.push(st).len() - 1) =~= ss);
}

/// Appending a node appends its image.
pub proof fn lemma_nodes_view_push(ns: Seq<AstNode>, n: AstNode)
    ensures
        nodes_view(ns.push(n)) =~= nodes_view(ns).push(node_view(n)),
{
    assert(ns.push(n).subrange(0, ns.push(n).len() - 1) =~= ns);
}

impl Statement {
    pub fn new() -> (st: Statement)
        ensures
            st@.nodes =~= Seq::<SpecNode>::empty(),
    {
        Statement { children: Vec::new() }
    }

    pub fn push(&mut self, child: AstNode)
        ensures
            final(self)@.nodes =~= old(self)@.nodes.push(child@),
    {
        self.children.push(child);
        proof {
            lemma_nodes_view_push(old(self).children@, child);
        }
    }
}

} // verus!
