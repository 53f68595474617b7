//! Syntax trees, reduced to what call-site analysis reads and rewrites.
//!
//! A tree keeps every import, variable declaration, call and object literal
//! of a program, in source order. Syntax that carries no decision of its own
//! (statements, classes, function bodies, binary operators, ...) is reduced to
//! the list of nodes it contains, in the order in which they are written.
//!
//! Every type here has a mathematical counterpart in [`crate::model`], which
//! is its view.
use crate::model::{
    SpecArg, SpecCall, SpecCallee, SpecDeclarator, SpecEntry, SpecExportName, SpecExpr, SpecIdent,
    SpecImport, SpecKey, SpecLit, SpecNode, SpecPat, SpecProp, SpecSpecifier, SpecStr, SpecText,
    SpecVar,
};
use vstd::prelude::*;

verus! {

/// A half-open range of byte offsets in the source. Synthesised nodes carry
/// the range `0..0`.
#[derive(Debug, Clone, Copy, PartialEq, Eq, Structural)]
pub struct Span {
    pub lo: u32,
    pub hi: u32,
}

/// An identifier: its symbol, and the scope in which the resolver found the
/// binding it refers to. Two identifiers name one binding exactly when both
/// parts agree.
#[derive(Debug)]
pub struct Ident {
    pub sym: String,
    pub ctxt: u32,
}

/// The value of a string literal. A JavaScript string may hold unpaired
/// surrogates, which no Rust string can: such a value keeps its WTF-8 bytes.
#[derive(Debug)]
pub enum Text {
    Unicode(String),
    Surrogates(Vec<u8>),
}

/// A string literal: its value, and the source text it was written with.
#[derive(Debug)]
pub struct StrLit {
    pub value: Text,
    pub raw: Option<String>,
}

#[derive(Debug)]
pub enum Lit {
    Str(StrLit),
    Bool(bool),
    Null,
    /// A number, by the text it is written with.
    Num(String),
    BigInt(String),
    Regex { exp: String, flags: String },
    JsxText(String),
}

#[derive(Debug, Clone, Copy, PartialEq, Eq, Structural)]
pub enum UnaryOp {
    Minus,
    Plus,
    Bang,
    Tilde,
    TypeOf,
    Void,
    Delete,
}

/// An expression.
#[derive(Debug)]
pub enum Expr {
    Lit(Lit),
    Ident(Ident),
    /// An arrow function, by the nodes in its parameters and body.
    Arrow(Vec<Node>),
    /// A function expression, by the nodes in its parameters and body.
    Fn(Vec<Node>),
    Unary { op: UnaryOp, arg: Box<Expr> },
    /// A template literal, by its substitutions.
    Tpl { exprs: Vec<Expr> },
    Object(ObjectLit),
    Array { elems: Vec<Option<ExprOrSpread>> },
    Paren(Box<Expr>),
    Call(CallExpr),
    /// `obj.name` or `obj[..]`, with the nodes inside the brackets.
    Member { obj: Box<Expr>, prop: Vec<Node> },
    /// Any other expression, by the nodes in it.
    Other(Vec<Node>),
}

/// A call argument or array element.
#[derive(Debug)]
pub struct ExprOrSpread {
    pub spread: bool,
    pub expr: Expr,
}

#[derive(Debug)]
pub struct ObjectLit {
    pub props: Vec<PropOrSpread>,
}

/// One entry of an object literal.
#[derive(Debug)]
pub enum PropOrSpread {
    Spread { span: Span, expr: Expr },
    Prop { span: Span, prop: Prop },
}

#[derive(Debug)]
pub enum Prop {
    /// `a` in `{ a }`.
    Shorthand(Ident),
    KeyValue { key: PropName, value: Expr },
    /// `a = 1` in `{ a = 1 }`, which no object literal may hold.
    Assign { name: Ident, value: Expr },
    Getter(Vec<Node>),
    Setter(Vec<Node>),
    Method(Vec<Node>),
}

/// The key of a property.
#[derive(Debug)]
pub enum PropName {
    Ident(String),
    Str(StrLit),
    Num(String),
    BigInt(String),
    Computed(Box<Expr>),
}

#[derive(Debug)]
pub enum Callee {
    Super,
    Import,
    Expr(Box<Expr>),
}

#[derive(Debug)]
pub struct CallExpr {
    pub span: Span,
    pub callee: Callee,
    pub args: Vec<ExprOrSpread>,
    /// The nodes in the type arguments.
    pub type_args: Vec<Node>,
}

/// The imported name of `import { name as local }`.
#[derive(Debug)]
pub enum ExportName {
    Ident(String),
    Str(Text),
}

#[derive(Debug)]
pub enum ImportSpecifier {
    Named { local: Ident, imported: Option<ExportName>, type_only: bool },
    Namespace { local: Ident },
    Default { local: Ident },
}

#[derive(Debug)]
pub struct ImportDecl {
    pub src: Text,
    pub type_only: bool,
    pub specifiers: Vec<ImportSpecifier>,
}

#[derive(Debug, Clone, Copy, PartialEq, Eq, Structural)]
pub enum VarKind {
    Var,
    Let,
    Const,
}

/// A binding pattern.
#[derive(Debug)]
pub enum Pat {
    /// A plain identifier, with the nodes in its type annotation.
    Ident { id: Ident, ann: Vec<Node> },
    /// A destructuring pattern, by the nodes in it.
    Other(Vec<Node>),
}

#[derive(Debug)]
pub struct VarDeclarator {
    pub name: Pat,
    pub init: Option<Expr>,
}

#[derive(Debug)]
pub struct VarDecl {
    pub kind: VarKind,
    pub decls: Vec<VarDeclarator>,
}

/// A node of the tree.
#[derive(Debug)]
pub enum Node {
    Import(ImportDecl),
    Var(VarDecl),
    Expr(Expr),
}

/// A whole program: its outermost nodes, in source order.
#[derive(Debug)]
pub struct Program {
    pub body: Vec<Node>,
}

impl View for Text {
    type V = SpecText;

    open spec fn view(&self) -> SpecText {
        match self {
            Text::Unicode(s) => SpecText::Unicode(s@),
            Text::Surrogates(b) => SpecText::Surrogates(b@),
        }
    }
}

impl View for Ident {
    type V = SpecIdent;

    open spec fn view(&self) -> SpecIdent {
        SpecIdent { sym: self.sym@, ctxt: self.ctxt }
    }
}

impl View for StrLit {
    type V = SpecStr;

    open spec fn view(&self) -> SpecStr {
        SpecStr {
            value: self.value@,
            raw: match self.raw {
                Some(s) => Some(s@),
                None => None,
            },
        }
    }
}

impl View for Lit {
    type V = SpecLit;

    open spec fn view(&self) -> SpecLit {
        match self {
            Lit::Str(s) => SpecLit::Str(s@),
            Lit::Bool(b) => SpecLit::Bool(*b),
            Lit::Null => SpecLit::Null,
            Lit::Num(s) => SpecLit::Num(s@),
            Lit::BigInt(s) => SpecLit::BigInt(s@),
            Lit::Regex { exp, flags } => SpecLit::Regex { exp: exp@, flags: flags@ },
            Lit::JsxText(s) => SpecLit::JsxText(s@),
        }
    }
}

pub open spec fn expr_view(e: Expr) -> SpecExpr
    decreases e,
{
    match e {
        Expr::Lit(l) => SpecExpr::Lit(l@),
        Expr::Ident(id) => SpecExpr::Ident(id@),
        Expr::Arrow(ns) => SpecExpr::Arrow(nodes_view(ns@)),
        Expr::Fn(ns) => SpecExpr::Fn(nodes_view(ns@)),
        Expr::Unary { op, arg } => SpecExpr::Unary { op, arg: Box::new(expr_view(*arg)) },
        Expr::Tpl { exprs } => SpecExpr::Tpl { exprs: exprs_view(exprs@) },
        Expr::Object(obj) => SpecExpr::Object(props_view(obj.props@)),
        Expr::Array { elems } => SpecExpr::Array { elems: elems_view(elems@) },
        Expr::Paren(inner) => SpecExpr::Paren(Box::new(expr_view(*inner))),
        Expr::Call(call) => SpecExpr::Call(call_view(call)),
        Expr::Member { obj, prop } => SpecExpr::Member {
            obj: Box::new(expr_view(*obj)),
            prop: nodes_view(prop@),
        },
        Expr::Other(ns) => SpecExpr::Other(nodes_view(ns@)),
    }
}

pub open spec fn call_view(call: CallExpr) -> SpecCall
    decreases call,
{
    SpecCall {
        span: call.span,
        callee: callee_view(call.callee),
        args: args_view(call.args@),
        type_args: nodes_view(call.type_args@),
    }
}

pub open spec fn callee_view(callee: Callee) -> SpecCallee
    decreases callee,
{
    match callee {
        Callee::Super => SpecCallee::Super,
        Callee::Import => SpecCallee::Import,
        Callee::Expr(e) => SpecCallee::Expr(Box::new(expr_view(*e))),
    }
}

pub open spec fn arg_view(arg: ExprOrSpread) -> SpecArg
    decreases arg,
{
    SpecArg { spread: arg.spread, expr: expr_view(arg.expr) }
}

pub open spec fn elem_view(elem: Option<ExprOrSpread>) -> Option<SpecArg>
    decreases elem,
{
    match elem {
        Some(arg) => Some(arg_view(arg)),
        None => None,
    }
}

pub open spec fn key_view(key: PropName) -> SpecKey
    decreases key,
{
    match key {
        PropName::Ident(s) => SpecKey::Ident(s@),
        PropName::Str(s) => SpecKey::Str(s@),
        PropName::Num(s) => SpecKey::Num(s@),
        PropName::BigInt(s) => SpecKey::BigInt(s@),
        PropName::Computed(e) => SpecKey::Computed(Box::new(expr_view(*e))),
    }
}

pub open spec fn prop_view(prop: Prop) -> SpecProp
    decreases prop,
{
    match prop {
        Prop::Shorthand(id) => SpecProp::Shorthand(id@),
        Prop::KeyValue { key, value } => SpecProp::KeyValue {
            key: key_view(key),
            value: expr_view(value),
        },
        Prop::Assign { name, value } => SpecProp::Assign { name: name@, value: expr_view(value) },
        Prop::Getter(ns) => SpecProp::Getter(nodes_view(ns@)),
        Prop::Setter(ns) => SpecProp::Setter(nodes_view(ns@)),
        Prop::Method(ns) => SpecProp::Method(nodes_view(ns@)),
    }
}

pub open spec fn entry_view(entry: PropOrSpread) -> SpecEntry
    decreases entry,
{
    match entry {
        PropOrSpread::Spread { span, expr } => SpecEntry::Spread { span, expr: expr_view(expr) },
        PropOrSpread::Prop { span, prop } => SpecEntry::Prop { span, prop: prop_view(prop) },
    }
}

pub open spec fn pat_view(pat: Pat) -> SpecPat
    decreases pat,
{
    match pat {
        Pat::Ident { id, ann } => SpecPat::Ident { id: id@, ann: nodes_view(ann@) },
        Pat::Other(ns) => SpecPat::Other(nodes_view(ns@)),
    }
}

pub open spec fn declarator_view(decl: VarDeclarator) -> SpecDeclarator
    decreases decl,
{
    SpecDeclarator {
        name: pat_view(decl.name),
        init: match decl.init {
            Some(e) => Some(expr_view(e)),
            None => None,
        },
    }
}

pub open spec fn var_view(decl: VarDecl) -> SpecVar
    decreases decl,
{
    SpecVar { kind: decl.kind, decls: declarators_view(decl.decls@) }
}

pub open spec fn node_view(node: Node) -> SpecNode
    decreases node,
{
    match node {
        Node::Import(decl) => SpecNode::Import(decl@),
        Node::Var(decl) => SpecNode::Var(var_view(decl)),
        Node::Expr(e) => SpecNode::Expr(expr_view(e)),
    }
}

pub open spec fn nodes_view(ns: Seq<Node>) -> Seq<SpecNode>
    decreases ns,
{
    Seq::new(
        ns.len(),
        |i: int|
            if 0 <= i < ns.len() {
                node_view(ns[i])
            } else {
                arbitrary()
            },
    )
}

pub open spec fn exprs_view(es: Seq<Expr>) -> Seq<SpecExpr>
    decreases es,
{
    Seq::new(
        es.len(),
        |i: int|
            if 0 <= i < es.len() {
                expr_view(es[i])
            } else {
                arbitrary()
            },
    )
}

pub open spec fn props_view(ps: Seq<PropOrSpread>) -> Seq<SpecEntry>
    decreases ps,
{
    Seq::new(
        ps.len(),
        |i: int|
            if 0 <= i < ps.len() {
                entry_view(ps[i])
            } else {
                arbitrary()
            },
    )
}

pub open spec fn args_view(args: Seq<ExprOrSpread>) -> Seq<SpecArg>
    decreases args,
{
    Seq::new(
        args.len(),
        |i: int|
            if 0 <= i < args.len() {
                arg_view(args[i])
            } else {
                arbitrary()
            },
    )
}

pub open spec fn elems_view(elems: Seq<Option<ExprOrSpread>>) -> Seq<Option<SpecArg>>
    decreases elems,
{
    Seq::new(
        elems.len(),
        |i: int|
            if 0 <= i < elems.len() {
                elem_view(elems[i])
            } else {
                arbitrary()
            },
    )
}

pub open spec fn declarators_view(ds: Seq<VarDeclarator>) -> Seq<SpecDeclarator>
    decreases ds,
{
    Seq::new(
        ds.len(),
        |i: int|
            if 0 <= i < ds.len() {
                declarator_view(ds[i])
            } else {
                arbitrary()
            },
    )
}

impl View for ExportName {
    type V = SpecExportName;

    open spec fn view(&self) -> SpecExportName {
        match self {
            ExportName::Ident(s) => SpecExportName::Ident(s@),
            ExportName::Str(t) => SpecExportName::Str(t@),
        }
    }
}

impl View for ImportSpecifier {
    type V = SpecSpecifier;

    open spec fn view(&self) -> SpecSpecifier {
        match self {
            ImportSpecifier::Named { local, imported, type_only } => SpecSpecifier::Named {
                local: local@,
                imported: match imported {
                    Some(name) => Some(name@),
                    None => None,
                },
                type_only: *type_only,
            },
            ImportSpecifier::Namespace { local } => SpecSpecifier::Namespace { local: local@ },
            ImportSpecifier::Default { local } => SpecSpecifier::Default { local: local@ },
        }
    }
}

impl View for ImportDecl {
    type V = SpecImport;

    open spec fn view(&self) -> SpecImport {
        SpecImport {
            src: self.src@,
            type_only: self.type_only,
            specifiers: self.specifiers@.map_values(|s: ImportSpecifier| s@),
        }
    }
}

impl View for Expr {
    type V = SpecExpr;

    open spec fn view(&self) -> SpecExpr {
        expr_view(*self)
    }
}

impl View for ObjectLit {
    type V = Seq<SpecEntry>;

    open spec fn view(&self) -> Seq<SpecEntry> {
        props_view(self.props@)
    }
}

impl View for PropOrSpread {
    type V = SpecEntry;

    open spec fn view(&self) -> SpecEntry {
        entry_view(*self)
    }
}

impl View for Prop {
    type V = SpecProp;

    open spec fn view(&self) -> SpecProp {
        prop_view(*self)
    }
}

impl View for PropName {
    type V = SpecKey;

    open spec fn view(&self) -> SpecKey {
        key_view(*self)
    }
}

impl View for CallExpr {
    type V = SpecCall;

    open spec fn view(&self) -> SpecCall {
        call_view(*self)
    }
}

impl View for VarDecl {
    type V = SpecVar;

    open spec fn view(&self) -> SpecVar {
        var_view(*self)
    }
}

impl View for VarDeclarator {
    type V = SpecDeclarator;

    open spec fn view(&self) -> SpecDeclarator {
        declarator_view(*self)
    }
}

impl View for Node {
    type V = SpecNode;

    open spec fn view(&self) -> SpecNode {
        node_view(*self)
    }
}

impl View for Program {
    type V = Seq<SpecNode>;

    open spec fn view(&self) -> Seq<SpecNode> {
        nodes_view(self.body@)
    }
}

/// The view of a list with one more entry.
pub proof fn lemma_props_push(ps: Seq<PropOrSpread>, p: PropOrSpread)
    ensures
        props_view(ps.push(p)) == props_view(ps).push(entry_view(p)),
{
    assert(props_view(ps.push(p)) =~= props_view(ps).push(entry_view(p)));
}

/// The view of two lists, one behind the other.
pub proof fn lemma_props_concat(a: Seq<PropOrSpread>, b: Seq<PropOrSpread>)
    ensures
        props_view(a + b) == props_view(a) + props_view(b),
{
    assert(props_view(a + b) =~= props_view(a) + props_view(b));
}

/// The view of a list with one more element.
pub proof fn lemma_elems_push(es: Seq<Option<ExprOrSpread>>, e: Option<ExprOrSpread>)
    ensures
        elems_view(es.push(e)) == elems_view(es).push(elem_view(e)),
{
    assert(elems_view(es.push(e)) =~= elems_view(es).push(elem_view(e)));
}

} // verus!
