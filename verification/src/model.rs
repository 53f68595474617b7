//! Syntax trees as mathematical values: sequences in place of vectors, and
//! sequences of characters in place of strings.
use crate::ast::{Span, UnaryOp, VarKind};
use vstd::prelude::*;

verus! {

/// An identifier: symbol and scope.
pub struct SpecIdent {
    pub sym: Seq<char>,
    pub ctxt: u32,
}

pub enum SpecText {
    Unicode(Seq<char>),
    Surrogates(Seq<u8>),
}

pub struct SpecStr {
    pub value: SpecText,
    pub raw: Option<Seq<char>>,
}

pub enum SpecLit {
    Str(SpecStr),
    Bool(bool),
    Null,
    Num(Seq<char>),
    BigInt(Seq<char>),
    Regex { exp: Seq<char>, flags: Seq<char> },
    JsxText(Seq<char>),
}

pub enum SpecExpr {
    Lit(SpecLit),
    Ident(SpecIdent),
    Arrow(Seq<SpecNode>),
    Fn(Seq<SpecNode>),
    Unary { op: UnaryOp, arg: Box<SpecExpr> },
    Tpl { exprs: Seq<SpecExpr> },
    Object(Seq<SpecEntry>),
    Array { elems: Seq<Option<SpecArg>> },
    Paren(Box<SpecExpr>),
    Call(SpecCall),
    Member { obj: Box<SpecExpr>, prop: Seq<SpecNode> },
    Other(Seq<SpecNode>),
}

pub struct SpecArg {
    pub spread: bool,
    pub expr: SpecExpr,
}

pub enum SpecEntry {
    Spread { span: Span, expr: SpecExpr },
    Prop { span: Span, prop: SpecProp },
}

pub enum SpecProp {
    Shorthand(SpecIdent),
    KeyValue { key: SpecKey, value: SpecExpr },
    Assign { name: SpecIdent, value: SpecExpr },
    Getter(Seq<SpecNode>),
    Setter(Seq<SpecNode>),
    Method(Seq<SpecNode>),
}

pub enum SpecKey {
    Ident(Seq<char>),
    Str(SpecStr),
    Num(Seq<char>),
    BigInt(Seq<char>),
    Computed(Box<SpecExpr>),
}

pub enum SpecCallee {
    Super,
    Import,
    Expr(Box<SpecExpr>),
}

pub struct SpecCall {
    pub span: Span,
    pub callee: SpecCallee,
    pub args: Seq<SpecArg>,
    pub type_args: Seq<SpecNode>,
}

pub enum SpecExportName {
    Ident(Seq<char>),
    Str(SpecText),
}

pub enum SpecSpecifier {
    Named { local: SpecIdent, imported: Option<SpecExportName>, type_only: bool },
    Namespace { local: SpecIdent },
    Default { local: SpecIdent },
}

pub struct SpecImport {
    pub src: SpecText,
    pub type_only: bool,
    pub specifiers: Seq<SpecSpecifier>,
}

pub enum SpecPat {
    Ident { id: SpecIdent, ann: Seq<SpecNode> },
    Other(Seq<SpecNode>),
}

pub struct SpecDeclarator {
    pub name: SpecPat,
    pub init: Option<SpecExpr>,
}

pub struct SpecVar {
    pub kind: VarKind,
    pub decls: Seq<SpecDeclarator>,
}

pub enum SpecNode {
    Import(SpecImport),
    Var(SpecVar),
    Expr(SpecExpr),
}

} // verus!
