//! Effect and reorder-safety classifiers for prop values.
//!
//! Partitioning moves a prop value away from its source position: all CSS
//! props are evaluated before all DOM props, and special keys move to the
//! tail. Three judgments decide whether a move can be observed.
//!
//! - [`is_effect_free`]: can the expression cause an observable side effect?
//! - [`is_order_inert`]: is the expression's *position* unobservable? Being
//!   free of effects is not enough, since an identifier's value may be changed
//!   by a neighbour's effect.
//! - [`is_static_literal`]: is the value already known at build time? This is
//!   the narrowest judgment, and decides which props a call-site key covers.
use crate::ast::{Expr, ExprOrSpread, Lit, Prop, PropName, PropOrSpread, UnaryOp};
use crate::model::{SpecArg, SpecEntry, SpecExpr, SpecLit, SpecProp};
use vstd::prelude::*;

verus! {

/// An expression without the parentheses around it.
pub open spec fn unparen(e: SpecExpr) -> SpecExpr
    decreases e,
{
    match e {
        SpecExpr::Paren(inner) => unparen(*inner),
        _ => e,
    }
}

/// `-x` or `+x` over a numeric literal.
pub open spec fn numeric_unary(op: UnaryOp, arg: SpecExpr) -> bool {
    (op == UnaryOp::Minus || op == UnaryOp::Plus) && unparen(arg) matches SpecExpr::Lit(
        SpecLit::Num(_),
    )
}

/// An expression whose evaluation runs no code that could be observed:
/// literals, identifiers, function definitions, signed numbers, templates
/// without substitutions, and object or array literals made of those alone.
pub open spec fn effect_free(e: SpecExpr) -> bool
    decreases e,
{
    match e {
        SpecExpr::Paren(inner) => effect_free(*inner),
        SpecExpr::Lit(_) => true,
        SpecExpr::Ident(_) => true,
        SpecExpr::Arrow(_) => true,
        SpecExpr::Fn(_) => true,
        SpecExpr::Unary { op, arg } => numeric_unary(op, *arg),
        SpecExpr::Tpl { exprs } => exprs.len() == 0,
        SpecExpr::Object(props) => effect_free_entries(props),
        SpecExpr::Array { elems } => effect_free_elems(elems),
        _ => false,
    }
}

pub open spec fn effect_free_entries(props: Seq<SpecEntry>) -> bool
    decreases props,
{
    forall|i: int| 0 <= i < props.len() ==> effect_free_entry(#[trigger] props[i])
}

pub open spec fn effect_free_elems(elems: Seq<Option<SpecArg>>) -> bool
    decreases elems,
{
    forall|i: int| 0 <= i < elems.len() ==> effect_free_elem(#[trigger] elems[i])
}

/// An object entry that is effect-free: a shorthand, or a key that is not
/// computed with an effect-free value.
pub open spec fn effect_free_entry(entry: SpecEntry) -> bool
    decreases entry,
{
    match entry {
        SpecEntry::Spread { .. } => false,
        SpecEntry::Prop { prop, .. } => match prop {
            SpecProp::Shorthand(_) => true,
            SpecProp::KeyValue { key, value } => !(key is Computed) && effect_free(value),
            _ => false,
        },
    }
}

/// An array element that is effect-free: a hole, or an effect-free expression
/// that is not spread.
pub open spec fn effect_free_elem(elem: Option<SpecArg>) -> bool
    decreases elem,
{
    match elem {
        None => true,
        Some(arg) => !arg.spread && effect_free(arg.expr),
    }
}

/// An expression whose value is written out in full: a literal, a signed
/// number, or a template without substitutions.
pub open spec fn static_literal(e: SpecExpr) -> bool {
    match unparen(e) {
        SpecExpr::Lit(_) => true,
        SpecExpr::Unary { op, arg } => numeric_unary(op, *arg),
        SpecExpr::Tpl { exprs } => exprs.len() == 0,
        _ => false,
    }
}

/// A function written in place.
pub open spec fn inline_function(e: SpecExpr) -> bool {
    match unparen(e) {
        SpecExpr::Arrow(_) => true,
        SpecExpr::Fn(_) => true,
        _ => false,
    }
}

/// An expression that evaluates to the same value, without being noticed, at
/// any point of the evaluation of the object around it.
pub open spec fn order_inert(e: SpecExpr) -> bool {
    inline_function(e) || static_literal(e)
}

/// Strips the parentheses around an expression.
pub fn unwrap_parens(expr: &Expr) -> (r: &Expr)
    ensures
        r@ == unparen(expr@),
        !(r@ is Paren),
    decreases expr,
{
    match expr {
        Expr::Paren(inner) => unwrap_parens(inner),
        _ => expr,
    }
}

/// Whether `expr` is provably free of side effects when evaluated, looking
/// into nested object and array literals. A spread anywhere inside fails the
/// whole literal.
pub fn is_effect_free(expr: &Expr) -> (r: bool)
    ensures
        r == effect_free(expr@),
    decreases expr,
{
    proof {
        reveal_with_fuel(crate::ast::expr_view, 2);
        reveal_with_fuel(effect_free, 2);
    }
    match expr {
        Expr::Paren(inner) => is_effect_free(inner),
        Expr::Lit(_) => true,
        Expr::Ident(_) => true,
        Expr::Arrow(_) => true,
        Expr::Fn(_) => true,
        Expr::Unary { op, arg } => is_numeric_unary(*op, arg),
        Expr::Tpl { exprs } => exprs.len() == 0,
        Expr::Object(obj) => all_props_effect_free(&obj.props),
        Expr::Array { elems } => all_elems_effect_free(elems),
        _ => false,
    }
}

fn all_props_effect_free(props: &Vec<PropOrSpread>) -> (r: bool)
    ensures
        r == effect_free_entries(crate::ast::props_view(props@)),
    decreases props,
{
    let ghost view = crate::ast::props_view(props@);
    let mut i: usize = 0;
    while i < props.len()
        invariant
            i <= props@.len(),
            view == crate::ast::props_view(props@),
            forall|j: int| 0 <= j < i ==> effect_free_entry(#[trigger] view[j]),
        decreases props.len() - i,
    {
        if !is_effect_free_prop(&props[i]) {
            assert(!effect_free_entry(view[i as int]));
            return false;
        }
        i += 1;
    }
    true
}

fn all_elems_effect_free(elems: &Vec<Option<ExprOrSpread>>) -> (r: bool)
    ensures
        r == effect_free_elems(crate::ast::elems_view(elems@)),
    decreases elems,
{
    let ghost view = crate::ast::elems_view(elems@);
    let mut i: usize = 0;
    while i < elems.len()
        invariant
            i <= elems@.len(),
            view == crate::ast::elems_view(elems@),
            forall|j: int| 0 <= j < i ==> effect_free_elem(#[trigger] view[j]),
        decreases elems.len() - i,
    {
        let ok = match &elems[i] {
            None => true,
            Some(ExprOrSpread { spread, expr }) => !*spread && is_effect_free(expr),
        };
        assert(ok == effect_free_elem(view[i as int])) by {
            reveal_with_fuel(crate::ast::elem_view, 2);
        }
        if !ok {
            return false;
        }
        i += 1;
    }
    true
}

fn is_effect_free_prop(entry: &PropOrSpread) -> (r: bool)
    ensures
        r == effect_free_entry(entry@),
    decreases entry,
{
    match entry {
        PropOrSpread::Spread { .. } => false,
        PropOrSpread::Prop { prop, .. } => match prop {
            Prop::Shorthand(_) => true,
            Prop::KeyValue { key, value } => {
                !matches!(key, PropName::Computed(_)) && is_effect_free(value)
            },
            _ => false,
        },
    }
}

fn is_numeric_unary(op: UnaryOp, arg: &Expr) -> (r: bool)
    ensures
        r == numeric_unary(op, arg@),
{
    matches!(op, UnaryOp::Minus | UnaryOp::Plus) && matches!(unwrap_parens(arg), Expr::Lit(Lit::Num(_)))
}

/// Whether `expr` is a plain literal, whose value needs no binding to be
/// resolved: a literal, `-x` or `+x` over a number, or a template without
/// substitutions. Identifiers, functions and nested object or array literals
/// are not.
pub fn is_static_literal(expr: &Expr) -> (r: bool)
    ensures
        r == static_literal(expr@),
{
    proof {
        reveal_with_fuel(crate::ast::expr_view, 2);
    }
    match unwrap_parens(expr) {
        Expr::Lit(_) => true,
        Expr::Unary { op, arg } => is_numeric_unary(*op, arg),
        Expr::Tpl { exprs } => exprs.len() == 0,
        _ => false,
    }
}

/// Whether `expr` is a function written in place. Its source text is fixed by
/// the call site, so it adds nothing to a key that names the call site.
pub fn is_inline_function(expr: &Expr) -> (r: bool)
    ensures
        r == inline_function(expr@),
{
    matches!(unwrap_parens(expr), Expr::Arrow(_) | Expr::Fn(_))
}

/// Whether the position of `expr` among its sibling values cannot be observed.
/// Besides static literals this holds of functions written in place: defining
/// a closure reads nothing and runs nothing.
pub fn is_order_inert(expr: &Expr) -> (r: bool)
    ensures
        r == order_inert(expr@),
{
    match unwrap_parens(expr) {
        Expr::Arrow(_) | Expr::Fn(_) => true,
        other => is_static_literal(other),
    }
}

} // verus!
