//! What the kinds of expressions mean for the order of evaluation.
use crate::ast::UnaryOp;
use crate::model::{SpecArg, SpecEntry, SpecExpr, SpecLit, SpecProp};
use vstd::prelude::*;

verus! {

/// Parentheses change no judgment.
pub proof fn law_parentheses_do_not_matter(e: SpecExpr)
    ensures
        crate::effect::effect_free(SpecExpr::Paren(Box::new(e))) == crate::effect::effect_free(e),
        crate::effect::static_literal(SpecExpr::Paren(Box::new(e)))
            == crate::effect::static_literal(e),
        crate::effect::order_inert(SpecExpr::Paren(Box::new(e))) == crate::effect::order_inert(e),
        crate::effect::inline_function(SpecExpr::Paren(Box::new(e)))
            == crate::effect::inline_function(e),
{
}

/// Whatever is called, read from a member, awaited, constructed, assigned or
/// otherwise computed counts as an effect, and is neither static nor inert.
pub proof fn law_computations_are_effects(e: SpecExpr)
    requires
        e is Call || e is Member || e is Other,
    ensures
        !crate::effect::effect_free(e),
        !crate::effect::order_inert(e),
        !crate::effect::static_literal(e),
        !crate::effect::inline_function(e),
{
}

/// A literal is static, inert and free of effects.
pub proof fn law_literals_are_static(l: SpecLit)
    ensures
        crate::effect::effect_free(SpecExpr::Lit(l)),
        crate::effect::order_inert(SpecExpr::Lit(l)),
        crate::effect::static_literal(SpecExpr::Lit(l)),
        !crate::effect::inline_function(SpecExpr::Lit(l)),
{
}

/// Reading a binding is free of effects, but neither inert nor static.
pub proof fn law_reads_are_dynamic(e: SpecExpr)
    requires
        e is Ident,
    ensures
        crate::effect::effect_free(e),
        !crate::effect::order_inert(e),
        !crate::effect::static_literal(e),
        !crate::effect::inline_function(e),
{
}

/// A function written in place is inert and free of effects, but not static.
pub proof fn law_functions_are_inert(e: SpecExpr)
    requires
        e is Arrow || e is Fn,
    ensures
        crate::effect::effect_free(e),
        crate::effect::order_inert(e),
        !crate::effect::static_literal(e),
        crate::effect::inline_function(e),
{
}

/// A template is static, inert and free of effects if it has no substitution,
/// and none of these if it has one.
pub proof fn law_templates(exprs: Seq<SpecExpr>)
    ensures
        crate::effect::effect_free(SpecExpr::Tpl { exprs }) == (exprs.len() == 0),
        crate::effect::order_inert(SpecExpr::Tpl { exprs }) == (exprs.len() == 0),
        crate::effect::static_literal(SpecExpr::Tpl { exprs }) == (exprs.len() == 0),
        !crate::effect::inline_function(SpecExpr::Tpl { exprs }),
{
}

/// A unary expression is static, inert and free of effects if it is a sign
/// before a numeric literal, and none of these otherwise.
pub proof fn law_signed_numbers(op: UnaryOp, arg: SpecExpr)
    ensures
        ({
            let e = SpecExpr::Unary { op, arg: Box::new(arg) };
            let signed = (op == UnaryOp::Minus || op == UnaryOp::Plus)
                && crate::steps::number_literal(arg);
            &&& crate::effect::effect_free(e) == signed
            &&& crate::effect::order_inert(e) == signed
            &&& crate::effect::static_literal(e) == signed
            &&& !crate::effect::inline_function(e)
        }),
{
    crate::steps::lemma_number_literal(arg);
}

/// An object literal is never static or inert. It is free of effects exactly
/// if each entry is a shorthand, or a value that is free of effects under a key
/// that is not computed.
pub proof fn law_object_literals(props: Seq<SpecEntry>)
    ensures
        !crate::effect::order_inert(SpecExpr::Object(props)),
        !crate::effect::static_literal(SpecExpr::Object(props)),
        !crate::effect::inline_function(SpecExpr::Object(props)),
        crate::effect::effect_free(SpecExpr::Object(props)) <==> forall|i: int|
            0 <= i < props.len() ==> (match #[trigger] props[i] {
                SpecEntry::Spread { .. } => false,
                SpecEntry::Prop { prop, .. } => match prop {
                    SpecProp::Shorthand(_) => true,
                    SpecProp::KeyValue { key, value } => !(key is Computed)
                        && crate::effect::effect_free(value),
                    SpecProp::Assign { .. } => false,
                    SpecProp::Getter(_) => false,
                    SpecProp::Setter(_) => false,
                    SpecProp::Method(_) => false,
                },
            }),
{
    reveal_with_fuel(crate::effect::effect_free, 3);
    if crate::effect::effect_free(SpecExpr::Object(props)) {
        assert forall|i: int| 0 <= i < props.len() implies (match #[trigger] props[i] {
            SpecEntry::Spread { .. } => false,
            SpecEntry::Prop { prop, .. } => match prop {
                SpecProp::Shorthand(_) => true,
                SpecProp::KeyValue { key, value } => !(key is Computed)
                    && crate::effect::effect_free(value),
                SpecProp::Assign { .. } => false,
                SpecProp::Getter(_) => false,
                SpecProp::Setter(_) => false,
                SpecProp::Method(_) => false,
            },
        }) by {
            assert(crate::effect::effect_free_entry(props[i]));
        }
    } else {
        let i = choose|i: int|
            0 <= i < props.len() && !crate::effect::effect_free_entry(#[trigger] props[i]);
        assert(!crate::effect::effect_free_entry(props[i]));
    }
}

/// An array literal is never static or inert. It is free of effects exactly if
/// each element is a hole, or free of effects and not spread.
pub proof fn law_array_literals(elems: Seq<Option<SpecArg>>)
    ensures
        !crate::effect::order_inert(SpecExpr::Array { elems }),
        !crate::effect::static_literal(SpecExpr::Array { elems }),
        !crate::effect::inline_function(SpecExpr::Array { elems }),
        crate::effect::effect_free(SpecExpr::Array { elems }) <==> forall|i: int|
            0 <= i < elems.len() ==> (match #[trigger] elems[i] {
                None => true,
                Some(arg) => !arg.spread && crate::effect::effect_free(arg.expr),
            }),
{
    reveal_with_fuel(crate::effect::effect_free, 3);
    if crate::effect::effect_free(SpecExpr::Array { elems }) {
        assert forall|i: int| 0 <= i < elems.len() implies (match #[trigger] elems[i] {
            None => true,
            Some(arg) => !arg.spread && crate::effect::effect_free(arg.expr),
        }) by {
            assert(crate::effect::effect_free_elem(elems[i]));
        }
    } else {
        let i = choose|i: int|
            0 <= i < elems.len() && !crate::effect::effect_free_elem(#[trigger] elems[i]);
        assert(!crate::effect::effect_free_elem(elems[i]));
    }
}

/// What is inside the parentheses of an expression, however many there are.
pub proof fn law_inside_parentheses(e: SpecExpr)
    ensures
        crate::effect::unparen(SpecExpr::Paren(Box::new(e))) == crate::effect::unparen(e),
        !(e is Paren) ==> crate::effect::unparen(e) == e,
        !(crate::effect::unparen(e) is Paren),
    decreases e,
{
    match e {
        SpecExpr::Paren(inner) => law_inside_parentheses(*inner),
        _ => {},
    }
}

} // verus!
