//! What a rewritten call looks like.
use crate::ast::Span;
use crate::catalog::SpecCatalog;
use crate::detect::{CallSiteDecision, Decision, PropsRule};
use crate::model::{
    SpecArg, SpecCall, SpecDeclarator, SpecEntry, SpecExpr, SpecNode, SpecPat, SpecProp,
};
use crate::rewrite::{Action, SpecRewriter};
use crate::visit::SpecItem;
use vstd::prelude::*;

verus! {

/// The rewriter of a program.
pub open spec fn rewriter_of(
    program: Seq<SpecNode>,
    filename: Seq<char>,
    modules: Set<Seq<char>>,
    catalog: SpecCatalog,
) -> SpecRewriter {
    SpecRewriter {
        decisions: crate::detect::decisions_of(PropsRule::Ordered, program, modules, catalog),
        filename,
        catalog,
    }
}

/// Two expressions in equally many parentheses.
pub open spec fn same_parens(a: SpecExpr, b: SpecExpr) -> bool
    decreases a,
{
    match (a, b) {
        (SpecExpr::Paren(x), SpecExpr::Paren(y)) => same_parens(*x, *y),
        _ => !(a is Paren) && !(b is Paren),
    }
}

proof fn lemma_same_parens_trans(a: SpecExpr, b: SpecExpr, c: SpecExpr)
    requires
        same_parens(a, b),
        same_parens(b, c),
    ensures
        same_parens(a, c),
    decreases a,
{
    match (a, b) {
        (SpecExpr::Paren(x), SpecExpr::Paren(y)) => {
            lemma_same_parens_trans(*x, *y, *(c->Paren_0));
        },
        _ => {},
    }
}

proof fn lemma_object_replaced(
    e: SpecExpr,
    partition: bool,
    span: Span,
    r: SpecRewriter,
)
    ensures
        crate::decision_laws::object_in(crate::rewrite::with_object(e, partition, span, r)) == (
        match crate::decision_laws::object_in(e) {
            Some(props) => Some(
                if partition {
                    crate::partition::partitioned(props, r.filename, span, r.catalog)
                } else {
                    crate::partition::stamped(props, r.filename, span)
                },
            ),
            None => None,
        }),
        same_parens(e, crate::rewrite::with_object(e, partition, span, r)),
        crate::decision_laws::object_in(e) is None ==> crate::rewrite::with_object(
            e,
            partition,
            span,
            r,
        ) == e,
    decreases e,
{
    match e {
        SpecExpr::Paren(inner) => lemma_object_replaced(*inner, partition, span, r),
        _ => {},
    }
}

proof fn lemma_object_rewritten(e: SpecExpr, r: SpecRewriter)
    ensures
        crate::decision_laws::object_in(crate::rewrite::new_expr(e, r)) == (
        match crate::decision_laws::object_in(e) {
            Some(props) => Some(crate::rewrite::new_props(props, r)),
            None => None,
        }),
        same_parens(e, crate::rewrite::new_expr(e, r)),
    decreases e,
{
    reveal_with_fuel(crate::rewrite::new_expr, 2);
    match e {
        SpecExpr::Paren(inner) => lemma_object_rewritten(*inner, r),
        _ => {},
    }
}

/// A call keeps its span, the number of its arguments, which of them are spread
/// and the parentheses around them. Its arguments are rewritten, each by itself. What stands in the
/// place of the props is besides partitioned, or given a key, as was decided.
/// No other argument is touched.
pub proof fn law_calls_are_rewritten_in_place(call: SpecCall, r: SpecRewriter)
    ensures
        ({
            let out = crate::rewrite::new_call(call, r);
            let action = crate::rewrite::action_at(r.decisions, call.span);
            &&& out.span == call.span
            &&& out.args.len() == call.args.len()
            &&& forall|j: int|
                0 <= j < call.args.len() ==> (#[trigger] out.args[j]).spread
                    == call.args[j].spread && same_parens(call.args[j].expr, out.args[j].expr)
            &&& forall|j: int|
                0 <= j < call.args.len() && (action matches Some(Action::Partition(idx)) ==> j
                    != idx) && (action matches Some(Action::Stamp(idx)) ==> j != idx) ==> (
                #[trigger] out.args[j]).expr == crate::rewrite::new_expr(call.args[j].expr, r)
            &&& action matches Some(Action::Partition(idx)) ==> idx < call.args.len() ==> (
            match crate::decision_laws::object_in(call.args[idx as int].expr) {
                Some(props) => crate::decision_laws::object_in(out.args[idx as int].expr) == Some(
                    crate::partition::partitioned(
                        crate::rewrite::new_props(props, r),
                        r.filename,
                        call.span,
                        r.catalog,
                    ),
                ),
                None => out.args[idx as int].expr == crate::rewrite::new_expr(
                    call.args[idx as int].expr,
                    r,
                ),
            })
            &&& action matches Some(Action::Stamp(idx)) ==> idx < call.args.len() ==> (
            match crate::decision_laws::object_in(call.args[idx as int].expr) {
                Some(props) => crate::decision_laws::object_in(out.args[idx as int].expr) == Some(
                    crate::partition::stamped(
                        crate::rewrite::new_props(props, r),
                        r.filename,
                        call.span,
                    ),
                ),
                None => out.args[idx as int].expr == crate::rewrite::new_expr(
                    call.args[idx as int].expr,
                    r,
                ),
            })
        }),
{
    reveal_with_fuel(crate::rewrite::new_call, 2);
    let inner = crate::rewrite::new_args(call.args, r);
    assert forall|j: int| 0 <= j < call.args.len() implies #[trigger] inner[j] == (SpecArg {
        spread: call.args[j].spread,
        expr: crate::rewrite::new_expr(call.args[j].expr, r),
    }) by {
        reveal_with_fuel(crate::rewrite::new_arg, 2);
        assert(inner[j] == crate::rewrite::new_arg(call.args[j], r));
    }
    assert forall|j: int| 0 <= j < call.args.len() implies same_parens(
        call.args[j].expr,
        (#[trigger] inner[j]).expr,
    ) by {
        lemma_object_rewritten(call.args[j].expr, r);
    }
    match crate::rewrite::action_at(r.decisions, call.span) {
        Some(Action::Partition(idx)) => {
            if idx < call.args.len() {
                lemma_object_rewritten(call.args[idx as int].expr, r);
                lemma_object_replaced(inner[idx as int].expr, true, call.span, r);
                lemma_same_parens_trans(
                    call.args[idx as int].expr,
                    inner[idx as int].expr,
                    crate::rewrite::with_object(inner[idx as int].expr, true, call.span, r),
                );
            }
        },
        Some(Action::Stamp(idx)) => {
            if idx < call.args.len() {
                lemma_object_rewritten(call.args[idx as int].expr, r);
                lemma_object_replaced(inner[idx as int].expr, false, call.span, r);
                lemma_same_parens_trans(
                    call.args[idx as int].expr,
                    inner[idx as int].expr,
                    crate::rewrite::with_object(inner[idx as int].expr, false, call.span, r),
                );
            }
        },
        None => {},
    }
}

/// Rewriting an object by itself keeps the number and the spans of its entries,
/// and what each is: a spread, or a prop of its name. What a prop holds and what
/// is spread are rewritten, each by itself.
pub proof fn law_entries_are_rewritten_in_place(props: Seq<SpecEntry>, r: SpecRewriter, i: int)
    requires
        0 <= i < props.len(),
    ensures
        ({
            let out = crate::rewrite::new_props(props, r);
            &&& out.len() == props.len()
            &&& out[i] is Spread <==> props[i] is Spread
            &&& forall|name: Seq<char>| #[trigger]
                crate::partition_laws::prop_named(out[i], name)
                    <==> crate::partition_laws::prop_named(props[i], name)
            &&& match (props[i], out[i]) {
                (SpecEntry::Spread { span, expr }, _) => out[i] == (SpecEntry::Spread {
                    span,
                    expr: crate::rewrite::new_expr(expr, r),
                }),
                (
                    SpecEntry::Prop { span, prop: SpecProp::KeyValue { value, .. } },
                    SpecEntry::Prop {
                        span: new_span,
                        prop: SpecProp::KeyValue { value: new_value, .. },
                    },
                ) => new_span == span && new_value == crate::rewrite::new_expr(value, r),
                (SpecEntry::Prop { span, prop: SpecProp::KeyValue { .. } }, _) => false,
                (SpecEntry::Prop { span, prop: SpecProp::Shorthand(_) }, _) => out[i] == props[i],
                _ => true,
            }
        }),
{
    let out = crate::rewrite::new_props(props, r);
    reveal_with_fuel(crate::rewrite::new_entry, 4);
    reveal_with_fuel(crate::rewrite::new_prop, 3);
    reveal_with_fuel(crate::rewrite::new_key, 3);
    assert(out[i] == crate::rewrite::new_entry(props[i], r));
}

/// The callee of a factory call, its name, is kept.
pub proof fn law_factory_names_are_kept(call: SpecCall, r: SpecRewriter)
    requires
        call.callee is Expr,
        *call.callee->Expr_0 is Ident,
    ensures
        crate::rewrite::new_call(call, r).callee == call.callee,
{
    reveal_with_fuel(crate::rewrite::new_call, 3);
    reveal_with_fuel(crate::rewrite::new_callee, 3);
    reveal_with_fuel(crate::rewrite::new_expr, 2);
}

/// A call of the program and what it becomes in the transformed program.
pub open spec fn becomes(
    program: Seq<SpecNode>,
    filename: Seq<char>,
    modules: Set<Seq<char>>,
    catalog: SpecCatalog,
    call: SpecCall,
    out: SpecCall,
) -> bool {
    &&& crate::visit::items_of_nodes(
        crate::partition::transformed(program, filename, modules, catalog),
    ).contains(SpecItem::Call(out))
    &&& out.span == call.span
    &&& out.args.len() == call.args.len()
}

/// Where calls can be told apart by their spans, the transformed program holds
/// for every call whose props can be partitioned the same call with its props
/// partitioned, for every call whose props can only be given a key the same
/// call with its props stamped, and for every other call the same call with
/// nothing rewritten but what is inside its arguments.
pub proof fn law_every_call_gets_what_was_decided(
    program: Seq<SpecNode>,
    filename: Seq<char>,
    modules: Set<Seq<char>>,
    catalog: SpecCatalog,
    call: SpecCall,
)
    requires
        crate::program_laws::distinct_calls(crate::visit::items_of_nodes(program)),
        crate::visit::items_of_nodes(program).contains(SpecItem::Call(call)),
    ensures
        ({
            let r = rewriter_of(program, filename, modules, catalog);
            let decision = crate::detect::call_decision(
                PropsRule::Ordered,
                call,
                crate::detect::factories_of(program, modules, catalog),
                crate::detect::imports_of(
                    crate::visit::items_of_nodes(program),
                    modules,
                    catalog,
                ).namespaces,
                catalog,
            );
            exists|out: SpecCall| #[trigger]
                becomes(program, filename, modules, catalog, call, out) && match decision {
                    Some(Decision::Compilable { props_arg_idx }) => props_arg_idx < call.args.len()
                        && crate::decision_laws::object_in(call.args[props_arg_idx as int].expr)
                        is Some && crate::decision_laws::object_in(
                        out.args[props_arg_idx as int].expr,
                    ) == Some(
                        crate::partition::partitioned(
                            crate::rewrite::new_props(
                                crate::decision_laws::object_in(
                                    call.args[props_arg_idx as int].expr,
                                )->0,
                                r,
                            ),
                            filename,
                            call.span,
                            catalog,
                        ),
                    ),
                    Some(Decision::KeyOnly { props_arg_idx }) => props_arg_idx < call.args.len()
                        && crate::decision_laws::object_in(call.args[props_arg_idx as int].expr)
                        is Some && crate::decision_laws::object_in(
                        out.args[props_arg_idx as int].expr,
                    ) == Some(
                        crate::partition::stamped(
                            crate::rewrite::new_props(
                                crate::decision_laws::object_in(
                                    call.args[props_arg_idx as int].expr,
                                )->0,
                                r,
                            ),
                            filename,
                            call.span,
                        ),
                    ),
                    _ => forall|j: int|
                        0 <= j < call.args.len() ==> (#[trigger] out.args[j]).expr
                            == crate::rewrite::new_expr(call.args[j].expr, r),
                }
        }),
{
    let items = crate::visit::items_of_nodes(program);
    let r = rewriter_of(program, filename, modules, catalog);
    let out = crate::rewrite::new_call(call, r);
    let new_program = crate::partition::transformed(program, filename, modules, catalog);
    let factories = crate::detect::factories_of(program, modules, catalog);
    let namespaces = crate::detect::imports_of(items, modules, catalog).namespaces;
    let decision = crate::detect::call_decision(
        PropsRule::Ordered,
        call,
        factories,
        namespaces,
        catalog,
    );
    let i = choose|i: int| 0 <= i < items.len() && items[i] == SpecItem::Call(call);
    crate::program_laws::law_done_as_decided(PropsRule::Ordered, program, modules, catalog, i);
    crate::program_laws::law_items_are_kept(program, filename, modules, catalog);
    law_calls_are_rewritten_in_place(call, r);
    assert(items.to_set().contains(SpecItem::Call(call)));
    assert(crate::program_laws::new_item(SpecItem::Call(call), r) == SpecItem::Call(out));
    assert(crate::program_laws::new_items(items.to_set(), r).contains(SpecItem::Call(out)));
    assert(crate::visit::items_of_nodes(new_program).to_set().contains(SpecItem::Call(out)));
    assert(becomes(program, filename, modules, catalog, call, out));
    match decision {
        Some(Decision::Compilable { props_arg_idx }) => {
            crate::detect_laws::law_only_factory_calls_are_rewritten(
                PropsRule::Ordered,
                call,
                factories,
                namespaces,
                catalog,
                props_arg_idx,
            );
            crate::decision_laws::lemma_object_in(call.args[props_arg_idx as int].expr);
        },
        Some(Decision::KeyOnly { props_arg_idx }) => {
            crate::detect_laws::law_only_factory_calls_are_rewritten(
                PropsRule::Ordered,
                call,
                factories,
                namespaces,
                catalog,
                props_arg_idx,
            );
            crate::decision_laws::lemma_object_in(call.args[props_arg_idx as int].expr);
        },
        _ => {},
    }
}

/// Of several decisions on one span the last counts that asks for the same
/// thing, and partitioning is preferred to a key.
pub proof fn law_last_decision_counts(decisions: Seq<CallSiteDecision>, span: Span, k: int)
    requires
        0 <= k < decisions.len(),
        decisions[k].span == span,
        decisions[k].decision is Compilable,
        forall|j: int|
            k < j < decisions.len() && (#[trigger] decisions[j]).span == span
                ==> !(decisions[j].decision is Compilable),
    ensures
        crate::rewrite::action_at(decisions, span) == Some(
            Action::Partition(decisions[k].decision->Compilable_props_arg_idx),
        ),
    decreases decisions.len(),
{
    let rest = decisions.drop_last();
    let n = decisions.len() - 1;
    assert(decisions[n] == decisions.last());
    if k < n {
        assert(rest[k] == decisions[k]);
        law_last_decision_counts(rest, span, k);
    }
}

/// A span on which no decision asks for anything is left alone.
pub proof fn law_undecided_spans_are_left_alone(decisions: Seq<CallSiteDecision>, span: Span)
    requires
        forall|j: int|
            0 <= j < decisions.len() && (#[trigger] decisions[j]).span == span
                ==> decisions[j].decision is Bail,
    ensures
        crate::rewrite::action_at(decisions, span) is None,
    decreases decisions.len(),
{
    if decisions.len() > 0 {
        let rest = decisions.drop_last();
        assert(decisions[decisions.len() - 1] == decisions.last());
        assert forall|j: int|
            0 <= j < rest.len() && (#[trigger] rest[j]).span == span implies rest[j].decision
            is Bail by {
            assert(rest[j] == decisions[j]);
        }
        law_undecided_spans_are_left_alone(rest, span);
    }
}

/// A call whose object is to be partitioned, but holds an entry that is neither
/// a spread nor a prop with a name.
pub open spec fn cannot_be_placed(call: SpecCall, decisions: Seq<CallSiteDecision>) -> bool {
    match crate::rewrite::action_at(decisions, call.span) {
        Some(Action::Partition(idx)) => idx < call.args.len() && (
        match crate::decision_laws::object_in(call.args[idx as int].expr) {
            Some(props) => !crate::partition_laws::all_named(props),
            None => false,
        }),
        _ => false,
    }
}

/// A program can be rewritten exactly if it holds no call whose object is to be
/// partitioned and cannot be.
pub proof fn law_what_can_be_rewritten(program: Seq<SpecNode>, decisions: Seq<CallSiteDecision>)
    ensures
        crate::rewrite::rewritable(program, decisions) <==> forall|call: SpecCall| #[trigger]
            crate::visit::items_of_nodes(program).contains(SpecItem::Call(call))
                ==> !cannot_be_placed(call, decisions),
{
    let items = crate::visit::items_of_nodes(program);
    assert forall|call: SpecCall| cannot_be_placed(call, decisions)
        == !#[trigger] crate::rewrite::call_rewritable(call, decisions) by {
        match crate::rewrite::action_at(decisions, call.span) {
            Some(Action::Partition(idx)) => {
                if idx < call.args.len() {
                    crate::decision_laws::lemma_object_in(call.args[idx as int].expr);
                    match crate::decision_laws::object_in(call.args[idx as int].expr) {
                        Some(props) => crate::partition_laws::law_names(props),
                        None => {},
                    }
                }
            },
            _ => {},
        }
    }
    if crate::rewrite::rewritable(program, decisions) {
        assert forall|call: SpecCall| #[trigger]
            items.contains(SpecItem::Call(call)) implies !cannot_be_placed(call, decisions) by {
            let i = choose|i: int| 0 <= i < items.len() && items[i] == SpecItem::Call(call);
            assert(crate::rewrite::rewritable_items(decisions).contains(items[i]));
            assert(crate::rewrite::call_rewritable(call, decisions));
        }
    } else {
        let i = choose|i: int|
            0 <= i < items.len() && !crate::rewrite::rewritable_items(decisions).contains(
                #[trigger] items[i],
            );
        let call = items[i]->Call_0;
        assert(items.contains(SpecItem::Call(call)));
        assert(!crate::rewrite::call_rewritable(call, decisions));
    }
}

/// Rewriting an expression keeps its form: only calls are changed, and what is
/// around a call is rewritten part by part.
pub proof fn law_rewriting_keeps_the_form(e: SpecExpr, r: SpecRewriter)
    ensures
        ({
            let out = crate::rewrite::new_expr(e, r);
            match e {
                SpecExpr::Lit(_) => out == e,
                SpecExpr::Ident(_) => out == e,
                SpecExpr::Arrow(ns) => out is Arrow && rewritten_nodes(ns, out->Arrow_0, r),
                SpecExpr::Fn(ns) => out is Fn && rewritten_nodes(ns, out->Fn_0, r),
                SpecExpr::Other(ns) => out is Other && rewritten_nodes(ns, out->Other_0, r),
                SpecExpr::Unary { op, arg } => out == (SpecExpr::Unary {
                    op,
                    arg: Box::new(crate::rewrite::new_expr(*arg, r)),
                }),
                SpecExpr::Paren(inner) => out == SpecExpr::Paren(
                    Box::new(crate::rewrite::new_expr(*inner, r)),
                ),
                SpecExpr::Tpl { exprs } => out is Tpl && out->exprs.len() == exprs.len()
                    && forall|i: int|
                    0 <= i < exprs.len() ==> #[trigger] out->exprs[i] == crate::rewrite::new_expr(
                        exprs[i],
                        r,
                    ),
                SpecExpr::Object(props) => out == SpecExpr::Object(
                    crate::rewrite::new_props(props, r),
                ),
                SpecExpr::Array { elems } => out is Array && out->elems.len() == elems.len()
                    && forall|i: int|
                    0 <= i < elems.len() ==> #[trigger] out->elems[i] == (match elems[i] {
                        None => None,
                        Some(arg) => Some(
                            SpecArg {
                                spread: arg.spread,
                                expr: crate::rewrite::new_expr(arg.expr, r),
                            },
                        ),
                    }),
                SpecExpr::Call(call) => out == SpecExpr::Call(crate::rewrite::new_call(call, r)),
                SpecExpr::Member { obj, prop } => out is Member && *out->obj
                    == crate::rewrite::new_expr(*obj, r) && rewritten_nodes(
                    prop,
                    out->Member_prop,
                    r,
                ),
            }
        }),
{
    reveal_with_fuel(crate::rewrite::new_expr, 2);
    let out = crate::rewrite::new_expr(e, r);
    match e {
        SpecExpr::Arrow(ns) => law_programs_are_rewritten_node_by_node(ns, r),
        SpecExpr::Fn(ns) => law_programs_are_rewritten_node_by_node(ns, r),
        SpecExpr::Other(ns) => law_programs_are_rewritten_node_by_node(ns, r),
        SpecExpr::Member { prop, .. } => law_programs_are_rewritten_node_by_node(prop, r),
        SpecExpr::Array { elems } => {
            assert forall|i: int| 0 <= i < elems.len() implies #[trigger] out->elems[i] == (
            match elems[i] {
                None => None,
                Some(arg) => Some(
                    SpecArg { spread: arg.spread, expr: crate::rewrite::new_expr(arg.expr, r) },
                ),
            }) by {
                reveal_with_fuel(crate::rewrite::new_elem, 3);
                reveal_with_fuel(crate::rewrite::new_arg, 2);
                assert(out->elems[i] == crate::rewrite::new_elem(elems[i], r));
            }
        },
        _ => {},
    }
}

/// Nodes that are rewritten one by one: imports stay, declarations keep their
/// kind and what they declare, and expressions are rewritten.
pub open spec fn rewritten_nodes(
    ns: Seq<SpecNode>,
    out: Seq<SpecNode>,
    r: SpecRewriter,
) -> bool {
    &&& out.len() == ns.len()
    &&& forall|i: int| 0 <= i < ns.len() ==> rewritten_node(ns[i], #[trigger] out[i], r)
}

pub open spec fn rewritten_node(node: SpecNode, out: SpecNode, r: SpecRewriter) -> bool {
    match node {
        SpecNode::Import(_) => out == node,
        SpecNode::Expr(e) => out == SpecNode::Expr(crate::rewrite::new_expr(e, r)),
        SpecNode::Var(decl) => {
            &&& out is Var
            &&& out->Var_0.kind == decl.kind
            &&& out->Var_0.decls.len() == decl.decls.len()
            &&& forall|i: int|
                0 <= i < decl.decls.len() ==> rewritten_declarator(
                    decl.decls[i],
                    #[trigger] out->Var_0.decls[i],
                    r,
                )
        },
    }
}

pub open spec fn rewritten_declarator(
    decl: SpecDeclarator,
    out: SpecDeclarator,
    r: SpecRewriter,
) -> bool {
    &&& match decl.name {
        SpecPat::Ident { id, .. } => out.name is Ident && out.name->id == id,
        SpecPat::Other(_) => out.name is Other,
    }
    &&& out.init == (match decl.init {
        Some(e) => Some(crate::rewrite::new_expr(e, r)),
        None => None,
    })
}

/// Rewriting a program rewrites its nodes one by one.
pub proof fn law_programs_are_rewritten_node_by_node(ns: Seq<SpecNode>, r: SpecRewriter)
    ensures
        rewritten_nodes(ns, crate::rewrite::new_nodes(ns, r), r),
{
    let out = crate::rewrite::new_nodes(ns, r);
    assert forall|i: int| 0 <= i < ns.len() implies rewritten_node(ns[i], #[trigger] out[i], r) by {
        reveal_with_fuel(crate::rewrite::new_node, 3);
        assert(out[i] == crate::rewrite::new_node(ns[i], r));
        match ns[i] {
            SpecNode::Var(decl) => {
                let new = out[i]->Var_0.decls;
                assert forall|k: int| 0 <= k < decl.decls.len() implies rewritten_declarator(
                    decl.decls[k],
                    #[trigger] new[k],
                    r,
                ) by {
                    reveal_with_fuel(crate::rewrite::new_declarator, 3);
                    reveal_with_fuel(crate::rewrite::new_pat, 2);
                    assert(new[k] == crate::rewrite::new_declarator(decl.decls[k], r));
                }
            },
            _ => {},
        }
    }
}

} // verus!
