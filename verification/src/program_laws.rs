//! What holds of a program that has been rewritten.
use crate::ast::Span;
use crate::catalog::SpecCatalog;
use crate::detect::{CallSiteDecision, CandidateKind, Decision, PropsRule};
use crate::model::{
    SpecArg, SpecCall, SpecCallee, SpecDeclarator, SpecEntry, SpecExpr, SpecIdent, SpecKey,
    SpecNode, SpecPat, SpecProp, SpecVar,
};
use crate::order::EmitRank;
use crate::rewrite::{Action, SpecRewriter};
use crate::visit::SpecItem;
use vstd::prelude::*;

verus! {

/// The items to which nothing is done themselves.
pub open spec fn plain_items(decisions: Seq<CallSiteDecision>) -> Set<SpecItem> {
    Set::new(
        |item: SpecItem|
            match item {
                SpecItem::Call(call) => crate::rewrite::action_at(decisions, call.span) is None,
                _ => true,
            },
    )
}

proof fn lemma_expr_untouched(e: SpecExpr, r: SpecRewriter)
    requires
        crate::visit::items_within(crate::visit::items_of_expr(e), plain_items(r.decisions)),
    ensures
        crate::rewrite::new_expr(e, r) == e,
    decreases e,
{
    let all = plain_items(r.decisions);
    match e {
        SpecExpr::Lit(_) => {},
        SpecExpr::Ident(_) => {},
        SpecExpr::Arrow(ns) => lemma_nodes_untouched(ns, r),
        SpecExpr::Fn(ns) => lemma_nodes_untouched(ns, r),
        SpecExpr::Unary { op, arg } => lemma_expr_untouched(*arg, r),
        SpecExpr::Tpl { exprs } => lemma_exprs_untouched(exprs, r),
        SpecExpr::Object(props) => lemma_props_untouched(props, r),
        SpecExpr::Array { elems } => lemma_elems_untouched(elems, r),
        SpecExpr::Paren(inner) => lemma_expr_untouched(*inner, r),
        SpecExpr::Call(call) => lemma_call_untouched(call, r),
        SpecExpr::Member { obj, prop } => {
            crate::visit::lemma_within_parts(
                crate::visit::items_of_expr(*obj),
                crate::visit::items_of_nodes(prop),
                all,
            );
            lemma_expr_untouched(*obj, r);
            lemma_nodes_untouched(prop, r);
        },
        SpecExpr::Other(ns) => lemma_nodes_untouched(ns, r),
    }
}

proof fn lemma_call_untouched(call: SpecCall, r: SpecRewriter)
    requires
        crate::visit::items_within(crate::visit::items_of_call(call), plain_items(r.decisions)),
    ensures
        crate::rewrite::new_call(call, r) == call,
    decreases call,
{
    let all = plain_items(r.decisions);
    let own = seq![SpecItem::Call(call)];
    let callee_items = crate::visit::items_of_callee(call.callee);
    let args_items = crate::visit::items_of_args(call.args);
    let type_items = crate::visit::items_of_nodes(call.type_args);
    crate::visit::lemma_within_parts(own + callee_items + args_items, type_items, all);
    crate::visit::lemma_within_parts(own + callee_items, args_items, all);
    crate::visit::lemma_within_parts(own, callee_items, all);
    assert(all.contains(own[0]));
    match call.callee {
        SpecCallee::Expr(e) => lemma_expr_untouched(*e, r),
        _ => {},
    }
    lemma_args_untouched(call.args, r);
    lemma_nodes_untouched(call.type_args, r);
}

proof fn lemma_arg_untouched(arg: SpecArg, r: SpecRewriter)
    requires
        crate::visit::items_within(crate::visit::items_of_expr(arg.expr), plain_items(r.decisions)),
    ensures
        crate::rewrite::new_arg(arg, r) == arg,
    decreases arg,
{
    lemma_expr_untouched(arg.expr, r);
}

proof fn lemma_elem_untouched(elem: Option<SpecArg>, r: SpecRewriter)
    requires
        crate::visit::items_within(crate::visit::items_of_elem(elem), plain_items(r.decisions)),
    ensures
        crate::rewrite::new_elem(elem, r) == elem,
    decreases elem,
{
    match elem {
        Some(arg) => lemma_arg_untouched(arg, r),
        None => {},
    }
}

proof fn lemma_prop_untouched(prop: SpecProp, r: SpecRewriter)
    requires
        crate::visit::items_within(crate::visit::items_of_prop(prop), plain_items(r.decisions)),
    ensures
        crate::rewrite::new_prop(prop, r) == prop,
    decreases prop,
{
    match prop {
        SpecProp::Shorthand(_) => {},
        SpecProp::KeyValue { key, value } => {
            crate::visit::lemma_within_parts(
                crate::visit::items_of_key(key),
                crate::visit::items_of_expr(value),
                plain_items(r.decisions),
            );
            match key {
                SpecKey::Computed(e) => lemma_expr_untouched(*e, r),
                _ => {},
            }
            lemma_expr_untouched(value, r);
        },
        SpecProp::Assign { name, value } => lemma_expr_untouched(value, r),
        SpecProp::Getter(ns) => lemma_nodes_untouched(ns, r),
        SpecProp::Setter(ns) => lemma_nodes_untouched(ns, r),
        SpecProp::Method(ns) => lemma_nodes_untouched(ns, r),
    }
}

proof fn lemma_entry_untouched(entry: SpecEntry, r: SpecRewriter)
    requires
        crate::visit::items_within(crate::visit::items_of_entry(entry), plain_items(r.decisions)),
    ensures
        crate::rewrite::new_entry(entry, r) == entry,
    decreases entry,
{
    match entry {
        SpecEntry::Spread { span, expr } => lemma_expr_untouched(expr, r),
        SpecEntry::Prop { span, prop } => lemma_prop_untouched(prop, r),
    }
}

proof fn lemma_declarator_untouched(decl: SpecDeclarator, r: SpecRewriter)
    requires
        crate::visit::items_within(crate::visit::items_of_declarator(decl), plain_items(r.decisions)),
    ensures
        crate::rewrite::new_declarator(decl, r) == decl,
    decreases decl,
{
    crate::visit::lemma_within_parts(
        crate::visit::items_of_pat(decl.name),
        match decl.init {
            Some(e) => crate::visit::items_of_expr(e),
            None => Seq::empty(),
        },
        plain_items(r.decisions),
    );
    match decl.name {
        SpecPat::Ident { id, ann } => lemma_nodes_untouched(ann, r),
        SpecPat::Other(ns) => lemma_nodes_untouched(ns, r),
    }
    match decl.init {
        Some(e) => lemma_expr_untouched(e, r),
        None => {},
    }
}

proof fn lemma_node_untouched(node: SpecNode, r: SpecRewriter)
    requires
        crate::visit::items_within(crate::visit::items_of_node(node), plain_items(r.decisions)),
    ensures
        crate::rewrite::new_node(node, r) == node,
    decreases node,
{
    match node {
        SpecNode::Import(_) => {},
        SpecNode::Var(decl) => {
            crate::visit::lemma_within_parts(
                seq![SpecItem::Var(decl)],
                crate::visit::items_of_declarators(decl.decls),
                plain_items(r.decisions),
            );
            lemma_declarators_untouched(decl.decls, r);
        },
        SpecNode::Expr(e) => lemma_expr_untouched(e, r),
    }
}

proof fn lemma_nodes_untouched(list: Seq<SpecNode>, r: SpecRewriter)
    requires
        crate::visit::items_within(crate::visit::items_of_nodes(list), plain_items(r.decisions)),
    ensures
        crate::rewrite::new_nodes(list, r) == list,
    decreases list,
{
    let new = crate::rewrite::new_nodes(list, r);
    assert forall|i: int| 0 <= i < list.len() implies new[i] == list[i] by {
        crate::visit::lemma_within_nodes(list, i, plain_items(r.decisions));
        lemma_node_untouched(list[i], r);
    }
    assert(new =~= list);
}

proof fn lemma_exprs_untouched(list: Seq<SpecExpr>, r: SpecRewriter)
    requires
        crate::visit::items_within(crate::visit::items_of_exprs(list), plain_items(r.decisions)),
    ensures
        crate::rewrite::new_exprs(list, r) == list,
    decreases list,
{
    let new = crate::rewrite::new_exprs(list, r);
    assert forall|i: int| 0 <= i < list.len() implies new[i] == list[i] by {
        crate::visit::lemma_within_exprs(list, i, plain_items(r.decisions));
        lemma_expr_untouched(list[i], r);
    }
    assert(new =~= list);
}

proof fn lemma_props_untouched(list: Seq<SpecEntry>, r: SpecRewriter)
    requires
        crate::visit::items_within(crate::visit::items_of_props(list), plain_items(r.decisions)),
    ensures
        crate::rewrite::new_props(list, r) == list,
    decreases list,
{
    let new = crate::rewrite::new_props(list, r);
    assert forall|i: int| 0 <= i < list.len() implies new[i] == list[i] by {
        crate::visit::lemma_within_props(list, i, plain_items(r.decisions));
        lemma_entry_untouched(list[i], r);
    }
    assert(new =~= list);
}

proof fn lemma_args_untouched(list: Seq<SpecArg>, r: SpecRewriter)
    requires
        crate::visit::items_within(crate::visit::items_of_args(list), plain_items(r.decisions)),
    ensures
        crate::rewrite::new_args(list, r) == list,
    decreases list,
{
    let new = crate::rewrite::new_args(list, r);
    assert forall|i: int| 0 <= i < list.len() implies new[i] == list[i] by {
        crate::visit::lemma_within_args(list, i, plain_items(r.decisions));
        lemma_arg_untouched(list[i], r);
    }
    assert(new =~= list);
}

proof fn lemma_elems_untouched(list: Seq<Option<SpecArg>>, r: SpecRewriter)
    requires
        crate::visit::items_within(crate::visit::items_of_elems(list), plain_items(r.decisions)),
    ensures
        crate::rewrite::new_elems(list, r) == list,
    decreases list,
{
    let new = crate::rewrite::new_elems(list, r);
    assert forall|i: int| 0 <= i < list.len() implies new[i] == list[i] by {
        crate::visit::lemma_within_elems(list, i, plain_items(r.decisions));
        lemma_elem_untouched(list[i], r);
    }
    assert(new =~= list);
}

proof fn lemma_declarators_untouched(list: Seq<SpecDeclarator>, r: SpecRewriter)
    requires
        crate::visit::items_within(crate::visit::items_of_declarators(list), plain_items(r.decisions)),
    ensures
        crate::rewrite::new_declarators(list, r) == list,
    decreases list,
{
    let new = crate::rewrite::new_declarators(list, r);
    assert forall|i: int| 0 <= i < list.len() implies new[i] == list[i] by {
        crate::visit::lemma_within_declarators(list, i, plain_items(r.decisions));
        lemma_declarator_untouched(list[i], r);
    }
    assert(new =~= list);
}

/// Where detection finds a call fit for nothing, nothing is done to any call.
pub proof fn lemma_no_target(decisions: Seq<CallSiteDecision>, span: Span)
    requires
        forall|i: int| 0 <= i < decisions.len() ==> (#[trigger] decisions[i]).decision is Bail,
    ensures
        crate::rewrite::action_at(decisions, span) is None,
    decreases decisions.len(),
{
    if decisions.len() > 0 {
        let rest = decisions.drop_last();
        assert(decisions[decisions.len() - 1].decision is Bail);
        assert forall|i: int| 0 <= i < rest.len() implies (#[trigger] rest[i]).decision is Bail by {
            assert(rest[i] == decisions[i]);
        }
        lemma_no_target(rest, span);
    }
}

/// A program in which no call is fit for rewriting stays as it is.
pub proof fn law_nothing_to_do(
    program: Seq<SpecNode>,
    filename: Seq<char>,
    modules: Set<Seq<char>>,
    catalog: SpecCatalog,
)
    requires
        forall|i: int|
            #![trigger crate::detect::decisions_of(PropsRule::Ordered, program, modules, catalog)[i]]
            0 <= i < crate::detect::decisions_of(
                PropsRule::Ordered,
                program,
                modules,
                catalog,
            ).len() ==> crate::detect::decisions_of(
                PropsRule::Ordered,
                program,
                modules,
                catalog,
            )[i].decision is Bail,
    ensures
        crate::partition::transformed(program, filename, modules, catalog) == program,
{
    let decisions = crate::detect::decisions_of(PropsRule::Ordered, program, modules, catalog);
    let r = SpecRewriter { decisions, filename, catalog };
    let items = crate::visit::items_of_nodes(program);
    assert forall|i: int| 0 <= i < items.len() implies plain_items(decisions).contains(
        #[trigger] items[i],
    ) by {
        match items[i] {
            SpecItem::Call(call) => lemma_no_target(decisions, call.span),
            _ => {},
        }
    }
    lemma_nodes_untouched(program, r);
}

/// Calls can be told apart by their spans.
pub open spec fn distinct_calls(items: Seq<SpecItem>) -> bool {
    forall|i: int, j: int|
        0 <= i < items.len() && 0 <= j < items.len() && (#[trigger] items[i]) is Call && (
        #[trigger] items[j]) is Call && items[i]->Call_0.span == items[j]->Call_0.span ==> items[i]
            == items[j]
}

/// Some call among the items has the span, and was given the decision.
pub open spec fn decided(
    decision: CallSiteDecision,
    rule: PropsRule,
    items: Seq<SpecItem>,
    factories: Map<SpecIdent, CandidateKind>,
    namespaces: Set<SpecIdent>,
    catalog: SpecCatalog,
) -> bool {
    exists|i: int|
        0 <= i < items.len() && (#[trigger] items[i]) is Call && items[i]->Call_0.span
            == decision.span && crate::detect::call_decision(
            rule,
            items[i]->Call_0,
            factories,
            namespaces,
            catalog,
        ) == Some(decision.decision)
}

/// Every decision was made on some call, and the decision on every call is
/// among them.
pub proof fn lemma_decisions(
    rule: PropsRule,
    items: Seq<SpecItem>,
    factories: Map<SpecIdent, CandidateKind>,
    namespaces: Set<SpecIdent>,
    catalog: SpecCatalog,
)
    ensures
        forall|d: CallSiteDecision| #[trigger]
            crate::detect::decisions_on(rule, items, factories, namespaces, catalog).contains(d)
                <==> decided(d, rule, items, factories, namespaces, catalog),
    decreases items.len(),
{
    let all = crate::detect::decisions_on(rule, items, factories, namespaces, catalog);
    if items.len() > 0 {
        let rest = items.drop_last();
        let before = crate::detect::decisions_on(rule, rest, factories, namespaces, catalog);
        lemma_decisions(rule, rest, factories, namespaces, catalog);
        assert forall|d: CallSiteDecision| #[trigger] all.contains(d) <==> decided(
            d,
            rule,
            items,
            factories,
            namespaces,
            catalog,
        ) by {
            if all.contains(d) {
                let k = choose|k: int| 0 <= k < all.len() && all[k] == d;
                if k < before.len() {
                    assert(before[k] == d);
                    assert(before.contains(d));
                    let i = choose|i: int|
                        0 <= i < rest.len() && (#[trigger] rest[i]) is Call && rest[i]->Call_0.span
                            == d.span && crate::detect::call_decision(
                            rule,
                            rest[i]->Call_0,
                            factories,
                            namespaces,
                            catalog,
                        ) == Some(d.decision);
                    assert(items[i] == rest[i]);
                } else {
                    assert(items[items.len() - 1] == items.last());
                }
            }
            if decided(d, rule, items, factories, namespaces, catalog) {
                let i = choose|i: int|
                    0 <= i < items.len() && (#[trigger] items[i]) is Call && items[i]->Call_0.span
                        == d.span && crate::detect::call_decision(
                        rule,
                        items[i]->Call_0,
                        factories,
                        namespaces,
                        catalog,
                    ) == Some(d.decision);
                if i < rest.len() {
                    assert(rest[i] == items[i]);
                    assert(before.contains(d));
                    let k = choose|k: int| 0 <= k < before.len() && before[k] == d;
                    assert(all[k] == d);
                } else {
                    assert(all[before.len() as int] == d);
                }
            }
        }
    }
}

/// A target was asked for by some decision on the span, and where there is
/// none, no decision on the span asked.
pub proof fn lemma_target(decisions: Seq<CallSiteDecision>, span: Span, partition: bool)
    ensures
        match crate::rewrite::target(decisions, span, partition) {
            Some(idx) => exists|d: CallSiteDecision| #[trigger]
                decisions.contains(d) && d.span == span && crate::rewrite::asked_idx(
                    d.decision,
                    partition,
                ) == Some(idx),
            None => forall|d: CallSiteDecision| #[trigger]
                decisions.contains(d) && d.span == span ==> crate::rewrite::asked_idx(
                    d.decision,
                    partition,
                ) is None,
        },
    decreases decisions.len(),
{
    if decisions.len() > 0 {
        let rest = decisions.drop_last();
        let last = decisions.last();
        lemma_target(rest, span, partition);
        assert(decisions.contains(last)) by {
            assert(decisions[decisions.len() - 1] == last);
        }
        assert forall|d: CallSiteDecision| #[trigger] decisions.contains(d) implies d == last
            || rest.contains(d) by {
            let k = choose|k: int| 0 <= k < decisions.len() && decisions[k] == d;
            if k < rest.len() {
                assert(rest[k] == d);
            }
        }
        assert forall|d: CallSiteDecision| #[trigger]
            rest.contains(d) implies decisions.contains(d) by {
            let k = choose|k: int| 0 <= k < rest.len() && rest[k] == d;
            assert(decisions[k] == d);
        }
        if crate::rewrite::target(rest, span, partition) is Some {
            let d = choose|d: CallSiteDecision| #[trigger]
                rest.contains(d) && d.span == span && crate::rewrite::asked_idx(
                    d.decision,
                    partition,
                ) == crate::rewrite::target(rest, span, partition);
            assert(decisions.contains(d));
        }
    }
}

/// What a decision asks to be done.
pub open spec fn asked_for(decision: Option<Decision>) -> Option<Action> {
    match decision {
        Some(Decision::Compilable { props_arg_idx }) => Some(Action::Partition(props_arg_idx)),
        Some(Decision::KeyOnly { props_arg_idx }) => Some(Action::Stamp(props_arg_idx)),
        _ => None,
    }
}

/// Where calls can be told apart by their spans, what is done to each call is
/// what detection decided on it.
pub proof fn law_done_as_decided(
    rule: PropsRule,
    program: Seq<SpecNode>,
    modules: Set<Seq<char>>,
    catalog: SpecCatalog,
    i: int,
)
    requires
        distinct_calls(crate::visit::items_of_nodes(program)),
        0 <= i < crate::visit::items_of_nodes(program).len(),
        crate::visit::items_of_nodes(program)[i] is Call,
    ensures
        ({
            let items = crate::visit::items_of_nodes(program);
            let call = items[i]->Call_0;
            crate::rewrite::action_at(
                crate::detect::decisions_of(rule, program, modules, catalog),
                call.span,
            ) == asked_for(
                crate::detect::call_decision(
                    rule,
                    call,
                    crate::detect::factories_of(program, modules, catalog),
                    crate::detect::imports_of(items, modules, catalog).namespaces,
                    catalog,
                ),
            )
        }),
{
    let items = crate::visit::items_of_nodes(program);
    let call = items[i]->Call_0;
    let factories = crate::detect::factories_of(program, modules, catalog);
    let namespaces = crate::detect::imports_of(items, modules, catalog).namespaces;
    let decisions = crate::detect::decisions_of(rule, program, modules, catalog);
    let own = crate::detect::call_decision(rule, call, factories, namespaces, catalog);
    lemma_decisions(rule, items, factories, namespaces, catalog);
    lemma_target(decisions, call.span, true);
    lemma_target(decisions, call.span, false);
    assert forall|d: CallSiteDecision|
        d.span == call.span && #[trigger] decisions.contains(d) implies own == Some(
        d.decision,
    ) by {
        assert(decided(d, rule, items, factories, namespaces, catalog));
        let j = choose|j: int|
            0 <= j < items.len() && (#[trigger] items[j]) is Call && items[j]->Call_0.span == d.span
                && crate::detect::call_decision(
                rule,
                items[j]->Call_0,
                factories,
                namespaces,
                catalog,
            ) == Some(d.decision);
        assert(items[j] == items[i]);
    }
    if own is Some {
        let d = CallSiteDecision { span: call.span, decision: own->0 };
        assert(decided(d, rule, items, factories, namespaces, catalog)) by {
            assert(items[i] is Call);
        }
        assert(decisions.contains(d));
    }
}

/// Where calls can be told apart by their spans, every call can be rewritten
/// as detection decides.
pub proof fn law_distinct_calls_can_be_rewritten(
    program: Seq<SpecNode>,
    modules: Set<Seq<char>>,
    catalog: SpecCatalog,
)
    requires
        distinct_calls(crate::visit::items_of_nodes(program)),
    ensures
        crate::rewrite::rewritable(
            program,
            crate::detect::decisions_of(PropsRule::Ordered, program, modules, catalog),
        ),
{
    let items = crate::visit::items_of_nodes(program);
    let decisions = crate::detect::decisions_of(PropsRule::Ordered, program, modules, catalog);
    assert forall|i: int| 0 <= i < items.len() implies crate::rewrite::rewritable_items(
        decisions,
    ).contains(#[trigger] items[i]) by {
        match items[i] {
            SpecItem::Call(call) => {
                law_done_as_decided(PropsRule::Ordered, program, modules, catalog, i);
                match crate::rewrite::action_at(decisions, call.span) {
                    Some(Action::Partition(idx)) => {
                        match crate::effect::unparen(call.args[idx as int].expr) {
                            SpecExpr::Object(props) => {
                                crate::validate::law_accepted_can_be_placed(props, catalog);
                            },
                            _ => {},
                        }
                    },
                    _ => {},
                }
            },
            _ => {},
        }
    }
}

/// An item, rewritten.
pub open spec fn new_item(item: SpecItem, r: SpecRewriter) -> SpecItem {
    match item {
        SpecItem::Import(decl) => SpecItem::Import(decl),
        SpecItem::Var(decl) => SpecItem::Var(
            SpecVar { kind: decl.kind, decls: crate::rewrite::new_declarators(decl.decls, r) },
        ),
        SpecItem::Call(call) => SpecItem::Call(crate::rewrite::new_call(call, r)),
    }
}

/// A set of items, each rewritten.
pub open spec fn new_items(items: Set<SpecItem>, r: SpecRewriter) -> Set<SpecItem> {
    Set::new(|b: SpecItem| exists|a: SpecItem| items.contains(a) && b == #[trigger] new_item(a, r))
}

proof fn lemma_set_concat(a: Seq<SpecItem>, b: Seq<SpecItem>)
    ensures
        (a + b).to_set() == a.to_set().union(b.to_set()),
{
    assert forall|x: SpecItem| (a + b).to_set().contains(x) == a.to_set().union(
        b.to_set(),
    ).contains(x) by {
        if a.contains(x) {
            let i = choose|i: int| 0 <= i < a.len() && a[i] == x;
            assert((a + b)[i] == x);
        }
        if b.contains(x) {
            let i = choose|i: int| 0 <= i < b.len() && b[i] == x;
            assert((a + b)[a.len() + i] == x);
        }
        if (a + b).contains(x) {
            let i = choose|i: int| 0 <= i < (a + b).len() && (a + b)[i] == x;
            if i < a.len() {
                assert(a[i] == x);
            } else {
                assert(b[i - a.len()] == x);
            }
        }
    }
    assert((a + b).to_set() =~= a.to_set().union(b.to_set()));
}

proof fn lemma_set_one(x: SpecItem)
    ensures
        seq![x].to_set() == Set::empty().insert(x),
{
    assert(seq![x][0] == x);
    assert(seq![x].to_set() =~= Set::empty().insert(x));
}

proof fn lemma_new_union(a: Set<SpecItem>, b: Set<SpecItem>, r: SpecRewriter)
    ensures
        new_items(a.union(b), r) == new_items(a, r).union(new_items(b, r)),
{
    assert forall|y: SpecItem| new_items(a.union(b), r).contains(y) == new_items(a, r).union(
        new_items(b, r),
    ).contains(y) by {
        if new_items(a.union(b), r).contains(y) {
            let x = choose|x: SpecItem| a.union(b).contains(x) && y == #[trigger] new_item(x, r);
            assert(y == new_item(x, r));
        }
        if new_items(a, r).contains(y) {
            let x = choose|x: SpecItem| a.contains(x) && y == #[trigger] new_item(x, r);
            assert(a.union(b).contains(x) && y == new_item(x, r));
        }
        if new_items(b, r).contains(y) {
            let x = choose|x: SpecItem| b.contains(x) && y == #[trigger] new_item(x, r);
            assert(a.union(b).contains(x) && y == new_item(x, r));
        }
    }
    assert(new_items(a.union(b), r) =~= new_items(a, r).union(new_items(b, r)));
}

proof fn lemma_new_one(x: SpecItem, r: SpecRewriter)
    ensures
        new_items(seq![x].to_set(), r) == seq![new_item(x, r)].to_set(),
{
    lemma_set_one(x);
    lemma_set_one(new_item(x, r));
    assert forall|y: SpecItem| new_items(seq![x].to_set(), r).contains(y) == seq![
        new_item(x, r),
    ].to_set().contains(y) by {
        if y == new_item(x, r) {
            assert(seq![x].to_set().contains(x) && y == new_item(x, r));
        }
    }
    assert(new_items(seq![x].to_set(), r) =~= seq![new_item(x, r)].to_set());
}

proof fn lemma_new_none(r: SpecRewriter)
    ensures
        new_items(Seq::<SpecItem>::empty().to_set(), r) == Seq::<SpecItem>::empty().to_set(),
{
    assert(new_items(Seq::<SpecItem>::empty().to_set(), r) =~= Seq::<SpecItem>::empty().to_set());
}

/// Two lists of items, one behind the other, each the rewriting of another.
proof fn lemma_new_concat(
    a: Seq<SpecItem>,
    b: Seq<SpecItem>,
    new_a: Seq<SpecItem>,
    new_b: Seq<SpecItem>,
    r: SpecRewriter,
)
    requires
        new_a.to_set() == new_items(a.to_set(), r),
        new_b.to_set() == new_items(b.to_set(), r),
    ensures
        (new_a + new_b).to_set() == new_items((a + b).to_set(), r),
{
    lemma_set_concat(a, b);
    lemma_set_concat(new_a, new_b);
    lemma_new_union(a.to_set(), b.to_set(), r);
}

/// The items of each entry.
pub open spec fn entry_items() -> spec_fn(SpecEntry) -> Seq<SpecItem> {
    |entry: SpecEntry| crate::visit::items_of_entry(entry)
}

proof fn lemma_items_gathered(props: Seq<SpecEntry>)
    ensures
        crate::visit::items_of_props(props) == crate::partition::gathered(props, entry_items()),
    decreases props.len(),
{
    if props.len() > 0 {
        lemma_items_gathered(props.drop_last());
    }
}

proof fn lemma_themed_value_items(e: SpecExpr)
    ensures
        crate::visit::items_of_expr(crate::partition::themed_value(e))
            == crate::visit::items_of_expr(e),
    decreases e,
{
    match e {
        SpecExpr::Paren(inner) => lemma_themed_value_items(*inner),
        _ => {},
    }
}

proof fn lemma_themed_entry_items(entry: SpecEntry)
    ensures
        crate::visit::items_of_entry(crate::partition::themed(entry))
            == crate::visit::items_of_entry(entry),
{
    match entry {
        SpecEntry::Prop { prop: SpecProp::KeyValue { key, value }, .. } => {
            lemma_themed_value_items(value);
            reveal_with_fuel(crate::visit::items_of_entry, 3);
        },
        _ => {},
    }
}

proof fn lemma_bucket_items(name: Seq<char>, entries: Seq<SpecEntry>)
    ensures
        crate::visit::items_of_entry(crate::partition::bucket(name, entries))
            == crate::visit::items_of_props(entries),
{
    reveal_with_fuel(crate::visit::items_of_entry, 4);
    assert(crate::visit::items_of_entry(crate::partition::bucket(name, entries))
        =~= crate::visit::items_of_props(entries));
}

/// The marker and the call-site key hold no items.
proof fn lemma_new_entries_hold_no_items(schema: Seq<char>, filename: Seq<char>, span: Span)
    ensures
        crate::visit::items_of_entry(crate::partition::marker(schema)).len() == 0,
        crate::visit::items_of_entry(crate::partition::key_entry(filename, span)).len() == 0,
{
    reveal_with_fuel(crate::visit::items_of_entry, 4);
}

proof fn lemma_names_hold_no_items(names: Seq<Seq<char>>)
    ensures
        crate::visit::items_of_elems(
            names.map_values(
                |name: Seq<char>|
                    Some(SpecArg { spread: false, expr: crate::partition::new_str(name) }),
            ),
        ) == Seq::<SpecItem>::empty(),
    decreases names.len(),
{
    let f = |name: Seq<char>|
        Some(SpecArg { spread: false, expr: crate::partition::new_str(name) });
    let elems = names.map_values(f);
    if names.len() > 0 {
        lemma_names_hold_no_items(names.drop_last());
        assert(elems.drop_last() =~= names.drop_last().map_values(f));
        assert(elems.last() == f(names.last()));
        reveal_with_fuel(crate::visit::items_of_elem, 2);
        assert(crate::visit::items_of_elem(elems.last()) =~= Seq::empty());
        assert(crate::visit::items_of_elems(elems) =~= Seq::empty());
    }
}

/// The items of the entries of a group.
pub open spec fn group_items(
    props: Seq<SpecEntry>,
    at: EmitRank,
    with_spread: bool,
    catalog: SpecCatalog,
) -> Set<SpecItem> {
    crate::visit::items_of_props(
        crate::partition::group(props, at, with_spread, catalog),
    ).to_set()
}

/// The four groups together hold the items of the source.
proof fn lemma_grouped_items(props: Seq<SpecEntry>, with_spread: bool, catalog: SpecCatalog)
    ensures
        group_items(props, EmitRank::Spread, with_spread, catalog).union(
            group_items(props, EmitRank::Css, with_spread, catalog),
        ).union(group_items(props, EmitRank::Data, with_spread, catalog)).union(
            group_items(props, EmitRank::Special, with_spread, catalog),
        ) == crate::visit::items_of_props(props).to_set(),
    decreases props.len(),
{
    let all = group_items(props, EmitRank::Spread, with_spread, catalog).union(
        group_items(props, EmitRank::Css, with_spread, catalog),
    ).union(group_items(props, EmitRank::Data, with_spread, catalog)).union(
        group_items(props, EmitRank::Special, with_spread, catalog),
    );
    if props.len() > 0 {
        let rest = props.drop_last();
        let x = props.last();
        let rho = crate::placement::rank(x, with_spread, catalog);
        let shorter = crate::partition::group(rest, rho, with_spread, catalog);
        lemma_grouped_items(rest, with_spread, catalog);
        assert(shorter.push(x).drop_last() =~= shorter);
        lemma_set_concat(crate::visit::items_of_props(rest), crate::visit::items_of_entry(x));
        lemma_set_concat(crate::visit::items_of_props(shorter), crate::visit::items_of_entry(x));
        assert(all =~= crate::visit::items_of_props(props).to_set());
    } else {
        assert(all =~= crate::visit::items_of_props(props).to_set());
    }
}

/// Partitioning a props object keeps the items in it.
proof fn lemma_partitioned_items(
    props: Seq<SpecEntry>,
    filename: Seq<char>,
    span: Span,
    catalog: SpecCatalog,
)
    ensures
        crate::visit::items_of_props(
            crate::partition::partitioned(props, filename, span, catalog),
        ).to_set() == crate::visit::items_of_props(props).to_set(),
{
    let with_spread = crate::placement::has_spread(props);
    let lead = crate::partition::group(props, EmitRank::Spread, with_spread, catalog);
    let css = crate::partition::group(props, EmitRank::Css, with_spread, catalog);
    let dom = crate::partition::group(props, EmitRank::Data, with_spread, catalog);
    let special = crate::partition::group(props, EmitRank::Special, with_spread, catalog);
    let names = crate::partition::dynamic_names(props);
    let f = entry_items();
    assert forall|entry: SpecEntry| #[trigger] f(crate::partition::themed(entry)) == f(entry) by {
        lemma_themed_entry_items(entry);
    }
    assert forall|name: Seq<char>, entries: Seq<SpecEntry>| #[trigger]
        f(crate::partition::bucket(name, entries)) == crate::partition::gathered(entries, f) by {
        lemma_bucket_items(name, entries);
        lemma_items_gathered(entries);
    }
    lemma_new_entries_hold_no_items("2"@, filename, span);
    assert(f(crate::partition::dyn_entry(names)).len() == 0) by {
        lemma_names_hold_no_items(names);
        reveal_with_fuel(crate::visit::items_of_entry, 4);
    }
    crate::partition::lemma_gathered_partitioned(props, filename, span, catalog, f);
    lemma_items_gathered(crate::partition::partitioned(props, filename, span, catalog));
    lemma_items_gathered(lead);
    lemma_items_gathered(css);
    lemma_items_gathered(dom);
    lemma_items_gathered(special);
    let li = crate::visit::items_of_props(lead);
    let ci = crate::visit::items_of_props(css);
    let di = crate::visit::items_of_props(dom);
    let si = crate::visit::items_of_props(special);
    lemma_set_concat(li, ci);
    lemma_set_concat(li + ci, di);
    lemma_set_concat(li + ci + di, si);
    lemma_grouped_items(props, with_spread, catalog);
}

proof fn lemma_stamped_items(props: Seq<SpecEntry>, filename: Seq<char>, span: Span)
    ensures
        crate::visit::items_of_props(crate::partition::stamped(props, filename, span))
            == crate::visit::items_of_props(props),
{
    lemma_new_entries_hold_no_items("3"@, filename, span);
    crate::partition::lemma_gathered_stamped(props, filename, span, entry_items());
    lemma_items_gathered(props);
    lemma_items_gathered(crate::partition::stamped(props, filename, span));
}

proof fn lemma_with_object_items(e: SpecExpr, partition: bool, span: Span, r: SpecRewriter)
    ensures
        crate::visit::items_of_expr(
            crate::rewrite::with_object(e, partition, span, r),
        ).to_set() == crate::visit::items_of_expr(e).to_set(),
    decreases e,
{
    match e {
        SpecExpr::Paren(inner) => lemma_with_object_items(*inner, partition, span, r),
        SpecExpr::Object(props) => {
            lemma_partitioned_items(props, r.filename, span, r.catalog);
            lemma_stamped_items(props, r.filename, span);
        },
        _ => {},
    }
}

proof fn lemma_args_update_items(args: Seq<SpecArg>, i: int, arg: SpecArg)
    requires
        0 <= i < args.len(),
        crate::visit::items_of_expr(arg.expr).to_set() == crate::visit::items_of_expr(
            args[i].expr,
        ).to_set(),
    ensures
        crate::visit::items_of_args(args.update(i, arg)).to_set() == crate::visit::items_of_args(
            args,
        ).to_set(),
    decreases args.len(),
{
    let new = args.update(i, arg);
    let rest = args.drop_last();
    lemma_set_concat(
        crate::visit::items_of_args(rest),
        crate::visit::items_of_expr(args.last().expr),
    );
    lemma_set_concat(
        crate::visit::items_of_args(new.drop_last()),
        crate::visit::items_of_expr(new.last().expr),
    );
    if i == args.len() - 1 {
        assert(new.drop_last() =~= rest);
    } else {
        lemma_args_update_items(rest, i, arg);
        assert(new.drop_last() =~= rest.update(i, arg));
    }
}

proof fn lemma_acted_items(args: Seq<SpecArg>, span: Span, r: SpecRewriter)
    ensures
        crate::visit::items_of_args(crate::rewrite::acted_args(args, span, r)).to_set()
            == crate::visit::items_of_args(args).to_set(),
{
    match crate::rewrite::action_at(r.decisions, span) {
        Some(Action::Partition(idx)) => {
            if idx < args.len() {
                lemma_with_object_items(args[idx as int].expr, true, span, r);
                lemma_args_update_items(
                    args,
                    idx as int,
                    SpecArg {
                        expr: crate::rewrite::with_object(args[idx as int].expr, true, span, r),
                        ..args[idx as int]
                    },
                );
            }
        },
        Some(Action::Stamp(idx)) => {
            if idx < args.len() {
                lemma_with_object_items(args[idx as int].expr, false, span, r);
                lemma_args_update_items(
                    args,
                    idx as int,
                    SpecArg {
                        expr: crate::rewrite::with_object(args[idx as int].expr, false, span, r),
                        ..args[idx as int]
                    },
                );
            }
        },
        None => {},
    }
}

proof fn lemma_expr_items(e: SpecExpr, r: SpecRewriter)
    ensures
        crate::visit::items_of_expr(crate::rewrite::new_expr(e, r)).to_set() == new_items(
            crate::visit::items_of_expr(e).to_set(),
            r,
        ),
    decreases e,
{
    lemma_new_none(r);
    match e {
        SpecExpr::Lit(_) => {},
        SpecExpr::Ident(_) => {},
        SpecExpr::Arrow(ns) => lemma_nodes_items(ns, r),
        SpecExpr::Fn(ns) => lemma_nodes_items(ns, r),
        SpecExpr::Unary { op, arg } => lemma_expr_items(*arg, r),
        SpecExpr::Tpl { exprs } => lemma_exprs_items(exprs, r),
        SpecExpr::Object(props) => lemma_props_items(props, r),
        SpecExpr::Array { elems } => lemma_elems_items(elems, r),
        SpecExpr::Paren(inner) => lemma_expr_items(*inner, r),
        SpecExpr::Call(call) => lemma_call_items(call, r),
        SpecExpr::Member { obj, prop } => {
            lemma_expr_items(*obj, r);
            lemma_nodes_items(prop, r);
            lemma_new_concat(
                crate::visit::items_of_expr(*obj),
                crate::visit::items_of_nodes(prop),
                crate::visit::items_of_expr(crate::rewrite::new_expr(*obj, r)),
                crate::visit::items_of_nodes(crate::rewrite::new_nodes(prop, r)),
                r,
            );
        },
        SpecExpr::Other(ns) => lemma_nodes_items(ns, r),
    }
}

proof fn lemma_call_items(call: SpecCall, r: SpecRewriter)
    ensures
        crate::visit::items_of_call(crate::rewrite::new_call(call, r)).to_set() == new_items(
            crate::visit::items_of_call(call).to_set(),
            r,
        ),
    decreases call,
{
    let new = crate::rewrite::new_call(call, r);
    let own = seq![SpecItem::Call(call)];
    let new_own = seq![SpecItem::Call(new)];
    let callee_items = crate::visit::items_of_callee(call.callee);
    let args_items = crate::visit::items_of_args(call.args);
    let type_items = crate::visit::items_of_nodes(call.type_args);
    let new_callee_items = crate::visit::items_of_callee(new.callee);
    let new_args_items = crate::visit::items_of_args(new.args);
    let new_type_items = crate::visit::items_of_nodes(new.type_args);
    lemma_new_none(r);
    lemma_new_one(SpecItem::Call(call), r);
    match call.callee {
        SpecCallee::Expr(e) => lemma_expr_items(*e, r),
        _ => {},
    }
    lemma_args_items(call.args, r);
    lemma_acted_items(crate::rewrite::new_args(call.args, r), call.span, r);
    lemma_nodes_items(call.type_args, r);
    lemma_new_concat(own, callee_items, new_own, new_callee_items, r);
    lemma_new_concat(own + callee_items, args_items, new_own + new_callee_items, new_args_items, r);
    lemma_new_concat(
        own + callee_items + args_items,
        type_items,
        new_own + new_callee_items + new_args_items,
        new_type_items,
        r,
    );
}

proof fn lemma_elem_items(elem: Option<SpecArg>, r: SpecRewriter)
    ensures
        crate::visit::items_of_elem(crate::rewrite::new_elem(elem, r)).to_set() == new_items(
            crate::visit::items_of_elem(elem).to_set(),
            r,
        ),
    decreases elem,
{
    lemma_new_none(r);
    match elem {
        Some(arg) => {
            lemma_arg_items(arg, r);
        },
        None => {},
    }
}

proof fn lemma_arg_items(arg: SpecArg, r: SpecRewriter)
    ensures
        crate::visit::items_of_expr(crate::rewrite::new_arg(arg, r).expr).to_set() == new_items(
            crate::visit::items_of_expr(arg.expr).to_set(),
            r,
        ),
    decreases arg,
{
    lemma_expr_items(arg.expr, r);
}

proof fn lemma_prop_items(prop: SpecProp, r: SpecRewriter)
    ensures
        crate::visit::items_of_prop(crate::rewrite::new_prop(prop, r)).to_set() == new_items(
            crate::visit::items_of_prop(prop).to_set(),
            r,
        ),
    decreases prop,
{
    lemma_new_none(r);
    match prop {
        SpecProp::Shorthand(_) => {},
        SpecProp::KeyValue { key, value } => {
            match key {
                SpecKey::Computed(e) => lemma_expr_items(*e, r),
                _ => {},
            }
            lemma_expr_items(value, r);
            lemma_new_concat(
                crate::visit::items_of_key(key),
                crate::visit::items_of_expr(value),
                crate::visit::items_of_key(crate::rewrite::new_key(key, r)),
                crate::visit::items_of_expr(crate::rewrite::new_expr(value, r)),
                r,
            );
        },
        SpecProp::Assign { name, value } => lemma_expr_items(value, r),
        SpecProp::Getter(ns) => lemma_nodes_items(ns, r),
        SpecProp::Setter(ns) => lemma_nodes_items(ns, r),
        SpecProp::Method(ns) => lemma_nodes_items(ns, r),
    }
}

proof fn lemma_entry_items(entry: SpecEntry, r: SpecRewriter)
    ensures
        crate::visit::items_of_entry(crate::rewrite::new_entry(entry, r)).to_set() == new_items(
            crate::visit::items_of_entry(entry).to_set(),
            r,
        ),
    decreases entry,
{
    match entry {
        SpecEntry::Spread { span, expr } => lemma_expr_items(expr, r),
        SpecEntry::Prop { span, prop } => lemma_prop_items(prop, r),
    }
}

proof fn lemma_declarator_items(decl: SpecDeclarator, r: SpecRewriter)
    ensures
        crate::visit::items_of_declarator(crate::rewrite::new_declarator(decl, r)).to_set()
            == new_items(crate::visit::items_of_declarator(decl).to_set(), r),
    decreases decl,
{
    let new = crate::rewrite::new_declarator(decl, r);
    lemma_new_none(r);
    match decl.name {
        SpecPat::Ident { id, ann } => lemma_nodes_items(ann, r),
        SpecPat::Other(ns) => lemma_nodes_items(ns, r),
    }
    match decl.init {
        Some(e) => lemma_expr_items(e, r),
        None => {},
    }
    lemma_new_concat(
        crate::visit::items_of_pat(decl.name),
        match decl.init {
            Some(e) => crate::visit::items_of_expr(e),
            None => Seq::empty(),
        },
        crate::visit::items_of_pat(new.name),
        match new.init {
            Some(e) => crate::visit::items_of_expr(e),
            None => Seq::empty(),
        },
        r,
    );
}

pub proof fn lemma_node_items(node: SpecNode, r: SpecRewriter)
    ensures
        crate::visit::items_of_node(crate::rewrite::new_node(node, r)).to_set() == new_items(
            crate::visit::items_of_node(node).to_set(),
            r,
        ),
    decreases node,
{
    match node {
        SpecNode::Import(decl) => lemma_new_one(SpecItem::Import(decl), r),
        SpecNode::Var(decl) => {
            let new = SpecVar {
                kind: decl.kind,
                decls: crate::rewrite::new_declarators(decl.decls, r),
            };
            lemma_new_one(SpecItem::Var(decl), r);
            lemma_declarators_items(decl.decls, r);
            lemma_new_concat(
                seq![SpecItem::Var(decl)],
                crate::visit::items_of_declarators(decl.decls),
                seq![SpecItem::Var(new)],
                crate::visit::items_of_declarators(new.decls),
                r,
            );
        },
        SpecNode::Expr(e) => lemma_expr_items(e, r),
    }
}

pub proof fn lemma_nodes_items(list: Seq<SpecNode>, r: SpecRewriter)
    ensures
        crate::visit::items_of_nodes(crate::rewrite::new_nodes(list, r)).to_set() == new_items(
            crate::visit::items_of_nodes(list).to_set(),
            r,
        ),
    decreases list,
{
    let new = crate::rewrite::new_nodes(list, r);
    lemma_new_none(r);
    if list.len() > 0 {
        let rest = list.drop_last();
        lemma_nodes_items(rest, r);
        lemma_node_items(list.last(), r);
        assert(new.drop_last() =~= crate::rewrite::new_nodes(rest, r));
        assert(new.last() == crate::rewrite::new_node(list.last(), r));
        lemma_new_concat(
            crate::visit::items_of_nodes(rest),
            crate::visit::items_of_node(list.last()),
            crate::visit::items_of_nodes(new.drop_last()),
            crate::visit::items_of_node(new.last()),
            r,
        );
    }
}

proof fn lemma_exprs_items(list: Seq<SpecExpr>, r: SpecRewriter)
    ensures
        crate::visit::items_of_exprs(crate::rewrite::new_exprs(list, r)).to_set() == new_items(
            crate::visit::items_of_exprs(list).to_set(),
            r,
        ),
    decreases list,
{
    let new = crate::rewrite::new_exprs(list, r);
    lemma_new_none(r);
    if list.len() > 0 {
        let rest = list.drop_last();
        lemma_exprs_items(rest, r);
        lemma_expr_items(list.last(), r);
        assert(new.drop_last() =~= crate::rewrite::new_exprs(rest, r));
        assert(new.last() == crate::rewrite::new_expr(list.last(), r));
        lemma_new_concat(
            crate::visit::items_of_exprs(rest),
            crate::visit::items_of_expr(list.last()),
            crate::visit::items_of_exprs(new.drop_last()),
            crate::visit::items_of_expr(new.last()),
            r,
        );
    }
}

proof fn lemma_props_items(list: Seq<SpecEntry>, r: SpecRewriter)
    ensures
        crate::visit::items_of_props(crate::rewrite::new_props(list, r)).to_set() == new_items(
            crate::visit::items_of_props(list).to_set(),
            r,
        ),
    decreases list,
{
    let new = crate::rewrite::new_props(list, r);
    lemma_new_none(r);
    if list.len() > 0 {
        let rest = list.drop_last();
        lemma_props_items(rest, r);
        lemma_entry_items(list.last(), r);
        assert(new.drop_last() =~= crate::rewrite::new_props(rest, r));
        assert(new.last() == crate::rewrite::new_entry(list.last(), r));
        lemma_new_concat(
            crate::visit::items_of_props(rest),
            crate::visit::items_of_entry(list.last()),
            crate::visit::items_of_props(new.drop_last()),
            crate::visit::items_of_entry(new.last()),
            r,
        );
    }
}

proof fn lemma_args_items(list: Seq<SpecArg>, r: SpecRewriter)
    ensures
        crate::visit::items_of_args(crate::rewrite::new_args(list, r)).to_set() == new_items(
            crate::visit::items_of_args(list).to_set(),
            r,
        ),
    decreases list,
{
    let new = crate::rewrite::new_args(list, r);
    lemma_new_none(r);
    if list.len() > 0 {
        let rest = list.drop_last();
        lemma_args_items(rest, r);
        lemma_arg_items(list.last(), r);
        assert(new.drop_last() =~= crate::rewrite::new_args(rest, r));
        assert(new.last() == crate::rewrite::new_arg(list.last(), r));
        lemma_new_concat(
            crate::visit::items_of_args(rest),
            crate::visit::items_of_expr(list.last().expr),
            crate::visit::items_of_args(new.drop_last()),
            crate::visit::items_of_expr(new.last().expr),
            r,
        );
    }
}

proof fn lemma_elems_items(list: Seq<Option<SpecArg>>, r: SpecRewriter)
    ensures
        crate::visit::items_of_elems(crate::rewrite::new_elems(list, r)).to_set() == new_items(
            crate::visit::items_of_elems(list).to_set(),
            r,
        ),
    decreases list,
{
    let new = crate::rewrite::new_elems(list, r);
    lemma_new_none(r);
    if list.len() > 0 {
        let rest = list.drop_last();
        lemma_elems_items(rest, r);
        lemma_elem_items(list.last(), r);
        assert(new.drop_last() =~= crate::rewrite::new_elems(rest, r));
        assert(new.last() == crate::rewrite::new_elem(list.last(), r));
        lemma_new_concat(
            crate::visit::items_of_elems(rest),
            crate::visit::items_of_elem(list.last()),
            crate::visit::items_of_elems(new.drop_last()),
            crate::visit::items_of_elem(new.last()),
            r,
        );
    }
}

proof fn lemma_declarators_items(list: Seq<SpecDeclarator>, r: SpecRewriter)
    ensures
        crate::visit::items_of_declarators(crate::rewrite::new_declarators(list, r)).to_set() == new_items(
            crate::visit::items_of_declarators(list).to_set(),
            r,
        ),
    decreases list,
{
    let new = crate::rewrite::new_declarators(list, r);
    lemma_new_none(r);
    if list.len() > 0 {
        let rest = list.drop_last();
        lemma_declarators_items(rest, r);
        lemma_declarator_items(list.last(), r);
        assert(new.drop_last() =~= crate::rewrite::new_declarators(rest, r));
        assert(new.last() == crate::rewrite::new_declarator(list.last(), r));
        lemma_new_concat(
            crate::visit::items_of_declarators(rest),
            crate::visit::items_of_declarator(list.last()),
            crate::visit::items_of_declarators(new.drop_last()),
            crate::visit::items_of_declarator(new.last()),
            r,
        );
    }
}

/// No import, declaration or call of a program is lost by rewriting it, and
/// none is added: what the rewritten program holds is what the program held,
/// each rewritten.
pub proof fn law_items_are_kept(
    program: Seq<SpecNode>,
    filename: Seq<char>,
    modules: Set<Seq<char>>,
    catalog: SpecCatalog,
)
    ensures
        ({
            let r = SpecRewriter {
                decisions: crate::detect::decisions_of(
                    PropsRule::Ordered,
                    program,
                    modules,
                    catalog,
                ),
                filename,
                catalog,
            };
            crate::visit::items_of_nodes(
                crate::partition::transformed(program, filename, modules, catalog),
            ).to_set() == new_items(crate::visit::items_of_nodes(program).to_set(), r)
        }),
{
    let r = SpecRewriter {
        decisions: crate::detect::decisions_of(PropsRule::Ordered, program, modules, catalog),
        filename,
        catalog,
    };
    lemma_nodes_items(program, r);
}

} // verus!
