//! Compiling what has been compiled changes nothing.
use crate::ast::{Span, VarKind};
use crate::catalog::SpecCatalog;
use crate::detect::{CallSiteDecision, CandidateKind, Decision, ImportBinding, PropsRule};
use crate::model::{
    SpecArg, SpecCall, SpecCallee, SpecDeclarator, SpecEntry, SpecExpr, SpecIdent, SpecNode,
    SpecVar,
};
use crate::rewrite::{Action, SpecRewriter};
use crate::validate::BailReason;
use crate::visit::SpecItem;
use vstd::prelude::*;

verus! {

/// Imports are statements of the program itself, and never inside others.
pub open spec fn imports_on_top(program: Seq<SpecNode>) -> bool {
    forall|i: int|
        0 <= i < program.len() && !((#[trigger] program[i]) is Import) ==> no_imports(
            crate::visit::items_of_node(program[i]),
        )
}

pub open spec fn no_imports(items: Seq<SpecItem>) -> bool {
    forall|i: int| 0 <= i < items.len() ==> !((#[trigger] items[i]) is Import)
}

/// A `const` declaration among the items makes a factory of a kind under a
/// name.
pub open spec fn makes(
    items: Set<SpecItem>,
    imports: Map<SpecIdent, ImportBinding>,
    id: SpecIdent,
    kind: CandidateKind,
) -> bool {
    exists|decl: SpecVar, i: int| #[trigger] makes_at(items, imports, decl, i, id, kind)
}

pub open spec fn makes_at(
    items: Set<SpecItem>,
    imports: Map<SpecIdent, ImportBinding>,
    decl: SpecVar,
    i: int,
    id: SpecIdent,
    kind: CandidateKind,
) -> bool {
    &&& items.contains(SpecItem::Var(decl))
    &&& decl.kind == VarKind::Const
    &&& 0 <= i < decl.decls.len()
    &&& crate::detect::made_factory(decl.decls[i], imports) == Some((id, kind))
}

/// No name stands for factories of two kinds.
pub open spec fn declared_once(
    items: Set<SpecItem>,
    imports: Map<SpecIdent, ImportBinding>,
) -> bool {
    forall|id: SpecIdent, a: CandidateKind, b: CandidateKind| #[trigger]
        makes(items, imports, id, a) && #[trigger] makes(items, imports, id, b) ==> a == b
}

/// A program as a parser and a resolver hand it on: imports are at the top,
/// each binding is declared once, and calls have spans of their own.
pub open spec fn well_formed(
    program: Seq<SpecNode>,
    modules: Set<Seq<char>>,
    catalog: SpecCatalog,
) -> bool {
    let items = crate::visit::items_of_nodes(program);
    &&& imports_on_top(program)
    &&& declared_once(
        items.to_set(),
        crate::detect::imports_of(items, modules, catalog).bindings,
    )
    &&& crate::program_laws::distinct_calls(items)
}

pub proof fn lemma_no_imports_behind(
    a: Seq<SpecItem>,
    b: Seq<SpecItem>,
    modules: Set<Seq<char>>,
    catalog: SpecCatalog,
)
    requires
        no_imports(b),
    ensures
        crate::detect::imports_of(a + b, modules, catalog) == crate::detect::imports_of(
            a,
            modules,
            catalog,
        ),
    decreases b.len(),
{
    if b.len() == 0 {
        assert(a + b =~= a);
    } else {
        assert(no_imports(b.drop_last())) by {
            assert forall|i: int| 0 <= i < b.drop_last().len() implies !((
            #[trigger] b.drop_last()[i]) is Import) by {
                assert(b.drop_last()[i] == b[i]);
            }
        }
        lemma_no_imports_behind(a, b.drop_last(), modules, catalog);
        assert((a + b).drop_last() =~= a + b.drop_last());
        assert((a + b).last() == b[b.len() - 1]);
    }
}

/// Rewriting an item gives an import only of an import.
proof fn lemma_no_new_imports(node: SpecNode, r: SpecRewriter)
    requires
        no_imports(crate::visit::items_of_node(node)),
    ensures
        no_imports(crate::visit::items_of_node(crate::rewrite::new_node(node, r))),
{
    let items = crate::visit::items_of_node(node);
    let new = crate::visit::items_of_node(crate::rewrite::new_node(node, r));
    crate::program_laws::lemma_node_items(node, r);
    assert forall|i: int| 0 <= i < new.len() implies !((#[trigger] new[i]) is Import) by {
        assert(new.to_set().contains(new[i]));
        let a = choose|a: SpecItem|
            items.to_set().contains(a) && new[i] == #[trigger] crate::program_laws::new_item(a, r);
        let k = choose|k: int| 0 <= k < items.len() && items[k] == a;
        assert(!(items[k] is Import));
    }
}

proof fn lemma_same_imports(
    program: Seq<SpecNode>,
    r: SpecRewriter,
    modules: Set<Seq<char>>,
    catalog: SpecCatalog,
)
    requires
        imports_on_top(program),
    ensures
        crate::detect::imports_of(
            crate::visit::items_of_nodes(crate::rewrite::new_nodes(program, r)),
            modules,
            catalog,
        ) == crate::detect::imports_of(crate::visit::items_of_nodes(program), modules, catalog),
    decreases program.len(),
{
    let new = crate::rewrite::new_nodes(program, r);
    if program.len() > 0 {
        let rest = program.drop_last();
        let last = program.last();
        assert forall|i: int| 0 <= i < rest.len() && !((#[trigger] rest[i]) is Import) implies no_imports(
            crate::visit::items_of_node(rest[i]),
        ) by {
            assert(rest[i] == program[i]);
        }
        lemma_same_imports(rest, r, modules, catalog);
        assert(new.drop_last() =~= crate::rewrite::new_nodes(rest, r));
        assert(new.last() == crate::rewrite::new_node(last, r));
        let before = crate::visit::items_of_nodes(rest);
        let new_before = crate::visit::items_of_nodes(new.drop_last());
        match last {
            SpecNode::Import(decl) => {
                let x = SpecItem::Import(decl);
                reveal_with_fuel(crate::visit::items_of_nodes, 2);
                assert(new.last() == last);
                assert(crate::visit::items_of_nodes(program) == before + seq![x]);
                assert(crate::visit::items_of_nodes(new) == new_before + seq![x]);
                assert((before + seq![x]).drop_last() =~= before);
                assert((new_before + seq![x]).drop_last() =~= new_before);
                assert((before + seq![x]).last() == x);
                assert((new_before + seq![x]).last() == x);
            },
            _ => {
                assert(!(program[program.len() - 1] is Import));
                lemma_no_new_imports(last, r);
                lemma_no_imports_behind(
                    before,
                    crate::visit::items_of_node(last),
                    modules,
                    catalog,
                );
                lemma_no_imports_behind(
                    new_before,
                    crate::visit::items_of_node(new.last()),
                    modules,
                    catalog,
                );
            },
        }
    } else {
        assert(new =~= program);
    }
}

/// What declarators make, out of those that were there before.
proof fn lemma_declarators_make(
    acc: Map<SpecIdent, CandidateKind>,
    decls: Seq<SpecDeclarator>,
    imports: Map<SpecIdent, ImportBinding>,
)
    ensures
        ({
            let all = crate::detect::with_declarators(acc, decls, imports);
            &&& forall|id: SpecIdent| #[trigger]
                all.dom().contains(id) ==> (acc.dom().contains(id) && all[id] == acc[id])
                    || exists|i: int|
                    0 <= i < decls.len() && crate::detect::made_factory(
                        #[trigger] decls[i],
                        imports,
                    ) == Some((id, all[id]))
            &&& forall|id: SpecIdent|
                acc.dom().contains(id) ==> #[trigger] all.dom().contains(id)
            &&& forall|i: int|
                0 <= i < decls.len() && crate::detect::made_factory(
                    #[trigger] decls[i],
                    imports,
                ) is Some ==> all.dom().contains(
                    (crate::detect::made_factory(decls[i], imports)->0).0,
                )
        }),
    decreases decls.len(),
{
    let all = crate::detect::with_declarators(acc, decls, imports);
    if decls.len() > 0 {
        let rest = decls.drop_last();
        let before = crate::detect::with_declarators(acc, rest, imports);
        lemma_declarators_make(acc, rest, imports);
        assert forall|id: SpecIdent| #[trigger] all.dom().contains(id) implies (
        acc.dom().contains(id) && all[id] == acc[id]) || exists|i: int|
            0 <= i < decls.len() && crate::detect::made_factory(#[trigger] decls[i], imports)
                == Some((id, all[id])) by {
            let made = crate::detect::made_factory(decls[decls.len() - 1], imports);
            if made is Some && (made->0).0 == id {
                assert(made == Some((id, all[id])));
            } else {
                assert(before.dom().contains(id) && all[id] == before[id]);
                if !(acc.dom().contains(id) && before[id] == acc[id]) {
                    let i = choose|i: int|
                        0 <= i < rest.len() && crate::detect::made_factory(
                            #[trigger] rest[i],
                            imports,
                        ) == Some((id, before[id]));
                    assert(decls[i] == rest[i]);
                }
            }
        }
        assert forall|i: int|
            0 <= i < decls.len() && crate::detect::made_factory(
                #[trigger] decls[i],
                imports,
            ) is Some implies all.dom().contains(
            (crate::detect::made_factory(decls[i], imports)->0).0,
        ) by {
            if i < rest.len() {
                assert(rest[i] == decls[i]);
                assert(before.dom().contains(
                    (crate::detect::made_factory(rest[i], imports)->0).0,
                ));
            }
        }
    }
}

/// The local factories are those that some declaration makes.
pub proof fn lemma_locals_make(items: Seq<SpecItem>, imports: Map<SpecIdent, ImportBinding>)
    ensures
        ({
            let all = crate::detect::locals_of(items, imports);
            &&& forall|id: SpecIdent| #[trigger]
                all.dom().contains(id) ==> makes(items.to_set(), imports, id, all[id])
            &&& forall|id: SpecIdent, kind: CandidateKind| #[trigger]
                makes(items.to_set(), imports, id, kind) ==> all.dom().contains(id)
        }),
    decreases items.len(),
{
    let all = crate::detect::locals_of(items, imports);
    if items.len() > 0 {
        let rest = items.drop_last();
        let before = crate::detect::locals_of(rest, imports);
        lemma_locals_make(rest, imports);
        assert(items[items.len() - 1] == items.last());
        match items.last() {
            SpecItem::Var(decl) => lemma_declarators_make(before, decl.decls, imports),
            _ => {},
        }
        assert forall|id: SpecIdent| #[trigger] all.dom().contains(id) implies makes(
            items.to_set(),
            imports,
            id,
            all[id],
        ) by {
            if before.dom().contains(id) && all[id] == before[id] {
                assert(makes(rest.to_set(), imports, id, before[id]));
                let (decl, i) = choose|decl: SpecVar, i: int| #[trigger]
                    makes_at(rest.to_set(), imports, decl, i, id, before[id]);
                let k = choose|k: int| 0 <= k < rest.len() && rest[k] == SpecItem::Var(decl);
                assert(items[k] == SpecItem::Var(decl));
                assert(makes_at(items.to_set(), imports, decl, i, id, all[id]));
            } else {
                let decl = items.last()->Var_0;
                let i = choose|i: int|
                    0 <= i < decl.decls.len() && crate::detect::made_factory(
                        #[trigger] decl.decls[i],
                        imports,
                    ) == Some((id, all[id]));
                assert(makes_at(items.to_set(), imports, decl, i, id, all[id]));
            }
        }
        assert forall|id: SpecIdent, kind: CandidateKind| #[trigger]
            makes(items.to_set(), imports, id, kind) implies all.dom().contains(id) by {
            let (decl, i) = choose|decl: SpecVar, i: int| #[trigger]
                makes_at(items.to_set(), imports, decl, i, id, kind);
            let k = choose|k: int| 0 <= k < items.len() && items[k] == SpecItem::Var(decl);
            if k < rest.len() {
                assert(rest[k] == SpecItem::Var(decl));
                assert(makes_at(rest.to_set(), imports, decl, i, id, kind));
                assert(makes(rest.to_set(), imports, id, kind));
                assert(before.dom().contains(id));
            } else {
                assert(crate::detect::made_factory(decl.decls[i], imports) is Some);
            }
        }
    } else {
        assert forall|id: SpecIdent, kind: CandidateKind| #[trigger]
            makes(items.to_set(), imports, id, kind) implies all.dom().contains(id) by {
            let (decl, i) = choose|decl: SpecVar, i: int| #[trigger]
                makes_at(items.to_set(), imports, decl, i, id, kind);
            assert(items.contains(SpecItem::Var(decl)));
        }
    }
}

/// Rewriting a declarator keeps the factory that it makes.
proof fn lemma_same_factory(
    decl: SpecDeclarator,
    imports: Map<SpecIdent, ImportBinding>,
    r: SpecRewriter,
)
    ensures
        crate::detect::made_factory(crate::rewrite::new_declarator(decl, r), imports)
            == crate::detect::made_factory(decl, imports),
{
    reveal_with_fuel(crate::rewrite::new_declarator, 2);
    match decl.init {
        Some(SpecExpr::Call(call)) => {
            reveal_with_fuel(crate::rewrite::new_expr, 2);
            reveal_with_fuel(crate::rewrite::new_call, 2);
            reveal_with_fuel(crate::rewrite::new_callee, 2);
            match call.callee {
                SpecCallee::Expr(callee) => match *callee {
                    SpecExpr::Ident(id) => {
                        assert(crate::rewrite::new_expr(*callee, r) == *callee);
                    },
                    _ => {
                        assert(!(crate::rewrite::new_expr(*callee, r) is Ident));
                    },
                },
                _ => {},
            }
        },
        Some(e) => {
            assert(!(crate::rewrite::new_expr(e, r) is Call));
        },
        None => {},
    }
}

/// A rewritten program makes the factories that the program made.
proof fn lemma_same_makes(
    items: Set<SpecItem>,
    imports: Map<SpecIdent, ImportBinding>,
    r: SpecRewriter,
    id: SpecIdent,
    kind: CandidateKind,
)
    ensures
        makes(crate::program_laws::new_items(items, r), imports, id, kind) == makes(
            items,
            imports,
            id,
            kind,
        ),
{
    let new = crate::program_laws::new_items(items, r);
    if makes(items, imports, id, kind) {
        let (decl, i) = choose|decl: SpecVar, i: int| #[trigger]
            makes_at(items, imports, decl, i, id, kind);
        let new_decl = SpecVar {
            kind: decl.kind,
            decls: crate::rewrite::new_declarators(decl.decls, r),
        };
        lemma_same_factory(decl.decls[i], imports, r);
        assert(crate::program_laws::new_item(SpecItem::Var(decl), r) == SpecItem::Var(new_decl));
        assert(new.contains(SpecItem::Var(new_decl)));
        assert(new_decl.decls[i] == crate::rewrite::new_declarator(decl.decls[i], r));
        assert(makes_at(new, imports, new_decl, i, id, kind));
    }
    if makes(new, imports, id, kind) {
        let (new_decl, i) = choose|decl: SpecVar, i: int| #[trigger]
            makes_at(new, imports, decl, i, id, kind);
        let a = choose|a: SpecItem|
            items.contains(a) && SpecItem::Var(new_decl)
                == #[trigger] crate::program_laws::new_item(a, r);
        let decl = a->Var_0;
        assert(a == SpecItem::Var(decl));
        lemma_same_factory(decl.decls[i], imports, r);
        assert(new_decl.decls[i] == crate::rewrite::new_declarator(decl.decls[i], r));
        assert(makes_at(items, imports, decl, i, id, kind));
    }
}

proof fn lemma_same_factories(
    program: Seq<SpecNode>,
    r: SpecRewriter,
    modules: Set<Seq<char>>,
    catalog: SpecCatalog,
)
    requires
        well_formed(program, modules, catalog),
    ensures
        crate::detect::factories_of(crate::rewrite::new_nodes(program, r), modules, catalog)
            == crate::detect::factories_of(program, modules, catalog),
{
    let new = crate::rewrite::new_nodes(program, r);
    let items = crate::visit::items_of_nodes(program);
    let new_items = crate::visit::items_of_nodes(new);
    let imports = crate::detect::imports_of(items, modules, catalog).bindings;
    lemma_same_imports(program, r, modules, catalog);
    crate::program_laws::lemma_nodes_items(program, r);
    let locals = crate::detect::locals_of(items, imports);
    let new_locals = crate::detect::locals_of(new_items, imports);
    lemma_locals_make(items, imports);
    lemma_locals_make(new_items, imports);
    assert forall|id: SpecIdent| locals.dom().contains(id) == new_locals.dom().contains(id) by {
        if locals.dom().contains(id) {
            lemma_same_makes(items.to_set(), imports, r, id, locals[id]);
            assert(makes(new_items.to_set(), imports, id, locals[id]));
        }
        if new_locals.dom().contains(id) {
            lemma_same_makes(items.to_set(), imports, r, id, new_locals[id]);
            assert(makes(items.to_set(), imports, id, new_locals[id]));
        }
    }
    assert forall|id: SpecIdent| locals.dom().contains(id) implies locals[id] == new_locals[id] by {
        lemma_same_makes(items.to_set(), imports, r, id, new_locals[id]);
        assert(makes(items.to_set(), imports, id, locals[id]));
        assert(new_locals.dom().contains(id));
        assert(makes(items.to_set(), imports, id, new_locals[id]));
    }
    assert(locals =~= new_locals);
}

/// Rewriting what is inside an object literal keeps the marker and the shape
/// of the entries.
proof fn lemma_same_shape(props: Seq<SpecEntry>, r: SpecRewriter, i: int)
    requires
        0 <= i,
    ensures
        crate::validate::has_marker(crate::rewrite::new_props(props, r))
            == crate::validate::has_marker(props),
        crate::validate::first_shape_reason(crate::rewrite::new_props(props, r), i)
            == crate::validate::first_shape_reason(props, i),
    decreases props.len() - i,
{
    let new = crate::rewrite::new_props(props, r);
    assert forall|j: int| 0 <= j < props.len() implies crate::validate::marker_entry(
        #[trigger] new[j],
    ) == crate::validate::marker_entry(props[j]) && (new[j] is Prop) == (props[j] is Prop)
        && forall|b: bool| #[trigger]
        crate::validate::shape_reason(new[j], b) == crate::validate::shape_reason(props[j], b) by {
        reveal_with_fuel(crate::rewrite::new_entry, 3);
        assert(new[j] == crate::rewrite::new_entry(props[j], r));
    }
    if crate::validate::has_marker(props) {
        let j = choose|j: int|
            0 <= j < props.len() && crate::validate::marker_entry(#[trigger] props[j]);
        assert(crate::validate::marker_entry(new[j]));
    }
    if crate::validate::has_marker(new) {
        let j = choose|j: int|
            0 <= j < new.len() && crate::validate::marker_entry(#[trigger] new[j]);
        assert(crate::validate::marker_entry(props[j]));
    }
    if i < props.len() {
        lemma_same_shape(props, r, i + 1);
        assert(crate::validate::prop_before(new, i) == crate::validate::prop_before(props, i)) by {
            if crate::validate::prop_before(props, i) {
                let j = choose|j: int|
                    0 <= j < i && j < props.len() && (#[trigger] props[j]) is Prop;
                assert(new[j] is Prop);
            }
            if crate::validate::prop_before(new, i) {
                let j = choose|j: int| 0 <= j < i && j < new.len() && (#[trigger] new[j]) is Prop;
                assert(props[j] is Prop);
            }
        }
        assert(crate::validate::shape_reason(new[i], crate::validate::prop_before(new, i))
            == crate::validate::shape_reason(props[i], crate::validate::prop_before(props, i)));
    }
}

/// The object literal that is left inside the parentheses.
proof fn lemma_with_object_inside(e: SpecExpr, partition: bool, span: Span, r: SpecRewriter)
    ensures
        crate::effect::unparen(crate::rewrite::with_object(e, partition, span, r))
            == crate::rewrite::with_object(crate::effect::unparen(e), partition, span, r),
    decreases e,
{
    match e {
        SpecExpr::Paren(inner) => lemma_with_object_inside(*inner, partition, span, r),
        _ => {},
    }
}

/// The argument at which something is done.
pub open spec fn action_idx(action: Option<Action>) -> Option<usize> {
    match action {
        Some(Action::Partition(idx)) => Some(idx),
        Some(Action::Stamp(idx)) => Some(idx),
        None => None,
    }
}

/// If a decision asks for something to be done to a call, something is done,
/// and at the argument that the decision names.
pub open spec fn done_in_place(
    decision: Option<Decision>,
    span: Span,
    decisions: Seq<CallSiteDecision>,
) -> bool {
    crate::program_laws::asked_for(decision) is Some ==> action_idx(
        crate::rewrite::action_at(decisions, span),
    ) == action_idx(crate::program_laws::asked_for(decision))
}

/// Once a call has been rewritten where was decided on it, its props are fit
/// for no more.
proof fn lemma_props_settled(
    args: Seq<SpecArg>,
    idx: int,
    span: Span,
    r: SpecRewriter,
)
    requires
        0 <= idx <= 1,
        done_in_place(
            Some(crate::detect::props_decision(PropsRule::Ordered, args, idx, r.catalog)),
            span,
            r.decisions,
        ),
    ensures
        crate::detect::props_decision(
            PropsRule::Ordered,
            crate::rewrite::acted_args(crate::rewrite::new_args(args, r), span, r),
            idx,
            r.catalog,
        ) is Bail,
{
    let inner = crate::rewrite::new_args(args, r);
    let new = crate::rewrite::acted_args(inner, span, r);
    assert(new.len() == args.len());
    assert forall|i: int| 0 <= i < args.len() implies (#[trigger] new[i]).spread
        == args[i].spread by {
        assert(inner[i] == crate::rewrite::new_arg(args[i], r));
    }
    if crate::detect::spread_before(args, idx) {
        let i = choose|i: int| 0 <= i < idx && i < args.len() && (#[trigger] args[i]).spread;
        assert(new[i].spread);
        assert(crate::detect::spread_before(new, idx));
    }
    if idx < args.len() && !args[idx].spread {
        let e = args[idx].expr;
        crate::rewrite::lemma_new_expr_unparen(e, r);
        assert(inner[idx] == crate::rewrite::new_arg(args[idx], r));
        lemma_with_object_inside(inner[idx].expr, true, span, r);
        lemma_with_object_inside(inner[idx].expr, false, span, r);
        match crate::effect::unparen(e) {
            SpecExpr::Object(props) => {
                let new_props = crate::rewrite::new_props(props, r);
                lemma_same_shape(props, r, 0);
                crate::laws::law_compiled_is_recognized(new_props, r.filename, span, r.catalog);
                lemma_inside_is_object(e, props, r);
            },
            other => {
                lemma_inside_is_no_object(e, r);
            },
        }
    }
}

proof fn lemma_inside_is_object(e: SpecExpr, props: Seq<SpecEntry>, r: SpecRewriter)
    requires
        crate::effect::unparen(e) == SpecExpr::Object(props),
    ensures
        crate::effect::unparen(crate::rewrite::new_expr(e, r)) == SpecExpr::Object(
            crate::rewrite::new_props(props, r),
        ),
{
    crate::rewrite::lemma_new_expr_unparen(e, r);
    reveal_with_fuel(crate::rewrite::new_expr, 2);
}

proof fn lemma_inside_is_no_object(e: SpecExpr, r: SpecRewriter)
    requires
        !(crate::effect::unparen(e) is Object),
    ensures
        !(crate::effect::unparen(crate::rewrite::new_expr(e, r)) is Object),
    decreases e,
{
    match e {
        SpecExpr::Paren(inner) => lemma_inside_is_no_object(*inner, r),
        _ => {
            reveal_with_fuel(crate::rewrite::new_expr, 2);
        },
    }
}

/// Once a call has been rewritten where was decided on it, it is fit for no
/// more, unless its callee has become a factory that it was not.
proof fn lemma_call_settled(
    call: SpecCall,
    factories: Map<SpecIdent, CandidateKind>,
    namespaces: Set<SpecIdent>,
    new_factories: Map<SpecIdent, CandidateKind>,
    new_namespaces: Set<SpecIdent>,
    r: SpecRewriter,
)
    requires
        done_in_place(
            crate::detect::call_decision(
                PropsRule::Ordered,
                call,
                factories,
                namespaces,
                r.catalog,
            ),
            call.span,
            r.decisions,
        ),
        callee_kept(call, factories, new_factories),
    ensures
        match crate::detect::call_decision(
            PropsRule::Ordered,
            crate::rewrite::new_call(call, r),
            new_factories,
            new_namespaces,
            r.catalog,
        ) {
            Some(decision) => decision is Bail,
            None => true,
        },
{
    reveal_with_fuel(crate::rewrite::new_call, 2);
    reveal_with_fuel(crate::rewrite::new_callee, 2);
    match call.callee {
        SpecCallee::Expr(callee) => match *callee {
            SpecExpr::Ident(id) => {
                assert(crate::rewrite::new_expr(*callee, r) == *callee);
                if new_factories.dom().contains(id) {
                    lemma_props_settled(
                        call.args,
                        crate::detect::props_position(factories[id]),
                        call.span,
                        r,
                    );
                }
            },
            _ => {
                assert(!(crate::rewrite::new_expr(*callee, r) is Ident));
            },
        },
        _ => {},
    }
}

/// If the callee of a call is a factory by the new table, it was one by the
/// old table, and takes its props where it took them.
pub open spec fn callee_kept(
    call: SpecCall,
    factories: Map<SpecIdent, CandidateKind>,
    new_factories: Map<SpecIdent, CandidateKind>,
) -> bool {
    match call.callee {
        SpecCallee::Expr(callee) => match *callee {
            SpecExpr::Ident(id) => new_factories.dom().contains(id) ==> factories.dom().contains(id)
                && crate::detect::props_position(new_factories[id])
                == crate::detect::props_position(factories[id]),
            _ => true,
        },
        _ => true,
    }
}

/// Every call of a program is rewritten at the argument that was decided on for
/// it, if one was. Only another call of the same span can stand against that,
/// with its props at another argument.
pub open spec fn rewritten_in_place(
    program: Seq<SpecNode>,
    modules: Set<Seq<char>>,
    catalog: SpecCatalog,
) -> bool {
    let items = crate::visit::items_of_nodes(program);
    forall|i: int|
        #![trigger items[i]]
        0 <= i < items.len() && items[i] is Call ==> done_in_place(
            crate::detect::call_decision(
                PropsRule::Ordered,
                items[i]->Call_0,
                crate::detect::factories_of(program, modules, catalog),
                crate::detect::imports_of(items, modules, catalog).namespaces,
                catalog,
            ),
            items[i]->Call_0.span,
            crate::detect::decisions_of(PropsRule::Ordered, program, modules, catalog),
        )
}

/// No callee of a program becomes a factory by rewriting it, nor takes its
/// props elsewhere. Only a name that is bound twice, to different factories, by
/// declarations that rewriting moves past each other, can stand against that.
pub open spec fn callees_kept(
    program: Seq<SpecNode>,
    filename: Seq<char>,
    modules: Set<Seq<char>>,
    catalog: SpecCatalog,
) -> bool {
    let items = crate::visit::items_of_nodes(program);
    forall|i: int|
        #![trigger items[i]]
        0 <= i < items.len() && items[i] is Call ==> callee_kept(
            items[i]->Call_0,
            crate::detect::factories_of(program, modules, catalog),
            crate::detect::factories_of(
                crate::partition::transformed(program, filename, modules, catalog),
                modules,
                catalog,
            ),
        )
}

/// A program that was parsed and resolved has each call rewritten in its place,
/// and keeps its factories.
pub proof fn law_well_formed_programs_settle(
    program: Seq<SpecNode>,
    filename: Seq<char>,
    modules: Set<Seq<char>>,
    catalog: SpecCatalog,
)
    requires
        well_formed(program, modules, catalog),
    ensures
        rewritten_in_place(program, modules, catalog),
        callees_kept(program, filename, modules, catalog),
        crate::detect::factories_of(
            crate::partition::transformed(program, filename, modules, catalog),
            modules,
            catalog,
        ) == crate::detect::factories_of(program, modules, catalog),
{
    let decisions = crate::detect::decisions_of(PropsRule::Ordered, program, modules, catalog);
    let r = SpecRewriter { decisions, filename, catalog };
    let items = crate::visit::items_of_nodes(program);
    lemma_same_factories(program, r, modules, catalog);
    assert forall|i: int|
        #![trigger items[i]]
        0 <= i < items.len() && items[i] is Call implies done_in_place(
        crate::detect::call_decision(
            PropsRule::Ordered,
            items[i]->Call_0,
            crate::detect::factories_of(program, modules, catalog),
            crate::detect::imports_of(items, modules, catalog).namespaces,
            catalog,
        ),
        items[i]->Call_0.span,
        decisions,
    ) by {
        crate::program_laws::law_done_as_decided(
            PropsRule::Ordered,
            program,
            modules,
            catalog,
            i,
        );
    }
}

/// Calls that can be told apart by their spans still can be once they have
/// been rewritten.
pub proof fn law_calls_stay_distinct(program: Seq<SpecNode>, r: SpecRewriter)
    requires
        crate::program_laws::distinct_calls(crate::visit::items_of_nodes(program)),
    ensures
        crate::program_laws::distinct_calls(
            crate::visit::items_of_nodes(crate::rewrite::new_nodes(program, r)),
        ),
{
    let items = crate::visit::items_of_nodes(program);
    let new = crate::visit::items_of_nodes(crate::rewrite::new_nodes(program, r));
    crate::program_laws::lemma_nodes_items(program, r);
    assert forall|i: int, j: int|
        0 <= i < new.len() && 0 <= j < new.len() && (#[trigger] new[i]) is Call && (
        #[trigger] new[j]) is Call && new[i]->Call_0.span == new[j]->Call_0.span implies new[i]
        == new[j] by {
        assert(new.to_set().contains(new[i]));
        assert(new.to_set().contains(new[j]));
        let a = choose|a: SpecItem|
            items.to_set().contains(a) && new[i] == #[trigger] crate::program_laws::new_item(a, r);
        let b = choose|b: SpecItem|
            items.to_set().contains(b) && new[j] == #[trigger] crate::program_laws::new_item(b, r);
        let k = choose|k: int| 0 <= k < items.len() && items[k] == a;
        let l = choose|l: int| 0 <= l < items.len() && items[l] == b;
        assert(items[k] is Call && items[l] is Call);
        assert(items[k] == items[l]);
    }
}

/// A compiled program can be compiled again, and that changes nothing.
///
/// It does not hold where two calls share a span and take their props at
/// different arguments: only one of them is rewritten in its place. Nor does it
/// where a callee has become another factory by the rewriting. Neither happens
/// to a program that was parsed and resolved, see
/// [`law_well_formed_programs_settle`].
pub proof fn law_second_pass_changes_nothing(
    program: Seq<SpecNode>,
    filename: Seq<char>,
    modules: Set<Seq<char>>,
    catalog: SpecCatalog,
)
    requires
        rewritten_in_place(program, modules, catalog),
        callees_kept(program, filename, modules, catalog),
    ensures
        ({
            let once = crate::partition::transformed(program, filename, modules, catalog);
            &&& crate::rewrite::rewritable(
                once,
                crate::detect::decisions_of(PropsRule::Ordered, once, modules, catalog),
            )
            &&& crate::partition::transformed(once, filename, modules, catalog) == once
        }),
{
    let decisions = crate::detect::decisions_of(PropsRule::Ordered, program, modules, catalog);
    let r = SpecRewriter { decisions, filename, catalog };
    let once = crate::rewrite::new_nodes(program, r);
    let items = crate::visit::items_of_nodes(program);
    let new = crate::visit::items_of_nodes(once);
    let factories = crate::detect::factories_of(program, modules, catalog);
    let namespaces = crate::detect::imports_of(items, modules, catalog).namespaces;
    let new_factories = crate::detect::factories_of(once, modules, catalog);
    let new_namespaces = crate::detect::imports_of(new, modules, catalog).namespaces;
    crate::program_laws::lemma_nodes_items(program, r);
    crate::program_laws::lemma_decisions(
        PropsRule::Ordered,
        new,
        new_factories,
        new_namespaces,
        catalog,
    );
    let again = crate::detect::decisions_of(PropsRule::Ordered, once, modules, catalog);
    assert forall|k: int| 0 <= k < again.len() implies (#[trigger] again[k]).decision is Bail by {
        let d = again[k];
        assert(again.contains(d));
        assert(crate::program_laws::decided(
            d,
            PropsRule::Ordered,
            new,
            new_factories,
            new_namespaces,
            catalog,
        ));
        let i = choose|i: int|
            0 <= i < new.len() && (#[trigger] new[i]) is Call && new[i]->Call_0.span == d.span
                && crate::detect::call_decision(
                PropsRule::Ordered,
                new[i]->Call_0,
                new_factories,
                new_namespaces,
                catalog,
            ) == Some(d.decision);
        assert(new.to_set().contains(new[i]));
        let a = choose|a: SpecItem|
            items.to_set().contains(a) && new[i] == #[trigger] crate::program_laws::new_item(a, r);
        let j = choose|j: int| 0 <= j < items.len() && items[j] == a;
        assert(items[j] is Call);
        lemma_call_settled(
            items[j]->Call_0,
            factories,
            namespaces,
            new_factories,
            new_namespaces,
            r,
        );
    }
    assert forall|i: int| 0 <= i < new.len() implies crate::rewrite::rewritable_items(
        again,
    ).contains(#[trigger] new[i]) by {
        match new[i] {
            SpecItem::Call(call) => crate::program_laws::lemma_no_target(again, call.span),
            _ => {},
        }
    }
    crate::program_laws::law_nothing_to_do(once, filename, modules, catalog);
}

/// A props object that was acted on carries the marker.
proof fn lemma_acted_is_marked(args: Seq<SpecArg>, idx: int, span: Span, r: SpecRewriter)
    requires
        action_idx(crate::rewrite::action_at(r.decisions, span)) == Some(idx as usize),
        0 <= idx < args.len(),
        idx <= 1,
    ensures
        match crate::effect::unparen(crate::rewrite::acted_args(args, span, r)[idx].expr) {
            SpecExpr::Object(props) => crate::validate::has_marker(props),
            _ => true,
        },
{
    let e = args[idx].expr;
    lemma_with_object_inside(e, true, span, r);
    lemma_with_object_inside(e, false, span, r);
    match crate::effect::unparen(e) {
        SpecExpr::Object(props) => {
            crate::laws::law_compiled_is_recognized(props, r.filename, span, r.catalog);
            lemma_only_marker_reason(
                crate::partition::partitioned(props, r.filename, span, r.catalog),
                r.catalog,
            );
            lemma_only_marker_reason(
                crate::partition::stamped(props, r.filename, span),
                r.catalog,
            );
        },
        _ => {},
    }
}

proof fn lemma_shape_reason_is_no_marker(props: Seq<SpecEntry>, i: int)
    ensures
        crate::validate::first_shape_reason(props, i) != Some(BailReason::ExistingMarker),
    decreases props.len() - i,
{
    if 0 <= i < props.len() {
        lemma_shape_reason_is_no_marker(props, i + 1);
    }
}

proof fn lemma_only_marker_reason(props: Seq<SpecEntry>, catalog: SpecCatalog)
    requires
        crate::validate::ordered_reason(props, catalog) == Some(BailReason::ExistingMarker),
    ensures
        crate::validate::has_marker(props),
{
    lemma_shape_reason_is_no_marker(props, 0);
}

/// A program stays as it is only where no call of it is fit for rewriting: what
/// detection finds fit is rewritten.
pub proof fn law_unchanged_has_nothing_to_do(
    program: Seq<SpecNode>,
    filename: Seq<char>,
    modules: Set<Seq<char>>,
    catalog: SpecCatalog,
    k: int,
)
    requires
        crate::partition::transformed(program, filename, modules, catalog) == program,
        0 <= k < crate::detect::decisions_of(
            PropsRule::Ordered,
            program,
            modules,
            catalog,
        ).len(),
    ensures
        crate::detect::decisions_of(
            PropsRule::Ordered,
            program,
            modules,
            catalog,
        )[k].decision is Bail,
{
    let decisions = crate::detect::decisions_of(PropsRule::Ordered, program, modules, catalog);
    let r = SpecRewriter { decisions, filename, catalog };
    let items = crate::visit::items_of_nodes(program);
    let factories = crate::detect::factories_of(program, modules, catalog);
    let namespaces = crate::detect::imports_of(items, modules, catalog).namespaces;
    if !(decisions[k].decision is Bail) {
        let span = decisions[k].span;
        let action = crate::rewrite::action_at(decisions, span);
        let partition = action is Some && action->0 is Partition;
        assert(decisions.contains(decisions[k]));
        crate::program_laws::lemma_target(decisions, span, true);
        crate::program_laws::lemma_target(decisions, span, false);
        assert(action is Some);
        let d = choose|d: CallSiteDecision| #[trigger]
            decisions.contains(d) && d.span == span && crate::rewrite::asked_idx(
                d.decision,
                partition,
            ) == crate::rewrite::target(decisions, span, partition);
        crate::program_laws::lemma_decisions(
            PropsRule::Ordered,
            items,
            factories,
            namespaces,
            catalog,
        );
        assert(crate::program_laws::decided(
            d,
            PropsRule::Ordered,
            items,
            factories,
            namespaces,
            catalog,
        ));
        let i = choose|i: int|
            0 <= i < items.len() && (#[trigger] items[i]) is Call && items[i]->Call_0.span == d.span
                && crate::detect::call_decision(
                PropsRule::Ordered,
                items[i]->Call_0,
                factories,
                namespaces,
                catalog,
            ) == Some(d.decision);
        let call = items[i]->Call_0;
        let idx = action_idx(action)->0;
        crate::program_laws::lemma_nodes_items(program, r);
        assert(items.to_set().contains(items[i]));
        let a = choose|a: SpecItem|
            items.to_set().contains(a) && items[i] == #[trigger] crate::program_laws::new_item(
                a,
                r,
            );
        let before = a->Call_0;
        assert(call == crate::rewrite::new_call(before, r));
        lemma_acted_is_marked(
            crate::rewrite::new_args(before.args, r),
            idx as int,
            span,
            r,
        );
    }
}

/// What the ordered rule does not hold the marker or an unsupported entry
/// against still asks for something once the calls inside have been rewritten.
proof fn lemma_still_asked(
    args: Seq<SpecArg>,
    idx: int,
    span: Span,
    r: SpecRewriter,
)
    requires
        0 <= idx <= 1,
        !(crate::detect::props_decision(PropsRule::Ordered, args, idx, r.catalog) is Bail),
        action_idx(crate::rewrite::action_at(r.decisions, span)) != Some(idx as usize),
    ensures
        !(crate::detect::props_decision(
            PropsRule::Ordered,
            crate::rewrite::acted_args(crate::rewrite::new_args(args, r), span, r),
            idx,
            r.catalog,
        ) is Bail),
{
    let inner = crate::rewrite::new_args(args, r);
    let new = crate::rewrite::acted_args(inner, span, r);
    assert forall|i: int| 0 <= i < args.len() implies (#[trigger] new[i]).spread
        == args[i].spread by {
        assert(inner[i] == crate::rewrite::new_arg(args[i], r));
    }
    if crate::detect::spread_before(new, idx) {
        let i = choose|i: int| 0 <= i < idx && i < new.len() && (#[trigger] new[i]).spread;
        assert(args[i].spread);
    }
    let e = args[idx].expr;
    assert(inner[idx] == crate::rewrite::new_arg(args[idx], r));
    assert(new[idx] == inner[idx]);
    match crate::effect::unparen(e) {
        SpecExpr::Object(props) => {
            lemma_same_shape(props, r, 0);
            lemma_inside_is_object(e, props, r);
        },
        _ => {},
    }
}

/// Compiling again changes nothing only where every call was rewritten in its
/// place.
pub proof fn law_second_pass_needs_calls_in_place(
    program: Seq<SpecNode>,
    filename: Seq<char>,
    modules: Set<Seq<char>>,
    catalog: SpecCatalog,
)
    requires
        ({
            let once = crate::partition::transformed(program, filename, modules, catalog);
            &&& crate::detect::factories_of(once, modules, catalog) == crate::detect::factories_of(
                program,
                modules,
                catalog,
            )
            &&& crate::partition::transformed(once, filename, modules, catalog) == once
        }),
    ensures
        rewritten_in_place(program, modules, catalog),
{
    let decisions = crate::detect::decisions_of(PropsRule::Ordered, program, modules, catalog);
    let r = SpecRewriter { decisions, filename, catalog };
    let once = crate::rewrite::new_nodes(program, r);
    let items = crate::visit::items_of_nodes(program);
    let new = crate::visit::items_of_nodes(once);
    let factories = crate::detect::factories_of(program, modules, catalog);
    let namespaces = crate::detect::imports_of(items, modules, catalog).namespaces;
    let new_namespaces = crate::detect::imports_of(new, modules, catalog).namespaces;
    let again = crate::detect::decisions_of(PropsRule::Ordered, once, modules, catalog);
    crate::program_laws::lemma_nodes_items(program, r);
    crate::program_laws::lemma_decisions(
        PropsRule::Ordered,
        new,
        factories,
        new_namespaces,
        catalog,
    );
    assert forall|i: int|
        #![trigger items[i]]
        0 <= i < items.len() && items[i] is Call implies done_in_place(
        crate::detect::call_decision(
            PropsRule::Ordered,
            items[i]->Call_0,
            factories,
            namespaces,
            catalog,
        ),
        items[i]->Call_0.span,
        decisions,
    ) by {
        let call = items[i]->Call_0;
        let own = crate::detect::call_decision(
            PropsRule::Ordered,
            call,
            factories,
            namespaces,
            catalog,
        );
        if !done_in_place(own, call.span, decisions) {
            let id = (*call.callee->Expr_0)->Ident_0;
            let idx = crate::detect::props_position(factories[id]);
            lemma_still_asked(call.args, idx, call.span, r);
            let c = crate::rewrite::new_call(call, r);
            reveal_with_fuel(crate::rewrite::new_call, 2);
            reveal_with_fuel(crate::rewrite::new_callee, 2);
            assert(crate::rewrite::new_expr(*call.callee->Expr_0, r) == *call.callee->Expr_0);
            let decision = crate::detect::call_decision(
                PropsRule::Ordered,
                c,
                factories,
                new_namespaces,
                catalog,
            );
            assert(decision is Some && !(decision->0 is Bail));
            assert(items.to_set().contains(items[i]));
            assert(crate::program_laws::new_item(items[i], r) == SpecItem::Call(c));
            assert(new.to_set().contains(SpecItem::Call(c)));
            let j = choose|j: int| 0 <= j < new.len() && new[j] == SpecItem::Call(c);
            let d = CallSiteDecision { span: c.span, decision: decision->0 };
            assert(new[j] is Call);
            assert(crate::program_laws::decided(
                d,
                PropsRule::Ordered,
                new,
                factories,
                new_namespaces,
                catalog,
            ));
            assert(again.contains(d));
            let k = choose|k: int| 0 <= k < again.len() && again[k] == d;
            law_unchanged_has_nothing_to_do(once, filename, modules, catalog, k);
        }
    }
}

} // verus!
