//! What holds of the decisions on a program.
use crate::catalog::SpecCatalog;
use crate::detect::{CallSiteDecision, CandidateKind, Decision, ImportBinding, PropsRule, SpecImports};
use crate::model::{
    SpecCall, SpecCallee, SpecDeclarator, SpecExpr, SpecIdent, SpecImport, SpecNode, SpecSpecifier,
    SpecText,
};
use crate::validate::BailReason;
use crate::visit::SpecItem;
use vstd::prelude::*;

verus! {

/// A call is rewritten only if its callee is bound to a factory, and has an
/// object literal in the place of the props that neither is spread nor stands
/// behind an argument that is.
pub proof fn law_only_factory_calls_are_rewritten(
    rule: PropsRule,
    call: SpecCall,
    factories: Map<SpecIdent, CandidateKind>,
    namespaces: Set<SpecIdent>,
    catalog: SpecCatalog,
    idx: usize,
)
    requires
        crate::detect::call_decision(rule, call, factories, namespaces, catalog) == Some(
            Decision::Compilable { props_arg_idx: idx },
        ) || crate::detect::call_decision(rule, call, factories, namespaces, catalog) == Some(
            Decision::KeyOnly { props_arg_idx: idx },
        ),
    ensures
        call.callee is Expr,
        *call.callee->Expr_0 is Ident,
        factories.dom().contains((*call.callee->Expr_0)->Ident_0),
        idx == crate::detect::props_position(factories[(*call.callee->Expr_0)->Ident_0]),
        idx < call.args.len(),
        !call.args[idx as int].spread,
        !crate::detect::spread_before(call.args, idx as int),
        crate::effect::unparen(call.args[idx as int].expr) is Object,
{
}

/// The strict rule never asks for a call-site key alone.
pub proof fn law_strict_rule_keys_nothing(
    call: SpecCall,
    factories: Map<SpecIdent, CandidateKind>,
    namespaces: Set<SpecIdent>,
    catalog: SpecCatalog,
    idx: usize,
)
    ensures
        crate::detect::call_decision(PropsRule::Strict, call, factories, namespaces, catalog)
            != Some(Decision::KeyOnly { props_arg_idx: idx }),
{
}

/// A factory is either imported as one, or made by a `const` declaration of
/// the program.
pub proof fn law_factories_are_bound(
    program: Seq<SpecNode>,
    modules: Set<Seq<char>>,
    catalog: SpecCatalog,
    id: SpecIdent,
)
    requires
        crate::detect::factories_of(program, modules, catalog).dom().contains(id),
    ensures
        ({
            let items = crate::visit::items_of_nodes(program);
            let imports = crate::detect::imports_of(items, modules, catalog).bindings;
            let kind = crate::detect::factories_of(program, modules, catalog)[id];
            ||| imports.dom().contains(id) && imports[id] == ImportBinding::Candidate(kind)
            ||| crate::second_pass::makes(items.to_set(), imports, id, kind)
        }),
{
    let items = crate::visit::items_of_nodes(program);
    let imports = crate::detect::imports_of(items, modules, catalog).bindings;
    crate::second_pass::lemma_locals_make(items, imports);
}

/// An import that has nothing to do with factories.
pub open spec fn unrelated(item: SpecItem, modules: Set<Seq<char>>) -> bool {
    match item {
        SpecItem::Import(decl) => decl.type_only || !(crate::detect::ui_module(decl.src)
            || crate::detect::factory_module(decl.src, modules)),
        _ => true,
    }
}

proof fn lemma_unrelated_imports(
    items: Seq<SpecItem>,
    modules: Set<Seq<char>>,
    catalog: SpecCatalog,
)
    requires
        forall|i: int| 0 <= i < items.len() ==> unrelated(#[trigger] items[i], modules),
    ensures
        crate::detect::imports_of(items, modules, catalog) == (SpecImports {
            bindings: Map::empty(),
            namespaces: Set::empty(),
        }),
    decreases items.len(),
{
    if items.len() > 0 {
        let rest = items.drop_last();
        assert forall|i: int| 0 <= i < rest.len() implies unrelated(#[trigger] rest[i], modules) by {
            assert(rest[i] == items[i]);
        }
        lemma_unrelated_imports(rest, modules, catalog);
        assert(unrelated(items[items.len() - 1], modules));
    }
}

proof fn lemma_nothing_made(
    acc: Map<SpecIdent, CandidateKind>,
    decls: Seq<SpecDeclarator>,
)
    ensures
        crate::detect::with_declarators(acc, decls, Map::empty()) == acc,
    decreases decls.len(),
{
    if decls.len() > 0 {
        lemma_nothing_made(acc, decls.drop_last());
    }
}

proof fn lemma_no_locals(items: Seq<SpecItem>)
    ensures
        crate::detect::locals_of(items, Map::empty()) == Map::<SpecIdent, CandidateKind>::empty(),
    decreases items.len(),
{
    if items.len() > 0 {
        lemma_no_locals(items.drop_last());
        match items.last() {
            SpecItem::Var(decl) => lemma_nothing_made(Map::empty(), decl.decls),
            _ => {},
        }
    }
}

proof fn lemma_no_factories_no_decisions(
    rule: PropsRule,
    items: Seq<SpecItem>,
    catalog: SpecCatalog,
)
    ensures
        crate::detect::decisions_on(rule, items, Map::empty(), Set::empty(), catalog) == Seq::<
            CallSiteDecision,
        >::empty(),
    decreases items.len(),
{
    if items.len() > 0 {
        lemma_no_factories_no_decisions(rule, items.drop_last(), catalog);
    }
}

/// A program that imports nothing from the UI library or a factory module has
/// no call sites to decide on, and stays as it is.
pub proof fn law_unrelated_programs_stay(
    rule: PropsRule,
    program: Seq<SpecNode>,
    filename: Seq<char>,
    modules: Set<Seq<char>>,
    catalog: SpecCatalog,
)
    requires
        forall|i: int|
            #![trigger crate::visit::items_of_nodes(program)[i]]
            0 <= i < crate::visit::items_of_nodes(program).len() ==> unrelated(
                crate::visit::items_of_nodes(program)[i],
                modules,
            ),
    ensures
        crate::detect::decisions_of(rule, program, modules, catalog) == Seq::<
            CallSiteDecision,
        >::empty(),
        crate::partition::transformed(program, filename, modules, catalog) == program,
{
    let items = crate::visit::items_of_nodes(program);
    lemma_unrelated_imports(items, modules, catalog);
    lemma_no_locals(items);
    assert(crate::detect::factories_of(program, modules, catalog) =~= Map::empty());
    lemma_no_factories_no_decisions(rule, items, catalog);
    lemma_no_factories_no_decisions(PropsRule::Ordered, items, catalog);
    crate::program_laws::law_nothing_to_do(program, filename, modules, catalog);
}

pub proof fn lemma_nodes_concat(a: Seq<SpecNode>, b: Seq<SpecNode>)
    ensures
        crate::visit::items_of_nodes(a + b) == crate::visit::items_of_nodes(a)
            + crate::visit::items_of_nodes(b),
    decreases b.len(),
{
    if b.len() == 0 {
        assert(a + b =~= a);
    } else {
        lemma_nodes_concat(a, b.drop_last());
        assert((a + b).drop_last() =~= a + b.drop_last());
        assert((a + b).last() == b.last());
    }
    assert(crate::visit::items_of_nodes(a + b) =~= crate::visit::items_of_nodes(a)
        + crate::visit::items_of_nodes(b));
}

/// What two lists of items say stays the same when the same items follow.
pub proof fn lemma_same_behind(
    rule: PropsRule,
    a: Seq<SpecItem>,
    b: Seq<SpecItem>,
    rest: Seq<SpecItem>,
    modules: Set<Seq<char>>,
    imports: Map<SpecIdent, ImportBinding>,
    factories: Map<SpecIdent, CandidateKind>,
    namespaces: Set<SpecIdent>,
    catalog: SpecCatalog,
)
    ensures
        crate::detect::imports_of(a, modules, catalog) == crate::detect::imports_of(
            b,
            modules,
            catalog,
        ) ==> crate::detect::imports_of(a + rest, modules, catalog) == crate::detect::imports_of(
            b + rest,
            modules,
            catalog,
        ),
        crate::detect::locals_of(a, imports) == crate::detect::locals_of(b, imports)
            ==> crate::detect::locals_of(a + rest, imports) == crate::detect::locals_of(
            b + rest,
            imports,
        ),
        crate::detect::decisions_on(rule, a, factories, namespaces, catalog)
            == crate::detect::decisions_on(rule, b, factories, namespaces, catalog)
            ==> crate::detect::decisions_on(rule, a + rest, factories, namespaces, catalog)
            == crate::detect::decisions_on(rule, b + rest, factories, namespaces, catalog),
    decreases rest.len(),
{
    if rest.len() == 0 {
        assert(a + rest =~= a);
        assert(b + rest =~= b);
    } else {
        lemma_same_behind(
            rule,
            a,
            b,
            rest.drop_last(),
            modules,
            imports,
            factories,
            namespaces,
            catalog,
        );
        assert((a + rest).drop_last() =~= a + rest.drop_last());
        assert((b + rest).drop_last() =~= b + rest.drop_last());
        assert((a + rest).last() == rest.last());
        assert((b + rest).last() == rest.last());
    }
}

/// An import in front of other items neither makes a factory nor is a call.
proof fn lemma_import_in_front(
    rule: PropsRule,
    decl: SpecImport,
    items: Seq<SpecItem>,
    imports: Map<SpecIdent, ImportBinding>,
    factories: Map<SpecIdent, CandidateKind>,
    namespaces: Set<SpecIdent>,
    catalog: SpecCatalog,
)
    ensures
        crate::detect::locals_of(seq![SpecItem::Import(decl)] + items, imports)
            == crate::detect::locals_of(items, imports),
        crate::detect::decisions_on(
            rule,
            seq![SpecItem::Import(decl)] + items,
            factories,
            namespaces,
            catalog,
        ) == crate::detect::decisions_on(rule, items, factories, namespaces, catalog),
    decreases items.len(),
{
    let front = seq![SpecItem::Import(decl)];
    if items.len() == 0 {
        assert(front + items =~= front);
        assert(front.drop_last() =~= items);
    } else {
        lemma_import_in_front(
            rule,
            decl,
            items.drop_last(),
            imports,
            factories,
            namespaces,
            catalog,
        );
        assert((front + items).drop_last() =~= front + items.drop_last());
        assert((front + items).last() == items.last());
    }
}

/// It does not matter where an import is written: moved to the front, past
/// statements that hold no import, it leaves every decision as it was.
pub proof fn law_imports_are_hoisted(
    rule: PropsRule,
    before: Seq<SpecNode>,
    decl: SpecImport,
    after: Seq<SpecNode>,
    modules: Set<Seq<char>>,
    catalog: SpecCatalog,
)
    requires
        crate::second_pass::no_imports(crate::visit::items_of_nodes(before)),
    ensures
        crate::detect::decisions_of(
            rule,
            before + seq![SpecNode::Import(decl)] + after,
            modules,
            catalog,
        ) == crate::detect::decisions_of(
            rule,
            seq![SpecNode::Import(decl)] + before + after,
            modules,
            catalog,
        ),
{
    let node = seq![SpecNode::Import(decl)];
    let item = seq![SpecItem::Import(decl)];
    let a = crate::visit::items_of_nodes(before);
    let b = crate::visit::items_of_nodes(after);
    assert(crate::visit::items_of_nodes(node) =~= item) by {
        assert(node.drop_last() =~= Seq::empty());
        reveal_with_fuel(crate::visit::items_of_nodes, 3);
    }
    lemma_nodes_concat(before, node);
    lemma_nodes_concat(before + node, after);
    lemma_nodes_concat(node, before);
    lemma_nodes_concat(node + before, after);
    let x = a + item;
    let y = item + a;
    assert(x.drop_last() =~= a);
    assert(x.last() == item[0]);
    assert(item.drop_last() =~= Seq::empty());
    crate::second_pass::lemma_no_imports_behind(Seq::empty(), a, modules, catalog);
    assert(Seq::empty() + a =~= a);
    crate::second_pass::lemma_no_imports_behind(item, a, modules, catalog);
    let imports = crate::detect::imports_of(x + b, modules, catalog);
    let locals = crate::detect::locals_of(x + b, imports.bindings);
    let factories = crate::detect::candidates(imports.bindings, locals);
    lemma_import_in_front(
        rule,
        decl,
        a,
        imports.bindings,
        factories,
        imports.namespaces,
        catalog,
    );
    lemma_same_behind(
        rule,
        x,
        y,
        b,
        modules,
        imports.bindings,
        factories,
        imports.namespaces,
        catalog,
    );
}

/// A name that the program declares shadows one that it imports: a callee in
/// another scope than the factory of its name is left alone.
pub proof fn law_shadowed_calls_are_left_alone(
    rule: PropsRule,
    call: SpecCall,
    id: SpecIdent,
    factories: Map<SpecIdent, CandidateKind>,
    namespaces: Set<SpecIdent>,
    catalog: SpecCatalog,
)
    requires
        call.callee == SpecCallee::Expr(Box::new(SpecExpr::Ident(id))),
        !factories.dom().contains(id),
    ensures
        crate::detect::call_decision(rule, call, factories, namespaces, catalog) == (
        if crate::detect::tracked_sym(factories, id.sym) {
            Some(Decision::Bail(BailReason::ShadowedOrUnbound))
        } else {
            None
        }),
{
}

/// Of a factory module only the capitalized exports count, each as a factory
/// that takes its props first, whatever it is called in the program.
pub proof fn law_factory_modules(
    acc: SpecImports,
    src: Seq<char>,
    local: SpecIdent,
    name: Seq<char>,
    modules: Set<Seq<char>>,
    catalog: SpecCatalog,
)
    requires
        modules.contains(src),
        !crate::detect::ui_module(SpecText::Unicode(src)),
    ensures
        crate::detect::with_specifier(
            acc,
            SpecText::Unicode(src),
            SpecSpecifier::Named {
                local,
                imported: Some(crate::model::SpecExportName::Ident(name)),
                type_only: false,
            },
            modules,
            catalog,
        ) == (if crate::detect::capitalized(name) {
            SpecImports {
                bindings: acc.bindings.insert(
                    local,
                    ImportBinding::Candidate(CandidateKind::Html { children_first: false }),
                ),
                ..acc
            }
        } else {
            acc
        }),
        crate::detect::with_specifier(
            acc,
            SpecText::Unicode(src),
            SpecSpecifier::Default { local },
            modules,
            catalog,
        ) == acc,
{
}

} // verus!
