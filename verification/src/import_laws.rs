//! Which names of a program are factories.
use crate::ast::VarKind;
use crate::catalog::SpecCatalog;
use crate::detect::{CandidateKind, ImportBinding, PropsRule, SpecImports};
use crate::model::{
    SpecCall, SpecCallee, SpecDeclarator, SpecExportName, SpecExpr, SpecIdent, SpecImport, SpecNode,
    SpecPat, SpecSpecifier, SpecText, SpecVar,
};
use crate::visit::SpecItem;
use vstd::prelude::*;

verus! {

/// A specifier of an import brings in an export under a local name.
pub open spec fn brings_in(
    src: SpecText,
    spec: SpecSpecifier,
    modules: Set<Seq<char>>,
    catalog: SpecCatalog,
    id: SpecIdent,
    binding: ImportBinding,
) -> bool {
    match spec {
        SpecSpecifier::Named { local, imported, type_only } => {
            &&& !type_only
            &&& local == id
            &&& match imported {
                None => crate::detect::export_binding(src, local.sym, modules, catalog) == Some(
                    binding,
                ),
                Some(SpecExportName::Ident(name)) => crate::detect::export_binding(
                    src,
                    name,
                    modules,
                    catalog,
                ) == Some(binding),
                Some(SpecExportName::Str(_)) => false,
            }
        },
        _ => false,
    }
}

/// Specifier `k` of the import at item `i` brings in an export under a local
/// name.
pub open spec fn imports_at(
    items: Seq<SpecItem>,
    i: int,
    k: int,
    modules: Set<Seq<char>>,
    catalog: SpecCatalog,
    id: SpecIdent,
    binding: ImportBinding,
) -> bool {
    &&& 0 <= i < items.len()
    &&& items[i] is Import
    &&& !items[i]->Import_0.type_only
    &&& 0 <= k < items[i]->Import_0.specifiers.len()
    &&& brings_in(
        items[i]->Import_0.src,
        items[i]->Import_0.specifiers[k],
        modules,
        catalog,
        id,
        binding,
    )
}

/// Specifier `k` of the import at item `i` imports a whole module.
pub open spec fn imports_all_at(
    items: Seq<SpecItem>,
    i: int,
    k: int,
    modules: Set<Seq<char>>,
    id: SpecIdent,
) -> bool {
    &&& 0 <= i < items.len()
    &&& items[i] is Import
    &&& !items[i]->Import_0.type_only
    &&& crate::detect::ui_module(items[i]->Import_0.src) || crate::detect::factory_module(
        items[i]->Import_0.src,
        modules,
    )
    &&& 0 <= k < items[i]->Import_0.specifiers.len()
    &&& items[i]->Import_0.specifiers[k] == SpecSpecifier::Namespace { local: id }
}

proof fn lemma_specifiers(
    acc: SpecImports,
    src: SpecText,
    specs: Seq<SpecSpecifier>,
    modules: Set<Seq<char>>,
    catalog: SpecCatalog,
)
    ensures
        ({
            let all = crate::detect::with_specifiers(acc, src, specs, modules, catalog);
            &&& forall|id: SpecIdent| #[trigger]
                all.bindings.dom().contains(id) ==> (acc.bindings.dom().contains(id)
                    && all.bindings[id] == acc.bindings[id]) || exists|k: int|
                    0 <= k < specs.len() && brings_in(
                        src,
                        #[trigger] specs[k],
                        modules,
                        catalog,
                        id,
                        all.bindings[id],
                    )
            &&& forall|id: SpecIdent|
                acc.bindings.dom().contains(id) ==> #[trigger] all.bindings.dom().contains(id)
            &&& forall|k: int, id: SpecIdent, b: ImportBinding|
                0 <= k < specs.len() && #[trigger] brings_in(src, specs[k], modules, catalog, id, b)
                    ==> all.bindings.dom().contains(id)
            &&& forall|id: SpecIdent| #[trigger]
                all.namespaces.contains(id) <==> acc.namespaces.contains(id) || exists|k: int|
                    0 <= k < specs.len() && #[trigger] specs[k] == (SpecSpecifier::Namespace {
                        local: id,
                    })
        }),
    decreases specs.len(),
{
    let all = crate::detect::with_specifiers(acc, src, specs, modules, catalog);
    if specs.len() > 0 {
        let rest = specs.drop_last();
        let last = specs.last();
        let before = crate::detect::with_specifiers(acc, src, rest, modules, catalog);
        lemma_specifiers(acc, src, rest, modules, catalog);
        assert(specs[specs.len() - 1] == last);
        assert forall|id: SpecIdent| #[trigger] all.bindings.dom().contains(id) implies (
        acc.bindings.dom().contains(id) && all.bindings[id] == acc.bindings[id]) || exists|k: int|
            0 <= k < specs.len() && brings_in(
                src,
                #[trigger] specs[k],
                modules,
                catalog,
                id,
                all.bindings[id],
            ) by {
            if brings_in(src, specs[specs.len() - 1], modules, catalog, id, all.bindings[id]) {
            } else {
                assert(before.bindings.dom().contains(id) && all.bindings[id]
                    == before.bindings[id]);
                if !(acc.bindings.dom().contains(id) && before.bindings[id] == acc.bindings[id]) {
                    let k = choose|k: int|
                        0 <= k < rest.len() && brings_in(
                            src,
                            #[trigger] rest[k],
                            modules,
                            catalog,
                            id,
                            before.bindings[id],
                        );
                    assert(specs[k] == rest[k]);
                }
            }
        }
        assert forall|k: int, id: SpecIdent, b: ImportBinding|
            0 <= k < specs.len() && #[trigger] brings_in(
                src,
                specs[k],
                modules,
                catalog,
                id,
                b,
            ) implies all.bindings.dom().contains(id) by {
            if k < rest.len() {
                assert(brings_in(src, rest[k], modules, catalog, id, b));
                assert(before.bindings.dom().contains(id));
            }
        }
        assert forall|id: SpecIdent| #[trigger]
            all.namespaces.contains(id) <==> acc.namespaces.contains(id) || exists|k: int|
                0 <= k < specs.len() && #[trigger] specs[k] == (SpecSpecifier::Namespace {
                    local: id,
                }) by {
            if last == (SpecSpecifier::Namespace { local: id }) {
                assert(all.namespaces.contains(id));
            } else {
                assert(all.namespaces.contains(id) == before.namespaces.contains(id));
                if before.namespaces.contains(id) && !acc.namespaces.contains(id) {
                    let k = choose|k: int|
                        0 <= k < rest.len() && #[trigger] rest[k] == (SpecSpecifier::Namespace {
                            local: id,
                        });
                    assert(specs[k] == rest[k]);
                }
                if exists|k: int|
                    0 <= k < specs.len() && #[trigger] specs[k] == (SpecSpecifier::Namespace {
                        local: id,
                    }) {
                    let k = choose|k: int|
                        0 <= k < specs.len() && #[trigger] specs[k] == (SpecSpecifier::Namespace {
                            local: id,
                        });
                    assert(rest[k] == specs[k]);
                }
            }
        }
    }
}

/// What brings in an export comes from a module that has factories.
proof fn lemma_relevant(
    src: SpecText,
    spec: SpecSpecifier,
    modules: Set<Seq<char>>,
    catalog: SpecCatalog,
    id: SpecIdent,
    binding: ImportBinding,
)
    requires
        brings_in(src, spec, modules, catalog, id, binding),
    ensures
        crate::detect::ui_module(src) || crate::detect::factory_module(src, modules),
{
}

/// The bindings of a program are those that its imports bring in, all imports
/// together: whatever one brings in is bound, and what is bound was brought in.
pub proof fn law_imports_accumulate(
    items: Seq<SpecItem>,
    modules: Set<Seq<char>>,
    catalog: SpecCatalog,
)
    ensures
        ({
            let bindings = crate::detect::imports_of(items, modules, catalog).bindings;
            &&& forall|i: int, k: int, id: SpecIdent, b: ImportBinding| #[trigger]
                imports_at(items, i, k, modules, catalog, id, b) ==> bindings.dom().contains(id)
            &&& forall|id: SpecIdent| #[trigger]
                bindings.dom().contains(id) ==> exists|i: int, k: int| #[trigger]
                    imports_at(items, i, k, modules, catalog, id, bindings[id])
        }),
    decreases items.len(),
{
    let bindings = crate::detect::imports_of(items, modules, catalog).bindings;
    if items.len() > 0 {
        let rest = items.drop_last();
        let last = items.last();
        let acc = crate::detect::imports_of(rest, modules, catalog);
        let n = items.len() - 1;
        law_imports_accumulate(rest, modules, catalog);
        assert(items[n] == last);
        match last {
            SpecItem::Import(decl) => lemma_specifiers(
                acc,
                decl.src,
                decl.specifiers,
                modules,
                catalog,
            ),
            _ => {},
        }
        assert forall|i: int, k: int, id: SpecIdent, b: ImportBinding| #[trigger]
            imports_at(items, i, k, modules, catalog, id, b) implies bindings.dom().contains(
            id,
        ) by {
            if i < n {
                assert(rest[i] == items[i]);
                assert(imports_at(rest, i, k, modules, catalog, id, b));
                assert(acc.bindings.dom().contains(id));
            } else {
                let decl = last->Import_0;
                lemma_relevant(decl.src, decl.specifiers[k], modules, catalog, id, b);
            }
        }
        assert forall|id: SpecIdent| #[trigger] bindings.dom().contains(id) implies exists|
            i: int,
            k: int,
        | #[trigger] imports_at(items, i, k, modules, catalog, id, bindings[id]) by {
            if acc.bindings.dom().contains(id) && bindings[id] == acc.bindings[id] {
                let (i, k) = choose|i: int, k: int| #[trigger]
                    imports_at(rest, i, k, modules, catalog, id, acc.bindings[id]);
                assert(rest[i] == items[i]);
                assert(imports_at(items, i, k, modules, catalog, id, bindings[id]));
            } else {
                let decl = last->Import_0;
                let k = choose|k: int|
                    0 <= k < decl.specifiers.len() && brings_in(
                        decl.src,
                        #[trigger] decl.specifiers[k],
                        modules,
                        catalog,
                        id,
                        bindings[id],
                    );
                assert(imports_at(items, n, k, modules, catalog, id, bindings[id]));
            }
        }
    }
}

proof fn lemma_last_specifier(
    acc: SpecImports,
    src: SpecText,
    specs: Seq<SpecSpecifier>,
    k: int,
    modules: Set<Seq<char>>,
    catalog: SpecCatalog,
    id: SpecIdent,
    binding: ImportBinding,
)
    requires
        k < specs.len(),
        if k < 0 {
            acc.bindings.dom().contains(id) && acc.bindings[id] == binding
        } else {
            brings_in(src, specs[k], modules, catalog, id, binding)
        },
        forall|m: int, b: ImportBinding|
            0 <= m && k < m < specs.len() && #[trigger] brings_in(
                src,
                specs[m],
                modules,
                catalog,
                id,
                b,
            ) ==> b == binding,
    ensures
        ({
            let all = crate::detect::with_specifiers(acc, src, specs, modules, catalog);
            all.bindings.dom().contains(id) && all.bindings[id] == binding
        }),
    decreases specs.len(),
{
    if specs.len() > 0 {
        let rest = specs.drop_last();
        let n = specs.len() - 1;
        let before = crate::detect::with_specifiers(acc, src, rest, modules, catalog);
        let all = crate::detect::with_specifiers(acc, src, specs, modules, catalog);
        assert(specs[n] == specs.last());
        if k < n {
            if k >= 0 {
                assert(rest[k] == specs[k]);
            }
            assert forall|m: int, b: ImportBinding|
                0 <= m && k < m < rest.len() && #[trigger] brings_in(
                    src,
                    rest[m],
                    modules,
                    catalog,
                    id,
                    b,
                ) implies b == binding by {
                assert(brings_in(src, specs[m], modules, catalog, id, b));
            }
            lemma_last_specifier(acc, src, rest, k, modules, catalog, id, binding);
            if all.bindings != before.bindings {
                match specs.last() {
                    SpecSpecifier::Named { local, .. } => {
                        if local == id {
                            assert(brings_in(
                                src,
                                specs[n],
                                modules,
                                catalog,
                                id,
                                all.bindings[id],
                            ));
                        }
                    },
                    _ => {},
                }
            }
        }
    }
}

/// An import binds what it brings in, whatever other imports stand before or
/// after it, as long as no later one gives the name another meaning.
pub proof fn law_import_binds(
    items: Seq<SpecItem>,
    i: int,
    k: int,
    modules: Set<Seq<char>>,
    catalog: SpecCatalog,
    id: SpecIdent,
    binding: ImportBinding,
)
    requires
        imports_at(items, i, k, modules, catalog, id, binding),
        forall|j: int, m: int, b: ImportBinding| #[trigger]
            imports_at(items, j, m, modules, catalog, id, b) && (j > i || (j == i && m > k)) ==> b
                == binding,
    ensures
        crate::detect::imports_of(items, modules, catalog).bindings.dom().contains(id),
        crate::detect::imports_of(items, modules, catalog).bindings[id] == binding,
    decreases items.len(),
{
    let rest = items.drop_last();
    let n = items.len() - 1;
    let acc = crate::detect::imports_of(rest, modules, catalog);
    assert(items[n] == items.last());
    if i < n {
        assert(rest[i] == items[i]);
        assert(imports_at(rest, i, k, modules, catalog, id, binding));
        assert forall|j: int, m: int, b: ImportBinding| #[trigger]
            imports_at(rest, j, m, modules, catalog, id, b) && (j > i || (j == i && m
                > k)) implies b == binding by {
            assert(rest[j] == items[j]);
            assert(imports_at(items, j, m, modules, catalog, id, b));
        }
        law_import_binds(rest, i, k, modules, catalog, id, binding);
    }
    match items.last() {
        SpecItem::Import(decl) => {
            if i == n {
                lemma_relevant(decl.src, decl.specifiers[k], modules, catalog, id, binding);
            }
            if !decl.type_only {
                assert forall|m: int, b: ImportBinding|
                    0 <= m && (i < n || k < m) && m < decl.specifiers.len() && #[trigger] brings_in(
                        decl.src,
                        decl.specifiers[m],
                        modules,
                        catalog,
                        id,
                        b,
                    ) implies b == binding by {
                    assert(imports_at(items, n, m, modules, catalog, id, b));
                }
                lemma_last_specifier(
                    acc,
                    decl.src,
                    decl.specifiers,
                    if i < n {
                        -1
                    } else {
                        k
                    },
                    modules,
                    catalog,
                    id,
                    binding,
                );
            }
        },
        _ => {},
    }
}

/// The namespaces of a program are the whole modules that its imports bring in.
pub proof fn law_namespaces_accumulate(
    items: Seq<SpecItem>,
    modules: Set<Seq<char>>,
    catalog: SpecCatalog,
    id: SpecIdent,
)
    ensures
        crate::detect::imports_of(items, modules, catalog).namespaces.contains(id) <==> exists|
            i: int,
            k: int,
        | #[trigger] imports_all_at(items, i, k, modules, id),
    decreases items.len(),
{
    let all = crate::detect::imports_of(items, modules, catalog).namespaces;
    if items.len() > 0 {
        let rest = items.drop_last();
        let last = items.last();
        let acc = crate::detect::imports_of(rest, modules, catalog);
        let n = items.len() - 1;
        law_namespaces_accumulate(rest, modules, catalog, id);
        assert(items[n] == last);
        match last {
            SpecItem::Import(decl) => lemma_specifiers(
                acc,
                decl.src,
                decl.specifiers,
                modules,
                catalog,
            ),
            _ => {},
        }
        if all.contains(id) {
            if acc.namespaces.contains(id) {
                let (i, k) = choose|i: int, k: int| #[trigger]
                    imports_all_at(rest, i, k, modules, id);
                assert(rest[i] == items[i]);
                assert(imports_all_at(items, i, k, modules, id));
            } else {
                let decl = last->Import_0;
                let k = choose|k: int|
                    0 <= k < decl.specifiers.len() && #[trigger] decl.specifiers[k] == (
                    SpecSpecifier::Namespace { local: id });
                assert(imports_all_at(items, n, k, modules, id));
            }
        }
        if exists|i: int, k: int| #[trigger] imports_all_at(items, i, k, modules, id) {
            let (i, k) = choose|i: int, k: int| #[trigger]
                imports_all_at(items, i, k, modules, id);
            if i < n {
                assert(rest[i] == items[i]);
                assert(imports_all_at(rest, i, k, modules, id));
            } else {
                let decl = last->Import_0;
                assert(decl.specifiers[k] == (SpecSpecifier::Namespace { local: id }));
            }
        }
    }
}

/// The UI library's modules are `@meonode/ui` and `@meonode/ui/client`, and no
/// others.
pub proof fn law_ui_modules(src: SpecText)
    ensures
        crate::detect::ui_module(src) <==> src == SpecText::Unicode("@meonode/ui"@) || src
            == SpecText::Unicode("@meonode/ui/client"@),
{
}

/// What the UI library exports: `Node`, the two creators, and the factories of
/// its catalog. Nothing else counts.
pub proof fn law_ui_exports(
    src: SpecText,
    name: Seq<char>,
    modules: Set<Seq<char>>,
    catalog: SpecCatalog,
)
    requires
        src == SpecText::Unicode("@meonode/ui"@) || src == SpecText::Unicode(
            "@meonode/ui/client"@,
        ),
    ensures
        ({
            let export = crate::detect::export_binding(src, name, modules, catalog);
            &&& name == "Node"@ ==> export == Some(ImportBinding::Candidate(CandidateKind::Node))
            &&& name == "createNode"@ ==> export == Some(
                ImportBinding::Creator { children_first: false },
            )
            &&& name == "createChildrenFirstNode"@ ==> export == Some(
                ImportBinding::Creator { children_first: true },
            )
            &&& name != "Node"@ && name != "createNode"@ && name != "createChildrenFirstNode"@
                && catalog.factories.dom().contains(name) ==> export == Some(
                ImportBinding::Candidate(
                    CandidateKind::Html { children_first: catalog.factories[name] },
                ),
            )
            &&& name != "Node"@ && name != "createNode"@ && name != "createChildrenFirstNode"@
                && !catalog.factories.dom().contains(name) ==> export is None
        }),
{
    reveal_strlit("Node");
    reveal_strlit("createNode");
    reveal_strlit("createChildrenFirstNode");
    assert("Node"@.len() == 4);
    assert("createNode"@.len() == 10);
    assert("createChildrenFirstNode"@.len() == 23);
}

/// What any other module exports: a factory that takes its props first, if the
/// module is listed and the name starts with a capital letter.
pub proof fn law_other_exports(
    src: SpecText,
    name: Seq<char>,
    modules: Set<Seq<char>>,
    catalog: SpecCatalog,
)
    requires
        src != SpecText::Unicode("@meonode/ui"@),
        src != SpecText::Unicode("@meonode/ui/client"@),
    ensures
        crate::detect::export_binding(src, name, modules, catalog) == (if (src matches
            SpecText::Unicode(module) && modules.contains(module)) && name.len() > 0 && 'A'
            <= name[0] && name[0] <= 'Z' {
            Some(ImportBinding::Candidate(CandidateKind::Html { children_first: false }))
        } else {
            None
        }),
{
}

/// An import that has nothing to do with factories changes no decision,
/// wherever it stands.
pub proof fn law_unrelated_import_changes_nothing(
    rule: PropsRule,
    before: Seq<SpecNode>,
    decl: SpecImport,
    after: Seq<SpecNode>,
    modules: Set<Seq<char>>,
    catalog: SpecCatalog,
)
    requires
        decl.type_only || !(decl.src == SpecText::Unicode("@meonode/ui"@) || decl.src
            == SpecText::Unicode("@meonode/ui/client"@) || (decl.src matches SpecText::Unicode(
            module,
        ) && modules.contains(module))),
    ensures
        crate::detect::decisions_of(
            rule,
            before + seq![SpecNode::Import(decl)] + after,
            modules,
            catalog,
        ) == crate::detect::decisions_of(rule, before + after, modules, catalog),
{
    let node = seq![SpecNode::Import(decl)];
    let item = seq![SpecItem::Import(decl)];
    let a = crate::visit::items_of_nodes(before);
    let b = crate::visit::items_of_nodes(after);
    assert(crate::visit::items_of_nodes(node) =~= item) by {
        assert(node.drop_last() =~= Seq::empty());
        reveal_with_fuel(crate::visit::items_of_nodes, 3);
    }
    crate::detect_laws::lemma_nodes_concat(before, node);
    crate::detect_laws::lemma_nodes_concat(before + node, after);
    crate::detect_laws::lemma_nodes_concat(before, after);
    let x = a + item;
    assert(x.drop_last() =~= a);
    assert(x.last() == item[0]);
    let imports = crate::detect::imports_of(x + b, modules, catalog);
    let locals = crate::detect::locals_of(x + b, imports.bindings);
    let factories = crate::detect::candidates(imports.bindings, locals);
    crate::detect_laws::lemma_same_behind(
        rule,
        x,
        a,
        b,
        modules,
        imports.bindings,
        factories,
        imports.namespaces,
        catalog,
    );
}

/// An imported factory is a factory of the program, unless the program declares
/// a factory of its own under the same name.
pub proof fn law_imported_factories_count(
    program: Seq<SpecNode>,
    modules: Set<Seq<char>>,
    catalog: SpecCatalog,
    id: SpecIdent,
    kind: CandidateKind,
)
    requires
        ({
            let items = crate::visit::items_of_nodes(program);
            let imports = crate::detect::imports_of(items, modules, catalog).bindings;
            &&& imports.dom().contains(id)
            &&& imports[id] == ImportBinding::Candidate(kind)
            &&& forall|other: CandidateKind|
                !(#[trigger] crate::second_pass::makes(items.to_set(), imports, id, other))
        }),
    ensures
        crate::detect::factories_of(program, modules, catalog).dom().contains(id),
        crate::detect::factories_of(program, modules, catalog)[id] == kind,
{
    let items = crate::visit::items_of_nodes(program);
    let imports = crate::detect::imports_of(items, modules, catalog).bindings;
    crate::second_pass::lemma_locals_make(items, imports);
}

/// `const name = creator(..)`, with a creator that is imported, makes a factory
/// of the program, wherever it is written.
pub proof fn law_created_factories_count(
    program: Seq<SpecNode>,
    modules: Set<Seq<char>>,
    catalog: SpecCatalog,
    decl: SpecVar,
    k: int,
    id: SpecIdent,
    ann: Seq<SpecNode>,
    call: SpecCall,
    creator: SpecIdent,
    children_first: bool,
)
    requires
        ({
            let items = crate::visit::items_of_nodes(program);
            let imports = crate::detect::imports_of(items, modules, catalog).bindings;
            &&& items.contains(SpecItem::Var(decl))
            &&& decl.kind == VarKind::Const
            &&& 0 <= k < decl.decls.len()
            &&& decl.decls[k] == SpecDeclarator {
                name: SpecPat::Ident { id, ann },
                init: Some(SpecExpr::Call(call)),
            }
            &&& call.callee == SpecCallee::Expr(Box::new(SpecExpr::Ident(creator)))
            &&& imports.dom().contains(creator)
            &&& imports[creator] == (ImportBinding::Creator { children_first })
            &&& forall|other: CandidateKind| #[trigger]
                crate::second_pass::makes(items.to_set(), imports, id, other) ==> other
                    == (CandidateKind::Html { children_first })
        }),
    ensures
        crate::detect::factories_of(program, modules, catalog).dom().contains(id),
        crate::detect::factories_of(program, modules, catalog)[id] == (CandidateKind::Html {
            children_first,
        }),
{
    let items = crate::visit::items_of_nodes(program);
    let imports = crate::detect::imports_of(items, modules, catalog).bindings;
    let kind = CandidateKind::Html { children_first };
    crate::second_pass::lemma_locals_make(items, imports);
    assert(crate::second_pass::makes_at(items.to_set(), imports, decl, k, id, kind));
    assert(crate::second_pass::makes(items.to_set(), imports, id, kind));
}

/// Nothing but `name = creator(..)`, with a creator that is imported, makes a
/// factory.
pub proof fn law_only_creators_make_factories(
    decl: SpecDeclarator,
    imports: Map<SpecIdent, ImportBinding>,
    id: SpecIdent,
    kind: CandidateKind,
)
    requires
        crate::detect::made_factory(decl, imports) == Some((id, kind)),
    ensures
        decl.name is Ident,
        decl.name->id == id,
        decl.init is Some,
        decl.init->0 is Call,
        (decl.init->0)->Call_0.callee is Expr,
        *(decl.init->0)->Call_0.callee->Expr_0 is Ident,
        ({
            let creator = (*(decl.init->0)->Call_0.callee->Expr_0)->Ident_0;
            &&& imports.dom().contains(creator)
            &&& imports[creator] is Creator
            &&& kind == (CandidateKind::Html {
                children_first: imports[creator]->Creator_children_first,
            })
        }),
{
}

} // verus!
