//! Factory call-site detection.
//!
//! Finds the calls of a program that are calls of a UI factory, and decides
//! for each whether its props object can be partitioned.
//!
//! A callee is identified by its binding, symbol and scope, so that a local
//! that shadows an import is told apart from it. Three passes are made over
//! the program: imports are collected first, so that it does not matter where
//! they are written; then the local factories that are made from them; then
//! the calls are classified.
use crate::ast::{
    CallExpr, Callee, ExportName, Expr, ExprOrSpread, Ident, ImportDecl, ImportSpecifier, Pat,
    Program, Span, Text, VarDecl, VarDeclarator, VarKind,
};
use crate::bindings::{copy_ident, BindingTable};
use crate::catalog::{Catalog, SpecCatalog};
use crate::config::CompileConfig;
use crate::effect::unwrap_parens;
use crate::model::{
    SpecArg, SpecCall, SpecCallee, SpecDeclarator, SpecEntry, SpecExportName, SpecExpr, SpecIdent,
    SpecImport, SpecNode, SpecPat, SpecSpecifier, SpecText,
};
use crate::text::{chars_of, str_eq};
pub use crate::validate::BailReason;
use crate::validate::{is_key_only_reason, text_is, validate_object, validate_object_ordered};
use crate::visit::{collect_items, Item, SpecItem};
use vstd::prelude::*;

verus! {

/// What kind of factory a binding refers to.
#[derive(Debug, Clone, Copy, PartialEq, Eq, Structural)]
pub enum CandidateKind {
    /// An HTML factory.
    Html { children_first: bool },
    /// The `Node(element, props, deps)` factory.
    Node,
}

/// What an import binding refers to. A creator is no factory itself, but makes
/// one.
#[derive(Debug, Clone, Copy, PartialEq, Eq, Structural)]
pub enum ImportBinding {
    Candidate(CandidateKind),
    Creator { children_first: bool },
}

/// The outcome for one call.
#[derive(Debug, Clone, Copy, PartialEq, Eq, Structural)]
pub enum Decision {
    /// The props object at the given argument can be partitioned.
    Compilable { props_arg_idx: usize },
    /// The props object at the given argument cannot be partitioned, but can
    /// be given a call-site key.
    KeyOnly { props_arg_idx: usize },
    /// The call is left alone.
    Bail(BailReason),
}

/// The outcome for the call at a span.
#[derive(Debug, Clone, Copy, PartialEq, Eq, Structural)]
pub struct CallSiteDecision {
    pub span: Span,
    pub decision: Decision,
}

/// The rule by which props objects are judged.
#[derive(Debug, Clone, Copy, PartialEq, Eq, Structural)]
pub enum PropsRule {
    Strict,
    Ordered,
}

/// What the imports of a program say.
pub struct SpecImports {
    pub bindings: Map<SpecIdent, ImportBinding>,
    pub namespaces: Set<SpecIdent>,
}

/// The position of the props among the arguments of a factory.
pub open spec fn props_position(kind: CandidateKind) -> int {
    match kind {
        CandidateKind::Html { children_first } => if children_first {
            1
        } else {
            0
        },
        CandidateKind::Node => 1,
    }
}

/// The UI library's own modules.
pub open spec fn ui_module(src: SpecText) -> bool {
    src == SpecText::Unicode("@meonode/ui"@) || src == SpecText::Unicode("@meonode/ui/client"@)
}

/// A module outside the UI library whose exports are factories.
pub open spec fn factory_module(src: SpecText, modules: Set<Seq<char>>) -> bool {
    match src {
        SpecText::Unicode(name) => modules.contains(name),
        SpecText::Surrogates(_) => false,
    }
}

/// What an export of the UI library is.
pub open spec fn ui_export(name: Seq<char>, catalog: SpecCatalog) -> Option<ImportBinding> {
    if name == "Node"@ {
        Some(ImportBinding::Candidate(CandidateKind::Node))
    } else if name == "createNode"@ {
        Some(ImportBinding::Creator { children_first: false })
    } else if name == "createChildrenFirstNode"@ {
        Some(ImportBinding::Creator { children_first: true })
    } else if catalog.factories.dom().contains(name) {
        Some(
            ImportBinding::Candidate(
                CandidateKind::Html { children_first: catalog.factories[name] },
            ),
        )
    } else {
        None
    }
}

/// A name that starts with an upper-case letter, in ASCII.
pub open spec fn capitalized(name: Seq<char>) -> bool {
    name.len() > 0 && 'A' <= name[0] && name[0] <= 'Z'
}

/// What an export of a module is.
pub open spec fn export_binding(
    src: SpecText,
    name: Seq<char>,
    modules: Set<Seq<char>>,
    catalog: SpecCatalog,
) -> Option<ImportBinding> {
    if ui_module(src) {
        ui_export(name, catalog)
    } else if factory_module(src, modules) && capitalized(name) {
        Some(ImportBinding::Candidate(CandidateKind::Html { children_first: false }))
    } else {
        None
    }
}

/// The exported name that a specifier brings in, where it is an identifier.
pub open spec fn imported_name(local: SpecIdent, imported: Option<SpecExportName>) -> Option<
    Seq<char>,
> {
    match imported {
        Some(SpecExportName::Ident(name)) => Some(name),
        Some(SpecExportName::Str(_)) => None,
        None => Some(local.sym),
    }
}

/// The imports with one more specifier from a module. Type-only specifiers,
/// names that are quoted and default imports add nothing.
pub open spec fn with_specifier(
    acc: SpecImports,
    src: SpecText,
    spec: SpecSpecifier,
    modules: Set<Seq<char>>,
    catalog: SpecCatalog,
) -> SpecImports {
    match spec {
        SpecSpecifier::Named { local, imported, type_only } => match imported_name(
            local,
            imported,
        ) {
            Some(name) => match export_binding(src, name, modules, catalog) {
                Some(binding) => if type_only {
                    acc
                } else {
                    SpecImports { bindings: acc.bindings.insert(local, binding), ..acc }
                },
                None => acc,
            },
            None => acc,
        },
        SpecSpecifier::Namespace { local } => SpecImports {
            namespaces: acc.namespaces.insert(local),
            ..acc
        },
        SpecSpecifier::Default { .. } => acc,
    }
}

pub open spec fn with_specifiers(
    acc: SpecImports,
    src: SpecText,
    specs: Seq<SpecSpecifier>,
    modules: Set<Seq<char>>,
    catalog: SpecCatalog,
) -> SpecImports
    decreases specs.len(),
{
    if specs.len() == 0 {
        acc
    } else {
        with_specifier(
            with_specifiers(acc, src, specs.drop_last(), modules, catalog),
            src,
            specs.last(),
            modules,
            catalog,
        )
    }
}

/// The imports with one more declaration. Type-only declarations and other
/// modules add nothing.
pub open spec fn with_import(
    acc: SpecImports,
    decl: SpecImport,
    modules: Set<Seq<char>>,
    catalog: SpecCatalog,
) -> SpecImports {
    if decl.type_only || !(ui_module(decl.src) || factory_module(decl.src, modules)) {
        acc
    } else {
        with_specifiers(acc, decl.src, decl.specifiers, modules, catalog)
    }
}

/// What the imports among the items say.
pub open spec fn imports_of(
    items: Seq<SpecItem>,
    modules: Set<Seq<char>>,
    catalog: SpecCatalog,
) -> SpecImports
    decreases items.len(),
{
    if items.len() == 0 {
        SpecImports { bindings: Map::empty(), namespaces: Set::empty() }
    } else {
        let acc = imports_of(items.drop_last(), modules, catalog);
        match items.last() {
            SpecItem::Import(decl) => with_import(acc, decl, modules, catalog),
            _ => acc,
        }
    }
}

/// The factory that a declarator makes, if it has the form
/// `name = creator(..)` with an imported creator.
pub open spec fn made_factory(
    decl: SpecDeclarator,
    imports: Map<SpecIdent, ImportBinding>,
) -> Option<(SpecIdent, CandidateKind)> {
    match (decl.name, decl.init) {
        (SpecPat::Ident { id, .. }, Some(SpecExpr::Call(call))) => match call.callee {
            SpecCallee::Expr(callee) => match *callee {
                SpecExpr::Ident(creator) => if imports.dom().contains(creator) {
                    match imports[creator] {
                        ImportBinding::Creator { children_first } => Some(
                            (id, CandidateKind::Html { children_first }),
                        ),
                        _ => None,
                    }
                } else {
                    None
                },
                _ => None,
            },
            _ => None,
        },
        _ => None,
    }
}

pub open spec fn with_declarators(
    acc: Map<SpecIdent, CandidateKind>,
    decls: Seq<SpecDeclarator>,
    imports: Map<SpecIdent, ImportBinding>,
) -> Map<SpecIdent, CandidateKind>
    decreases decls.len(),
{
    if decls.len() == 0 {
        acc
    } else {
        let rest = with_declarators(acc, decls.drop_last(), imports);
        match made_factory(decls.last(), imports) {
            Some((id, kind)) => rest.insert(id, kind),
            None => rest,
        }
    }
}

/// The local factories that the `const` declarations among the items make.
pub open spec fn locals_of(
    items: Seq<SpecItem>,
    imports: Map<SpecIdent, ImportBinding>,
) -> Map<SpecIdent, CandidateKind>
    decreases items.len(),
{
    if items.len() == 0 {
        Map::empty()
    } else {
        let acc = locals_of(items.drop_last(), imports);
        match items.last() {
            SpecItem::Var(decl) => if decl.kind == VarKind::Const {
                with_declarators(acc, decl.decls, imports)
            } else {
                acc
            },
            _ => acc,
        }
    }
}

/// The factories of a program: the imported ones, and the local ones, which
/// take precedence.
pub open spec fn candidates(
    imports: Map<SpecIdent, ImportBinding>,
    locals: Map<SpecIdent, CandidateKind>,
) -> Map<SpecIdent, CandidateKind> {
    Map::new(
        |id: SpecIdent|
            locals.dom().contains(id) || (imports.dom().contains(id)
                && imports[id] is Candidate),
        |id: SpecIdent|
            if locals.dom().contains(id) {
                locals[id]
            } else {
                imports[id]->Candidate_0
            },
    )
}

/// The decision on an object literal in the place of the props.
pub open spec fn object_decision(
    rule: PropsRule,
    props: Seq<SpecEntry>,
    idx: int,
    catalog: SpecCatalog,
) -> Decision {
    match rule {
        PropsRule::Strict => match crate::validate::strict_reason(props) {
            Some(reason) => Decision::Bail(reason),
            None => Decision::Compilable { props_arg_idx: idx as usize },
        },
        PropsRule::Ordered => match crate::validate::ordered_reason(props, catalog) {
            Some(reason) => if crate::validate::allows_key(reason) {
                Decision::KeyOnly { props_arg_idx: idx as usize }
            } else {
                Decision::Bail(reason)
            },
            None => Decision::Compilable { props_arg_idx: idx as usize },
        },
    }
}

/// One of the arguments before position `idx` is spread.
pub open spec fn spread_before(args: Seq<SpecArg>, idx: int) -> bool {
    exists|i: int| 0 <= i < idx && i < args.len() && (#[trigger] args[i]).spread
}

/// The decision on a call of a factory that takes its props at position `idx`.
pub open spec fn props_decision(
    rule: PropsRule,
    args: Seq<SpecArg>,
    idx: int,
    catalog: SpecCatalog,
) -> Decision {
    if spread_before(args, idx) {
        Decision::Bail(BailReason::SpreadBeforeProps)
    } else if idx >= args.len() {
        Decision::Bail(BailReason::MissingPropsArg)
    } else if args[idx].spread {
        Decision::Bail(BailReason::NotObjectLiteral)
    } else {
        match crate::effect::unparen(args[idx].expr) {
            SpecExpr::Object(props) => object_decision(rule, props, idx, catalog),
            _ => Decision::Bail(BailReason::NotObjectLiteral),
        }
    }
}

/// Some factory has the given symbol, in whatever scope.
pub open spec fn tracked_sym(factories: Map<SpecIdent, CandidateKind>, sym: Seq<char>) -> bool {
    exists|id: SpecIdent| #[trigger] factories.dom().contains(id) && id.sym == sym
}

/// The decision on a call, if it has anything to do with the UI library.
pub open spec fn call_decision(
    rule: PropsRule,
    call: SpecCall,
    factories: Map<SpecIdent, CandidateKind>,
    namespaces: Set<SpecIdent>,
    catalog: SpecCatalog,
) -> Option<Decision> {
    match call.callee {
        SpecCallee::Expr(callee) => match *callee {
            SpecExpr::Ident(id) => if factories.dom().contains(id) {
                Some(props_decision(rule, call.args, props_position(factories[id]), catalog))
            } else if tracked_sym(factories, id.sym) {
                Some(Decision::Bail(BailReason::ShadowedOrUnbound))
            } else {
                None
            },
            SpecExpr::Member { obj, .. } => match *obj {
                SpecExpr::Ident(id) => if namespaces.contains(id) {
                    Some(Decision::Bail(BailReason::NamespaceImport))
                } else {
                    None
                },
                _ => None,
            },
            _ => None,
        },
        _ => None,
    }
}

/// The decisions on the calls among the items, in order.
pub open spec fn decisions_on(
    rule: PropsRule,
    items: Seq<SpecItem>,
    factories: Map<SpecIdent, CandidateKind>,
    namespaces: Set<SpecIdent>,
    catalog: SpecCatalog,
) -> Seq<CallSiteDecision>
    decreases items.len(),
{
    if items.len() == 0 {
        Seq::empty()
    } else {
        let rest = decisions_on(rule, items.drop_last(), factories, namespaces, catalog);
        match items.last() {
            SpecItem::Call(call) => match call_decision(
                rule,
                call,
                factories,
                namespaces,
                catalog,
            ) {
                Some(decision) => rest.push(CallSiteDecision { span: call.span, decision }),
                None => rest,
            },
            _ => rest,
        }
    }
}

/// The factories that a program has at hand.
pub open spec fn factories_of(
    program: Seq<SpecNode>,
    modules: Set<Seq<char>>,
    catalog: SpecCatalog,
) -> Map<SpecIdent, CandidateKind> {
    let items = crate::visit::items_of_nodes(program);
    let imports = imports_of(items, modules, catalog).bindings;
    candidates(imports, locals_of(items, imports))
}

/// The decisions on the calls of a program, in source order.
pub open spec fn decisions_of(
    rule: PropsRule,
    program: Seq<SpecNode>,
    modules: Set<Seq<char>>,
    catalog: SpecCatalog,
) -> Seq<CallSiteDecision> {
    let items = crate::visit::items_of_nodes(program);
    decisions_on(
        rule,
        items,
        factories_of(program, modules, catalog),
        imports_of(items, modules, catalog).namespaces,
        catalog,
    )
}

impl CandidateKind {
    /// The position of the props among the arguments.
    pub fn props_arg_idx(self) -> (r: usize)
        ensures
            r == props_position(self),
    {
        match self {
            CandidateKind::Html { children_first } => if children_first {
                1
            } else {
                0
            },
            CandidateKind::Node => 1,
        }
    }
}

fn is_ui_module(src: &Text) -> (r: bool)
    ensures
        r == ui_module(src@),
{
    text_is(src, "@meonode/ui") || text_is(src, "@meonode/ui/client")
}

fn is_factory_module(src: &Text, config: &CompileConfig) -> (r: bool)
    ensures
        r == factory_module(src@, config@),
{
    match src {
        Text::Unicode(name) => config.is_factory_module(name.as_str()),
        Text::Surrogates(_) => false,
    }
}

fn is_capitalized(name: &str) -> (r: bool)
    ensures
        r == capitalized(name@),
{
    let chars = chars_of(name);
    chars.len() > 0 && 'A' <= chars[0] && chars[0] <= 'Z'
}

fn ui_export_binding(name: &str, catalog: &Catalog) -> (r: Option<ImportBinding>)
    ensures
        r == ui_export(name@, catalog@),
{
    if str_eq(name, "Node") {
        Some(ImportBinding::Candidate(CandidateKind::Node))
    } else if str_eq(name, "createNode") {
        Some(ImportBinding::Creator { children_first: false })
    } else if str_eq(name, "createChildrenFirstNode") {
        Some(ImportBinding::Creator { children_first: true })
    } else {
        match catalog.factory_children_first(name) {
            Some(children_first) => Some(
                ImportBinding::Candidate(CandidateKind::Html { children_first }),
            ),
            None => None,
        }
    }
}

/// The imports of a program, as they are collected.
struct ImportCollector {
    bindings: BindingTable<ImportBinding>,
    namespaces: BindingTable<bool>,
}

impl View for ImportCollector {
    type V = SpecImports;

    closed spec fn view(&self) -> SpecImports {
        SpecImports { bindings: self.bindings@, namespaces: self.namespaces@.dom() }
    }
}

impl ImportCollector {
    fn new() -> (r: Self)
        ensures
            r@ == (SpecImports { bindings: Map::empty(), namespaces: Set::empty() }),
    {
        let r = ImportCollector { bindings: BindingTable::new(), namespaces: BindingTable::new() };
        assert(r@.namespaces =~= Set::<SpecIdent>::empty());
        r
    }

    fn visit_specifier(
        &mut self,
        src: &Text,
        spec: &ImportSpecifier,
        config: &CompileConfig,
        catalog: &Catalog,
    )
        ensures
            final(self)@ == with_specifier(old(self)@, src@, spec@, config@, catalog@),
    {
        match spec {
            ImportSpecifier::Named { local, imported, type_only } => {
                if *type_only {
                    return ;
                }
                let name: &str = match imported {
                    Some(ExportName::Ident(name)) => name.as_str(),
                    Some(ExportName::Str(_)) => return ,
                    None => local.sym.as_str(),
                };
                let binding = if is_ui_module(src) {
                    ui_export_binding(name, catalog)
                } else if is_factory_module(src, config) && is_capitalized(name) {
                    Some(ImportBinding::Candidate(CandidateKind::Html { children_first: false }))
                } else {
                    None
                };
                match binding {
                    Some(binding) => self.bindings.insert(copy_ident(local), binding),
                    None => {},
                }
            },
            ImportSpecifier::Namespace { local } => {
                self.namespaces.insert(copy_ident(local), true);
                assert(self@.namespaces =~= old(self)@.namespaces.insert(local@));
            },
            ImportSpecifier::Default { .. } => {},
        }
    }

    fn visit_import_decl(&mut self, decl: &ImportDecl, config: &CompileConfig, catalog: &Catalog)
        ensures
            final(self)@ == with_import(old(self)@, decl@, config@, catalog@),
    {
        if decl.type_only || !(is_ui_module(&decl.src) || is_factory_module(&decl.src, config)) {
            return ;
        }
        let ghost start = self@;
        let ghost specs = decl@.specifiers;
        let mut i: usize = 0;
        while i < decl.specifiers.len()
            invariant
                i <= decl.specifiers@.len(),
                specs == decl@.specifiers,
                self@ == with_specifiers(start, decl.src@, specs.take(i as int), config@, catalog@),
            decreases decl.specifiers.len() - i,
        {
            self.visit_specifier(&decl.src, &decl.specifiers[i], config, catalog);
            i += 1;
            assert(specs.take(i as int).drop_last() == specs.take(i - 1));
        }
        assert(specs.take(i as int) == specs);
    }
}

/// First pass: what the imports say.
fn collect_imports<'a>(items: &Vec<Item<'a>>, config: &CompileConfig, catalog: &Catalog) -> (r:
    ImportCollector)
    ensures
        r@ == imports_of(crate::visit::items_view(items@), config@, catalog@),
{
    let ghost view = crate::visit::items_view(items@);
    let mut imports = ImportCollector::new();
    let mut i: usize = 0;
    while i < items.len()
        invariant
            i <= items@.len(),
            view == crate::visit::items_view(items@),
            imports@ == imports_of(view.take(i as int), config@, catalog@),
        decreases items.len() - i,
    {
        match &items[i] {
            Item::Import(decl) => imports.visit_import_decl(decl, config, catalog),
            _ => {},
        }
        i += 1;
        assert(view.take(i as int).drop_last() == view.take(i - 1));
    }
    assert(view.take(i as int) == view);
    imports
}

fn collect_declarator(
    locals: &mut BindingTable<CandidateKind>,
    decl: &VarDeclarator,
    imports: &BindingTable<ImportBinding>,
)
    ensures
        final(locals)@ == (match made_factory(decl@, imports@) {
            Some((id, kind)) => old(locals)@.insert(id, kind),
            None => old(locals)@,
        }),
{
    proof {
        reveal_with_fuel(crate::ast::declarator_view, 2);
        reveal_with_fuel(crate::ast::pat_view, 2);
        reveal_with_fuel(crate::ast::expr_view, 2);
        reveal_with_fuel(crate::ast::call_view, 2);
        reveal_with_fuel(crate::ast::callee_view, 2);
    }
    let binding_ident = match &decl.name {
        Pat::Ident { id, ann: _ } => id,
        Pat::Other(_) => return ,
    };
    let call = match &decl.init {
        Some(Expr::Call(call)) => call,
        _ => return ,
    };
    let callee = match &call.callee {
        Callee::Expr(callee) => callee,
        _ => return ,
    };
    match &**callee {
        Expr::Ident(creator) => match imports.get(creator) {
            Some(ImportBinding::Creator { children_first }) => {
                locals.insert(copy_ident(binding_ident), CandidateKind::Html { children_first });
            },
            _ => {},
        },
        _ => {},
    }
}

fn visit_var_decl(
    locals: &mut BindingTable<CandidateKind>,
    decl: &VarDecl,
    imports: &BindingTable<ImportBinding>,
)
    ensures
        final(locals)@ == (if decl.kind == VarKind::Const {
            with_declarators(old(locals)@, decl@.decls, imports@)
        } else {
            old(locals)@
        }),
{
    let ghost start = locals@;
    let ghost decls = decl@.decls;
    proof {
        reveal_with_fuel(crate::ast::var_view, 2);
    }
    if decl.kind == VarKind::Const {
        let mut i: usize = 0;
        while i < decl.decls.len()
            invariant
                i <= decl.decls@.len(),
                decls == crate::ast::declarators_view(decl.decls@),
                locals@ == with_declarators(start, decls.take(i as int), imports@),
            decreases decl.decls.len() - i,
        {
            assert(decls[i as int] == decl.decls@[i as int]@);
            collect_declarator(locals, &decl.decls[i], imports);
            i += 1;
            assert(decls.take(i as int).drop_last() == decls.take(i - 1));
        }
        assert(decls.take(i as int) == decls);
    }
}

/// Second pass: the local factories.
fn collect_locals<'a>(items: &Vec<Item<'a>>, imports: &BindingTable<ImportBinding>) -> (r:
    BindingTable<CandidateKind>)
    ensures
        r@ == locals_of(crate::visit::items_view(items@), imports@),
{
    let ghost view = crate::visit::items_view(items@);
    let mut locals: BindingTable<CandidateKind> = BindingTable::new();
    let mut i: usize = 0;
    while i < items.len()
        invariant
            i <= items@.len(),
            view == crate::visit::items_view(items@),
            locals@ == locals_of(view.take(i as int), imports@),
        decreases items.len() - i,
    {
        match &items[i] {
            Item::Var(decl) => visit_var_decl(&mut locals, decl, imports),
            _ => {},
        }
        i += 1;
        assert(view.take(i as int).drop_last() == view.take(i - 1));
    }
    assert(view.take(i as int) == view);
    locals
}

/// The table of all factories.
fn merge_factories(
    imports: &BindingTable<ImportBinding>,
    locals: BindingTable<CandidateKind>,
) -> (r: BindingTable<CandidateKind>)
    ensures
        r@ == candidates(imports@, locals@),
{
    let mut out: BindingTable<CandidateKind> = BindingTable::new();
    let ghost all = candidates(imports@, locals@);
    proof {
        imports.lemma_keys();
        locals.lemma_keys();
    }
    let mut i: usize = 0;
    while i < imports.len()
        invariant
            i <= imports.size(),
            forall|id: SpecIdent| #[trigger] out@.dom().contains(id) ==> imports@.dom().contains(id)
                && imports@[id] is Candidate && out@[id] == imports@[id]->Candidate_0,
            forall|k: int|
                0 <= k < i && imports@.dom().contains(imports.key(k)) && imports@[imports.key(
                    k,
                )] is Candidate ==> out@.dom().contains(#[trigger] imports.key(k)),
        decreases imports.size() - i,
    {
        let id = imports.key_at(i);
        match imports.get(&id) {
            Some(ImportBinding::Candidate(kind)) => out.insert(id, kind),
            _ => {},
        }
        i += 1;
    }
    let ghost imported = out@;
    let mut i: usize = 0;
    while i < locals.len()
        invariant
            i <= locals.size(),
            forall|k: int| 0 <= k < locals.size() ==> locals@.dom().contains(
                #[trigger] locals.key(k),
            ),
            forall|id: SpecIdent|
                imported.dom().contains(id) ==> #[trigger] out@.dom().contains(id),
            forall|k: int| 0 <= k < i ==> out@.dom().contains(#[trigger] locals.key(k)),
            forall|id: SpecIdent| #[trigger] out@.dom().contains(id) ==> {
                if locals@.dom().contains(id) {
                    out@[id] == locals@[id] || imported.dom().contains(id)
                } else {
                    imported.dom().contains(id) && out@[id] == imported[id]
                }
            },
            forall|k: int| 0 <= k < i ==> out@[#[trigger] locals.key(k)] == locals@[locals.key(k)],
        decreases locals.size() - i,
    {
        let id = locals.key_at(i);
        match locals.get(&id) {
            Some(kind) => out.insert(id, kind),
            None => {},
        }
        i += 1;
    }
    assert(out@ =~= all) by {
        assert forall|id: SpecIdent| out@.dom().contains(id) == all.dom().contains(id) by {
            if imports@.dom().contains(id) {
                let k = choose|k: int| 0 <= k < imports.size() && #[trigger] imports.key(k) == id;
                assert(imports.key(k) == id);
            }
            if locals@.dom().contains(id) {
                let k = choose|k: int| 0 <= k < locals.size() && #[trigger] locals.key(k) == id;
                assert(locals.key(k) == id);
            }
        }
        assert forall|id: SpecIdent| out@.dom().contains(id) implies out@[id] == all[id] by {
            if locals@.dom().contains(id) {
                let k = choose|k: int| 0 <= k < locals.size() && #[trigger] locals.key(k) == id;
                assert(locals.key(k) == id);
            }
        }
    }
    out
}

fn leading_spread(args: &Vec<ExprOrSpread>, idx: usize) -> (r: bool)
    ensures
        r == spread_before(crate::ast::args_view(args@), idx as int),
{
    let ghost view = crate::ast::args_view(args@);
    let mut i: usize = 0;
    while i < idx && i < args.len()
        invariant
            i <= idx,
            i <= args@.len(),
            view == crate::ast::args_view(args@),
            forall|j: int| 0 <= j < i ==> !(#[trigger] view[j]).spread,
        decreases args.len() - i,
    {
        assert(view[i as int].spread == args@[i as int].spread);
        if args[i].spread {
            return true;
        }
        i += 1;
    }
    false
}

/// The decision on a call of a factory that takes its props at
/// `props_arg_idx`. A spread argument before that position leaves open which
/// argument the props are.
fn classify_props(rule: PropsRule, call: &CallExpr, props_arg_idx: usize, catalog: &Catalog) -> (r:
    Decision)
    ensures
        r == props_decision(rule, call@.args, props_arg_idx as int, catalog@),
{
    proof {
        reveal_with_fuel(crate::ast::call_view, 2);
    }
    if leading_spread(&call.args, props_arg_idx) {
        return Decision::Bail(BailReason::SpreadBeforeProps);
    }
    if props_arg_idx >= call.args.len() {
        return Decision::Bail(BailReason::MissingPropsArg);
    }
    let arg = &call.args[props_arg_idx];
    assert(call@.args[props_arg_idx as int] == crate::ast::arg_view(*arg));
    if arg.spread {
        return Decision::Bail(BailReason::NotObjectLiteral);
    }
    proof {
        reveal_with_fuel(crate::ast::arg_view, 2);
        reveal_with_fuel(crate::ast::expr_view, 2);
    }
    match unwrap_parens(&arg.expr) {
        Expr::Object(obj) => match rule {
            PropsRule::Strict => match validate_object(obj) {
                Some(reason) => Decision::Bail(reason),
                None => Decision::Compilable { props_arg_idx },
            },
            PropsRule::Ordered => match validate_object_ordered(obj, catalog) {
                Some(reason) => if is_key_only_reason(reason) {
                    Decision::KeyOnly { props_arg_idx }
                } else {
                    Decision::Bail(reason)
                },
                None => Decision::Compilable { props_arg_idx },
            },
        },
        _ => Decision::Bail(BailReason::NotObjectLiteral),
    }
}

/// What calls are classified against.
struct Detector<'c> {
    rule: PropsRule,
    factories: BindingTable<CandidateKind>,
    namespaces: BindingTable<bool>,
    catalog: &'c Catalog,
}

impl<'c> Detector<'c> {
    fn classify_call(&self, call: &CallExpr) -> (r: Option<Decision>)
        ensures
            r == call_decision(
                self.rule,
                call@,
                self.factories@,
                self.namespaces@.dom(),
                self.catalog@,
            ),
    {
        proof {
            reveal_with_fuel(crate::ast::call_view, 2);
            reveal_with_fuel(crate::ast::callee_view, 2);
            reveal_with_fuel(crate::ast::expr_view, 2);
        }
        let callee = match &call.callee {
            Callee::Expr(callee) => callee,
            _ => return None,
        };
        match &**callee {
            Expr::Ident(id) => match self.factories.get(id) {
                Some(kind) => Some(
                    classify_props(self.rule, call, kind.props_arg_idx(), self.catalog),
                ),
                None => if self.factories.has_sym(id.sym.as_str()) {
                    Some(Decision::Bail(BailReason::ShadowedOrUnbound))
                } else {
                    None
                },
            },
            Expr::Member { obj, prop: _ } => match &**obj {
                Expr::Ident(id) => match self.namespaces.get(id) {
                    Some(_) => Some(Decision::Bail(BailReason::NamespaceImport)),
                    None => None,
                },
                _ => None,
            },
            _ => None,
        }
    }
}

/// The decisions on the calls of a program under a rule, with the factory
/// modules of a configuration.
fn detect_under(rule: PropsRule, program: &Program, config: &CompileConfig, catalog: &Catalog) -> (r:
    Vec<CallSiteDecision>)
    ensures
        r@ == decisions_of(rule, program@, config@, catalog@),
{
    let items = collect_items(program);
    let imports = collect_imports(&items, config, catalog);
    let locals = collect_locals(&items, &imports.bindings);
    let factories = merge_factories(&imports.bindings, locals);
    let detector = Detector { rule, factories, namespaces: imports.namespaces, catalog };
    let ghost view = crate::visit::items_view(items@);
    let mut out: Vec<CallSiteDecision> = Vec::new();
    let mut i: usize = 0;
    while i < items.len()
        invariant
            i <= items@.len(),
            view == crate::visit::items_view(items@),
            detector.rule == rule,
            detector.catalog@ == catalog@,
            out@ == decisions_on(
                rule,
                view.take(i as int),
                detector.factories@,
                detector.namespaces@.dom(),
                catalog@,
            ),
        decreases items.len() - i,
    {
        match &items[i] {
            Item::Call(call) => match detector.classify_call(call) {
                Some(decision) => out.push(CallSiteDecision { span: call.span, decision }),
                None => {},
            },
            _ => {},
        }
        i += 1;
        assert(view.take(i as int).drop_last() == view.take(i - 1));
    }
    assert(view.take(i as int) == view);
    out
}

/// The decisions on the calls of a program under the strict rule, in source
/// order. Only the UI library's own factories are known.
pub fn detect(program: &Program, catalog: &Catalog) -> (r: Vec<CallSiteDecision>)
    ensures
        r@ == decisions_of(PropsRule::Strict, program@, Set::empty(), catalog@),
{
    let config = CompileConfig::default();
    detect_under(PropsRule::Strict, program, &config, catalog)
}

/// The decisions on the calls of a program under the ordered rule, in source
/// order. The factory modules of the configuration are known too.
pub fn detect_with_config(program: &Program, config: &CompileConfig, catalog: &Catalog) -> (r: Vec<
    CallSiteDecision,
>)
    ensures
        r@ == decisions_of(PropsRule::Ordered, program@, config@, catalog@),
{
    detect_under(PropsRule::Ordered, program, config, catalog)
}

/// Runs detection under the strict rule, and leaves the program as it is.
pub fn transform_program(program: &Program, catalog: &Catalog) -> (r: Vec<CallSiteDecision>)
    ensures
        r@ == decisions_of(PropsRule::Strict, program@, Set::empty(), catalog@),
{
    detect(program, catalog)
}

} // verus!
