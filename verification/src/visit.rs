//! The parts of a program that call-site analysis looks at, in source order.
use crate::ast::{
    CallExpr, Callee, Expr, ExprOrSpread, ImportDecl, Node, Pat, Program, Prop, PropName,
    PropOrSpread, VarDecl, VarDeclarator,
};
use crate::model::{
    SpecArg, SpecCall, SpecCallee, SpecDeclarator, SpecEntry, SpecExpr, SpecImport, SpecKey,
    SpecNode, SpecPat, SpecProp, SpecVar,
};
use vstd::prelude::*;

verus! {

/// An import declaration, a variable declaration, or a call.
pub enum SpecItem {
    Import(SpecImport),
    Var(SpecVar),
    Call(SpecCall),
}

/// A reference to such a part.
pub enum Item<'a> {
    Import(&'a ImportDecl),
    Var(&'a VarDecl),
    Call(&'a CallExpr),
}

impl<'a> View for Item<'a> {
    type V = SpecItem;

    open spec fn view(&self) -> SpecItem {
        match self {
            Item::Import(decl) => SpecItem::Import(decl@),
            Item::Var(decl) => SpecItem::Var(decl@),
            Item::Call(call) => SpecItem::Call(call@),
        }
    }
}

pub open spec fn items_view(items: Seq<Item<'_>>) -> Seq<SpecItem> {
    items.map_values(|item: Item<'_>| item@)
}

/// The items of an expression. A call comes before the items inside it.
pub open spec fn items_of_expr(e: SpecExpr) -> Seq<SpecItem>
    decreases e,
{
    match e {
        SpecExpr::Lit(_) => Seq::empty(),
        SpecExpr::Ident(_) => Seq::empty(),
        SpecExpr::Arrow(ns) => items_of_nodes(ns),
        SpecExpr::Fn(ns) => items_of_nodes(ns),
        SpecExpr::Unary { arg, .. } => items_of_expr(*arg),
        SpecExpr::Tpl { exprs } => items_of_exprs(exprs),
        SpecExpr::Object(props) => items_of_props(props),
        SpecExpr::Array { elems } => items_of_elems(elems),
        SpecExpr::Paren(inner) => items_of_expr(*inner),
        SpecExpr::Call(call) => items_of_call(call),
        SpecExpr::Member { obj, prop } => items_of_expr(*obj) + items_of_nodes(prop),
        SpecExpr::Other(ns) => items_of_nodes(ns),
    }
}

pub open spec fn items_of_call(call: SpecCall) -> Seq<SpecItem>
    decreases call,
{
    seq![SpecItem::Call(call)] + items_of_callee(call.callee) + items_of_args(call.args)
        + items_of_nodes(call.type_args)
}

pub open spec fn items_of_callee(callee: SpecCallee) -> Seq<SpecItem>
    decreases callee,
{
    match callee {
        SpecCallee::Expr(e) => items_of_expr(*e),
        _ => Seq::empty(),
    }
}

pub open spec fn items_of_elem(elem: Option<SpecArg>) -> Seq<SpecItem>
    decreases elem,
{
    match elem {
        Some(arg) => items_of_expr(arg.expr),
        None => Seq::empty(),
    }
}

pub open spec fn items_of_key(key: SpecKey) -> Seq<SpecItem>
    decreases key,
{
    match key {
        SpecKey::Computed(e) => items_of_expr(*e),
        _ => Seq::empty(),
    }
}

pub open spec fn items_of_prop(prop: SpecProp) -> Seq<SpecItem>
    decreases prop,
{
    match prop {
        SpecProp::Shorthand(_) => Seq::empty(),
        SpecProp::KeyValue { key, value } => items_of_key(key) + items_of_expr(value),
        SpecProp::Assign { value, .. } => items_of_expr(value),
        SpecProp::Getter(ns) => items_of_nodes(ns),
        SpecProp::Setter(ns) => items_of_nodes(ns),
        SpecProp::Method(ns) => items_of_nodes(ns),
    }
}

pub open spec fn items_of_entry(entry: SpecEntry) -> Seq<SpecItem>
    decreases entry,
{
    match entry {
        SpecEntry::Spread { expr, .. } => items_of_expr(expr),
        SpecEntry::Prop { prop, .. } => items_of_prop(prop),
    }
}

pub open spec fn items_of_pat(pat: SpecPat) -> Seq<SpecItem>
    decreases pat,
{
    match pat {
        SpecPat::Ident { ann, .. } => items_of_nodes(ann),
        SpecPat::Other(ns) => items_of_nodes(ns),
    }
}

pub open spec fn items_of_declarator(decl: SpecDeclarator) -> Seq<SpecItem>
    decreases decl,
{
    items_of_pat(decl.name) + match decl.init {
        Some(e) => items_of_expr(e),
        None => Seq::empty(),
    }
}

/// The items of a node. A variable declaration comes before the items inside
/// it.
pub open spec fn items_of_node(node: SpecNode) -> Seq<SpecItem>
    decreases node,
{
    match node {
        SpecNode::Import(decl) => seq![SpecItem::Import(decl)],
        SpecNode::Var(decl) => seq![SpecItem::Var(decl)] + items_of_declarators(decl.decls),
        SpecNode::Expr(e) => items_of_expr(e),
    }
}

pub open spec fn items_of_nodes(ns: Seq<SpecNode>) -> Seq<SpecItem>
    decreases ns,
{
    if ns.len() == 0 {
        Seq::empty()
    } else {
        items_of_nodes(ns.drop_last()) + items_of_node(ns.last())
    }
}

pub open spec fn items_of_exprs(es: Seq<SpecExpr>) -> Seq<SpecItem>
    decreases es,
{
    if es.len() == 0 {
        Seq::empty()
    } else {
        items_of_exprs(es.drop_last()) + items_of_expr(es.last())
    }
}

pub open spec fn items_of_props(ps: Seq<SpecEntry>) -> Seq<SpecItem>
    decreases ps,
{
    if ps.len() == 0 {
        Seq::empty()
    } else {
        items_of_props(ps.drop_last()) + items_of_entry(ps.last())
    }
}

pub open spec fn items_of_args(args: Seq<SpecArg>) -> Seq<SpecItem>
    decreases args,
{
    if args.len() == 0 {
        Seq::empty()
    } else {
        items_of_args(args.drop_last()) + items_of_expr(args.last().expr)
    }
}

pub open spec fn items_of_elems(elems: Seq<Option<SpecArg>>) -> Seq<SpecItem>
    decreases elems,
{
    if elems.len() == 0 {
        Seq::empty()
    } else {
        items_of_elems(elems.drop_last()) + items_of_elem(elems.last())
    }
}

pub open spec fn items_of_declarators(ds: Seq<SpecDeclarator>) -> Seq<SpecItem>
    decreases ds,
{
    if ds.len() == 0 {
        Seq::empty()
    } else {
        items_of_declarators(ds.drop_last()) + items_of_declarator(ds.last())
    }
}

/// Every one of the items is in a set.
pub open spec fn items_within(items: Seq<SpecItem>, all: Set<SpecItem>) -> bool {
    forall|i: int| 0 <= i < items.len() ==> all.contains(#[trigger] items[i])
}

/// Two lists of items, one behind the other, are in a set only if each is.
pub proof fn lemma_within_parts(a: Seq<SpecItem>, b: Seq<SpecItem>, all: Set<SpecItem>)
    requires
        items_within(a + b, all),
    ensures
        items_within(a, all),
        items_within(b, all),
{
    assert forall|i: int| 0 <= i < a.len() implies all.contains(#[trigger] a[i]) by {
        assert((a + b)[i] == a[i]);
    }
    assert forall|i: int| 0 <= i < b.len() implies all.contains(#[trigger] b[i]) by {
        assert((a + b)[a.len() + i] == b[i]);
    }
}

pub proof fn lemma_within_nodes(list: Seq<SpecNode>, i: int, all: Set<SpecItem>)
    requires
        0 <= i < list.len(),
        items_within(items_of_nodes(list), all),
    ensures
        items_within(items_of_node(list[i]), all),
    decreases list.len(),
{
    lemma_within_parts(
        items_of_nodes(list.drop_last()),
        items_of_node(list.last()),
        all,
    );
    if i < list.len() - 1 {
        lemma_within_nodes(list.drop_last(), i, all);
    }
}

pub proof fn lemma_within_exprs(list: Seq<SpecExpr>, i: int, all: Set<SpecItem>)
    requires
        0 <= i < list.len(),
        items_within(items_of_exprs(list), all),
    ensures
        items_within(items_of_expr(list[i]), all),
    decreases list.len(),
{
    lemma_within_parts(
        items_of_exprs(list.drop_last()),
        items_of_expr(list.last()),
        all,
    );
    if i < list.len() - 1 {
        lemma_within_exprs(list.drop_last(), i, all);
    }
}

pub proof fn lemma_within_props(list: Seq<SpecEntry>, i: int, all: Set<SpecItem>)
    requires
        0 <= i < list.len(),
        items_within(items_of_props(list), all),
    ensures
        items_within(items_of_entry(list[i]), all),
    decreases list.len(),
{
    lemma_within_parts(
        items_of_props(list.drop_last()),
        items_of_entry(list.last()),
        all,
    );
    if i < list.len() - 1 {
        lemma_within_props(list.drop_last(), i, all);
    }
}

pub proof fn lemma_within_args(list: Seq<SpecArg>, i: int, all: Set<SpecItem>)
    requires
        0 <= i < list.len(),
        items_within(items_of_args(list), all),
    ensures
        items_within(items_of_expr(list[i].expr), all),
    decreases list.len(),
{
    lemma_within_parts(
        items_of_args(list.drop_last()),
        items_of_expr(list.last().expr),
        all,
    );
    if i < list.len() - 1 {
        lemma_within_args(list.drop_last(), i, all);
    }
}

pub proof fn lemma_within_elems(list: Seq<Option<SpecArg>>, i: int, all: Set<SpecItem>)
    requires
        0 <= i < list.len(),
        items_within(items_of_elems(list), all),
    ensures
        items_within(items_of_elem(list[i]), all),
    decreases list.len(),
{
    lemma_within_parts(
        items_of_elems(list.drop_last()),
        items_of_elem(list.last()),
        all,
    );
    if i < list.len() - 1 {
        lemma_within_elems(list.drop_last(), i, all);
    }
}

pub proof fn lemma_within_declarators(list: Seq<SpecDeclarator>, i: int, all: Set<SpecItem>)
    requires
        0 <= i < list.len(),
        items_within(items_of_declarators(list), all),
    ensures
        items_within(items_of_declarator(list[i]), all),
    decreases list.len(),
{
    lemma_within_parts(
        items_of_declarators(list.drop_last()),
        items_of_declarator(list.last()),
        all,
    );
    if i < list.len() - 1 {
        lemma_within_declarators(list.drop_last(), i, all);
    }
}

/// The items of a program, in source order.
pub fn collect_items<'a>(program: &'a Program) -> (r: Vec<Item<'a>>)
    ensures
        items_view(r@) == items_of_nodes(program@),
{
    let mut out: Vec<Item<'a>> = Vec::new();
    collect_nodes(&program.body, &mut out);
    assert(items_view(out@) =~= items_of_nodes(program@));
    out
}

fn collect_expr<'a>(e: &'a Expr, out: &mut Vec<Item<'a>>)
    ensures
        items_view(final(out)@) == items_view(old(out)@) + items_of_expr(e@),
    decreases e,
{
    let ghost before = items_view(out@);
    proof {
        reveal_with_fuel(crate::ast::expr_view, 2);
        reveal_with_fuel(items_of_expr, 2);
    }
    match e {
        Expr::Lit(_) => {},
        Expr::Ident(_) => {},
        Expr::Arrow(ns) => collect_nodes(ns, out),
        Expr::Fn(ns) => collect_nodes(ns, out),
        Expr::Unary { op: _, arg } => collect_expr(arg, out),
        Expr::Tpl { exprs } => collect_exprs(exprs, out),
        Expr::Object(obj) => collect_props(&obj.props, out),
        Expr::Array { elems } => collect_elems(elems, out),
        Expr::Paren(inner) => collect_expr(inner, out),
        Expr::Call(call) => collect_call(call, out),
        Expr::Member { obj, prop } => {
            collect_expr(obj, out);
            collect_nodes(prop, out);
        },
        Expr::Other(ns) => collect_nodes(ns, out),
    }
    assert(items_view(out@) =~= before + items_of_expr(e@));
}

fn collect_call<'a>(call: &'a CallExpr, out: &mut Vec<Item<'a>>)
    ensures
        items_view(final(out)@) == items_view(old(out)@) + items_of_call(call@),
    decreases call,
{
    let ghost before = items_view(out@);
    proof {
        reveal_with_fuel(crate::ast::call_view, 2);
        reveal_with_fuel(crate::ast::callee_view, 2);
        reveal_with_fuel(items_of_call, 2);
    }
    out.push(Item::Call(call));
    assert(items_view(out@) =~= before.push(SpecItem::Call(call@)));
    match &call.callee {
        Callee::Expr(e) => collect_expr(e, out),
        _ => {},
    }
    collect_args(&call.args, out);
    collect_nodes(&call.type_args, out);
    assert(items_view(out@) =~= before + items_of_call(call@));
}

fn collect_entry<'a>(entry: &'a PropOrSpread, out: &mut Vec<Item<'a>>)
    ensures
        items_view(final(out)@) == items_view(old(out)@) + items_of_entry(entry@),
    decreases entry,
{
    let ghost before = items_view(out@);
    proof {
        reveal_with_fuel(crate::ast::entry_view, 3);
        reveal_with_fuel(items_of_entry, 3);
    }
    match entry {
        PropOrSpread::Spread { span: _, expr } => collect_expr(expr, out),
        PropOrSpread::Prop { span: _, prop } => match prop {
            Prop::Shorthand(_) => {},
            Prop::KeyValue { key, value } => {
                match key {
                    PropName::Computed(e) => collect_expr(e, out),
                    _ => {},
                }
                collect_expr(value, out);
            },
            Prop::Assign { name: _, value } => collect_expr(value, out),
            Prop::Getter(ns) => collect_nodes(ns, out),
            Prop::Setter(ns) => collect_nodes(ns, out),
            Prop::Method(ns) => collect_nodes(ns, out),
        },
    }
    assert(items_view(out@) =~= before + items_of_entry(entry@));
}

fn collect_declarator<'a>(decl: &'a VarDeclarator, out: &mut Vec<Item<'a>>)
    ensures
        items_view(final(out)@) == items_view(old(out)@) + items_of_declarator(decl@),
    decreases decl,
{
    let ghost before = items_view(out@);
    proof {
        reveal_with_fuel(crate::ast::declarator_view, 2);
        reveal_with_fuel(crate::ast::pat_view, 2);
        reveal_with_fuel(items_of_declarator, 2);
        reveal_with_fuel(items_of_pat, 2);
    }
    match &decl.name {
        Pat::Ident { id: _, ann } => collect_nodes(ann, out),
        Pat::Other(ns) => collect_nodes(ns, out),
    }
    match &decl.init {
        Some(e) => collect_expr(e, out),
        None => {},
    }
    assert(items_view(out@) =~= before + items_of_declarator(decl@));
}

fn collect_node<'a>(node: &'a Node, out: &mut Vec<Item<'a>>)
    ensures
        items_view(final(out)@) == items_view(old(out)@) + items_of_node(node@),
    decreases node,
{
    let ghost before = items_view(out@);
    proof {
        reveal_with_fuel(crate::ast::node_view, 2);
        reveal_with_fuel(items_of_node, 2);
    }
    match node {
        Node::Import(decl) => {
            out.push(Item::Import(decl));
            assert(items_view(out@) =~= before.push(SpecItem::Import(decl@)));
        },
        Node::Var(decl) => {
            out.push(Item::Var(decl));
            assert(items_view(out@) =~= before.push(SpecItem::Var(decl@)));
            collect_declarators(&decl.decls, out);
        },
        Node::Expr(e) => collect_expr(e, out),
    }
    assert(items_view(out@) =~= before + items_of_node(node@));
}

fn collect_nodes<'a>(list: &'a Vec<Node>, out: &mut Vec<Item<'a>>)
    ensures
        items_view(final(out)@) == items_view(old(out)@) + items_of_nodes(
            crate::ast::nodes_view(list@),
        ),
    decreases list,
{
    let ghost view = crate::ast::nodes_view(list@);
    let ghost before = items_view(out@);
    let mut i: usize = 0;
    assert(items_view(out@) =~= before + items_of_nodes(view.take(0)));
    while i < list.len()
        invariant
            i <= list@.len(),
            view == crate::ast::nodes_view(list@),
            items_view(out@) == before + items_of_nodes(view.take(i as int)),
        decreases list.len() - i,
    {
        collect_node(&list[i], out);
        i += 1;
        assert(view.take(i as int).drop_last() == view.take(i - 1));
        assert(items_view(out@) =~= before + items_of_nodes(view.take(i as int)));
    }
    assert(view.take(i as int) == view);
}

fn collect_exprs<'a>(list: &'a Vec<Expr>, out: &mut Vec<Item<'a>>)
    ensures
        items_view(final(out)@) == items_view(old(out)@) + items_of_exprs(
            crate::ast::exprs_view(list@),
        ),
    decreases list,
{
    let ghost view = crate::ast::exprs_view(list@);
    let ghost before = items_view(out@);
    let mut i: usize = 0;
    assert(items_view(out@) =~= before + items_of_exprs(view.take(0)));
    while i < list.len()
        invariant
            i <= list@.len(),
            view == crate::ast::exprs_view(list@),
            items_view(out@) == before + items_of_exprs(view.take(i as int)),
        decreases list.len() - i,
    {
        collect_expr(&list[i], out);
        i += 1;
        assert(view.take(i as int).drop_last() == view.take(i - 1));
        assert(items_view(out@) =~= before + items_of_exprs(view.take(i as int)));
    }
    assert(view.take(i as int) == view);
}

fn collect_props<'a>(list: &'a Vec<PropOrSpread>, out: &mut Vec<Item<'a>>)
    ensures
        items_view(final(out)@) == items_view(old(out)@) + items_of_props(
            crate::ast::props_view(list@),
        ),
    decreases list,
{
    let ghost view = crate::ast::props_view(list@);
    let ghost before = items_view(out@);
    let mut i: usize = 0;
    assert(items_view(out@) =~= before + items_of_props(view.take(0)));
    while i < list.len()
        invariant
            i <= list@.len(),
            view == crate::ast::props_view(list@),
            items_view(out@) == before + items_of_props(view.take(i as int)),
        decreases list.len() - i,
    {
        collect_entry(&list[i], out);
        i += 1;
        assert(view.take(i as int).drop_last() == view.take(i - 1));
        assert(items_view(out@) =~= before + items_of_props(view.take(i as int)));
    }
    assert(view.take(i as int) == view);
}

fn collect_args<'a>(list: &'a Vec<ExprOrSpread>, out: &mut Vec<Item<'a>>)
    ensures
        items_view(final(out)@) == items_view(old(out)@) + items_of_args(
            crate::ast::args_view(list@),
        ),
    decreases list,
{
    let ghost view = crate::ast::args_view(list@);
    let ghost before = items_view(out@);
    let mut i: usize = 0;
    assert(items_view(out@) =~= before + items_of_args(view.take(0)));
    while i < list.len()
        invariant
            i <= list@.len(),
            view == crate::ast::args_view(list@),
            items_view(out@) == before + items_of_args(view.take(i as int)),
        decreases list.len() - i,
    {
        collect_expr(&list[i].expr, out);
        i += 1;
        assert(view.take(i as int).drop_last() == view.take(i - 1));
        assert(items_view(out@) =~= before + items_of_args(view.take(i as int)));
    }
    assert(view.take(i as int) == view);
}

fn collect_elem<'a>(elem: &'a Option<ExprOrSpread>, out: &mut Vec<Item<'a>>)
    ensures
        items_view(final(out)@) == items_view(old(out)@) + items_of_elem(
            crate::ast::elem_view(*elem),
        ),
    decreases elem,
{
    let ghost before = items_view(out@);
    proof {
        reveal_with_fuel(crate::ast::elem_view, 2);
    }
    match elem {
        Some(arg) => collect_expr(&arg.expr, out),
        None => {},
    }
    assert(items_view(out@) =~= before + items_of_elem(crate::ast::elem_view(*elem)));
}

fn collect_elems<'a>(list: &'a Vec<Option<ExprOrSpread>>, out: &mut Vec<Item<'a>>)
    ensures
        items_view(final(out)@) == items_view(old(out)@) + items_of_elems(
            crate::ast::elems_view(list@),
        ),
    decreases list,
{
    let ghost view = crate::ast::elems_view(list@);
    let ghost before = items_view(out@);
    let mut i: usize = 0;
    assert(items_view(out@) =~= before + items_of_elems(view.take(0)));
    while i < list.len()
        invariant
            i <= list@.len(),
            view == crate::ast::elems_view(list@),
            items_view(out@) == before + items_of_elems(view.take(i as int)),
        decreases list.len() - i,
    {
        collect_elem(&list[i], out);
        i += 1;
        assert(view.take(i as int).drop_last() == view.take(i - 1));
        assert(items_view(out@) =~= before + items_of_elems(view.take(i as int)));
    }
    assert(view.take(i as int) == view);
}

fn collect_declarators<'a>(list: &'a Vec<VarDeclarator>, out: &mut Vec<Item<'a>>)
    ensures
        items_view(final(out)@) == items_view(old(out)@) + items_of_declarators(
            crate::ast::declarators_view(list@),
        ),
    decreases list,
{
    let ghost view = crate::ast::declarators_view(list@);
    let ghost before = items_view(out@);
    let mut i: usize = 0;
    assert(items_view(out@) =~= before + items_of_declarators(view.take(0)));
    while i < list.len()
        invariant
            i <= list@.len(),
            view == crate::ast::declarators_view(list@),
            items_view(out@) == before + items_of_declarators(view.take(i as int)),
        decreases list.len() - i,
    {
        collect_declarator(&list[i], out);
        i += 1;
        assert(view.take(i as int).drop_last() == view.take(i - 1));
        assert(items_view(out@) =~= before + items_of_declarators(view.take(i as int)));
    }
    assert(view.take(i as int) == view);
}

} // verus!
