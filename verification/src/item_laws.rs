//! Every import, variable declaration and call of a program is found, wherever
//! it is written.
use crate::model::{
    SpecArg, SpecCall, SpecCallee, SpecDeclarator, SpecEntry, SpecExpr, SpecKey, SpecNode, SpecPat,
    SpecProp,
};
use crate::visit::SpecItem;
use vstd::prelude::*;

verus! {

proof fn lemma_single(x: SpecItem, y: SpecItem)
    ensures
        seq![x].contains(y) <==> x == y,
{
    assert(seq![x][0] == x);
}

/// The items of a program are those of its nodes.
pub proof fn law_items_of_programs(ns: Seq<SpecNode>, x: SpecItem)
    ensures
        crate::visit::items_of_nodes(ns).contains(x) <==> exists|i: int|
            0 <= i < ns.len() && crate::visit::items_of_node(#[trigger] ns[i]).contains(x),
    decreases ns.len(),
{
    if ns.len() > 0 {
        let rest = ns.drop_last();
        law_items_of_programs(rest, x);
        crate::laws::lemma_contains_concat(
            crate::visit::items_of_nodes(rest),
            crate::visit::items_of_node(ns.last()),
            x,
        );
        assert(ns[ns.len() - 1] == ns.last());
        assert forall|i: int| 0 <= i < rest.len() implies #[trigger] ns[i] == rest[i] by {}
        if crate::visit::items_of_nodes(rest).contains(x) {
            let i = choose|i: int|
                0 <= i < rest.len() && crate::visit::items_of_node(#[trigger] rest[i]).contains(x);
            assert(crate::visit::items_of_node(ns[i]).contains(x));
        }
        if exists|i: int|
            0 <= i < ns.len() && crate::visit::items_of_node(#[trigger] ns[i]).contains(x) {
            let i = choose|i: int|
                0 <= i < ns.len() && crate::visit::items_of_node(#[trigger] ns[i]).contains(x);
            if i < rest.len() {
                assert(crate::visit::items_of_node(rest[i]).contains(x));
            }
        }
    }
}

proof fn lemma_exprs(es: Seq<SpecExpr>, x: SpecItem)
    ensures
        crate::visit::items_of_exprs(es).contains(x) <==> exists|i: int|
            0 <= i < es.len() && crate::visit::items_of_expr(#[trigger] es[i]).contains(x),
    decreases es.len(),
{
    if es.len() > 0 {
        let rest = es.drop_last();
        lemma_exprs(rest, x);
        crate::laws::lemma_contains_concat(
            crate::visit::items_of_exprs(rest),
            crate::visit::items_of_expr(es.last()),
            x,
        );
        assert(es[es.len() - 1] == es.last());
        if crate::visit::items_of_exprs(rest).contains(x) {
            let i = choose|i: int|
                0 <= i < rest.len() && crate::visit::items_of_expr(#[trigger] rest[i]).contains(x);
            assert(crate::visit::items_of_expr(es[i]).contains(x));
        }
        if exists|i: int|
            0 <= i < es.len() && crate::visit::items_of_expr(#[trigger] es[i]).contains(x) {
            let i = choose|i: int|
                0 <= i < es.len() && crate::visit::items_of_expr(#[trigger] es[i]).contains(x);
            if i < rest.len() {
                assert(crate::visit::items_of_expr(rest[i]).contains(x));
            }
        }
    }
}

proof fn lemma_args(args: Seq<SpecArg>, x: SpecItem)
    ensures
        crate::visit::items_of_args(args).contains(x) <==> exists|i: int|
            0 <= i < args.len() && crate::visit::items_of_expr((#[trigger] args[i]).expr).contains(
                x,
            ),
    decreases args.len(),
{
    if args.len() > 0 {
        let rest = args.drop_last();
        lemma_args(rest, x);
        crate::laws::lemma_contains_concat(
            crate::visit::items_of_args(rest),
            crate::visit::items_of_expr(args.last().expr),
            x,
        );
        assert(args[args.len() - 1] == args.last());
        if crate::visit::items_of_args(rest).contains(x) {
            let i = choose|i: int|
                0 <= i < rest.len() && crate::visit::items_of_expr(
                    (#[trigger] rest[i]).expr,
                ).contains(x);
            assert(crate::visit::items_of_expr(args[i].expr).contains(x));
        }
        if exists|i: int|
            0 <= i < args.len() && crate::visit::items_of_expr((#[trigger] args[i]).expr).contains(
                x,
            ) {
            let i = choose|i: int|
                0 <= i < args.len() && crate::visit::items_of_expr(
                    (#[trigger] args[i]).expr,
                ).contains(x);
            if i < rest.len() {
                assert(crate::visit::items_of_expr(rest[i].expr).contains(x));
            }
        }
    }
}

/// An element of an array holds an item.
pub open spec fn elem_holds(elem: Option<SpecArg>, x: SpecItem) -> bool {
    match elem {
        Some(arg) => crate::visit::items_of_expr(arg.expr).contains(x),
        None => false,
    }
}

proof fn lemma_elems(elems: Seq<Option<SpecArg>>, x: SpecItem)
    ensures
        crate::visit::items_of_elems(elems).contains(x) <==> exists|i: int|
            0 <= i < elems.len() && elem_holds(#[trigger] elems[i], x),
    decreases elems.len(),
{
    if elems.len() > 0 {
        let rest = elems.drop_last();
        lemma_elems(rest, x);
        crate::laws::lemma_contains_concat(
            crate::visit::items_of_elems(rest),
            crate::visit::items_of_elem(elems.last()),
            x,
        );
        reveal_with_fuel(crate::visit::items_of_elem, 2);
        assert(elems[elems.len() - 1] == elems.last());
        if crate::visit::items_of_elems(rest).contains(x) {
            let i = choose|i: int| 0 <= i < rest.len() && elem_holds(#[trigger] rest[i], x);
            assert(elem_holds(elems[i], x));
        }
        if exists|i: int| 0 <= i < elems.len() && elem_holds(#[trigger] elems[i], x) {
            let i = choose|i: int| 0 <= i < elems.len() && elem_holds(#[trigger] elems[i], x);
            if i < rest.len() {
                assert(elem_holds(rest[i], x));
            }
        }
    }
}

/// An entry of an object literal holds an item: in what it spreads, in a
/// computed key, in its value, or in the body of an accessor or a method.
pub open spec fn entry_holds(entry: SpecEntry, x: SpecItem) -> bool {
    match entry {
        SpecEntry::Spread { expr, .. } => crate::visit::items_of_expr(expr).contains(x),
        SpecEntry::Prop { prop, .. } => match prop {
            SpecProp::Shorthand(_) => false,
            SpecProp::KeyValue { key, value } => {
                ||| crate::visit::items_of_expr(value).contains(x)
                ||| match key {
                    SpecKey::Computed(e) => crate::visit::items_of_expr(*e).contains(x),
                    _ => false,
                }
            },
            SpecProp::Assign { value, .. } => crate::visit::items_of_expr(value).contains(x),
            SpecProp::Getter(ns) => crate::visit::items_of_nodes(ns).contains(x),
            SpecProp::Setter(ns) => crate::visit::items_of_nodes(ns).contains(x),
            SpecProp::Method(ns) => crate::visit::items_of_nodes(ns).contains(x),
        },
    }
}

proof fn lemma_entry(entry: SpecEntry, x: SpecItem)
    ensures
        crate::visit::items_of_entry(entry).contains(x) <==> entry_holds(entry, x),
{
    reveal_with_fuel(crate::visit::items_of_entry, 4);
    reveal_with_fuel(crate::visit::items_of_prop, 3);
    reveal_with_fuel(crate::visit::items_of_key, 3);
    match entry {
        SpecEntry::Prop { prop: SpecProp::KeyValue { key, value }, .. } => {
            crate::laws::lemma_contains_concat(
                crate::visit::items_of_key(key),
                crate::visit::items_of_expr(value),
                x,
            );
        },
        _ => {},
    }
}

proof fn lemma_props(props: Seq<SpecEntry>, x: SpecItem)
    ensures
        crate::visit::items_of_props(props).contains(x) <==> exists|i: int|
            0 <= i < props.len() && entry_holds(#[trigger] props[i], x),
    decreases props.len(),
{
    if props.len() > 0 {
        let rest = props.drop_last();
        lemma_props(rest, x);
        lemma_entry(props.last(), x);
        crate::laws::lemma_contains_concat(
            crate::visit::items_of_props(rest),
            crate::visit::items_of_entry(props.last()),
            x,
        );
        assert(props[props.len() - 1] == props.last());
        if crate::visit::items_of_props(rest).contains(x) {
            let i = choose|i: int| 0 <= i < rest.len() && entry_holds(#[trigger] rest[i], x);
            assert(entry_holds(props[i], x));
        }
        if exists|i: int| 0 <= i < props.len() && entry_holds(#[trigger] props[i], x) {
            let i = choose|i: int| 0 <= i < props.len() && entry_holds(#[trigger] props[i], x);
            if i < rest.len() {
                assert(entry_holds(rest[i], x));
            }
        }
    }
}

/// A declarator holds an item, in its pattern or in its initializer.
pub open spec fn declarator_holds(decl: SpecDeclarator, x: SpecItem) -> bool {
    ||| match decl.name {
        SpecPat::Ident { ann, .. } => crate::visit::items_of_nodes(ann).contains(x),
        SpecPat::Other(ns) => crate::visit::items_of_nodes(ns).contains(x),
    }
    ||| match decl.init {
        Some(e) => crate::visit::items_of_expr(e).contains(x),
        None => false,
    }
}

proof fn lemma_declarators(ds: Seq<SpecDeclarator>, x: SpecItem)
    ensures
        crate::visit::items_of_declarators(ds).contains(x) <==> exists|i: int|
            0 <= i < ds.len() && declarator_holds(#[trigger] ds[i], x),
    decreases ds.len(),
{
    if ds.len() > 0 {
        let rest = ds.drop_last();
        let last = ds.last();
        lemma_declarators(rest, x);
        assert(crate::visit::items_of_declarator(last).contains(x) <==> declarator_holds(last, x))
            by {
            reveal_with_fuel(crate::visit::items_of_declarator, 3);
            reveal_with_fuel(crate::visit::items_of_pat, 2);
            let init = match last.init {
                Some(e) => crate::visit::items_of_expr(e),
                None => Seq::empty(),
            };
            crate::laws::lemma_contains_concat(crate::visit::items_of_pat(last.name), init, x);
        }
        crate::laws::lemma_contains_concat(
            crate::visit::items_of_declarators(rest),
            crate::visit::items_of_declarator(last),
            x,
        );
        assert(ds[ds.len() - 1] == last);
        if crate::visit::items_of_declarators(rest).contains(x) {
            let i = choose|i: int| 0 <= i < rest.len() && declarator_holds(#[trigger] rest[i], x);
            assert(declarator_holds(ds[i], x));
        }
        if exists|i: int| 0 <= i < ds.len() && declarator_holds(#[trigger] ds[i], x) {
            let i = choose|i: int| 0 <= i < ds.len() && declarator_holds(#[trigger] ds[i], x);
            if i < rest.len() {
                assert(declarator_holds(rest[i], x));
            }
        }
    }
}

/// The items of a node: an import is one, a variable declaration is one and
/// holds those of its declarators, and an expression has its own.
pub proof fn law_items_of_nodes(node: SpecNode, x: SpecItem)
    ensures
        crate::visit::items_of_node(node).contains(x) <==> match node {
            SpecNode::Import(decl) => x == SpecItem::Import(decl),
            SpecNode::Var(decl) => x == SpecItem::Var(decl) || exists|i: int|
                0 <= i < decl.decls.len() && declarator_holds(#[trigger] decl.decls[i], x),
            SpecNode::Expr(e) => crate::visit::items_of_expr(e).contains(x),
        },
{
    reveal_with_fuel(crate::visit::items_of_node, 2);
    match node {
        SpecNode::Import(decl) => lemma_single(SpecItem::Import(decl), x),
        SpecNode::Var(decl) => {
            lemma_single(SpecItem::Var(decl), x);
            lemma_declarators(decl.decls, x);
            crate::laws::lemma_contains_concat(
                seq![SpecItem::Var(decl)],
                crate::visit::items_of_declarators(decl.decls),
                x,
            );
        },
        SpecNode::Expr(_) => {},
    }
}

/// The items of an expression: a call is one, and every expression holds those
/// of its parts, whatever its kind. Literals and names hold none.
pub proof fn law_items_of_expressions(e: SpecExpr, x: SpecItem)
    ensures
        crate::visit::items_of_expr(e).contains(x) <==> match e {
            SpecExpr::Lit(_) => false,
            SpecExpr::Ident(_) => false,
            SpecExpr::Arrow(ns) => crate::visit::items_of_nodes(ns).contains(x),
            SpecExpr::Fn(ns) => crate::visit::items_of_nodes(ns).contains(x),
            SpecExpr::Other(ns) => crate::visit::items_of_nodes(ns).contains(x),
            SpecExpr::Unary { arg, .. } => crate::visit::items_of_expr(*arg).contains(x),
            SpecExpr::Paren(inner) => crate::visit::items_of_expr(*inner).contains(x),
            SpecExpr::Tpl { exprs } => exists|i: int|
                0 <= i < exprs.len() && crate::visit::items_of_expr(#[trigger] exprs[i]).contains(
                    x,
                ),
            SpecExpr::Object(props) => exists|i: int|
                0 <= i < props.len() && entry_holds(#[trigger] props[i], x),
            SpecExpr::Array { elems } => exists|i: int|
                0 <= i < elems.len() && elem_holds(#[trigger] elems[i], x),
            SpecExpr::Member { obj, prop } => crate::visit::items_of_expr(*obj).contains(x)
                || crate::visit::items_of_nodes(prop).contains(x),
            SpecExpr::Call(call) => {
                ||| x == SpecItem::Call(call)
                ||| match call.callee {
                    SpecCallee::Expr(callee) => crate::visit::items_of_expr(*callee).contains(x),
                    _ => false,
                }
                ||| exists|i: int|
                    0 <= i < call.args.len() && crate::visit::items_of_expr(
                        (#[trigger] call.args[i]).expr,
                    ).contains(x)
                ||| crate::visit::items_of_nodes(call.type_args).contains(x)
            },
        },
{
    reveal_with_fuel(crate::visit::items_of_expr, 2);
    match e {
        SpecExpr::Tpl { exprs } => lemma_exprs(exprs, x),
        SpecExpr::Object(props) => lemma_props(props, x),
        SpecExpr::Array { elems } => lemma_elems(elems, x),
        SpecExpr::Member { obj, prop } => crate::laws::lemma_contains_concat(
            crate::visit::items_of_expr(*obj),
            crate::visit::items_of_nodes(prop),
            x,
        ),
        SpecExpr::Call(call) => {
            reveal_with_fuel(crate::visit::items_of_call, 3);
            reveal_with_fuel(crate::visit::items_of_callee, 2);
            let own = seq![SpecItem::Call(call)];
            let callee = crate::visit::items_of_callee(call.callee);
            let args = crate::visit::items_of_args(call.args);
            lemma_single(SpecItem::Call(call), x);
            lemma_args(call.args, x);
            crate::laws::lemma_contains_concat(own, callee, x);
            crate::laws::lemma_contains_concat(own + callee, args, x);
            crate::laws::lemma_contains_concat(
                own + callee + args,
                crate::visit::items_of_nodes(call.type_args),
                x,
            );
        },
        _ => {},
    }
}

/// A call comes before the calls inside it, and a declaration before what it
/// holds.
pub proof fn law_outer_items_come_first(e: SpecExpr, node: SpecNode)
    ensures
        e matches SpecExpr::Call(call) ==> crate::visit::items_of_expr(e).len() > 0
            && crate::visit::items_of_expr(e)[0] == SpecItem::Call(call),
        node matches SpecNode::Var(decl) ==> crate::visit::items_of_node(node).len() > 0
            && crate::visit::items_of_node(node)[0] == SpecItem::Var(decl),
{
    reveal_with_fuel(crate::visit::items_of_expr, 3);
    reveal_with_fuel(crate::visit::items_of_call, 3);
    reveal_with_fuel(crate::visit::items_of_node, 2);
}

/// The items of the substitutions of a template are found in the order in which they
/// are written.
pub proof fn law_substitutions_in_order(a: Seq<SpecExpr>, b: Seq<SpecExpr>)
    ensures
        crate::visit::items_of_exprs(a + b) == crate::visit::items_of_exprs(a)
            + crate::visit::items_of_exprs(b),
    decreases b.len(),
{
    let all = crate::visit::items_of_exprs(a) + crate::visit::items_of_exprs(b);
    if b.len() > 0 {
        law_substitutions_in_order(a, b.drop_last());
        assert((a + b).drop_last() =~= a + b.drop_last());
        assert((a + b).last() == b.last());
        assert(crate::visit::items_of_exprs(a + b) =~= all);
    } else {
        assert(a + b =~= a);
        assert(crate::visit::items_of_exprs(a + b) =~= all);
    }
}

/// The items of the entries of an object are found in the order in which they
/// are written.
pub proof fn law_entries_in_order(a: Seq<SpecEntry>, b: Seq<SpecEntry>)
    ensures
        crate::visit::items_of_props(a + b) == crate::visit::items_of_props(a)
            + crate::visit::items_of_props(b),
    decreases b.len(),
{
    let all = crate::visit::items_of_props(a) + crate::visit::items_of_props(b);
    if b.len() > 0 {
        law_entries_in_order(a, b.drop_last());
        assert((a + b).drop_last() =~= a + b.drop_last());
        assert((a + b).last() == b.last());
        assert(crate::visit::items_of_props(a + b) =~= all);
    } else {
        assert(a + b =~= a);
        assert(crate::visit::items_of_props(a + b) =~= all);
    }
}

/// The items of the arguments of a call are found in the order in which they
/// are written.
pub proof fn law_arguments_in_order(a: Seq<SpecArg>, b: Seq<SpecArg>)
    ensures
        crate::visit::items_of_args(a + b) == crate::visit::items_of_args(a)
            + crate::visit::items_of_args(b),
    decreases b.len(),
{
    let all = crate::visit::items_of_args(a) + crate::visit::items_of_args(b);
    if b.len() > 0 {
        law_arguments_in_order(a, b.drop_last());
        assert((a + b).drop_last() =~= a + b.drop_last());
        assert((a + b).last() == b.last());
        assert(crate::visit::items_of_args(a + b) =~= all);
    } else {
        assert(a + b =~= a);
        assert(crate::visit::items_of_args(a + b) =~= all);
    }
}

/// The items of the elements of an array are found in the order in which they
/// are written.
pub proof fn law_elements_in_order(a: Seq<Option<SpecArg>>, b: Seq<Option<SpecArg>>)
    ensures
        crate::visit::items_of_elems(a + b) == crate::visit::items_of_elems(a)
            + crate::visit::items_of_elems(b),
    decreases b.len(),
{
    let all = crate::visit::items_of_elems(a) + crate::visit::items_of_elems(b);
    if b.len() > 0 {
        law_elements_in_order(a, b.drop_last());
        assert((a + b).drop_last() =~= a + b.drop_last());
        assert((a + b).last() == b.last());
        assert(crate::visit::items_of_elems(a + b) =~= all);
    } else {
        assert(a + b =~= a);
        assert(crate::visit::items_of_elems(a + b) =~= all);
    }
}

/// The items of the declarators of a declaration are found in the order in which they
/// are written.
pub proof fn law_declarators_in_order(a: Seq<SpecDeclarator>, b: Seq<SpecDeclarator>)
    ensures
        crate::visit::items_of_declarators(a + b) == crate::visit::items_of_declarators(a)
            + crate::visit::items_of_declarators(b),
    decreases b.len(),
{
    let all = crate::visit::items_of_declarators(a) + crate::visit::items_of_declarators(b);
    if b.len() > 0 {
        law_declarators_in_order(a, b.drop_last());
        assert((a + b).drop_last() =~= a + b.drop_last());
        assert((a + b).last() == b.last());
        assert(crate::visit::items_of_declarators(a + b) =~= all);
    } else {
        assert(a + b =~= a);
        assert(crate::visit::items_of_declarators(a + b) =~= all);
    }
}

/// The parts of a call are walked in source order, callee, arguments and type
/// arguments; so are those of a member expression and of a prop.
pub proof fn law_parts_in_order(call: SpecCall, obj: SpecExpr, ns: Seq<SpecNode>, value: SpecExpr)
    ensures
        call.callee matches SpecCallee::Expr(callee) ==> crate::visit::items_of_expr(
            SpecExpr::Call(call),
        ) == seq![SpecItem::Call(call)] + crate::visit::items_of_expr(*callee)
            + crate::visit::items_of_args(call.args) + crate::visit::items_of_nodes(
            call.type_args,
        ),
        crate::visit::items_of_expr(SpecExpr::Member { obj: Box::new(obj), prop: ns })
            == crate::visit::items_of_expr(obj) + crate::visit::items_of_nodes(ns),
        crate::visit::items_of_prop(
            SpecProp::KeyValue { key: SpecKey::Computed(Box::new(obj)), value },
        ) == crate::visit::items_of_expr(obj) + crate::visit::items_of_expr(value),
{
    reveal_with_fuel(crate::visit::items_of_expr, 3);
    reveal_with_fuel(crate::visit::items_of_call, 3);
    reveal_with_fuel(crate::visit::items_of_callee, 2);
    reveal_with_fuel(crate::visit::items_of_prop, 3);
    reveal_with_fuel(crate::visit::items_of_key, 2);
}

} // verus!
