//! The rewriting of a whole program, call by call.
use crate::ast::{
    CallExpr, Callee, Expr, ExprOrSpread, Node, Pat, Program, Prop, PropName, PropOrSpread, Span,
    VarDeclarator,
};
use crate::catalog::{Catalog, SpecCatalog};
use crate::detect::{CallSiteDecision, Decision};
use crate::effect::unwrap_parens;
use crate::model::{
    SpecArg, SpecCall, SpecCallee, SpecDeclarator, SpecEntry, SpecExpr, SpecKey, SpecNode, SpecPat,
    SpecProp, SpecVar,
};
use crate::partition::{rewrite_object, stamp_call_site_key};
use crate::placement::are_placeable;
use crate::visit::{collect_items, Item, SpecItem};
use vstd::prelude::*;

verus! {

/// What is done to the props object of a call, at which argument.
#[derive(Debug, Clone, Copy, PartialEq, Eq, Structural)]
pub enum Action {
    Partition(usize),
    Stamp(usize),
}

/// The argument at which a decision asks for a props object to be partitioned
/// or, otherwise, to be given a key.
pub open spec fn asked_idx(decision: Decision, partition: bool) -> Option<usize> {
    match decision {
        Decision::Compilable { props_arg_idx } => if partition {
            Some(props_arg_idx)
        } else {
            None
        },
        Decision::KeyOnly { props_arg_idx } => if partition {
            None
        } else {
            Some(props_arg_idx)
        },
        Decision::Bail(_) => None,
    }
}

/// The argument at which the call at a span is to be partitioned or, otherwise,
/// to be given a key, by the last decision that says so.
pub open spec fn target(
    decisions: Seq<CallSiteDecision>,
    span: Span,
    partition: bool,
) -> Option<usize>
    decreases decisions.len(),
{
    if decisions.len() == 0 {
        None
    } else if decisions.last().span == span && asked_idx(
        decisions.last().decision,
        partition,
    ) is Some {
        asked_idx(decisions.last().decision, partition)
    } else {
        target(decisions.drop_last(), span, partition)
    }
}

/// What is done to the call at a span.
pub open spec fn action_at(decisions: Seq<CallSiteDecision>, span: Span) -> Option<Action> {
    match target(decisions, span, true) {
        Some(idx) => Some(Action::Partition(idx)),
        None => match target(decisions, span, false) {
            Some(idx) => Some(Action::Stamp(idx)),
            None => None,
        },
    }
}

/// What a program is rewritten by.
pub struct SpecRewriter {
    pub decisions: Seq<CallSiteDecision>,
    pub filename: Seq<char>,
    pub catalog: SpecCatalog,
}

/// An expression with the object literal inside its parentheses replaced.
pub open spec fn with_object(
    e: SpecExpr,
    partition: bool,
    span: Span,
    r: SpecRewriter,
) -> SpecExpr
    decreases e,
{
    match e {
        SpecExpr::Paren(inner) => SpecExpr::Paren(
            Box::new(with_object(*inner, partition, span, r)),
        ),
        SpecExpr::Object(props) => SpecExpr::Object(
            if partition {
                crate::partition::partitioned(props, r.filename, span, r.catalog)
            } else {
                crate::partition::stamped(props, r.filename, span)
            },
        ),
        _ => e,
    }
}

pub open spec fn with_arg(
    args: Seq<SpecArg>,
    idx: usize,
    partition: bool,
    span: Span,
    r: SpecRewriter,
) -> Seq<SpecArg> {
    if idx < args.len() {
        args.update(
            idx as int,
            SpecArg { expr: with_object(args[idx as int].expr, partition, span, r), ..args[idx as int] },
        )
    } else {
        args
    }
}

/// The arguments of the call at a span, after what is done to it.
pub open spec fn acted_args(args: Seq<SpecArg>, span: Span, r: SpecRewriter) -> Seq<SpecArg> {
    match action_at(r.decisions, span) {
        Some(Action::Partition(idx)) => with_arg(args, idx, true, span, r),
        Some(Action::Stamp(idx)) => with_arg(args, idx, false, span, r),
        None => args,
    }
}

/// A call whose props object, if it is to be partitioned, holds nothing that
/// cannot be placed.
pub open spec fn call_rewritable(call: SpecCall, decisions: Seq<CallSiteDecision>) -> bool {
    match action_at(decisions, call.span) {
        Some(Action::Partition(idx)) => idx < call.args.len() ==> (match crate::effect::unparen(
            call.args[idx as int].expr,
        ) {
            SpecExpr::Object(props) => crate::placement::all_placeable(props),
            _ => true,
        }),
        _ => true,
    }
}

pub open spec fn item_rewritable(item: SpecItem, decisions: Seq<CallSiteDecision>) -> bool {
    match item {
        SpecItem::Call(call) => call_rewritable(call, decisions),
        _ => true,
    }
}

/// The items that hold nothing which cannot be rewritten.
pub open spec fn rewritable_items(decisions: Seq<CallSiteDecision>) -> Set<SpecItem> {
    Set::new(|item: SpecItem| item_rewritable(item, decisions))
}

/// A program each of whose calls can be rewritten.
pub open spec fn rewritable(program: Seq<SpecNode>, decisions: Seq<CallSiteDecision>) -> bool {
    crate::visit::items_within(crate::visit::items_of_nodes(program), rewritable_items(decisions))
}

/// An expression with every call in it rewritten, those inside a call before
/// the call itself.
pub open spec fn new_expr(e: SpecExpr, r: SpecRewriter) -> SpecExpr
    decreases e,
{
    match e {
        SpecExpr::Lit(_) => e,
        SpecExpr::Ident(_) => e,
        SpecExpr::Arrow(ns) => SpecExpr::Arrow(new_nodes(ns, r)),
        SpecExpr::Fn(ns) => SpecExpr::Fn(new_nodes(ns, r)),
        SpecExpr::Unary { op, arg } => SpecExpr::Unary { op, arg: Box::new(new_expr(*arg, r)) },
        SpecExpr::Tpl { exprs } => SpecExpr::Tpl { exprs: new_exprs(exprs, r) },
        SpecExpr::Object(props) => SpecExpr::Object(new_props(props, r)),
        SpecExpr::Array { elems } => SpecExpr::Array { elems: new_elems(elems, r) },
        SpecExpr::Paren(inner) => SpecExpr::Paren(Box::new(new_expr(*inner, r))),
        SpecExpr::Call(call) => SpecExpr::Call(new_call(call, r)),
        SpecExpr::Member { obj, prop } => SpecExpr::Member {
            obj: Box::new(new_expr(*obj, r)),
            prop: new_nodes(prop, r),
        },
        SpecExpr::Other(ns) => SpecExpr::Other(new_nodes(ns, r)),
    }
}

pub open spec fn new_call(call: SpecCall, r: SpecRewriter) -> SpecCall
    decreases call,
{
    SpecCall {
        span: call.span,
        callee: new_callee(call.callee, r),
        args: acted_args(new_args(call.args, r), call.span, r),
        type_args: new_nodes(call.type_args, r),
    }
}

pub open spec fn new_callee(callee: SpecCallee, r: SpecRewriter) -> SpecCallee
    decreases callee,
{
    match callee {
        SpecCallee::Expr(e) => SpecCallee::Expr(Box::new(new_expr(*e, r))),
        _ => callee,
    }
}

pub open spec fn new_arg(arg: SpecArg, r: SpecRewriter) -> SpecArg
    decreases arg,
{
    SpecArg { spread: arg.spread, expr: new_expr(arg.expr, r) }
}

pub open spec fn new_elem(elem: Option<SpecArg>, r: SpecRewriter) -> Option<SpecArg>
    decreases elem,
{
    match elem {
        Some(arg) => Some(new_arg(arg, r)),
        None => None,
    }
}

pub open spec fn new_key(key: SpecKey, r: SpecRewriter) -> SpecKey
    decreases key,
{
    match key {
        SpecKey::Computed(e) => SpecKey::Computed(Box::new(new_expr(*e, r))),
        _ => key,
    }
}

pub open spec fn new_prop(prop: SpecProp, r: SpecRewriter) -> SpecProp
    decreases prop,
{
    match prop {
        SpecProp::Shorthand(_) => prop,
        SpecProp::KeyValue { key, value } => SpecProp::KeyValue {
            key: new_key(key, r),
            value: new_expr(value, r),
        },
        SpecProp::Assign { name, value } => SpecProp::Assign { name, value: new_expr(value, r) },
        SpecProp::Getter(ns) => SpecProp::Getter(new_nodes(ns, r)),
        SpecProp::Setter(ns) => SpecProp::Setter(new_nodes(ns, r)),
        SpecProp::Method(ns) => SpecProp::Method(new_nodes(ns, r)),
    }
}

pub open spec fn new_entry(entry: SpecEntry, r: SpecRewriter) -> SpecEntry
    decreases entry,
{
    match entry {
        SpecEntry::Spread { span, expr } => SpecEntry::Spread { span, expr: new_expr(expr, r) },
        SpecEntry::Prop { span, prop } => SpecEntry::Prop { span, prop: new_prop(prop, r) },
    }
}

pub open spec fn new_pat(pat: SpecPat, r: SpecRewriter) -> SpecPat
    decreases pat,
{
    match pat {
        SpecPat::Ident { id, ann } => SpecPat::Ident { id, ann: new_nodes(ann, r) },
        SpecPat::Other(ns) => SpecPat::Other(new_nodes(ns, r)),
    }
}

pub open spec fn new_declarator(decl: SpecDeclarator, r: SpecRewriter) -> SpecDeclarator
    decreases decl,
{
    SpecDeclarator {
        name: new_pat(decl.name, r),
        init: match decl.init {
            Some(e) => Some(new_expr(e, r)),
            None => None,
        },
    }
}

pub open spec fn new_node(node: SpecNode, r: SpecRewriter) -> SpecNode
    decreases node,
{
    match node {
        SpecNode::Import(_) => node,
        SpecNode::Var(decl) => SpecNode::Var(
            SpecVar { kind: decl.kind, decls: new_declarators(decl.decls, r) },
        ),
        SpecNode::Expr(e) => SpecNode::Expr(new_expr(e, r)),
    }
}

pub open spec fn new_nodes(list: Seq<SpecNode>, r: SpecRewriter) -> Seq<SpecNode>
    decreases list,
{
    Seq::new(
        list.len(),
        |i: int|
            if 0 <= i < list.len() {
                new_node(list[i], r)
            } else {
                arbitrary()
            },
    )
}

pub open spec fn new_exprs(list: Seq<SpecExpr>, r: SpecRewriter) -> Seq<SpecExpr>
    decreases list,
{
    Seq::new(
        list.len(),
        |i: int|
            if 0 <= i < list.len() {
                new_expr(list[i], r)
            } else {
                arbitrary()
            },
    )
}

pub open spec fn new_props(list: Seq<SpecEntry>, r: SpecRewriter) -> Seq<SpecEntry>
    decreases list,
{
    Seq::new(
        list.len(),
        |i: int|
            if 0 <= i < list.len() {
                new_entry(list[i], r)
            } else {
                arbitrary()
            },
    )
}

pub open spec fn new_args(list: Seq<SpecArg>, r: SpecRewriter) -> Seq<SpecArg>
    decreases list,
{
    Seq::new(
        list.len(),
        |i: int|
            if 0 <= i < list.len() {
                new_arg(list[i], r)
            } else {
                arbitrary()
            },
    )
}

pub open spec fn new_elems(list: Seq<Option<SpecArg>>, r: SpecRewriter) -> Seq<Option<SpecArg>>
    decreases list,
{
    Seq::new(
        list.len(),
        |i: int|
            if 0 <= i < list.len() {
                new_elem(list[i], r)
            } else {
                arbitrary()
            },
    )
}

pub open spec fn new_declarators(list: Seq<SpecDeclarator>, r: SpecRewriter) -> Seq<SpecDeclarator>
    decreases list,
{
    Seq::new(
        list.len(),
        |i: int|
            if 0 <= i < list.len() {
                new_declarator(list[i], r)
            } else {
                arbitrary()
            },
    )
}

/// Rewriting does not look through parentheses, and does not add or remove
/// any.
pub proof fn lemma_new_expr_unparen(e: SpecExpr, r: SpecRewriter)
    ensures
        crate::effect::unparen(new_expr(e, r)) == new_expr(crate::effect::unparen(e), r),
    decreases e,
{
    match e {
        SpecExpr::Paren(inner) => lemma_new_expr_unparen(*inner, r),
        _ => {},
    }
}

/// Rewriting keeps the keys of an object literal.
proof fn lemma_new_props_placeable(props: Seq<SpecEntry>, r: SpecRewriter)
    requires
        crate::placement::all_placeable(props),
    ensures
        crate::placement::all_placeable(new_props(props, r)),
{
    let new = new_props(props, r);
    assert forall|i: int| 0 <= i < new.len() implies crate::placement::placeable(
        #[trigger] new[i],
    ) by {
        assert(crate::placement::placeable(props[i]));
        reveal_with_fuel(new_entry, 3);
        assert(new[i] == new_entry(props[i], r));
    }
}

/// A call that can be rewritten still can be once its arguments have been.
proof fn lemma_call_still_rewritable(call: SpecCall, r: SpecRewriter)
    requires
        call_rewritable(call, r.decisions),
    ensures
        call_rewritable(SpecCall { args: new_args(call.args, r), ..call }, r.decisions),
{
    match action_at(r.decisions, call.span) {
        Some(Action::Partition(idx)) => {
            if idx < call.args.len() {
                let e = call.args[idx as int].expr;
                lemma_new_expr_unparen(e, r);
                assert(new_args(call.args, r)[idx as int] == new_arg(call.args[idx as int], r));
                match crate::effect::unparen(e) {
                    SpecExpr::Object(props) => lemma_new_props_placeable(props, r),
                    _ => {},
                }
            }
        },
        _ => {},
    }
}

/// What a program is rewritten by.
pub struct Rewriter<'a> {
    pub decisions: &'a Vec<CallSiteDecision>,
    pub filename: &'a str,
    pub catalog: &'a Catalog,
}

impl<'a> View for Rewriter<'a> {
    type V = SpecRewriter;

    open spec fn view(&self) -> SpecRewriter {
        SpecRewriter {
            decisions: self.decisions@,
            filename: self.filename@,
            catalog: self.catalog@,
        }
    }
}

impl<'a> Rewriter<'a> {
    /// What is done to the call at a span.
    pub fn action(&self, span: Span) -> (r: Option<Action>)
        ensures
            r == action_at(self.decisions@, span),
    {
        let ghost all = self.decisions@;
        let mut key_only: Option<usize> = None;
        let mut i: usize = self.decisions.len();
        assert(all.take(i as int) == all);
        while i > 0
            invariant
                i <= all.len(),
                all == self.decisions@,
                target(all, span, true) == target(all.take(i as int), span, true),
                key_only is Some ==> target(all, span, false) == key_only,
                key_only is None ==> target(all, span, false) == target(
                    all.take(i as int),
                    span,
                    false,
                ),
            decreases i,
        {
            assert(all.take(i as int).drop_last() == all.take(i - 1));
            assert(all.take(i as int).last() == all[i - 1]);
            i -= 1;
            let d = self.decisions[i];
            if d.span.lo == span.lo && d.span.hi == span.hi {
                match d.decision {
                    Decision::Compilable { props_arg_idx } => return Some(
                        Action::Partition(props_arg_idx),
                    ),
                    Decision::KeyOnly { props_arg_idx } => {
                        if key_only.is_none() {
                            key_only = Some(props_arg_idx);
                        }
                    },
                    Decision::Bail(_) => {},
                }
            }
        }
        match key_only {
            Some(idx) => Some(Action::Stamp(idx)),
            None => None,
        }
    }

    /// Whether a call can be rewritten.
    fn can_rewrite_call(&self, call: &CallExpr) -> (r: bool)
        ensures
            r == call_rewritable(call@, self.decisions@),
    {
        proof {
            reveal_with_fuel(crate::ast::call_view, 2);
        }
        match self.action(call.span) {
            Some(Action::Partition(idx)) => {
                if idx >= call.args.len() {
                    return true;
                }
                let arg = &call.args[idx];
                assert(call@.args[idx as int] == crate::ast::arg_view(*arg));
                proof {
                    reveal_with_fuel(crate::ast::arg_view, 2);
                    reveal_with_fuel(crate::ast::expr_view, 2);
                }
                match unwrap_parens(&arg.expr) {
                    Expr::Object(obj) => are_placeable(&obj.props),
                    _ => true,
                }
            },
            _ => true,
        }
    }

    /// Whether every call of a program can be rewritten. Where no two calls
    /// share a span, it always is so.
    pub fn can_rewrite(&self, program: &Program) -> (r: bool)
        ensures
            r == rewritable(program@, self.decisions@),
    {
        let items = collect_items(program);
        let ghost view = crate::visit::items_view(items@);
        let mut i: usize = 0;
        while i < items.len()
            invariant
                i <= items@.len(),
                view == crate::visit::items_view(items@),
                view == crate::visit::items_of_nodes(program@),
                forall|j: int|
                    0 <= j < i ==> rewritable_items(self.decisions@).contains(#[trigger] view[j]),
            decreases items.len() - i,
        {
            assert(view[i as int] == items@[i as int]@);
            let ok = match &items[i] {
                Item::Call(call) => self.can_rewrite_call(call),
                _ => true,
            };
            assert(ok == rewritable_items(self.decisions@).contains(view[i as int]));
            if !ok {
                assert(!crate::visit::items_within(view, rewritable_items(self.decisions@)));
                return false;
            }
            i += 1;
        }
        true
    }

    fn act_on_object(&self, e: &mut Expr, partition: bool, span: Span)
        requires
            partition ==> (match crate::effect::unparen(old(e)@) {
                SpecExpr::Object(props) => crate::placement::all_placeable(props),
                _ => true,
            }),
        ensures
            final(e)@ == with_object(old(e)@, partition, span, self@),
        decreases *old(e),
    {
        match e {
            Expr::Paren(inner) => self.act_on_object(&mut **inner, partition, span),
            Expr::Object(obj) => {
                if partition {
                    rewrite_object(obj, self.filename, span, self.catalog);
                } else {
                    stamp_call_site_key(obj, self.filename, span);
                }
            },
            _ => {},
        }
    }

    fn act_on_arg(&self, args: &mut Vec<ExprOrSpread>, idx: usize, partition: bool, span: Span)
        requires
            partition && idx < old(args)@.len() ==> (match crate::effect::unparen(
                old(args)@[idx as int].expr@,
            ) {
                SpecExpr::Object(props) => crate::placement::all_placeable(props),
                _ => true,
            }),
        ensures
            crate::ast::args_view(final(args)@) == with_arg(
                crate::ast::args_view(old(args)@),
                idx,
                partition,
                span,
                self@,
            ),
    {
        let ghost start = args@;
        if idx < args.len() {
            let arg = &mut args[idx];
            self.act_on_object(&mut arg.expr, partition, span);
        }
        assert(crate::ast::args_view(args@) =~= with_arg(
            crate::ast::args_view(start),
            idx,
            partition,
            span,
            self@,
        ));
    }

    /// Rewrites every call in an expression, those inside a call before the
    /// call itself.
    fn rewrite_expr(&self, e: &mut Expr)
        requires
            crate::visit::items_within(crate::visit::items_of_expr(old(e)@), rewritable_items(self.decisions@)),
        ensures
            final(e)@ == new_expr(old(e)@, self@),
        decreases *old(e),
    {
        let ghost start = e@;
        proof {
            reveal_with_fuel(crate::ast::expr_view, 2);
            reveal_with_fuel(new_expr, 2);
            reveal_with_fuel(crate::visit::items_of_expr, 2);
        }
        match e {
            Expr::Lit(_) => {},
            Expr::Ident(_) => {},
            Expr::Arrow(ns) => self.rewrite_nodes(ns),
            Expr::Fn(ns) => self.rewrite_nodes(ns),
            Expr::Unary { op: _, arg } => self.rewrite_expr(&mut **arg),
            Expr::Tpl { exprs } => self.rewrite_exprs(exprs),
            Expr::Object(obj) => self.rewrite_props(&mut obj.props),
            Expr::Array { elems } => self.rewrite_elems(elems),
            Expr::Paren(inner) => self.rewrite_expr(&mut **inner),
            Expr::Call(call) => self.visit_mut_call_expr(call),
            Expr::Member { obj, prop } => {
                proof {
                    crate::visit::lemma_within_parts(
                        crate::visit::items_of_expr(obj@),
                        crate::visit::items_of_nodes(crate::ast::nodes_view(prop@)),
                        rewritable_items(self.decisions@),
                    );
                }
                self.rewrite_expr(&mut **obj);
                self.rewrite_nodes(prop);
            },
            Expr::Other(ns) => self.rewrite_nodes(ns),
        }
    }

    fn visit_mut_call_expr(&self, call: &mut CallExpr)
        requires
            crate::visit::items_within(crate::visit::items_of_call(old(call)@), rewritable_items(self.decisions@)),
        ensures
            final(call)@ == new_call(old(call)@, self@),
        decreases *old(call),
    {
        let ghost start = call@;
        let ghost callee_items = crate::visit::items_of_callee(start.callee);
        let ghost args_items = crate::visit::items_of_args(start.args);
        let ghost type_items = crate::visit::items_of_nodes(start.type_args);
        proof {
            reveal_with_fuel(crate::ast::call_view, 2);
            reveal_with_fuel(crate::ast::callee_view, 2);
            reveal_with_fuel(new_call, 2);
            reveal_with_fuel(new_callee, 2);
            reveal_with_fuel(crate::visit::items_of_call, 2);
            reveal_with_fuel(crate::visit::items_of_callee, 2);
            let own = seq![SpecItem::Call(start)];
            crate::visit::lemma_within_parts(own + callee_items + args_items, type_items, rewritable_items(self.decisions@));
            crate::visit::lemma_within_parts(own + callee_items, args_items, rewritable_items(self.decisions@));
            crate::visit::lemma_within_parts(own, callee_items, rewritable_items(self.decisions@));
            assert(rewritable_items(self.decisions@).contains(own[0]));
            lemma_call_still_rewritable(start, self@);
        }
        match &mut call.callee {
            Callee::Expr(e) => self.rewrite_expr(&mut **e),
            _ => {},
        }
        self.rewrite_args(&mut call.args);
        self.rewrite_nodes(&mut call.type_args);
        let span = call.span;
        match self.action(span) {
            Some(Action::Partition(idx)) => {
                proof {
                    if idx < call.args@.len() {
                        assert(crate::ast::args_view(call.args@)[idx as int] == crate::ast::arg_view(
                            call.args@[idx as int],
                        ));
                    }
                }
                self.act_on_arg(&mut call.args, idx, true, span)
            },
            Some(Action::Stamp(idx)) => self.act_on_arg(&mut call.args, idx, false, span),
            None => {},
        }
    }

    fn rewrite_arg(&self, arg: &mut ExprOrSpread)
        requires
            crate::visit::items_within(
                crate::visit::items_of_expr(crate::ast::arg_view(*old(arg)).expr),
                rewritable_items(self.decisions@),
            ),
        ensures
            crate::ast::arg_view(*final(arg)) == new_arg(crate::ast::arg_view(*old(arg)), self@),
        decreases *old(arg),
    {
        self.rewrite_expr(&mut arg.expr);
    }

    fn rewrite_elem(&self, elem: &mut Option<ExprOrSpread>)
        requires
            crate::visit::items_within(
                crate::visit::items_of_elem(crate::ast::elem_view(*old(elem))),
                rewritable_items(self.decisions@),
            ),
        ensures
            crate::ast::elem_view(*final(elem)) == new_elem(
                crate::ast::elem_view(*old(elem)),
                self@,
            ),
        decreases *old(elem),
    {
        proof {
            reveal_with_fuel(crate::ast::elem_view, 2);
            reveal_with_fuel(new_elem, 2);
        }
        match elem {
            Some(arg) => self.rewrite_arg(arg),
            None => {},
        }
    }

    fn rewrite_key(&self, key: &mut PropName)
        requires
            crate::visit::items_within(crate::visit::items_of_key(old(key)@), rewritable_items(self.decisions@)),
        ensures
            final(key)@ == new_key(old(key)@, self@),
        decreases *old(key),
    {
        match key {
            PropName::Computed(e) => self.rewrite_expr(&mut **e),
            _ => {},
        }
    }

    fn rewrite_prop(&self, prop: &mut Prop)
        requires
            crate::visit::items_within(crate::visit::items_of_prop(old(prop)@), rewritable_items(self.decisions@)),
        ensures
            final(prop)@ == new_prop(old(prop)@, self@),
        decreases *old(prop),
    {
        proof {
            reveal_with_fuel(crate::ast::prop_view, 2);
            reveal_with_fuel(new_prop, 2);
            reveal_with_fuel(crate::visit::items_of_prop, 2);
        }
        match prop {
            Prop::Shorthand(_) => {},
            Prop::KeyValue { key, value } => {
                proof {
                    crate::visit::lemma_within_parts(
                        crate::visit::items_of_key(key@),
                        crate::visit::items_of_expr(value@),
                        rewritable_items(self.decisions@),
                    );
                }
                self.rewrite_key(key);
                self.rewrite_expr(value);
            },
            Prop::Assign { name: _, value } => self.rewrite_expr(value),
            Prop::Getter(ns) => self.rewrite_nodes(ns),
            Prop::Setter(ns) => self.rewrite_nodes(ns),
            Prop::Method(ns) => self.rewrite_nodes(ns),
        }
    }

    fn rewrite_entry(&self, entry: &mut PropOrSpread)
        requires
            crate::visit::items_within(crate::visit::items_of_entry(old(entry)@), rewritable_items(self.decisions@)),
        ensures
            final(entry)@ == new_entry(old(entry)@, self@),
        decreases *old(entry),
    {
        match entry {
            PropOrSpread::Spread { span: _, expr } => self.rewrite_expr(expr),
            PropOrSpread::Prop { span: _, prop } => self.rewrite_prop(prop),
        }
    }

    fn rewrite_declarator(&self, decl: &mut VarDeclarator)
        requires
            crate::visit::items_within(crate::visit::items_of_declarator(old(decl)@), rewritable_items(self.decisions@)),
        ensures
            final(decl)@ == new_declarator(old(decl)@, self@),
        decreases *old(decl),
    {
        let ghost start = decl@;
        proof {
            reveal_with_fuel(crate::ast::declarator_view, 2);
            reveal_with_fuel(crate::ast::pat_view, 2);
            reveal_with_fuel(new_declarator, 2);
            reveal_with_fuel(new_pat, 2);
            reveal_with_fuel(crate::visit::items_of_declarator, 2);
            reveal_with_fuel(crate::visit::items_of_pat, 2);
            crate::visit::lemma_within_parts(
                crate::visit::items_of_pat(start.name),
                match start.init {
                    Some(e) => crate::visit::items_of_expr(e),
                    None => Seq::empty(),
                },
                rewritable_items(self.decisions@),
            );
        }
        match &mut decl.name {
            Pat::Ident { id: _, ann } => self.rewrite_nodes(ann),
            Pat::Other(ns) => self.rewrite_nodes(ns),
        }
        match &mut decl.init {
            Some(e) => self.rewrite_expr(e),
            None => {},
        }
    }

    fn rewrite_node(&self, node: &mut Node)
        requires
            crate::visit::items_within(crate::visit::items_of_node(old(node)@), rewritable_items(self.decisions@)),
        ensures
            final(node)@ == new_node(old(node)@, self@),
        decreases *old(node),
    {
        proof {
            reveal_with_fuel(crate::ast::node_view, 2);
            reveal_with_fuel(crate::ast::var_view, 2);
            reveal_with_fuel(new_node, 2);
            reveal_with_fuel(crate::visit::items_of_node, 2);
        }
        match node {
            Node::Import(_) => {},
            Node::Var(decl) => {
                proof {
                    crate::visit::lemma_within_parts(
                        seq![SpecItem::Var(decl@)],
                        crate::visit::items_of_declarators(
                            crate::ast::declarators_view(decl.decls@),
                        ),
                        rewritable_items(self.decisions@),
                    );
                }
                self.rewrite_declarators(&mut decl.decls);
            },
            Node::Expr(e) => self.rewrite_expr(e),
        }
    }

    /// Rewrites every call in a list of nodes.
    pub fn rewrite_nodes(&self, list: &mut Vec<Node>)
        requires
            crate::visit::items_within(
                crate::visit::items_of_nodes(crate::ast::nodes_view(old(list)@)),
                rewritable_items(self.decisions@),
            ),
        ensures
            crate::ast::nodes_view(final(list)@) == new_nodes(
                crate::ast::nodes_view(old(list)@),
                self@,
            ),
        decreases *old(list),
    {
        let ghost start = list@;
        let ghost view = crate::ast::nodes_view(start);
        let mut i: usize = 0;
        while i < list.len()
            invariant
                i <= list@.len(),
                list@.len() == start.len(),
                start == old(list)@,
                view == crate::ast::nodes_view(start),
                crate::visit::items_within(crate::visit::items_of_nodes(view), rewritable_items(self.decisions@)),
                forall|j: int|
                    0 <= j < i ==> crate::ast::node_view(#[trigger] list@[j]) == new_node(
                        view[j],
                        self@,
                    ),
                forall|j: int| i <= j < list@.len() ==> #[trigger] list@[j] == start[j],
            decreases list.len() - i,
        {
            assert(view[i as int] == crate::ast::node_view(list@[i as int]));
            proof {
                crate::visit::lemma_within_nodes(view, i as int, rewritable_items(self.decisions@));
            }
            self.rewrite_node(&mut list[i]);
            i += 1;
        }
        assert(crate::ast::nodes_view(list@) =~= new_nodes(view, self@));
    }

    fn rewrite_exprs(&self, list: &mut Vec<Expr>)
        requires
            crate::visit::items_within(
                crate::visit::items_of_exprs(crate::ast::exprs_view(old(list)@)),
                rewritable_items(self.decisions@),
            ),
        ensures
            crate::ast::exprs_view(final(list)@) == new_exprs(
                crate::ast::exprs_view(old(list)@),
                self@,
            ),
        decreases *old(list),
    {
        let ghost start = list@;
        let ghost view = crate::ast::exprs_view(start);
        let mut i: usize = 0;
        while i < list.len()
            invariant
                i <= list@.len(),
                list@.len() == start.len(),
                start == old(list)@,
                view == crate::ast::exprs_view(start),
                crate::visit::items_within(crate::visit::items_of_exprs(view), rewritable_items(self.decisions@)),
                forall|j: int|
                    0 <= j < i ==> crate::ast::expr_view(#[trigger] list@[j]) == new_expr(
                        view[j],
                        self@,
                    ),
                forall|j: int| i <= j < list@.len() ==> #[trigger] list@[j] == start[j],
            decreases list.len() - i,
        {
            assert(view[i as int] == crate::ast::expr_view(list@[i as int]));
            proof {
                crate::visit::lemma_within_exprs(view, i as int, rewritable_items(self.decisions@));
            }
            self.rewrite_expr(&mut list[i]);
            i += 1;
        }
        assert(crate::ast::exprs_view(list@) =~= new_exprs(view, self@));
    }

    fn rewrite_props(&self, list: &mut Vec<PropOrSpread>)
        requires
            crate::visit::items_within(
                crate::visit::items_of_props(crate::ast::props_view(old(list)@)),
                rewritable_items(self.decisions@),
            ),
        ensures
            crate::ast::props_view(final(list)@) == new_props(
                crate::ast::props_view(old(list)@),
                self@,
            ),
        decreases *old(list),
    {
        let ghost start = list@;
        let ghost view = crate::ast::props_view(start);
        let mut i: usize = 0;
        while i < list.len()
            invariant
                i <= list@.len(),
                list@.len() == start.len(),
                start == old(list)@,
                view == crate::ast::props_view(start),
                crate::visit::items_within(crate::visit::items_of_props(view), rewritable_items(self.decisions@)),
                forall|j: int|
                    0 <= j < i ==> crate::ast::entry_view(#[trigger] list@[j]) == new_entry(
                        view[j],
                        self@,
                    ),
                forall|j: int| i <= j < list@.len() ==> #[trigger] list@[j] == start[j],
            decreases list.len() - i,
        {
            assert(view[i as int] == crate::ast::entry_view(list@[i as int]));
            proof {
                crate::visit::lemma_within_props(view, i as int, rewritable_items(self.decisions@));
            }
            self.rewrite_entry(&mut list[i]);
            i += 1;
        }
        assert(crate::ast::props_view(list@) =~= new_props(view, self@));
    }

    fn rewrite_args(&self, list: &mut Vec<ExprOrSpread>)
        requires
            crate::visit::items_within(
                crate::visit::items_of_args(crate::ast::args_view(old(list)@)),
                rewritable_items(self.decisions@),
            ),
        ensures
            crate::ast::args_view(final(list)@) == new_args(
                crate::ast::args_view(old(list)@),
                self@,
            ),
        decreases *old(list),
    {
        let ghost start = list@;
        let ghost view = crate::ast::args_view(start);
        let mut i: usize = 0;
        while i < list.len()
            invariant
                i <= list@.len(),
                list@.len() == start.len(),
                start == old(list)@,
                view == crate::ast::args_view(start),
                crate::visit::items_within(crate::visit::items_of_args(view), rewritable_items(self.decisions@)),
                forall|j: int|
                    0 <= j < i ==> crate::ast::arg_view(#[trigger] list@[j]) == new_arg(
                        view[j],
                        self@,
                    ),
                forall|j: int| i <= j < list@.len() ==> #[trigger] list@[j] == start[j],
            decreases list.len() - i,
        {
            assert(view[i as int] == crate::ast::arg_view(list@[i as int]));
            proof {
                crate::visit::lemma_within_args(view, i as int, rewritable_items(self.decisions@));
            }
            self.rewrite_arg(&mut list[i]);
            i += 1;
        }
        assert(crate::ast::args_view(list@) =~= new_args(view, self@));
    }

    fn rewrite_elems(&self, list: &mut Vec<Option<ExprOrSpread>>)
        requires
            crate::visit::items_within(
                crate::visit::items_of_elems(crate::ast::elems_view(old(list)@)),
                rewritable_items(self.decisions@),
            ),
        ensures
            crate::ast::elems_view(final(list)@) == new_elems(
                crate::ast::elems_view(old(list)@),
                self@,
            ),
        decreases *old(list),
    {
        let ghost start = list@;
        let ghost view = crate::ast::elems_view(start);
        let mut i: usize = 0;
        while i < list.len()
            invariant
                i <= list@.len(),
                list@.len() == start.len(),
                start == old(list)@,
                view == crate::ast::elems_view(start),
                crate::visit::items_within(crate::visit::items_of_elems(view), rewritable_items(self.decisions@)),
                forall|j: int|
                    0 <= j < i ==> crate::ast::elem_view(#[trigger] list@[j]) == new_elem(
                        view[j],
                        self@,
                    ),
                forall|j: int| i <= j < list@.len() ==> #[trigger] list@[j] == start[j],
            decreases list.len() - i,
        {
            assert(view[i as int] == crate::ast::elem_view(list@[i as int]));
            proof {
                crate::visit::lemma_within_elems(view, i as int, rewritable_items(self.decisions@));
            }
            self.rewrite_elem(&mut list[i]);
            i += 1;
        }
        assert(crate::ast::elems_view(list@) =~= new_elems(view, self@));
    }

    fn rewrite_declarators(&self, list: &mut Vec<VarDeclarator>)
        requires
            crate::visit::items_within(
                crate::visit::items_of_declarators(crate::ast::declarators_view(old(list)@)),
                rewritable_items(self.decisions@),
            ),
        ensures
            crate::ast::declarators_view(final(list)@) == new_declarators(
                crate::ast::declarators_view(old(list)@),
                self@,
            ),
        decreases *old(list),
    {
        let ghost start = list@;
        let ghost view = crate::ast::declarators_view(start);
        let mut i: usize = 0;
        while i < list.len()
            invariant
                i <= list@.len(),
                list@.len() == start.len(),
                start == old(list)@,
                view == crate::ast::declarators_view(start),
                crate::visit::items_within(crate::visit::items_of_declarators(view), rewritable_items(self.decisions@)),
                forall|j: int|
                    0 <= j < i ==> crate::ast::declarator_view(#[trigger] list@[j]) == new_declarator(
                        view[j],
                        self@,
                    ),
                forall|j: int| i <= j < list@.len() ==> #[trigger] list@[j] == start[j],
            decreases list.len() - i,
        {
            assert(view[i as int] == crate::ast::declarator_view(list@[i as int]));
            proof {
                crate::visit::lemma_within_declarators(view, i as int, rewritable_items(self.decisions@));
            }
            self.rewrite_declarator(&mut list[i]);
            i += 1;
        }
        assert(crate::ast::declarators_view(list@) =~= new_declarators(view, self@));
    }
}

} // verus!
