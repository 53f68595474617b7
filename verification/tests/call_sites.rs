use meonode_compiler::ast::{
    CallExpr, Callee, ExportName, Expr, ExprOrSpread, Ident, ImportDecl, ImportSpecifier, Lit,
    Node, ObjectLit, Pat, Program, Prop, PropName, PropOrSpread, Span, StrLit, Text, UnaryOp,
    VarDecl, VarDeclarator, VarKind,
};
use meonode_compiler::catalog::{Catalog, Factory};
use meonode_compiler::config::CompileConfig;
use meonode_compiler::detect::transform_program as detect_transform;
use meonode_compiler::detect::{detect, detect_with_config, Decision};
use meonode_compiler::effect::{
    is_effect_free, is_inline_function, is_order_inert, is_static_literal, unwrap_parens,
};
use meonode_compiler::partition::{
    rewrite_object, stamp_call_site_key, transform_program, try_transform_program,
};
use meonode_compiler::plugin::{process_transform, try_process_transform};
use meonode_compiler::rewrite::{Action, Rewriter};
use meonode_compiler::site_key::call_site_key;
use meonode_compiler::validate::BailReason;
use meonode_compiler::visit::{collect_items, Item};
use swc_core::common::sync::Lrc;
use swc_core::common::{FileName, Globals, Mark, SourceMap, Spanned, GLOBALS};
use swc_core::ecma::ast as js;
use swc_core::ecma::parser::lexer::Lexer;
use swc_core::ecma::parser::{EsSyntax, Parser, StringInput, Syntax};
use swc_core::ecma::transforms::base::resolver;
use swc_core::ecma::visit::{Visit, VisitMutWith, VisitWith};

// --- From the parser's syntax tree to the library's ---

/// The nodes inside a piece of syntax.
struct Nodes {
    out: Vec<Node>,
}

impl Visit for Nodes {
    fn visit_import_decl(&mut self, decl: &js::ImportDecl) {
        self.out.push(Node::Import(import(decl)));
    }

    fn visit_var_decl(&mut self, decl: &js::VarDecl) {
        self.out.push(Node::Var(var_decl(decl)));
    }

    fn visit_expr(&mut self, e: &js::Expr) {
        self.out.push(Node::Expr(expr(e)));
    }
}

fn nodes<T: VisitWith<Nodes>>(syntax: &T) -> Vec<Node> {
    let mut found = Nodes { out: Vec::new() };
    syntax.visit_children_with(&mut found);
    found.out
}

fn span(s: swc_core::common::Span) -> Span {
    Span { lo: s.lo.0, hi: s.hi.0 }
}

fn ident(id: &js::Ident) -> Ident {
    Ident { sym: id.sym.to_string(), ctxt: id.ctxt.as_u32() }
}

fn text(s: &js::Str) -> Text {
    match s.value.as_str() {
        Some(value) => Text::Unicode(value.to_string()),
        None => Text::Surrogates(s.value.as_wtf8().as_bytes().to_vec()),
    }
}

fn str_lit(s: &js::Str) -> StrLit {
    StrLit { value: text(s), raw: s.raw.as_ref().map(|raw| raw.to_string()) }
}

fn lit(l: &js::Lit) -> Lit {
    match l {
        js::Lit::Str(s) => Lit::Str(str_lit(s)),
        js::Lit::Bool(b) => Lit::Bool(b.value),
        js::Lit::Null(_) => Lit::Null,
        js::Lit::Num(n) => Lit::Num(n.value.to_string()),
        js::Lit::BigInt(n) => Lit::BigInt(n.value.to_string()),
        js::Lit::Regex(r) => Lit::Regex { exp: r.exp.to_string(), flags: r.flags.to_string() },
        js::Lit::JSXText(t) => Lit::JsxText(t.value.to_string()),
    }
}

fn unary_op(op: js::UnaryOp) -> UnaryOp {
    match op {
        js::UnaryOp::Minus => UnaryOp::Minus,
        js::UnaryOp::Plus => UnaryOp::Plus,
        js::UnaryOp::Bang => UnaryOp::Bang,
        js::UnaryOp::Tilde => UnaryOp::Tilde,
        js::UnaryOp::TypeOf => UnaryOp::TypeOf,
        js::UnaryOp::Void => UnaryOp::Void,
        js::UnaryOp::Delete => UnaryOp::Delete,
    }
}

fn arg(a: &js::ExprOrSpread) -> ExprOrSpread {
    ExprOrSpread { spread: a.spread.is_some(), expr: expr(&a.expr) }
}

fn expr(e: &js::Expr) -> Expr {
    match e {
        js::Expr::Lit(l) => Expr::Lit(lit(l)),
        js::Expr::Ident(id) => Expr::Ident(ident(id)),
        js::Expr::Arrow(f) => Expr::Arrow(nodes(f)),
        js::Expr::Fn(f) => Expr::Fn(nodes(f)),
        js::Expr::Unary(u) => Expr::Unary { op: unary_op(u.op), arg: Box::new(expr(&u.arg)) },
        js::Expr::Tpl(t) => Expr::Tpl { exprs: t.exprs.iter().map(|e| expr(e)).collect() },
        js::Expr::Object(o) => Expr::Object(object(o)),
        js::Expr::Array(a) => {
            Expr::Array { elems: a.elems.iter().map(|e| e.as_ref().map(arg)).collect() }
        }
        js::Expr::Paren(p) => Expr::Paren(Box::new(expr(&p.expr))),
        js::Expr::Call(c) => Expr::Call(call(c)),
        js::Expr::Member(m) => {
            Expr::Member { obj: Box::new(expr(&m.obj)), prop: nodes(&m.prop) }
        }
        other => Expr::Other(nodes(other)),
    }
}

fn call(c: &js::CallExpr) -> CallExpr {
    CallExpr {
        span: span(c.span),
        callee: match &c.callee {
            js::Callee::Super(_) => Callee::Super,
            js::Callee::Import(_) => Callee::Import,
            js::Callee::Expr(e) => Callee::Expr(Box::new(expr(e))),
        },
        args: c.args.iter().map(arg).collect(),
        type_args: c.type_args.as_ref().map(|t| nodes(&**t)).unwrap_or_default(),
    }
}

fn object(o: &js::ObjectLit) -> ObjectLit {
    ObjectLit { props: o.props.iter().map(entry).collect() }
}

fn entry(p: &js::PropOrSpread) -> PropOrSpread {
    match p {
        js::PropOrSpread::Spread(s) => {
            PropOrSpread::Spread { span: span(s.span()), expr: expr(&s.expr) }
        }
        js::PropOrSpread::Prop(p) => PropOrSpread::Prop { span: span(p.span()), prop: prop(p) },
    }
}

fn prop(p: &js::Prop) -> Prop {
    match p {
        js::Prop::Shorthand(id) => Prop::Shorthand(ident(id)),
        js::Prop::KeyValue(kv) => {
            Prop::KeyValue { key: prop_name(&kv.key), value: expr(&kv.value) }
        }
        js::Prop::Assign(a) => Prop::Assign { name: ident(&a.key), value: expr(&a.value) },
        js::Prop::Getter(g) => Prop::Getter(nodes(g)),
        js::Prop::Setter(s) => Prop::Setter(nodes(s)),
        js::Prop::Method(m) => Prop::Method(nodes(m)),
    }
}

fn prop_name(key: &js::PropName) -> PropName {
    match key {
        js::PropName::Ident(id) => PropName::Ident(id.sym.to_string()),
        js::PropName::Str(s) => PropName::Str(str_lit(s)),
        js::PropName::Num(n) => PropName::Num(n.value.to_string()),
        js::PropName::BigInt(n) => PropName::BigInt(n.value.to_string()),
        js::PropName::Computed(c) => PropName::Computed(Box::new(expr(&c.expr))),
    }
}

fn import(decl: &js::ImportDecl) -> ImportDecl {
    let specifiers = decl.specifiers.iter().map(|spec| match spec {
        js::ImportSpecifier::Named(named) => ImportSpecifier::Named {
            local: ident(&named.local),
            imported: named.imported.as_ref().map(|name| match name {
                js::ModuleExportName::Ident(id) => ExportName::Ident(id.sym.to_string()),
                js::ModuleExportName::Str(s) => ExportName::Str(text(s)),
            }),
            type_only: named.is_type_only,
        },
        js::ImportSpecifier::Namespace(ns) => {
            ImportSpecifier::Namespace { local: ident(&ns.local) }
        }
        js::ImportSpecifier::Default(d) => ImportSpecifier::Default { local: ident(&d.local) },
    });
    ImportDecl {
        src: text(&decl.src),
        type_only: decl.type_only,
        specifiers: specifiers.collect(),
    }
}

fn var_decl(decl: &js::VarDecl) -> VarDecl {
    let decls = decl.decls.iter().map(|d| VarDeclarator {
        name: match &d.name {
            js::Pat::Ident(binding) => Pat::Ident {
                id: ident(&binding.id),
                ann: binding.type_ann.as_ref().map(|ann| nodes(&**ann)).unwrap_or_default(),
            },
            other => Pat::Other(nodes(other)),
        },
        init: d.init.as_ref().map(|e| expr(e)),
    });
    VarDecl {
        kind: match decl.kind {
            js::VarDeclKind::Var => VarKind::Var,
            js::VarDeclKind::Let => VarKind::Let,
            js::VarDeclKind::Const => VarKind::Const,
        },
        decls: decls.collect(),
    }
}

/// Parses `src`, runs the resolver, and hands the program over.
fn parse(src: &str) -> Program {
    GLOBALS.set(&Globals::new(), || {
        let cm: Lrc<SourceMap> = Default::default();
        let fm = cm.new_source_file(Lrc::new(FileName::Anon), src.to_string());
        let lexer = Lexer::new(
            Syntax::Es(EsSyntax::default()),
            js::EsVersion::EsNext,
            StringInput::from(&*fm),
            None,
        );
        let mut parser = Parser::new_from(lexer);
        let mut program = parser
            .parse_program()
            .unwrap_or_else(|e| panic!("failed to parse test snippet: {e:?}\n---\n{src}"));
        program.visit_mut_with(&mut resolver(Mark::new(), Mark::new(), false));
        Program { body: nodes(&program) }
    })
}

fn parse_expr(src: &str) -> Expr {
    let cm: Lrc<SourceMap> = Default::default();
    let fm = cm.new_source_file(Lrc::new(FileName::Anon), src.to_string());
    let lexer = Lexer::new(
        Syntax::Es(EsSyntax::default()),
        js::EsVersion::EsNext,
        StringInput::from(&*fm),
        None,
    );
    let mut parser = Parser::new_from(lexer);
    let parsed = parser
        .parse_expr()
        .unwrap_or_else(|e| panic!("failed to parse expr: {e:?}\n---\n{src}"));
    expr(&parsed)
}

/// A part of the UI library's tables.
fn catalog() -> Catalog {
    let css_props = [
        "padding", "margin", "width", "height", "color", "backgroundColor", "border", "display",
        "all",
    ];
    let factories = [("Div", false), ("Span", true), ("P", true), ("Input", false)];
    Catalog {
        css_props: css_props.iter().map(|name| name.to_string()).collect(),
        factories: factories
            .iter()
            .map(|(name, children_first)| Factory {
                name: name.to_string(),
                children_first: *children_first,
            })
            .collect(),
    }
}

// --- Effect classes ---

fn effect_free(src: &str) -> bool {
    is_effect_free(&parse_expr(src))
}

fn static_literal(src: &str) -> bool {
    is_static_literal(&parse_expr(src))
}

fn order_inert(src: &str) -> bool {
    is_order_inert(&parse_expr(src))
}

// --- is_effect_free: accepted ---

#[test]
fn string_literal_is_effect_free() {
    assert!(effect_free(r#""hello""#));
}

#[test]
fn number_literal_is_effect_free() {
    assert!(effect_free("42"));
}

#[test]
fn bool_literal_is_effect_free() {
    assert!(effect_free("true"));
}

#[test]
fn null_literal_is_effect_free() {
    assert!(effect_free("null"));
}

#[test]
fn bigint_literal_is_effect_free() {
    assert!(effect_free("10n"));
}

#[test]
fn regex_literal_is_effect_free() {
    assert!(effect_free("/abc/g"));
}

#[test]
fn identifier_is_effect_free() {
    assert!(effect_free("width"));
}

#[test]
fn undefined_identifier_is_effect_free() {
    assert!(effect_free("undefined"));
}

#[test]
fn arrow_expr_is_effect_free() {
    assert!(effect_free("() => 1"));
}

#[test]
fn fn_expr_is_effect_free() {
    assert!(effect_free("function () {}"));
}

#[test]
fn negated_numeric_literal_is_effect_free() {
    assert!(effect_free("-1"));
    assert!(effect_free("+1"));
}

#[test]
fn template_without_substitutions_is_effect_free() {
    assert!(effect_free("`plain`"));
}

#[test]
fn nested_object_literal_is_effect_free() {
    assert!(effect_free("({ a: 1, b: { c: 2 } })"));
}

#[test]
fn nested_array_literal_is_effect_free() {
    assert!(effect_free("[1, 2, [3, 4]]"));
}

#[test]
fn array_with_elision_is_effect_free() {
    assert!(effect_free("[1, , 3]"));
}

// --- is_effect_free: rejected ---

#[test]
fn call_expr_is_effectful() {
    assert!(!effect_free("f()"));
}

#[test]
fn member_expr_is_effectful() {
    assert!(!effect_free("a.b"));
}

#[test]
fn template_with_substitution_is_effectful() {
    assert!(!effect_free("`${x}`"));
}

#[test]
fn await_expr_is_effectful() {
    // `await x` is only valid syntax inside an async function; pull the
    // `await` out of an async arrow body rather than asserting on the
    // enclosing (trivially-effectful, being a call) IIFE.
    let iife = parse_expr("(async () => await x)()");
    let Expr::Call(call) = &iife else {
        panic!("expected a call expression");
    };
    let Callee::Expr(callee) = &call.callee else {
        panic!("expected a callee expression");
    };
    // The source parenthesizes the arrow (`(async () => ...)()`), so the
    // callee is a `Paren` around the `Arrow`, not the `Arrow` itself.
    let Expr::Arrow(body) = unwrap_parens(callee) else {
        panic!("expected an arrow callee, got {callee:?}");
    };
    let [Node::Expr(body)] = body.as_slice() else {
        panic!("expected an expression arrow body");
    };
    assert!(matches!(body, Expr::Other(_)));
    assert!(!is_effect_free(body));
}

#[test]
fn assignment_is_effectful() {
    assert!(!effect_free("(x = 1)"));
}

#[test]
fn new_expr_is_effectful() {
    assert!(!effect_free("new Foo()"));
}

#[test]
fn tagged_template_is_effectful() {
    assert!(!effect_free("tag`hi`"));
}

#[test]
fn conditional_is_effectful() {
    assert!(!effect_free("a ? 1 : 2"));
}

#[test]
fn spread_inside_nested_object_is_effectful() {
    assert!(!effect_free("({ a: { ...rest } })"));
}

#[test]
fn spread_inside_nested_array_is_effectful() {
    assert!(!effect_free("[1, ...rest]"));
}

#[test]
fn nested_object_with_call_value_is_effectful() {
    assert!(!effect_free("({ a: f() })"));
}

// --- is_static_literal ---

#[test]
fn string_is_static() {
    assert!(static_literal(r#""x""#));
}

#[test]
fn number_is_static() {
    assert!(static_literal("1"));
}

#[test]
fn negated_number_is_static() {
    assert!(static_literal("-1"));
}

#[test]
fn plain_template_is_static() {
    assert!(static_literal("`plain`"));
}

#[test]
fn identifier_is_dynamic() {
    assert!(!static_literal("width"));
}

#[test]
fn arrow_is_dynamic() {
    assert!(!static_literal("() => 1"));
}

#[test]
fn fn_expr_is_dynamic() {
    assert!(!static_literal("function () {}"));
}

#[test]
fn nested_object_is_dynamic() {
    assert!(!static_literal("({ a: 1 })"));
}

#[test]
fn nested_array_is_dynamic() {
    assert!(!static_literal("[1, 2]"));
}

// --- Detection under the strict rule ---

fn decisions_for(src: &str) -> Vec<Decision> {
    detect(&parse(src), &catalog()).into_iter().map(|d| d.decision).collect()
}

#[test]
fn named_import_div_is_compilable_at_arg_0() {
    let decisions = decisions_for(
        r#"
        import { Div } from '@meonode/ui';
        Div({ padding: 1 });
        "#,
    );
    assert_eq!(decisions, vec![Decision::Compilable { props_arg_idx: 0 }]);
}

#[test]
fn aliased_import_is_compilable() {
    let decisions = decisions_for(
        r#"
        import { Div as D } from '@meonode/ui';
        D({ padding: 1 });
        "#,
    );
    assert_eq!(decisions, vec![Decision::Compilable { props_arg_idx: 0 }]);
}

#[test]
fn children_first_factory_is_compilable_at_arg_1() {
    let decisions = decisions_for(
        r#"
        import { P } from '@meonode/ui';
        P('hello', { color: 'red' });
        "#,
    );
    assert_eq!(decisions, vec![Decision::Compilable { props_arg_idx: 1 }]);
}

#[test]
fn node_factory_is_compilable_at_arg_1() {
    let decisions = decisions_for(
        r#"
        import { Node } from '@meonode/ui';
        Node('div', { padding: 1 });
        "#,
    );
    assert_eq!(decisions, vec![Decision::Compilable { props_arg_idx: 1 }]);
}

#[test]
fn client_subpath_import_is_tracked() {
    let decisions = decisions_for(
        r#"
        import { Div } from '@meonode/ui/client';
        Div({ padding: 1 });
        "#,
    );
    assert_eq!(decisions, vec![Decision::Compilable { props_arg_idx: 0 }]);
}

#[test]
fn local_create_node_binding_is_compilable() {
    let decisions = decisions_for(
        r#"
        import { createNode } from '@meonode/ui';
        const Box = createNode('div');
        Box({ padding: 1 });
        "#,
    );
    // Two calls happen here: `createNode('div')` itself (not a
    // candidate — creators aren't callable candidates) and
    // `Box({...})` (compilable). Only one decision should be recorded.
    assert_eq!(decisions, vec![Decision::Compilable { props_arg_idx: 0 }]);
}

#[test]
fn local_create_children_first_node_binding_uses_arg_1() {
    let decisions = decisions_for(
        r#"
        import { createChildrenFirstNode } from '@meonode/ui';
        const Text = createChildrenFirstNode('p');
        Text('hi', { color: 'red' });
        "#,
    );
    assert_eq!(decisions, vec![Decision::Compilable { props_arg_idx: 1 }]);
}

#[test]
fn shadowed_import_bails() {
    let decisions = decisions_for(
        r#"
        import { Div } from '@meonode/ui';
        function f() {
          const Div = something();
          return Div({ padding: 1 });
        }
        "#,
    );
    assert_eq!(
        decisions,
        vec![Decision::Bail(BailReason::ShadowedOrUnbound)]
    );
}

#[test]
fn namespace_import_bails() {
    let decisions = decisions_for(
        r#"
        import * as M from '@meonode/ui';
        M.Div({ padding: 1 });
        "#,
    );
    assert_eq!(decisions, vec![Decision::Bail(BailReason::NamespaceImport)]);
}

#[test]
fn non_object_props_bails() {
    let decisions = decisions_for(
        r#"
        import { Div } from '@meonode/ui';
        const props = { padding: 1 };
        Div(props);
        "#,
    );
    assert_eq!(
        decisions,
        vec![Decision::Bail(BailReason::NotObjectLiteral)]
    );
}

#[test]
fn spread_in_props_bails() {
    let decisions = decisions_for(
        r#"
        import { Div } from '@meonode/ui';
        const rest = {};
        Div({ ...rest, padding: 1 });
        "#,
    );
    assert_eq!(decisions, vec![Decision::Bail(BailReason::SpreadProp)]);
}

#[test]
fn computed_key_bails() {
    let decisions = decisions_for(
        r#"
        import { Div } from '@meonode/ui';
        const key = 'padding';
        Div({ [key]: 1 });
        "#,
    );
    assert_eq!(decisions, vec![Decision::Bail(BailReason::ComputedKey)]);
}

#[test]
fn identifier_like_string_key_is_fine() {
    let decisions = decisions_for(
        r#"
        import { Div } from '@meonode/ui';
        Div({ "padding": 1 });
        "#,
    );
    assert_eq!(decisions, vec![Decision::Compilable { props_arg_idx: 0 }]);
}

#[test]
fn non_identifier_like_string_key_bails() {
    let decisions = decisions_for(
        r#"
        import { Div } from '@meonode/ui';
        Div({ "foo-bar": 1 });
        "#,
    );
    assert_eq!(
        decisions,
        vec![Decision::Bail(BailReason::NonIdentifierStringKey)]
    );
}

#[test]
fn numeric_key_bails() {
    let decisions = decisions_for(
        r#"
        import { Div } from '@meonode/ui';
        Div({ 0: 1 });
        "#,
    );
    assert_eq!(decisions, vec![Decision::Bail(BailReason::NumericKey)]);
}

#[test]
fn getter_setter_prop_bails() {
    let decisions = decisions_for(
        r#"
        import { Div } from '@meonode/ui';
        Div({ get padding() { return 1; } });
        "#,
    );
    assert_eq!(
        decisions,
        vec![Decision::Bail(BailReason::GetterSetterProp)]
    );
}

#[test]
fn method_shorthand_key_bails() {
    let decisions = decisions_for(
        r#"
        import { Div } from '@meonode/ui';
        Div({ onClick() {} });
        "#,
    );
    assert_eq!(decisions, vec![Decision::Bail(BailReason::MethodProp)]);
}

#[test]
fn function_value_prop_is_fine() {
    // A method *shorthand* bails, but a plain key/value pair whose
    // value happens to be a function expression is just a normal
    // (dynamic) prop — not a bail.
    let decisions = decisions_for(
        r#"
        import { Div } from '@meonode/ui';
        Div({ onClick: function () {} });
        "#,
    );
    assert_eq!(decisions, vec![Decision::Compilable { props_arg_idx: 0 }]);
}

#[test]
fn existing_marker_bails() {
    let decisions = decisions_for(
        r#"
        import { Div } from '@meonode/ui';
        Div({ __meo$: 1, padding: 1 });
        "#,
    );
    assert_eq!(decisions, vec![Decision::Bail(BailReason::ExistingMarker)]);
}

#[test]
fn missing_props_arg_bails() {
    let decisions = decisions_for(
        r#"
        import { Div } from '@meonode/ui';
        Div();
        "#,
    );
    assert_eq!(decisions, vec![Decision::Bail(BailReason::MissingPropsArg)]);
}

#[test]
fn spread_before_props_bails_for_children_first_factory() {
    // `stuff` spreads into the children-first argument position, so
    // whatever ends up at AST index 1 isn't provably the runtime props
    // argument — the real props object could land anywhere depending on
    // how many elements `stuff` spreads in.
    let decisions = decisions_for(
        r#"
        import { P } from '@meonode/ui';
        P(...stuff, { color: 'red' });
        "#,
    );
    assert_eq!(
        decisions,
        vec![Decision::Bail(BailReason::SpreadBeforeProps)]
    );
}

#[test]
fn spread_before_props_bails_for_node() {
    let decisions = decisions_for(
        r#"
        import { Node } from '@meonode/ui';
        Node(...els, { padding: 1 });
        "#,
    );
    assert_eq!(
        decisions,
        vec![Decision::Bail(BailReason::SpreadBeforeProps)]
    );
}

#[test]
fn spread_before_props_check_does_not_affect_html_factories() {
    // `props_arg_idx` is 0 for plain (non-children-first) HTML
    // factories, so there's no "before props" range to check at all —
    // make sure the check doesn't somehow reject a normal call.
    let decisions = decisions_for(
        r#"
        import { Div } from '@meonode/ui';
        Div({ padding: 1 });
        "#,
    );
    assert_eq!(decisions, vec![Decision::Compilable { props_arg_idx: 0 }]);
}

#[test]
fn effectful_call_value_bails() {
    let decisions = decisions_for(
        r#"
        import { Div } from '@meonode/ui';
        Div({ padding: 1, x: f() });
        "#,
    );
    assert_eq!(decisions, vec![Decision::Bail(BailReason::EffectfulValue)]);
}

#[test]
fn effectful_member_expr_value_bails() {
    let decisions = decisions_for(
        r#"
        import { Div } from '@meonode/ui';
        Div({ padding: 1, x: a.b });
        "#,
    );
    assert_eq!(decisions, vec![Decision::Bail(BailReason::EffectfulValue)]);
}

#[test]
fn effect_free_prop_values_are_fine() {
    let decisions = decisions_for(
        r#"
        import { Div } from '@meonode/ui';
        Div({ padding: '20px', width, onClick: () => {}, css: { color: 'red' }, children: ['a', 'b'] });
        "#,
    );
    assert_eq!(decisions, vec![Decision::Compilable { props_arg_idx: 0 }]);
}

#[test]
fn effectful_children_as_last_prop_is_fine() {
    let decisions = decisions_for(
        r#"
        import { Div, P } from '@meonode/ui';
        Div({ padding: '1px', onClick: h, children: [Div({ color: 'red' }), P('x', { color: 'blue' })] });
        "#,
    );
    // Both the outer call and the two nested factory calls used as
    // `children` are independently compilable.
    assert_eq!(
        decisions,
        vec![
            Decision::Compilable { props_arg_idx: 0 },
            Decision::Compilable { props_arg_idx: 0 },
            Decision::Compilable { props_arg_idx: 1 },
        ]
    );
}

#[test]
fn effectful_children_as_only_prop_is_fine() {
    let decisions = decisions_for(
        r#"
        import { Div } from '@meonode/ui';
        Div({ children: [f()] });
        "#,
    );
    assert_eq!(decisions, vec![Decision::Compilable { props_arg_idx: 0 }]);
}

#[test]
fn effectful_children_not_last_bails() {
    let decisions = decisions_for(
        r#"
        import { Div } from '@meonode/ui';
        Div({ children: [f()], padding: '1px' });
        "#,
    );
    assert_eq!(decisions, vec![Decision::Bail(BailReason::EffectfulValue)]);
}

#[test]
fn children_first_factory_arg0_is_unconstrained() {
    // `P`'s children arg (index 0) is a separate call argument, never
    // part of the props object — no effect-free constraint applies to
    // it at all, even though it's an arbitrary call expression here.
    let decisions = decisions_for(
        r#"
        import { P } from '@meonode/ui';
        P(someCall(), { color: 'red' });
        "#,
    );
    assert_eq!(decisions, vec![Decision::Compilable { props_arg_idx: 1 }]);
}

#[test]
fn unrelated_calls_are_ignored() {
    let decisions = decisions_for(
        r#"
        import { Div } from '@meonode/ui';
        console.log('hello');
        someOtherFunction({ padding: 1 });
        "#,
    );
    assert_eq!(decisions, vec![]);
}

// --- Partitioning ---

fn compiled(src: &str, filename: &str, config: &CompileConfig) -> Program {
    let mut program = parse(src);
    transform_program(&mut program, filename, config, &catalog());
    program
}

fn transformed(src: &str, filename: &str) -> Program {
    compiled(src, filename, &CompileConfig::default())
}

/// The object literal in the first argument of every call, outer calls first.
fn objects(program: &Program) -> Vec<&ObjectLit> {
    let mut found = Vec::new();
    for item in collect_items(program) {
        if let Item::Call(call) = item {
            if let Some(ExprOrSpread { expr: Expr::Object(obj), .. }) = call.args.first() {
                found.push(obj);
            }
        }
    }
    found
}

fn only_object(program: &Program) -> &ObjectLit {
    let objs = objects(program);
    assert_eq!(objs.len(), 1, "expected exactly one call with an object arg");
    objs[0]
}

fn find_prop<'a>(obj: &'a ObjectLit, name: &str) -> &'a Expr {
    obj.props
        .iter()
        .find_map(|p| match p {
            PropOrSpread::Prop {
                prop: Prop::KeyValue { key: PropName::Ident(id), value },
                ..
            } if id == name => Some(value),
            _ => None,
        })
        .unwrap_or_else(|| panic!("expected prop `{name}` to exist in {obj:#?}"))
}

fn has_prop(obj: &ObjectLit, name: &str) -> bool {
    obj.props.iter().any(|p| match p {
        PropOrSpread::Prop { prop: Prop::KeyValue { key: PropName::Ident(id), .. }, .. } => {
            id == name
        }
        PropOrSpread::Prop { prop: Prop::Shorthand(id), .. } => id.sym == name,
        _ => false,
    })
}

fn inner<'a>(obj: &'a ObjectLit, name: &str) -> &'a ObjectLit {
    let Expr::Object(inner) = find_prop(obj, name) else {
        panic!("expected `{name}` to be an object literal");
    };
    inner
}

fn str_lit_value(expr: &Expr) -> String {
    let Expr::Lit(Lit::Str(StrLit { value: Text::Unicode(value), .. })) = expr else {
        panic!("expected a string literal, got {expr:?}");
    };
    value.clone()
}

fn dyn_names(obj: &ObjectLit) -> Vec<String> {
    let Expr::Array { elems } = find_prop(obj, "__meo$dyn") else {
        panic!("expected `dyn` to be an array literal");
    };
    elems
        .iter()
        .map(|e| str_lit_value(&e.as_ref().expect("no elisions expected in dyn").expr))
        .collect()
}

fn show_key(key: &PropName) -> String {
    match key {
        PropName::Ident(id) => id.clone(),
        PropName::Str(s) => format!("'{}'", show_text(&s.value)),
        PropName::Num(n) | PropName::BigInt(n) => n.clone(),
        PropName::Computed(e) => format!("[{}]", show(e)),
    }
}

fn show_text(text: &Text) -> String {
    match text {
        Text::Unicode(value) => value.clone(),
        Text::Surrogates(_) => "?".to_string(),
    }
}

fn show_entry(entry: &PropOrSpread) -> String {
    match entry {
        PropOrSpread::Spread { expr, .. } => format!("...{}", show(expr)),
        PropOrSpread::Prop { prop, .. } => match prop {
            Prop::Shorthand(id) => id.sym.clone(),
            Prop::KeyValue { key, value } => format!("{}: {}", show_key(key), show(value)),
            Prop::Assign { name, value } => format!("{} = {}", name.sym, show(value)),
            Prop::Getter(_) => "get".to_string(),
            Prop::Setter(_) => "set".to_string(),
            Prop::Method(_) => "method".to_string(),
        },
    }
}

fn show_object(obj: &ObjectLit) -> String {
    let entries: Vec<String> = obj.props.iter().map(show_entry).collect();
    format!("{{{}}}", entries.join(", "))
}

fn show_args(args: &[ExprOrSpread]) -> String {
    let shown: Vec<String> = args
        .iter()
        .map(|a| format!("{}{}", if a.spread { "..." } else { "" }, show(&a.expr)))
        .collect();
    shown.join(", ")
}

/// An expression, as near to its source as the tree keeps it. Call-site keys
/// are shown as `k`.
fn show(e: &Expr) -> String {
    match e {
        Expr::Lit(Lit::Str(s)) => {
            let text = show_text(&s.value);
            if text.len() > 8 && text.starts_with('m') && s.raw.is_none() {
                "k".to_string()
            } else {
                format!("'{text}'")
            }
        }
        Expr::Lit(Lit::Num(n)) => n.clone(),
        Expr::Lit(l) => format!("{l:?}"),
        Expr::Ident(id) => id.sym.clone(),
        Expr::Arrow(_) => "=>".to_string(),
        Expr::Fn(_) => "function".to_string(),
        Expr::Unary { arg, .. } => format!("-{}", show(arg)),
        Expr::Tpl { .. } => "`".to_string(),
        Expr::Object(obj) => show_object(obj),
        Expr::Array { elems } => {
            let shown: Vec<String> = elems
                .iter()
                .map(|e| e.as_ref().map(|a| show(&a.expr)).unwrap_or_default())
                .collect();
            format!("[{}]", shown.join(", "))
        }
        Expr::Paren(e) => format!("({})", show(e)),
        Expr::Call(call) => match &call.callee {
            Callee::Expr(f) => format!("{}({})", show(f), show_args(&call.args)),
            _ => "call".to_string(),
        },
        Expr::Member { obj, .. } => format!("{}.", show(obj)),
        Expr::Other(_) => "other".to_string(),
    }
}

/// The outermost calls of a program.
fn show_calls(program: &Program) -> Vec<String> {
    program
        .body
        .iter()
        .filter_map(|node| match node {
            Node::Expr(e @ Expr::Call(_)) => Some(show(e)),
            _ => None,
        })
        .collect()
}

/// Compiles a program and shows its outermost calls.
fn calls(src: &str) -> Vec<String> {
    show_calls(&transformed(src, "test.tsx"))
}

#[test]
fn dyn_list_preserves_source_order() {
    let program = transformed(
        r#"
        import { Div } from '@meonode/ui';
        Div({ onClick: handler, padding: '1px', width, color: someColor });
        "#,
        "test.tsx",
    );
    // `padding` is a static literal ('1px'), so it's excluded from
    // `dyn` even though it's bucketed; the rest, in source order.
    assert_eq!(dyn_names(only_object(&program)), vec!["onClick", "width", "color"]);
}

#[test]
fn k_is_deterministic_for_identical_input() {
    let src = r#"
        import { Div } from '@meonode/ui';
        Div({ padding: 1 });
    "#;
    let one = transformed(src, "same.tsx");
    let two = transformed(src, "same.tsx");
    assert_eq!(
        str_lit_value(find_prop(only_object(&one), "__meo$k")),
        str_lit_value(find_prop(only_object(&two), "__meo$k"))
    );
}

#[test]
fn k_differs_for_different_spans() {
    let program = transformed(
        r#"
        import { Div } from '@meonode/ui';
        Div({ padding: 1 });
        Div({ padding: 1 });
        "#,
        "test.tsx",
    );
    let objs = objects(&program);
    assert_eq!(objs.len(), 2);
    assert_ne!(
        str_lit_value(find_prop(objs[0], "__meo$k")),
        str_lit_value(find_prop(objs[1], "__meo$k"))
    );
}

#[test]
fn k_differs_for_different_filenames() {
    let src = r#"
        import { Div } from '@meonode/ui';
        Div({ padding: 1 });
    "#;
    let one = transformed(src, "a.tsx");
    let two = transformed(src, "b.tsx");
    assert_ne!(
        str_lit_value(find_prop(only_object(&one), "__meo$k")),
        str_lit_value(find_prop(only_object(&two), "__meo$k"))
    );
}

#[test]
fn bucket_membership_matches_css_props_set() {
    let program = transformed(
        r#"
        import { Div } from '@meonode/ui';
        Div({ backgroundColor: 'red', onClick: handler, id: 'x' });
        "#,
        "test.tsx",
    );
    let obj = only_object(&program);
    assert!(catalog().is_css_prop("backgroundColor"));
    assert!(!catalog().is_css_prop("onClick"));
    assert!(!catalog().is_css_prop("id"));

    let c = inner(obj, "__meo$c");
    assert!(has_prop(c, "backgroundColor"));
    assert!(!has_prop(c, "onClick"));
    assert!(!has_prop(c, "id"));

    let d = inner(obj, "__meo$d");
    assert!(has_prop(d, "onClick"));
    assert!(has_prop(d, "id"));
    assert!(!has_prop(d, "backgroundColor"));
}

#[test]
fn non_css_only_props_omit_c_bucket() {
    let program = transformed(
        r#"
        import { Div } from '@meonode/ui';
        Div({ onClick: handler, id: 'x' });
        "#,
        "test.tsx",
    );
    let obj = only_object(&program);
    assert!(!has_prop(obj, "__meo$c"));
    assert!(has_prop(obj, "__meo$d"));
}

/// Compiles a program with a single `Div({...})` call.
fn one_call(props_src: &str) -> Program {
    transformed(
        &format!("import {{ Div }} from '@meonode/ui';\nDiv({props_src});"),
        "test.tsx",
    )
}

/// The keys present in one emitted bucket (`__meo$c` / `__meo$d`).
fn bucket_keys(obj: &ObjectLit, bucket: &str) -> Vec<String> {
    inner(obj, bucket)
        .props
        .iter()
        .filter_map(|p| match p {
            PropOrSpread::Prop { prop: Prop::KeyValue { key, .. }, .. } => match key {
                PropName::Ident(id) => Some(id.clone()),
                PropName::Str(s) => Some(show_text(&s.value)),
                _ => None,
            },
            PropOrSpread::Prop { prop: Prop::Shorthand(id), .. } => Some(id.sym.clone()),
            _ => None,
        })
        .collect()
}

#[test]
fn inline_arrow_is_bucketed_but_omitted_from_dyn() {
    // The runtime hashes a function by source text, which is fixed by the
    // call site, so listing it in `dyn` only buys a constant that `k`
    // already encodes -- while costing a `toString()` and a hash per
    // render, because the runtime's memo is keyed by function identity and
    // an inline literal is a fresh object every render.
    let program = one_call("{ padding: '8px', onClick: () => {} }");
    let obj = only_object(&program);
    assert!(!has_prop(obj, "__meo$dyn"));
    assert!(bucket_keys(obj, "__meo$d").contains(&"onClick".to_string()));
}

#[test]
fn inline_function_expression_is_also_omitted() {
    let program = one_call("{ onClick: function () {} }");
    let obj = only_object(&program);
    assert!(!has_prop(obj, "__meo$dyn"));
    assert!(bucket_keys(obj, "__meo$d").contains(&"onClick".to_string()));
}

#[test]
fn parenthesized_inline_arrow_is_omitted() {
    let program = one_call("{ onClick: (() => {}) }");
    assert!(!has_prop(only_object(&program), "__meo$dyn"));
}

#[test]
fn function_reference_still_enters_dyn() {
    // An identifier can resolve to a different function on a later render.
    let program = one_call("{ onClick: handler }");
    assert_eq!(dyn_names(only_object(&program)), vec!["onClick"]);
}

#[test]
fn conditional_between_functions_still_enters_dyn() {
    let program = one_call("{ onClick: cond ? a : b }");
    assert_eq!(dyn_names(only_object(&program)), vec!["onClick"]);
}

#[test]
fn call_returning_a_function_still_enters_dyn() {
    let program = one_call("{ onClick: makeHandler(id) }");
    assert_eq!(dyn_names(only_object(&program)), vec!["onClick"]);
}

#[test]
fn inline_arrow_on_a_special_key_is_omitted_too() {
    let program = one_call("{ css: () => ({ color: 'red' }) }");
    assert!(!has_prop(only_object(&program), "__meo$dyn"));
}

#[test]
fn mixed_inline_and_referenced_handlers_keep_only_the_reference() {
    let program = one_call("{ onClick: () => {}, onBlur: handler, padding: '8px' }");
    assert_eq!(dyn_names(only_object(&program)), vec!["onBlur"]);
}

#[test]
fn all_static_values_omit_dyn() {
    let program = transformed(
        r#"
        import { Div } from '@meonode/ui';
        Div({ padding: '1px', id: 'x' });
        "#,
        "test.tsx",
    );
    assert!(!has_prop(only_object(&program), "__meo$dyn"));
}

#[test]
fn emit_order_is_marker_c_d_k_dyn_then_specials() {
    let program = transformed(
        r#"
        import { Div } from '@meonode/ui';
        Div({ children: ['x'], padding: '1px', onClick: handler, width, css: { color: 'red' } });
        "#,
        "test.tsx",
    );
    let order: Vec<String> = only_object(&program)
        .props
        .iter()
        .map(|p| match p {
            PropOrSpread::Prop {
                prop: Prop::KeyValue { key: PropName::Ident(id), .. },
                ..
            } => id.clone(),
            other => panic!("expected a KeyValue entry with an ident key, got {other:?}"),
        })
        .collect();
    // Special keys (`children`, `css`) keep their *original* relative source
    // order (children before css) at the tail, after __meo$/c/d/k/dyn.
    assert_eq!(
        order,
        vec![
            "__meo$",
            "__meo$c",
            "__meo$d",
            "__meo$k",
            "__meo$dyn",
            "children",
            "css"
        ]
    );
}

/// `css` and `children` are both special keys, and `children` is last in
/// source order here: it stays last.
#[test]
fn css_and_children_source_final_emits_children_last() {
    let program = transformed(
        r#"
        import { Div } from '@meonode/ui';
        Div({ css: { color: 'red' }, padding: '1px', children: ['x'] });
        "#,
        "test.tsx",
    );
    let special_order: Vec<String> = only_object(&program)
        .props
        .iter()
        .filter_map(|p| match p {
            PropOrSpread::Prop {
                prop: Prop::KeyValue { key: PropName::Ident(id), .. },
                ..
            } if !id.starts_with("__meo$") => Some(id.clone()),
            _ => None,
        })
        .collect();
    assert_eq!(special_order, vec!["css", "children"]);
    assert_eq!(special_order.last(), Some(&"children".to_string()));
}

fn call_of(arg: &Option<ExprOrSpread>) -> &CallExpr {
    match arg {
        Some(ExprOrSpread { expr: Expr::Call(call), .. }) => call,
        other => panic!("expected a call expression, got {other:?}"),
    }
}

fn object_of(arg: Option<&ExprOrSpread>) -> &ObjectLit {
    match arg {
        Some(ExprOrSpread { expr: Expr::Object(obj), .. }) => obj,
        other => panic!("expected an object literal, got {other:?}"),
    }
}

/// A source-final `children` value containing nested factory calls is
/// effectful (the calls themselves aren't effect-free); those nested calls are
/// call sites in their own right, and are rewritten too, not just the outer
/// call.
#[test]
fn nested_factory_calls_in_children_are_independently_rewritten() {
    let program = transformed(
        r#"
        import { Div, P } from '@meonode/ui';
        Div({ padding: '1px', onClick: h, children: [Div({ color: 'red' }), P('x', { color: 'blue' })] });
        "#,
        "test.tsx",
    );
    let objs = objects(&program);
    assert_eq!(objs.len(), 2, "expected outer Div + nested Div objects");
    let obj = objs[0];
    // The outer call itself compiled (has __meo$/c/d/k).
    assert!(has_prop(obj, "__meo$"));

    let Expr::Array { elems: children } = find_prop(obj, "children") else {
        panic!("expected `children` to be an array literal");
    };
    assert_eq!(children.len(), 2);

    let nested_div_props = object_of(call_of(&children[0]).args.first());
    assert!(
        has_prop(nested_div_props, "__meo$"),
        "nested Div({{ color: 'red' }}) should have been rewritten independently"
    );

    // P is children-first: arg 0 is the untouched children-first
    // argument ('x'), arg 1 is the props object that got rewritten.
    let nested_p = call_of(&children[1]);
    let Some(Expr::Lit(Lit::Str(_))) = nested_p.args.first().map(|a| &a.expr) else {
        panic!("expected nested P's arg 0 to remain an untouched string literal");
    };
    let nested_p_props = object_of(nested_p.args.get(1));
    assert!(
        has_prop(nested_p_props, "__meo$"),
        "nested P('x', {{ color: 'blue' }}) should have been rewritten independently"
    );
}

/// A nested factory call doesn't have to be inside `children` to get
/// independently rewritten: the rewriter walks into function bodies just like
/// into any other part of the tree.
#[test]
fn nested_factory_call_inside_arrow_prop_value_is_independently_rewritten() {
    let program = transformed(
        r#"
        import { Div } from '@meonode/ui';
        Div({ onClick: () => Div({ color: 'red' }) });
        "#,
        "test.tsx",
    );
    let objs = objects(&program);
    assert_eq!(objs.len(), 2);
    let outer = objs[0];
    assert!(has_prop(outer, "__meo$"));

    let Expr::Arrow(body) = find_prop(inner(outer, "__meo$d"), "onClick") else {
        panic!("expected onClick's value to still be an arrow expr");
    };
    let [Node::Expr(Expr::Call(nested_call))] = body.as_slice() else {
        panic!("expected the arrow body to still be a call expression");
    };
    let nested_props = object_of(nested_call.args.first());
    assert!(
        has_prop(nested_props, "__meo$"),
        "nested Div({{ color: 'red' }}) inside the arrow body should have \
         been rewritten independently"
    );
}

#[test]
fn duplicate_key_dedupes_dyn_list() {
    let program = transformed(
        r#"
        import { Div } from '@meonode/ui';
        Div({ onClick: a, onClick: b, width });
        "#,
        "test.tsx",
    );
    // `onClick` appears twice (last wins at runtime, same as any JS
    // object literal) but should only be listed once in `dyn`, in its
    // first-occurrence position.
    assert_eq!(dyn_names(only_object(&program)), vec!["onClick", "width"]);
}

// --- Leading spreads ---

fn spread_ident(entry: &PropOrSpread) -> String {
    match entry {
        PropOrSpread::Spread { expr: Expr::Ident(id), .. } => id.sym.clone(),
        other => panic!("expected a spread of an identifier, got {other:?}"),
    }
}

#[test]
fn leading_spread_stays_top_level_right_after_marker() {
    let program = transformed(
        r#"
        import { Div } from '@meonode/ui';
        const extra = {};
        Div({ ...extra, padding: '8px' });
        "#,
        "test.tsx",
    );
    let obj = only_object(&program);
    assert!(
        matches!(&obj.props[0], PropOrSpread::Prop { .. }),
        "expected __meo$ first"
    );
    assert_eq!(spread_ident(&obj.props[1]), "extra");
    assert!(has_prop(inner(obj, "__meo$c"), "padding"));
}

#[test]
fn multiple_leading_spreads_preserve_relative_order() {
    let program = transformed(
        r#"
        import { Div } from '@meonode/ui';
        const a = {};
        const b = {};
        Div({ ...a, ...b, padding: '8px' });
        "#,
        "test.tsx",
    );
    let spread_names: Vec<String> =
        only_object(&program).props[1..3].iter().map(spread_ident).collect();
    assert_eq!(spread_names, vec!["a", "b"]);
}

#[test]
fn spread_only_props_emits_no_c_d_k_or_dyn() {
    let program = transformed(
        r#"
        import { Div } from '@meonode/ui';
        const extra = {};
        Div({ ...extra });
        "#,
        "test.tsx",
    );
    let obj = only_object(&program);
    assert!(!has_prop(obj, "__meo$c"));
    assert!(!has_prop(obj, "__meo$d"));
    assert!(!has_prop(obj, "__meo$dyn"));
    assert!(
        !has_prop(obj, "__meo$k"),
        "k must never be emitted when a spread is present"
    );
    let PropOrSpread::Spread { .. } = &obj.props[1] else {
        panic!("expected the spread to still be present, got {:?}", obj.props[1]);
    };
}

/// `k` is a pure function of call-site source position, so if it were emitted
/// here, two evaluations of this exact call site with *different* `extra`
/// contents would get an identical stable key. Even when every other prop is a
/// static literal (so `c`/`d` bucketing is otherwise fully safe), `k`/`dyn`
/// must still be omitted whenever a spread is present.
#[test]
fn spread_present_omits_k_and_dyn_even_with_only_static_other_props() {
    let program = transformed(
        r#"
        import { Div } from '@meonode/ui';
        const extra = {};
        Div({ ...extra, padding: '8px', id: 'x' });
        "#,
        "test.tsx",
    );
    let obj = only_object(&program);
    assert!(!has_prop(obj, "__meo$k"));
    assert!(!has_prop(obj, "__meo$dyn"));
    // Bucketing for the static props is still fully retained.
    assert!(has_prop(inner(obj, "__meo$c"), "padding"));
    assert!(has_prop(inner(obj, "__meo$d"), "id"));
}

/// A non-static-literal prop (`onClick: handler` — an identifier, always
/// dynamic) alongside a spread must stay flat/unbucketed rather than land in
/// `d`. `padding` (a static literal) is unaffected and still bucketed
/// normally.
#[test]
fn non_static_prop_stays_flat_when_spread_present() {
    let program = transformed(
        r#"
        import { Div } from '@meonode/ui';
        const extra = {};
        Div({ ...extra, onClick: handler, padding: '8px' });
        "#,
        "test.tsx",
    );
    let obj = only_object(&program);
    assert!(!has_prop(obj, "__meo$k"));
    assert!(!has_prop(obj, "__meo$dyn"));
    assert!(has_prop(inner(obj, "__meo$c"), "padding"));
    // `onClick` must NOT be in `d` (or `c`) — it must stay flat instead.
    assert!(
        !has_prop(obj, "__meo$d"),
        "onClick is the only would-be-`d` candidate and must stay flat, \
         so `d` shouldn't be emitted at all"
    );
    // `onClick` should appear as a flat top-level KeyValue prop, right
    // alongside the spread.
    let has_flat_on_click = obj.props.iter().any(|p| {
        matches!(
            p,
            PropOrSpread::Prop { prop: Prop::KeyValue { key: PropName::Ident(id), .. }, .. }
                if id == "onClick"
        )
    });
    assert!(
        has_flat_on_click,
        "expected `onClick` to be present as a flat top-level prop"
    );
}

/// Multiple leading spreads plus a mixed static/dynamic set of other props:
/// the static prop still buckets, the dynamic one stays flat with the spreads,
/// and their combined relative source order is preserved.
#[test]
fn mixed_static_and_dynamic_props_with_multiple_spreads() {
    let program = transformed(
        r#"
        import { Div } from '@meonode/ui';
        const a = {};
        const b = {};
        Div({ ...a, ...b, onClick: handler, padding: '8px' });
        "#,
        "test.tsx",
    );
    let obj = only_object(&program);
    assert!(!has_prop(obj, "__meo$k"));
    assert!(!has_prop(obj, "__meo$dyn"));

    // Leading group (everything before `c`): spread `a`, spread `b`,
    // `onClick`, in that exact source order.
    let leading_kinds: Vec<String> = obj.props[1..4]
        .iter()
        .map(|p| match p {
            PropOrSpread::Spread { .. } => format!("...{}", spread_ident(p)),
            PropOrSpread::Prop { prop: Prop::KeyValue { key: PropName::Ident(id), .. }, .. } => {
                id.clone()
            }
            other => panic!("expected an ident key, got {other:?}"),
        })
        .collect();
    assert_eq!(leading_kinds, vec!["...a", "...b", "onClick"]);
    assert!(has_prop(inner(obj, "__meo$c"), "padding"));
}

// --- Quoted string keys ---

#[test]
fn quoted_non_identifier_key_is_bucketed_into_d_with_original_quoted_key() {
    let program = transformed(
        r#"
        import { Div } from '@meonode/ui';
        Div({ padding: '4px', "data-parallax": "true" });
        "#,
        "test.tsx",
    );
    let found = inner(only_object(&program), "__meo$d").props.iter().any(|p| match p {
        PropOrSpread::Prop { prop: Prop::KeyValue { key: PropName::Str(s), .. }, .. } => {
            show_text(&s.value) == "data-parallax"
        }
        _ => false,
    });
    assert!(
        found,
        "expected `data-parallax` to be bucketed into `d`, still keyed by its original quoted string"
    );
}

// --- Factory modules ---

fn mui() -> CompileConfig {
    CompileConfig { factory_modules: vec!["@meonode/mui".to_string()] }
}

#[test]
fn factory_module_call_site_is_rewritten_when_configured() {
    let program = compiled(
        r#"
        import { Button } from '@meonode/mui';
        Button({ padding: '8px', onClick: handler });
        "#,
        "test.tsx",
        &mui(),
    );
    let objs = objects(&program);
    assert_eq!(objs.len(), 1);
    assert!(has_prop(objs[0], "__meo$"));
    assert!(has_prop(inner(objs[0], "__meo$c"), "padding"));
}

#[test]
fn factory_module_call_site_untouched_without_config() {
    let program = transformed(
        r#"
        import { Button } from '@meonode/mui';
        Button({ padding: '8px' });
        "#,
        "test.tsx",
    );
    assert!(
        !has_prop(only_object(&program), "__meo$"),
        "Button(...) must not be rewritten without factoryModules configured"
    );
}

// --- Detection alone changes nothing, and decides ---

/// The decisions of both rules on a program.
fn both(src: &str) -> (Vec<Decision>, Vec<Decision>) {
    let program = parse(src);
    let strict = detect_transform(&program, &catalog()).into_iter().map(|d| d.decision);
    let ordered = detect_with_config(&program, &CompileConfig::default(), &catalog());
    (strict.collect(), ordered.into_iter().map(|d| d.decision).collect())
}

const AT_0: Decision = Decision::Compilable { props_arg_idx: 0 };
const AT_1: Decision = Decision::Compilable { props_arg_idx: 1 };
const KEY_0: Decision = Decision::KeyOnly { props_arg_idx: 0 };

#[test]
fn named_import_div() {
    let (strict, ordered) = both("import { Div } from '@meonode/ui'; Div({ padding: 1 });");
    assert_eq!(strict, vec![AT_0]);
    assert_eq!(ordered, vec![AT_0]);
}

#[test]
fn aliased_import() {
    let (strict, ordered) = both("import { Div as D } from '@meonode/ui'; D({ padding: 1 });");
    assert_eq!(strict, vec![AT_0]);
    assert_eq!(ordered, vec![AT_0]);
}

#[test]
fn children_first_p() {
    let (strict, ordered) = both("import { P } from '@meonode/ui'; P('x', { color: 'red' });");
    assert_eq!(strict, vec![AT_1]);
    assert_eq!(ordered, vec![AT_1]);
}

#[test]
fn node_factory() {
    let (strict, ordered) = both("import { Node } from '@meonode/ui'; Node('div', { padding: 1 });");
    assert_eq!(strict, vec![AT_1]);
    assert_eq!(ordered, vec![AT_1]);
}

#[test]
fn local_create_node() {
    let (strict, ordered) = both(
        "import { createNode } from '@meonode/ui'; const Box = createNode('div'); Box({ padding: 1 });",
    );
    assert_eq!(strict, vec![AT_0]);
    assert_eq!(ordered, vec![AT_0]);
}

#[test]
fn shadowed_div() {
    let (strict, ordered) = both(
        "import { Div } from '@meonode/ui'; function f() { const Div = g(); return Div({ padding: 1 }); }",
    );
    let bail = vec![Decision::Bail(BailReason::ShadowedOrUnbound)];
    assert_eq!(strict, bail);
    assert_eq!(ordered, bail);
}

#[test]
fn namespace_import_bail() {
    let (strict, ordered) = both("import * as M from '@meonode/ui'; M.Div({ padding: 1 });");
    let bail = vec![Decision::Bail(BailReason::NamespaceImport)];
    assert_eq!(strict, bail);
    assert_eq!(ordered, bail);
}

#[test]
fn non_object_props_bail() {
    let (strict, ordered) = both("import { Div } from '@meonode/ui'; Div(props); Div(a ? b : c);");
    let bail = vec![
        Decision::Bail(BailReason::NotObjectLiteral),
        Decision::Bail(BailReason::NotObjectLiteral),
    ];
    assert_eq!(strict, bail);
    assert_eq!(ordered, bail);
}

#[test]
fn spread_bail() {
    // The strict rule rejects a leading spread, the ordered rule does not.
    let (strict, ordered) = both("import { Div } from '@meonode/ui'; Div({ ...rest, padding: 1 });");
    assert_eq!(strict, vec![Decision::Bail(BailReason::SpreadProp)]);
    assert_eq!(ordered, vec![AT_0]);
}

#[test]
fn computed_key_bail() {
    let (strict, ordered) = both("import { Div } from '@meonode/ui'; Div({ [k]: 1 });");
    assert_eq!(strict, vec![Decision::Bail(BailReason::ComputedKey)]);
    assert_eq!(ordered, vec![KEY_0]);
}

#[test]
fn existing_marker_bail() {
    let (strict, ordered) = both(
        "import { Div } from '@meonode/ui'; Div({ padding: 1, '__meo$': 2 }); Div({ __meo$, ...x });",
    );
    let bail = vec![
        Decision::Bail(BailReason::ExistingMarker),
        Decision::Bail(BailReason::ExistingMarker),
    ];
    assert_eq!(strict, bail);
    assert_eq!(ordered, bail);
}

// --- The rewritten call, as a whole ---

#[test]
fn transform_static_only() {
    assert_eq!(
        calls("import { Div } from '@meonode/ui'; Div({ padding: '1px', id: 'x' });"),
        vec!["Div({__meo$: 2, __meo$c: {padding: '1px'}, __meo$d: {id: 'x'}, __meo$k: k})"]
    );
}

#[test]
fn transform_dynamic_values() {
    assert_eq!(
        calls(
            "import { Div } from '@meonode/ui';
             Div({ padding: 'theme.spacing.md', width, onClick: handler, css: { color: 'red' }, children: [A, B] });"
        ),
        vec![
            "Div({__meo$: 2, __meo$c: {padding: 'var(--meonode-theme-spacing-md)', width}, \
             __meo$d: {onClick: handler}, __meo$k: k, __meo$dyn: ['width', 'onClick', 'css'], \
             css: {color: 'red'}, children: [A, B]})"
        ]
    );
}

#[test]
fn transform_special_keys() {
    assert_eq!(
        calls(
            "import { Div } from '@meonode/ui'; Div({ key: 'a', ref: r, padding: '1px', css: c, theme });"
        ),
        vec![
            "Div({__meo$: 2, __meo$c: {padding: '1px'}, __meo$k: k, __meo$dyn: ['css', 'theme'], \
             key: 'a', ref: r, css: c, theme})"
        ]
    );
}

#[test]
fn transform_children_first() {
    assert_eq!(
        calls("import { P } from '@meonode/ui'; P('x', { color: 'red' });"),
        vec!["P('x', {__meo$: 2, __meo$c: {color: 'red'}, __meo$k: k})"]
    );
}

#[test]
fn transform_local_create_node() {
    assert_eq!(
        calls(
            "import { createNode, createChildrenFirstNode } from '@meonode/ui';
             const Box = createNode('div'), Text = createChildrenFirstNode('p');
             Box({ padding: 1 });
             Text('x', { padding: 1 });"
        ),
        vec![
            "Box({__meo$: 2, __meo$c: {padding: 1}, __meo$k: k})",
            "Text('x', {__meo$: 2, __meo$c: {padding: 1}, __meo$k: k})"
        ]
    );
}

#[test]
fn transform_shorthand_props() {
    assert_eq!(
        calls("import { Div } from '@meonode/ui'; Div({ width, onClick });"),
        vec![
            "Div({__meo$: 2, __meo$c: {width}, __meo$d: {onClick}, __meo$k: k, \
             __meo$dyn: ['width', 'onClick']})"
        ]
    );
}

#[test]
fn transform_single_effectful_call_compiles() {
    assert_eq!(
        calls("import { Div } from '@meonode/ui'; Div({ x: f(), padding: '1px' });"),
        vec![
            "Div({__meo$: 2, __meo$c: {padding: '1px'}, __meo$d: {x: f()}, __meo$k: k, \
             __meo$dyn: ['x']})"
        ]
    );
}

#[test]
fn transform_single_effectful_member_expr_compiles() {
    assert_eq!(
        calls("import { Div } from '@meonode/ui'; Div({ x: a.b, padding: '1px' });"),
        vec![
            "Div({__meo$: 2, __meo$c: {padding: '1px'}, __meo$d: {x: a.}, __meo$k: k, \
             __meo$dyn: ['x']})"
        ]
    );
}

#[test]
fn transform_empty_dyn_omitted() {
    assert_eq!(
        calls("import { Div } from '@meonode/ui'; Div({ padding: -1, onClick: () => 1 });"),
        vec!["Div({__meo$: 2, __meo$c: {padding: -1}, __meo$d: {onClick: =>}, __meo$k: k})"]
    );
}

#[test]
fn transform_all_special_keys() {
    assert_eq!(
        calls(
            "import { Div } from '@meonode/ui';
             Div({ css: 1, props: 2, ref: 3, key: 4, children: 5, as: 6, theme: 7, disableEmotion: 8 });"
        ),
        vec![
            "Div({__meo$: 2, __meo$k: k, css: 1, props: 2, ref: 3, key: 4, children: 5, as: 6, \
             theme: 7, disableEmotion: 8})"
        ]
    );
}

#[test]
fn transform_nested_children() {
    assert_eq!(
        calls(
            "import { Div, P } from '@meonode/ui'; Div({ children: [Div({ id: 'a' }), P('x', {})] });"
        ),
        vec![
            "Div({__meo$: 2, __meo$k: k, children: \
             [Div({__meo$: 2, __meo$d: {id: 'a'}, __meo$k: k}), P('x', {__meo$: 2, __meo$k: k})]})"
        ]
    );
}

#[test]
fn transform_children_not_last_still_compiles() {
    assert_eq!(
        calls("import { Div } from '@meonode/ui'; Div({ children: [f()], padding: '1px' });"),
        vec!["Div({__meo$: 2, __meo$c: {padding: '1px'}, __meo$k: k, children: [f()]})"]
    );
}

#[test]
fn transform_leading_spread() {
    assert_eq!(
        calls("import { Div } from '@meonode/ui'; Div({ ...props, padding: '8px' });"),
        vec!["Div({__meo$: 2, ...props, __meo$c: {padding: '8px'}})"]
    );
}

#[test]
fn transform_leading_spread_with_dynamic_prop() {
    assert_eq!(
        calls("import { Div } from '@meonode/ui'; Div({ ...props, onClick: handler, padding: '8px' });"),
        vec!["Div({__meo$: 2, ...props, onClick: handler, __meo$c: {padding: '8px'}})"]
    );
}

#[test]
fn transform_multiple_leading_spreads() {
    assert_eq!(
        calls("import { Div } from '@meonode/ui'; Div({ ...a, ...b, id: 'x', css: c });"),
        vec!["Div({__meo$: 2, ...a, ...b, __meo$d: {id: 'x'}, css: c})"]
    );
}

#[test]
fn transform_trailing_spread_bail() {
    // The props are left in place, and only a key is appended.
    assert_eq!(
        calls("import { Div } from '@meonode/ui'; Div({ padding: 1, ...rest });"),
        vec!["Div({padding: 1, ...rest, __meo$: 3, __meo$k: k})"]
    );
}

#[test]
fn transform_quoted_string_key() {
    assert_eq!(
        calls("import { Div } from '@meonode/ui'; Div({ 'data-parallax': 1, 'padding': x });"),
        vec![
            "Div({__meo$: 2, __meo$c: {'padding': x}, __meo$d: {'data-parallax': 1}, __meo$k: k, \
             __meo$dyn: ['padding']})"
        ]
    );
}

#[test]
fn transform_key_member_expr() {
    assert_eq!(
        calls("import { Div } from '@meonode/ui'; Div({ key: item.id, padding: '1px' });"),
        vec!["Div({__meo$: 2, __meo$c: {padding: '1px'}, __meo$k: k, key: item.})"]
    );
}

#[test]
fn transform_two_effectful_order_preserved() {
    assert_eq!(
        calls("import { Div } from '@meonode/ui'; Div({ padding: g(), onClick: f() });"),
        vec![
            "Div({__meo$: 2, __meo$c: {padding: g()}, __meo$d: {onClick: f()}, __meo$k: k, \
             __meo$dyn: ['padding', 'onClick']})"
        ]
    );
}

#[test]
fn transform_two_effectful_order_violated_bail() {
    assert_eq!(
        calls("import { Div } from '@meonode/ui'; Div({ onClick: f(), padding: g() });"),
        vec!["Div({onClick: f(), padding: g(), __meo$: 3, __meo$k: k})"]
    );
}

#[test]
fn transform_factory_module_configured() {
    let src = "import { Button, createMuiNode } from '@meonode/mui';
               Button({ padding: '8px' }); createMuiNode({ padding: '8px' });";
    assert_eq!(
        show_calls(&compiled(src, "test.tsx", &mui())),
        vec![
            "Button({__meo$: 2, __meo$c: {padding: '8px'}, __meo$k: k})",
            "createMuiNode({padding: '8px'})"
        ]
    );
}

#[test]
fn transform_factory_module_unconfigured_bail() {
    assert_eq!(
        calls("import { Button } from '@meonode/mui'; Button({ padding: '8px' });"),
        vec!["Button({padding: '8px'})"]
    );
}

#[test]
fn transform_spread_before_props_bail() {
    assert_eq!(
        calls("import { P } from '@meonode/ui'; P(...stuff, { color: 'red' });"),
        vec!["P(...stuff, {color: 'red'})"]
    );
}

#[test]
fn transform_node_with_deps() {
    assert_eq!(
        calls("import { Node } from '@meonode/ui'; Node('div', { padding: 1 }, [a]);"),
        vec!["Node('div', {__meo$: 2, __meo$c: {padding: 1}, __meo$k: k}, [a])"]
    );
}

#[test]
fn transform_empty_props() {
    assert_eq!(
        calls("import { Div } from '@meonode/ui'; Div({});"),
        vec!["Div({__meo$: 2, __meo$k: k})"]
    );
}

#[test]
fn transform_paren_wrapped_props() {
    assert_eq!(
        calls("import { Div } from '@meonode/ui'; Div((({ padding: ('theme.x') })));"),
        vec!["Div((({__meo$: 2, __meo$c: {padding: ('var(--meonode-theme-x)')}, __meo$k: k})))"]
    );
}

// --- Beyond the single cases ---

#[test]
fn effect_classes_are_nested() {
    for src in ["1", "'x'", "-1", "`t`", "(null)", "/a/"] {
        assert!(static_literal(src) && order_inert(src) && effect_free(src), "{src}");
    }
    for src in ["() => 1", "(function () {})", "async () => await x"] {
        assert!(!static_literal(src) && order_inert(src) && effect_free(src), "{src}");
        assert!(is_inline_function(&parse_expr(src)), "{src}");
    }
    for src in ["x", "({ a: 1 })", "[1]", "undefined"] {
        assert!(!static_literal(src) && !order_inert(src) && effect_free(src), "{src}");
    }
    for src in ["f()", "a.b", "a?.b", "-x", "!1", "`${1}`", "this", "class {}", "({ [k]: 1 })", "({ get a() { return 1; } })"] {
        assert!(!static_literal(src) && !order_inert(src) && !effect_free(src), "{src}");
    }
}

fn ordered(src: &str) -> Vec<Decision> {
    detect_with_config(&parse(src), &CompileConfig::default(), &catalog())
        .into_iter()
        .map(|d| d.decision)
        .collect()
}

fn div(props: &str) -> Vec<Decision> {
    ordered(&format!("import {{ Div }} from '@meonode/ui'; Div({props});"))
}

#[test]
fn ordered_rule_accepts_what_keeps_its_order() {
    for props in [
        "{}",
        "{ ...a }",
        "{ ...a, ...b, padding: f() }",
        "{ onClick: h, padding: p }",
        "{ onClick: () => 1, padding: f() }",
        "{ onClick: 'x', padding: f(), id: g(), children: [h()] }",
        "{ 'data-x': 1, \"é\": 2 }",
        "{ key: item.id, padding: '1px' }",
        "{ ...a, onClick: f(), padding: g() }",
    ] {
        assert_eq!(div(props), vec![AT_0], "{props}");
    }
}

#[test]
fn ordered_rule_rejects_what_would_be_reordered() {
    for props in [
        "{ onClick: f(), padding: g() }",
        // Reading a binding is no effect, but may see one.
        "{ onClick: h, padding: f() }",
        "{ onClick, padding: f() }",
        "{ css: c, padding: f() }",
        "{ ...a, children: f(), onClick: g() }",
        "{ id: {}, padding: f() }",
    ] {
        assert_eq!(div(props), vec![KEY_0], "{props}");
    }
}

#[test]
fn ordered_rule_keys_what_it_cannot_partition() {
    for props in [
        "{ padding: 1, ...rest }",
        "{ ...a, padding: 1, ...rest }",
        "{ [k]: 1 }",
        "{ 0: 1 }",
        "{ 1n: 1 }",
        "{ get a() { return 1; } }",
        "{ set a(v) {} }",
        "{ onClick() {} }",
    ] {
        assert_eq!(div(props), vec![KEY_0], "{props}");
    }
    assert_eq!(
        calls("import { P } from '@meonode/ui'; P('x', { [k]: f(), m() {} });"),
        vec!["P('x', {[k]: f(), method, __meo$: 3, __meo$k: k})"]
    );
}

#[test]
fn unsupported_prop_is_left_alone() {
    let mut program = parse("import { Div } from '@meonode/ui'; Div({ padding: 1 });");
    let Some(Node::Expr(Expr::Call(call))) = program.body.last_mut() else {
        panic!("expected the call last");
    };
    let Expr::Object(obj) = &mut call.args[0].expr else {
        panic!("expected an object literal");
    };
    obj.props.push(PropOrSpread::Prop {
        span: Span { lo: 1, hi: 2 },
        prop: Prop::Assign {
            name: Ident { sym: "a".to_string(), ctxt: 0 },
            value: Expr::Lit(Lit::Null),
        },
    });
    let bail = vec![Decision::Bail(BailReason::UnsupportedPropKind)];
    let strict = detect(&program, &catalog());
    assert_eq!(strict.into_iter().map(|d| d.decision).collect::<Vec<_>>(), bail);
    let ordered = detect_with_config(&program, &CompileConfig::default(), &catalog());
    assert_eq!(ordered.into_iter().map(|d| d.decision).collect::<Vec<_>>(), bail);
    transform_program(&mut program, "a.tsx", &CompileConfig::default(), &catalog());
    assert_eq!(show_calls(&program), vec!["Div({padding: 1, a = Null})"]);
}

#[test]
fn missing_and_spread_props_are_left_alone() {
    assert_eq!(
        ordered("import { Div, P } from '@meonode/ui'; Div(); P('x'); Div(...args); P('x', ...args);"),
        vec![
            Decision::Bail(BailReason::MissingPropsArg),
            Decision::Bail(BailReason::MissingPropsArg),
            Decision::Bail(BailReason::NotObjectLiteral),
            Decision::Bail(BailReason::NotObjectLiteral),
        ]
    );
}

#[test]
fn imports_may_be_written_anywhere() {
    let src = "Div({ padding: 1 }); import { Div } from '@meonode/ui';";
    assert_eq!(ordered(src), vec![AT_0]);
}

#[test]
fn imports_that_do_not_count() {
    for src in [
        "import Div from '@meonode/ui'; Div({ padding: 1 });",
        "import { Unknown } from '@meonode/ui'; Unknown({ padding: 1 });",
        "import { 'Div' as D } from '@meonode/ui'; D({ padding: 1 });",
        "import { Div } from '@meonode/uix'; Div({ padding: 1 });",
        "import { createNode } from '@meonode/ui'; let Box = createNode('div'); Box({ padding: 1 });",
        "import { createNode } from '@meonode/ui'; const { Box } = createNode('div'); Box({ padding: 1 });",
        "const Div = f(); Div({ padding: 1 });",
    ] {
        assert_eq!(ordered(src), vec![], "{src}");
    }
}

#[test]
fn factory_modules_count_by_exported_name() {
    let decisions = |src: &str| -> Vec<Decision> {
        detect_with_config(&parse(src), &mui(), &catalog()).into_iter().map(|d| d.decision).collect()
    };
    assert_eq!(
        decisions("import { Button as b, text as T } from '@meonode/mui'; b({ a: 1 }); T({ a: 1 });"),
        vec![AT_0]
    );
    assert_eq!(
        decisions("import * as M from '@meonode/mui'; M.Button({ a: 1 });"),
        vec![Decision::Bail(BailReason::NamespaceImport)]
    );
    assert_eq!(decisions("import Button from '@meonode/mui'; Button({ a: 1 });"), vec![]);
    assert_eq!(decisions("import { createNode } from '@meonode/mui'; const B = createNode(); B({ a: 1 });"), vec![]);
}

#[test]
fn theme_tokens_are_replaced_in_bucketed_strings_only() {
    assert_eq!(
        calls(
            "import { Div } from '@meonode/ui';
             Div({ border: '1px solid theme.base.deep', 'data-token': 'theme.primary',
                   '@media (max-width: theme.breakpoint.md)': { color: 'theme.a' },
                   css: { color: 'theme.primary' }, theme: 'theme.x' });"
        ),
        vec![
            "Div({__meo$: 2, __meo$c: {border: '1px solid var(--meonode-theme-base-deep)'}, \
             __meo$d: {'data-token': 'var(--meonode-theme-primary)', \
             '@media (max-width: theme.breakpoint.md)': {color: 'theme.a'}}, __meo$k: k, \
             __meo$dyn: ['@media (max-width: theme.breakpoint.md)', 'css'], \
             css: {color: 'theme.primary'}, theme: 'theme.x'})"
        ]
    );
    // Flat beside a spread is not bucketed; static beside a spread is.
    assert_eq!(
        calls("import { Div } from '@meonode/ui'; Div({ ...a, color: 'theme.x', id: y });"),
        vec!["Div({__meo$: 2, ...a, id: y, __meo$c: {color: 'var(--meonode-theme-x)'}})"]
    );
}

#[test]
fn strings_with_lone_surrogates_are_kept() {
    let program = one_call(r#"{ padding: 'theme.x\ud800', '\ud800': 1 }"#);
    let obj = only_object(&program);
    let Expr::Lit(Lit::Str(StrLit { value: Text::Surrogates(bytes), raw })) =
        find_prop(inner(obj, "__meo$c"), "padding")
    else {
        panic!("expected the string to be kept");
    };
    assert!(bytes.starts_with(b"theme.x"));
    assert!(raw.is_some());
    assert_eq!(show_object(inner(obj, "__meo$d")), "{'?': 1}");
}

#[test]
fn rewritten_string_loses_its_source_text() {
    let program = one_call("{ padding: 'theme.x', margin: '1px' }");
    let c = inner(only_object(&program), "__meo$c");
    let raw = |name: &str| match find_prop(c, name) {
        Expr::Lit(Lit::Str(s)) => s.raw.clone(),
        other => panic!("expected a string, got {other:?}"),
    };
    assert_eq!(raw("padding"), None);
    assert_eq!(raw("margin"), Some("'1px'".to_string()));
}

#[test]
fn compiling_twice_changes_nothing() {
    let src = "import { Div, P } from '@meonode/ui';
               Div({ padding: 'theme.x', onClick: f(), children: [P('x', { [k]: 1 })] });
               P(1, { ...a, id: y });
               Div({ onClick: f(), padding: Div({ color: g() }) });";
    let mut program = transformed(src, "test.tsx");
    let once = format!("{program:?}");
    let again = detect_with_config(&program, &CompileConfig::default(), &catalog());
    assert_eq!(again.len(), 5);
    for d in again {
        assert_eq!(d.decision, Decision::Bail(BailReason::ExistingMarker));
    }
    let tables = catalog();
    let decisions = detect_with_config(&program, &CompileConfig::default(), &tables);
    let rewriter = Rewriter { decisions: &decisions, filename: "test.tsx", catalog: &tables };
    assert!(rewriter.can_rewrite(&program));
    transform_program(&mut program, "test.tsx", &CompileConfig::default(), &catalog());
    assert_eq!(format!("{program:?}"), once);
}

#[test]
fn unrelated_programs_stay() {
    let src = "import { Div } from 'elsewhere'; const x = f({ a: 1 }); Div({ padding: 1 });";
    let before = format!("{:?}", parse(src));
    assert_eq!(format!("{:?}", transformed(src, "test.tsx")), before);
}

#[test]
fn call_site_key_is_made_from_file_and_span() {
    let src = "import { Div } from '@meonode/ui'; Div({ padding: 1 });";
    let decisions = detect_with_config(&parse(src), &CompileConfig::default(), &catalog());
    let program = transformed(src, "test.tsx");
    assert_eq!(
        str_lit_value(find_prop(only_object(&program), "__meo$k")),
        call_site_key("test.tsx", decisions[0].span)
    );
}

#[test]
fn every_program_from_a_parser_can_be_rewritten() {
    let program = parse(
        "import { Div } from '@meonode/ui'; Div({ a: Div({ m() {} }), b: () => Div({ ...c }) });",
    );
    let catalog = catalog();
    let decisions = detect_with_config(&program, &CompileConfig::default(), &catalog);
    let rewriter = Rewriter { decisions: &decisions, filename: "a.tsx", catalog: &catalog };
    assert!(rewriter.can_rewrite(&program));
}

#[test]
fn calls_that_share_a_span_may_not_be_rewritten() {
    let mut program =
        parse("import { Div } from '@meonode/ui'; Div({ padding: 1 }); f({ m() {} });");
    let catalog = catalog();
    let decisions = detect_with_config(&program, &CompileConfig::default(), &catalog);
    let rewriter = Rewriter { decisions: &decisions, filename: "a.tsx", catalog: &catalog };
    assert!(rewriter.can_rewrite(&program));
    assert_eq!(rewriter.action(decisions[0].span), Some(Action::Partition(0)));
    assert_eq!(rewriter.action(Span { lo: 0, hi: 0 }), None);
    let Some(Node::Expr(Expr::Call(call))) = program.body.last_mut() else {
        panic!("expected the call last");
    };
    call.span = decisions[0].span;
    assert!(!rewriter.can_rewrite(&program));
}

#[test]
fn whole_programs_are_compiled_under_a_relative_name() {
    let src = "import { Div } from '@meonode/ui'; Div({ padding: 1 });";
    let program = process_transform(
        parse(src),
        Some("/p/test.tsx".to_string()),
        Some("/p".to_string()),
        &CompileConfig::default(),
        &catalog(),
    );
    assert_eq!(format!("{program:?}"), format!("{:?}", transformed(src, "test.tsx")));
}

#[test]
fn strictly_accepted_children_stay_last() {
    let src = "{ onClick: h, css: c, padding: p, children: [f()] }";
    assert_eq!(
        decisions_for(&format!("import {{ Div }} from '@meonode/ui'; Div({src});")),
        vec![AT_0]
    );
    let Expr::Paren(inner) = parse_expr(&format!("({src})")) else {
        panic!("expected parentheses");
    };
    let Expr::Object(mut obj) = *inner else {
        panic!("expected an object literal");
    };
    rewrite_object(&mut obj, "a.tsx", Span { lo: 1, hi: 2 }, &catalog());
    assert_eq!(
        show_object(&obj),
        "{__meo$: 2, __meo$c: {padding: p}, __meo$d: {onClick: h}, __meo$k: k, \
         __meo$dyn: ['onClick', 'css', 'padding'], css: c, children: [f()]}"
    );
}

#[test]
fn stamped_props_stay_in_place() {
    let mut obj = ObjectLit { props: Vec::new() };
    stamp_call_site_key(&mut obj, "src/a.tsx", Span { lo: 0, hi: 0 });
    assert_eq!(show_object(&obj), "{__meo$: 3, __meo$k: k}");
    assert_eq!(str_lit_value(find_prop(&obj, "__meo$k")), "m4wdefayhxy4o");
}

/// A program whose last call has the span of the call before it.
fn shared_span(src: &str) -> Program {
    let mut program = parse(src);
    let n = program.body.len();
    let span = match &program.body[n - 2] {
        Node::Expr(Expr::Call(call)) => call.span,
        other => panic!("expected a call, got {other:?}"),
    };
    match &mut program.body[n - 1] {
        Node::Expr(Expr::Call(call)) => call.span = span,
        other => panic!("expected a call, got {other:?}"),
    }
    program
}

#[test]
fn programs_that_cannot_be_rewritten_are_told_apart() {
    let src = "import { Div } from '@meonode/ui'; Div({ padding: 1 }); f({ m() {} });";
    let config = CompileConfig::default();
    let compile = |program: Program| {
        try_process_transform(program, Some("a.tsx".to_string()), None, &config, &catalog())
    };
    let whole = compile(parse(src)).expect("no two calls share a span");
    assert_eq!(format!("{whole:?}"), format!("{:?}", transformed(src, "a.tsx")));
    assert!(compile(shared_span(src)).is_none());

    let mut program = shared_span(src);
    let before = format!("{program:?}");
    assert!(!try_transform_program(&mut program, "a.tsx", &config, &catalog()));
    assert_eq!(format!("{program:?}"), before);
    let mut program = parse(src);
    assert!(try_transform_program(&mut program, "a.tsx", &config, &catalog()));
    assert_eq!(format!("{program:?}"), format!("{whole:?}"));
}

#[test]
fn a_call_that_was_not_rewritten_in_its_place_is_rewritten_later() {
    // Both calls share a span, but take their props at different arguments, so
    // that only the second is rewritten in its place.
    let mut program = shared_span(
        "import { Div, P } from '@meonode/ui'; Div({ padding: 1 }, 2); P(1, { padding: 1 });",
    );
    let config = CompileConfig::default();
    assert!(try_transform_program(&mut program, "a.tsx", &config, &catalog()));
    let rewritten = "{__meo$: 2, __meo$c: {padding: 1}, __meo$k: k}";
    assert_eq!(
        show_calls(&program),
        vec!["Div({padding: 1}, 2)".to_string(), format!("P(1, {rewritten})")]
    );
    assert!(try_transform_program(&mut program, "a.tsx", &config, &catalog()));
    assert_eq!(
        show_calls(&program),
        vec![format!("Div({rewritten}, 2)"), format!("P(1, {rewritten})")]
    );
}
