//! Prop partitioning and call-site key emission.
//!
//! A props object that detection accepts is rewritten to the shape that the
//! UI library's runtime can use without classifying anything:
//!
//! ```text
//! Div({ padding: 'theme.spacing.md', width, onClick: handler, css: {...} })
//! // becomes
//! Div({
//!   __meo$: 2,
//!   __meo$c: { padding: 'var(--meonode-theme-spacing-md)', width },
//!   __meo$d: { onClick: handler },
//!   __meo$k: 'm1a2b3c',
//!   __meo$dyn: ['width', 'onClick', 'css'],
//!   css: {...},
//! })
//! ```
//!
//! A leading spread stays at the front. Its contents are not known before run
//! time, so no key that names the call site alone may stand for them: beside a
//! spread there is no `__meo$k` and no `__meo$dyn`, and only static values are
//! put into a bucket.
use crate::ast::{
    Expr, ExprOrSpread, Lit, ObjectLit, Program, Prop, PropName, PropOrSpread, Span, StrLit, Text,
};
use crate::catalog::{Catalog, SpecCatalog};
use crate::config::CompileConfig;
use crate::detect::{detect_with_config, CallSiteDecision, Decision};
use crate::effect::{is_inline_function, is_static_literal};
use crate::keys::{is_special_key, is_stable_key_visible_special};
use crate::model::{
    SpecArg, SpecEntry, SpecExpr, SpecKey, SpecLit, SpecNode, SpecProp, SpecStr, SpecText,
};
use crate::order::EmitRank;
use crate::placement::{contains_spread, prop_name, rank_for_prop};
use crate::rewrite::Rewriter;
use crate::site_key::call_site_key;
use crate::text::str_eq;
use crate::theme::rewrite_theme_tokens;
use vstd::prelude::*;

verus! {

/// The span of a node that is not in the source.
pub open spec fn no_span() -> Span {
    Span { lo: 0, hi: 0 }
}

/// A new prop, under an identifier.
pub open spec fn new_prop(name: Seq<char>, value: SpecExpr) -> SpecEntry {
    SpecEntry::Prop {
        span: no_span(),
        prop: SpecProp::KeyValue { key: SpecKey::Ident(name), value },
    }
}

/// A new string literal.
pub open spec fn new_str(value: Seq<char>) -> SpecExpr {
    SpecExpr::Lit(SpecLit::Str(SpecStr { value: SpecText::Unicode(value), raw: None }))
}

/// The marker, with the number of its schema.
pub open spec fn marker(schema: Seq<char>) -> SpecEntry {
    new_prop("__meo$"@, SpecExpr::Lit(SpecLit::Num(schema)))
}

/// A bucket of props.
pub open spec fn bucket(name: Seq<char>, props: Seq<SpecEntry>) -> SpecEntry {
    new_prop(name, SpecExpr::Object(props))
}

/// The call-site key.
pub open spec fn key_entry(filename: Seq<char>, span: Span) -> SpecEntry {
    new_prop("__meo$k"@, new_str(crate::site_key::site_key(filename, span)))
}

/// The list of dynamic props.
pub open spec fn dyn_entry(names: Seq<Seq<char>>) -> SpecEntry {
    new_prop(
        "__meo$dyn"@,
        SpecExpr::Array {
            elems: names.map_values(
                |name: Seq<char>| Some(SpecArg { spread: false, expr: new_str(name) }),
            ),
        },
    )
}

/// A value with the theme tokens of a string literal replaced. The literal
/// then loses the source text it was written with.
pub open spec fn themed_value(e: SpecExpr) -> SpecExpr
    decreases e,
{
    match e {
        SpecExpr::Paren(inner) => SpecExpr::Paren(Box::new(themed_value(*inner))),
        SpecExpr::Lit(SpecLit::Str(SpecStr { value: SpecText::Unicode(text), raw })) => {
            if crate::theme::has_token(text) {
                new_str(crate::theme::rewritten(text))
            } else {
                e
            }
        },
        _ => e,
    }
}

/// An entry with the theme tokens of its value replaced. Keys are left alone.
pub open spec fn themed(entry: SpecEntry) -> SpecEntry {
    match entry {
        SpecEntry::Prop { span, prop: SpecProp::KeyValue { key, value } } => SpecEntry::Prop {
            span,
            prop: SpecProp::KeyValue { key, value: themed_value(value) },
        },
        _ => entry,
    }
}

/// A prop whose value the runtime must look at again: not a static literal,
/// not a function written in place, and not a special key that the runtime
/// takes off before it looks.
pub open spec fn dynamic_entry(entry: SpecEntry) -> bool {
    let name = crate::placement::entry_name(entry);
    entry is Prop && !crate::placement::static_entry(entry)
        && !crate::placement::inline_function_entry(entry) && (crate::keys::special_key(name)
        ==> crate::keys::stable_key_visible(name))
}

/// The names of the dynamic props, each where it first occurs.
pub open spec fn dynamic_names(props: Seq<SpecEntry>) -> Seq<Seq<char>>
    decreases props.len(),
{
    if props.len() == 0 {
        Seq::empty()
    } else {
        let rest = dynamic_names(props.drop_last());
        let name = crate::placement::entry_name(props.last());
        if dynamic_entry(props.last()) && !rest.contains(name) {
            rest.push(name)
        } else {
            rest
        }
    }
}

/// The entries that are emitted in a group, in source order.
pub open spec fn group(
    props: Seq<SpecEntry>,
    at: EmitRank,
    with_spread: bool,
    catalog: SpecCatalog,
) -> Seq<SpecEntry>
    decreases props.len(),
{
    if props.len() == 0 {
        Seq::empty()
    } else {
        let rest = group(props.drop_last(), at, with_spread, catalog);
        if crate::placement::rank(props.last(), with_spread, catalog) == at {
            rest.push(props.last())
        } else {
            rest
        }
    }
}

/// An entry, if a condition holds.
pub open spec fn only_if(condition: bool, entry: SpecEntry) -> Seq<SpecEntry> {
    if condition {
        seq![entry]
    } else {
        Seq::empty()
    }
}

pub open spec fn themed_all(props: Seq<SpecEntry>) -> Seq<SpecEntry> {
    props.map_values(|entry: SpecEntry| themed(entry))
}

/// The bucket of a group, unless it is empty.
pub open spec fn bucket_part(
    name: Seq<char>,
    props: Seq<SpecEntry>,
    at: EmitRank,
    catalog: SpecCatalog,
) -> Seq<SpecEntry> {
    let entries = themed_all(group(props, at, crate::placement::has_spread(props), catalog));
    only_if(entries.len() > 0, bucket(name, entries))
}

/// The call-site key, unless there is a spread.
pub open spec fn key_part(props: Seq<SpecEntry>, filename: Seq<char>, span: Span) -> Seq<SpecEntry> {
    only_if(!crate::placement::has_spread(props), key_entry(filename, span))
}

/// The list of dynamic props, unless it is empty or there is a spread.
pub open spec fn names_part(props: Seq<SpecEntry>) -> Seq<SpecEntry> {
    only_if(
        !crate::placement::has_spread(props) && dynamic_names(props).len() > 0,
        dyn_entry(dynamic_names(props)),
    )
}

/// The entries of a partitioned props object: the marker; the spreads and what
/// stays flat beside them; the two buckets; without a spread, the call-site
/// key and the list of dynamic props; and the special keys. Empty buckets and
/// an empty list are left out.
pub open spec fn partitioned(
    props: Seq<SpecEntry>,
    filename: Seq<char>,
    span: Span,
    catalog: SpecCatalog,
) -> Seq<SpecEntry> {
    let with_spread = crate::placement::has_spread(props);
    seq![marker("2"@)] + group(props, EmitRank::Spread, with_spread, catalog) + bucket_part(
        "__meo$c"@,
        props,
        EmitRank::Css,
        catalog,
    ) + bucket_part("__meo$d"@, props, EmitRank::Data, catalog) + key_part(props, filename, span)
        + names_part(props) + group(props, EmitRank::Special, with_spread, catalog)
}

/// The entries of a props object that is given a call-site key only: all that
/// it had, in place, and then the marker and the key. Standing last, they
/// cannot be shadowed by a spread, and change no order of evaluation.
pub open spec fn stamped(props: Seq<SpecEntry>, filename: Seq<char>, span: Span) -> Seq<SpecEntry> {
    props + seq![marker("3"@), key_entry(filename, span)]
}

fn kv_prop(name: &str, value: Expr) -> (r: PropOrSpread)
    ensures
        r@ == new_prop(name@, value@),
{
    let r = PropOrSpread::Prop {
        span: Span { lo: 0, hi: 0 },
        prop: Prop::KeyValue { key: PropName::Ident(name.to_owned()), value },
    };
    proof {
        reveal_with_fuel(crate::ast::entry_view, 3);
    }
    r
}

fn str_expr(value: String) -> (r: Expr)
    ensures
        r@ == new_str(value@),
{
    Expr::Lit(Lit::Str(StrLit { value: Text::Unicode(value), raw: None }))
}

fn marker_prop(schema: &str) -> (r: PropOrSpread)
    ensures
        r@ == marker(schema@),
{
    kv_prop("__meo$", Expr::Lit(Lit::Num(schema.to_owned())))
}

fn bucket_prop(name: &str, props: Vec<PropOrSpread>) -> (r: PropOrSpread)
    ensures
        r@ == bucket(name@, crate::ast::props_view(props@)),
{
    kv_prop(name, Expr::Object(ObjectLit { props }))
}

fn key_prop(filename: &str, span: Span) -> (r: PropOrSpread)
    ensures
        r@ == key_entry(filename@, span),
{
    kv_prop("__meo$k", str_expr(call_site_key(filename, span)))
}

pub open spec fn names_view(names: Seq<String>) -> Seq<Seq<char>> {
    names.map_values(|name: String| name@)
}

fn dyn_prop(names: Vec<String>) -> (r: PropOrSpread)
    ensures
        r@ == dyn_entry(names_view(names@)),
{
    let ghost spec_elems = names_view(names@).map_values(
        |name: Seq<char>| Some(SpecArg { spread: false, expr: new_str(name) }),
    );
    let mut elems: Vec<Option<ExprOrSpread>> = Vec::new();
    let mut i: usize = 0;
    while i < names.len()
        invariant
            i <= names@.len(),
            spec_elems == names_view(names@).map_values(
                |name: Seq<char>| Some(SpecArg { spread: false, expr: new_str(name) }),
            ),
            crate::ast::elems_view(elems@) == spec_elems.take(i as int),
        decreases names.len() - i,
    {
        let ghost before = elems@;
        let elem = Some(ExprOrSpread { spread: false, expr: str_expr(names[i].clone()) });
        assert(crate::ast::elem_view(elem) == spec_elems[i as int]) by {
            reveal_with_fuel(crate::ast::elem_view, 2);
        }
        elems.push(elem);
        i += 1;
        proof {
            crate::ast::lemma_elems_push(before, elem);
        }
        assert(crate::ast::elems_view(elems@) =~= spec_elems.take(i as int));
    }
    assert(spec_elems.take(i as int) == spec_elems);
    kv_prop("__meo$dyn", Expr::Array { elems })
}

/// Adds a name to the list of dynamic props, unless it is there already. A key
/// may be repeated in an object literal, but need be looked up only once.
fn push_dyn_name(dyn_names: &mut Vec<String>, name: String)
    ensures
        names_view(final(dyn_names)@) == (if names_view(old(dyn_names)@).contains(name@) {
            names_view(old(dyn_names)@)
        } else {
            names_view(old(dyn_names)@).push(name@)
        }),
{
    let ghost view = names_view(dyn_names@);
    let mut i: usize = 0;
    while i < dyn_names.len()
        invariant
            i <= dyn_names@.len(),
            dyn_names@ == old(dyn_names)@,
            view == names_view(dyn_names@),
            forall|j: int| 0 <= j < i ==> (#[trigger] view[j]) != name@,
        decreases dyn_names.len() - i,
    {
        if str_eq(dyn_names[i].as_str(), name.as_str()) {
            assert(view[i as int] == name@);
            return ;
        }
        i += 1;
    }
    assert(!view.contains(name@));
    dyn_names.push(name);
    assert(names_view(dyn_names@) =~= view.push(name@));
}

fn theme_value(e: &mut Expr)
    ensures
        final(e)@ == themed_value(old(e)@),
    decreases *old(e),
{
    match e {
        Expr::Paren(inner) => theme_value(&mut **inner),
        Expr::Lit(Lit::Str(s)) => {
            let rewritten = match &s.value {
                Text::Unicode(text) => rewrite_theme_tokens(text.as_str()),
                Text::Surrogates(_) => None,
            };
            match rewritten {
                Some(text) => {
                    s.value = Text::Unicode(text);
                    s.raw = None;
                },
                None => {},
            }
        },
        _ => {},
    }
}

fn theme_entry(entry: &mut PropOrSpread)
    ensures
        final(entry)@ == themed(old(entry)@),
{
    proof {
        reveal_with_fuel(crate::ast::entry_view, 2);
    }
    match entry {
        PropOrSpread::Prop { span: _, prop } => match prop {
            Prop::KeyValue { key: _, value } => theme_value(value),
            _ => {},
        },
        _ => {},
    }
}

/// Replaces the theme tokens in the string values of a bucket. Neither keys,
/// nor templates, nor anything inside a nested literal is touched.
fn rewrite_theme_tokens_in_bucket(props: &mut Vec<PropOrSpread>)
    ensures
        crate::ast::props_view(final(props)@) == themed_all(crate::ast::props_view(old(props)@)),
        final(props)@.len() == old(props)@.len(),
{
    let ghost start = props@;
    let mut i: usize = 0;
    while i < props.len()
        invariant
            i <= props@.len(),
            props@.len() == start.len(),
            forall|j: int| 0 <= j < i ==> (#[trigger] props@[j])@ == themed(start[j]@),
            forall|j: int| i <= j < props@.len() ==> #[trigger] props@[j] == start[j],
        decreases props.len() - i,
    {
        theme_entry(&mut props[i]);
        i += 1;
    }
    assert(crate::ast::props_view(props@) =~= themed_all(crate::ast::props_view(start)));
}

/// Adds the name of a prop to the list of dynamic props, if it belongs there.
fn note_dynamic(entry: &PropOrSpread, dyn_names: &mut Vec<String>)
    requires
        crate::placement::placeable(entry@),
    ensures
        names_view(final(dyn_names)@) == ({
            let name = crate::placement::entry_name(entry@);
            let rest = names_view(old(dyn_names)@);
            if dynamic_entry(entry@) && !rest.contains(name) {
                rest.push(name)
            } else {
                rest
            }
        }),
{
    proof {
        reveal_with_fuel(crate::ast::entry_view, 2);
    }
    match entry {
        PropOrSpread::Spread { .. } => {},
        PropOrSpread::Prop { span: _, prop } => {
            let name = prop_name(prop);
            let fixed = match prop {
                Prop::KeyValue { key: _, value } => is_static_literal(value) || is_inline_function(
                    value,
                ),
                _ => false,
            };
            if !fixed && (!is_special_key(name.as_str()) || is_stable_key_visible_special(
                name.as_str(),
            )) {
                push_dyn_name(dyn_names, name);
            }
        },
    }
}

/// Puts the groups of a partitioned props object together.
fn assemble(
    filename: &str,
    span: Span,
    with_spread: bool,
    leading: Vec<PropOrSpread>,
    c_props: Vec<PropOrSpread>,
    d_props: Vec<PropOrSpread>,
    dyn_names: Vec<String>,
    special_props: Vec<PropOrSpread>,
) -> (r: Vec<PropOrSpread>)
    ensures
        crate::ast::props_view(r@) == ({
            let css = crate::ast::props_view(c_props@);
            let dom = crate::ast::props_view(d_props@);
            let names = names_view(dyn_names@);
            seq![marker("2"@)] + crate::ast::props_view(leading@) + only_if(
                css.len() > 0,
                bucket("__meo$c"@, css),
            ) + only_if(dom.len() > 0, bucket("__meo$d"@, dom)) + only_if(
                !with_spread,
                key_entry(filename@, span),
            ) + only_if(!with_spread && names.len() > 0, dyn_entry(names))
                + crate::ast::props_view(special_props@)
        }),
{
    let ghost css = crate::ast::props_view(c_props@);
    let ghost dom = crate::ast::props_view(d_props@);
    let ghost names = names_view(dyn_names@);
    let mut leading = leading;
    let mut special_props = special_props;
    let mut out: Vec<PropOrSpread> = Vec::new();
    push_entry(&mut out, marker_prop("2"));
    append_entries(&mut out, &mut leading);
    if c_props.len() > 0 {
        push_entry(&mut out, bucket_prop("__meo$c", c_props));
    }
    if d_props.len() > 0 {
        push_entry(&mut out, bucket_prop("__meo$d", d_props));
    }
    if !with_spread {
        push_entry(&mut out, key_prop(filename, span));
        if dyn_names.len() > 0 {
            push_entry(&mut out, dyn_prop(dyn_names));
        }
    }
    append_entries(&mut out, &mut special_props);
    out
}

fn push_entry(out: &mut Vec<PropOrSpread>, entry: PropOrSpread)
    ensures
        crate::ast::props_view(final(out)@) == crate::ast::props_view(old(out)@) + seq![entry@],
{
    proof {
        crate::ast::lemma_props_push(out@, entry);
    }
    let ghost before = crate::ast::props_view(out@);
    out.push(entry);
    assert(before.push(entry@) =~= before + seq![entry@]);
}

fn append_entries(out: &mut Vec<PropOrSpread>, entries: &mut Vec<PropOrSpread>)
    ensures
        crate::ast::props_view(final(out)@) == crate::ast::props_view(old(out)@)
            + crate::ast::props_view(old(entries)@),
{
    proof {
        crate::ast::lemma_props_concat(out@, entries@);
    }
    out.append(entries);
}

/// Partitions a props object. `span` is the span of the call, not that of the
/// object literal.
pub fn rewrite_object(obj: &mut ObjectLit, filename: &str, span: Span, catalog: &Catalog)
    requires
        crate::placement::all_placeable(old(obj)@),
    ensures
        final(obj)@ == partitioned(old(obj)@, filename@, span, catalog@),
{
    let ghost source = obj@;
    let mut old_props: Vec<PropOrSpread> = Vec::new();
    core::mem::swap(&mut obj.props, &mut old_props);
    let ghost entries = old_props@;
    let with_spread = contains_spread(&old_props);
    let mut leading: Vec<PropOrSpread> = Vec::new();
    let mut c_props: Vec<PropOrSpread> = Vec::new();
    let mut d_props: Vec<PropOrSpread> = Vec::new();
    let mut special_props: Vec<PropOrSpread> = Vec::new();
    let mut dyn_names: Vec<String> = Vec::new();
    for entry in it: old_props
        invariant
            it.seq() == entries,
            source == crate::ast::props_view(entries),
            crate::placement::all_placeable(source),
            crate::ast::props_view(leading@) == group(
                source.take(it.index()),
                EmitRank::Spread,
                with_spread,
                catalog@,
            ),
            crate::ast::props_view(c_props@) == group(
                source.take(it.index()),
                EmitRank::Css,
                with_spread,
                catalog@,
            ),
            crate::ast::props_view(d_props@) == group(
                source.take(it.index()),
                EmitRank::Data,
                with_spread,
                catalog@,
            ),
            crate::ast::props_view(special_props@) == group(
                source.take(it.index()),
                EmitRank::Special,
                with_spread,
                catalog@,
            ),
            names_view(dyn_names@) == dynamic_names(source.take(it.index())),
    {
        let ghost n = it.index();
        assert(entry@ == source[n]);
        assert(source.take(n + 1).drop_last() == source.take(n));
        assert(source.take(n + 1).last() == entry@);
        note_dynamic(&entry, &mut dyn_names);
        proof {
            crate::ast::lemma_props_push(leading@, entry);
            crate::ast::lemma_props_push(c_props@, entry);
            crate::ast::lemma_props_push(d_props@, entry);
            crate::ast::lemma_props_push(special_props@, entry);
        }
        match rank_for_prop(&entry, with_spread, catalog) {
            EmitRank::Spread => leading.push(entry),
            EmitRank::Css => c_props.push(entry),
            EmitRank::Data => d_props.push(entry),
            EmitRank::Special => special_props.push(entry),
        }
    }
    assert(source.take(entries.len() as int) == source);
    rewrite_theme_tokens_in_bucket(&mut c_props);
    rewrite_theme_tokens_in_bucket(&mut d_props);
    obj.props = assemble(
        filename,
        span,
        with_spread,
        leading,
        c_props,
        d_props,
        dyn_names,
        special_props,
    );
}

/// Appends the marker and the call-site key to a props object, and leaves
/// everything else in place.
pub fn stamp_call_site_key(obj: &mut ObjectLit, filename: &str, span: Span)
    ensures
        final(obj)@ == stamped(old(obj)@, filename@, span),
{
    push_entry(&mut obj.props, marker_prop("3"));
    push_entry(&mut obj.props, key_prop(filename, span));
    assert(obj@ =~= stamped(old(obj)@, filename@, span));
}

/// A program with every call rewritten that detection finds fit for it.
pub open spec fn transformed(
    program: Seq<SpecNode>,
    filename: Seq<char>,
    modules: Set<Seq<char>>,
    catalog: SpecCatalog,
) -> Seq<SpecNode> {
    crate::rewrite::new_nodes(
        program,
        crate::rewrite::SpecRewriter {
            decisions: crate::detect::decisions_of(
                crate::detect::PropsRule::Ordered,
                program,
                modules,
                catalog,
            ),
            filename,
            catalog,
        },
    )
}

/// Whether there is anything to rewrite.
fn any_targets(decisions: &Vec<CallSiteDecision>) -> (r: bool)
    ensures
        r == exists|i: int|
            0 <= i < decisions@.len() && !((#[trigger] decisions@[i]).decision is Bail),
{
    let mut i: usize = 0;
    while i < decisions.len()
        invariant
            i <= decisions@.len(),
            forall|j: int| 0 <= j < i ==> (#[trigger] decisions@[j]).decision is Bail,
        decreases decisions.len() - i,
    {
        if !matches!(decisions[i].decision, Decision::Bail(_)) {
            return true;
        }
        i += 1;
    }
    false
}

/// Runs detection over a program, and rewrites every props object that it
/// finds fit for partitioning or for a call-site key. Where there is none, the
/// program is not walked again.
///
/// Calls are told apart by their spans. Where two share a span, both are
/// rewritten alike, so if one is to be partitioned, neither may hold an entry
/// that cannot be placed.
pub fn transform_program(
    program: &mut Program,
    filename: &str,
    config: &CompileConfig,
    catalog: &Catalog,
)
    requires
        crate::rewrite::rewritable(
            old(program)@,
            crate::detect::decisions_of(
                crate::detect::PropsRule::Ordered,
                old(program)@,
                config@,
                catalog@,
            ),
        ),
    ensures
        final(program)@ == transformed(old(program)@, filename@, config@, catalog@),
{
    let decisions = detect_with_config(program, config, catalog);
    if !any_targets(&decisions) {
        proof {
            crate::program_laws::law_nothing_to_do(program@, filename@, config@, catalog@);
        }
        return ;
    }
    let rewriter = Rewriter { decisions: &decisions, filename, catalog };
    rewriter.rewrite_nodes(&mut program.body);
}

/// Does what [`transform_program`] does, for any program. Where two calls share
/// a span and one of them cannot be rewritten as detection decided on the
/// other, the program stays as it is, and the result is `false`.
pub fn try_transform_program(
    program: &mut Program,
    filename: &str,
    config: &CompileConfig,
    catalog: &Catalog,
) -> (r: bool)
    ensures
        r == crate::rewrite::rewritable(
            old(program)@,
            crate::detect::decisions_of(
                crate::detect::PropsRule::Ordered,
                old(program)@,
                config@,
                catalog@,
            ),
        ),
        r ==> final(program)@ == transformed(old(program)@, filename@, config@, catalog@),
        !r ==> final(program)@ == old(program)@,
{
    let decisions = detect_with_config(program, config, catalog);
    let rewriter = Rewriter { decisions: &decisions, filename, catalog };
    if !rewriter.can_rewrite(program) {
        return false;
    }
    rewriter.rewrite_nodes(&mut program.body);
    true
}

/// What the entries of an object literal hold, one after the other, by what
/// each holds.
pub open spec fn gathered<T>(
    props: Seq<SpecEntry>,
    held: spec_fn(SpecEntry) -> Seq<T>,
) -> Seq<T>
    decreases props.len(),
{
    if props.len() == 0 {
        Seq::empty()
    } else {
        gathered(props.drop_last(), held) + held(props.last())
    }
}

pub proof fn lemma_gathered_concat<T>(
    a: Seq<SpecEntry>,
    b: Seq<SpecEntry>,
    held: spec_fn(SpecEntry) -> Seq<T>,
)
    ensures
        gathered(a + b, held) == gathered(a, held) + gathered(b, held),
    decreases b.len(),
{
    if b.len() == 0 {
        assert(a + b =~= a);
    } else {
        lemma_gathered_concat(a, b.drop_last(), held);
        assert((a + b).drop_last() =~= a + b.drop_last());
        assert((a + b).last() == b.last());
    }
    assert(gathered(a + b, held) =~= gathered(a, held) + gathered(b, held));
}

pub proof fn lemma_gathered_one<T>(entry: SpecEntry, held: spec_fn(SpecEntry) -> Seq<T>)
    ensures
        gathered(seq![entry], held) == held(entry),
{
    assert(seq![entry].drop_last() =~= Seq::empty());
    assert(gathered(seq![entry].drop_last(), held) =~= Seq::empty());
    assert(gathered(seq![entry], held) =~= held(entry));
}

proof fn lemma_gathered_themed<T>(props: Seq<SpecEntry>, held: spec_fn(SpecEntry) -> Seq<T>)
    requires
        forall|entry: SpecEntry| #[trigger] held(themed(entry)) == held(entry),
    ensures
        gathered(themed_all(props), held) == gathered(props, held),
    decreases props.len(),
{
    if props.len() > 0 {
        lemma_gathered_themed(props.drop_last(), held);
        assert(themed_all(props).drop_last() =~= themed_all(props.drop_last()));
        assert(themed_all(props).last() == themed(props.last()));
    }
}

/// A bucket holds what the entries of its group hold.
proof fn lemma_gathered_bucket<T>(
    name: Seq<char>,
    props: Seq<SpecEntry>,
    at: EmitRank,
    catalog: SpecCatalog,
    held: spec_fn(SpecEntry) -> Seq<T>,
)
    requires
        forall|entry: SpecEntry| #[trigger] held(themed(entry)) == held(entry),
        forall|entries: Seq<SpecEntry>| #[trigger]
            held(bucket(name, entries)) == gathered(entries, held),
    ensures
        gathered(bucket_part(name, props, at, catalog), held) == gathered(
            group(props, at, crate::placement::has_spread(props), catalog),
            held,
        ),
{
    let entries = group(props, at, crate::placement::has_spread(props), catalog);
    lemma_gathered_themed(entries, held);
    lemma_gathered_one(bucket(name, themed_all(entries)), held);
    assert(gathered(bucket_part(name, props, at, catalog), held) =~= gathered(entries, held));
}

/// A partitioned props object holds what its four groups hold, one after the
/// other, where the new entries hold nothing of their own.
pub proof fn lemma_gathered_partitioned<T>(
    props: Seq<SpecEntry>,
    filename: Seq<char>,
    span: Span,
    catalog: SpecCatalog,
    held: spec_fn(SpecEntry) -> Seq<T>,
)
    requires
        forall|entry: SpecEntry| #[trigger] held(themed(entry)) == held(entry),
        forall|name: Seq<char>, entries: Seq<SpecEntry>| #[trigger]
            held(bucket(name, entries)) == gathered(entries, held),
        held(marker("2"@)).len() == 0,
        held(key_entry(filename, span)).len() == 0,
        held(dyn_entry(dynamic_names(props))).len() == 0,
    ensures
        ({
            let with_spread = crate::placement::has_spread(props);
            gathered(partitioned(props, filename, span, catalog), held) == gathered(
                group(props, EmitRank::Spread, with_spread, catalog),
                held,
            ) + gathered(group(props, EmitRank::Css, with_spread, catalog), held) + gathered(
                group(props, EmitRank::Data, with_spread, catalog),
                held,
            ) + gathered(group(props, EmitRank::Special, with_spread, catalog), held)
        }),
{
    let with_spread = crate::placement::has_spread(props);
    let lead = group(props, EmitRank::Spread, with_spread, catalog);
    let css = group(props, EmitRank::Css, with_spread, catalog);
    let dom = group(props, EmitRank::Data, with_spread, catalog);
    let special = group(props, EmitRank::Special, with_spread, catalog);
    let c_part = bucket_part("__meo$c"@, props, EmitRank::Css, catalog);
    let d_part = bucket_part("__meo$d"@, props, EmitRank::Data, catalog);
    let k_part = key_part(props, filename, span);
    let n_part = names_part(props);
    let p0 = seq![marker("2"@)];
    lemma_gathered_concat(p0, lead, held);
    lemma_gathered_concat(p0 + lead, c_part, held);
    lemma_gathered_concat(p0 + lead + c_part, d_part, held);
    lemma_gathered_concat(p0 + lead + c_part + d_part, k_part, held);
    lemma_gathered_concat(p0 + lead + c_part + d_part + k_part, n_part, held);
    lemma_gathered_concat(p0 + lead + c_part + d_part + k_part + n_part, special, held);
    lemma_gathered_one(marker("2"@), held);
    lemma_gathered_one(key_entry(filename, span), held);
    lemma_gathered_one(dyn_entry(dynamic_names(props)), held);
    lemma_gathered_bucket("__meo$c"@, props, EmitRank::Css, catalog, held);
    lemma_gathered_bucket("__meo$d"@, props, EmitRank::Data, catalog, held);
    assert(gathered(p0, held) =~= Seq::empty());
    assert(gathered(k_part, held) =~= Seq::empty());
    assert(gathered(n_part, held) =~= Seq::empty());
    assert(gathered(partitioned(props, filename, span, catalog), held) =~= gathered(lead, held)
        + gathered(css, held) + gathered(dom, held) + gathered(special, held));
}

/// A props object that is given a key holds what it held before.
pub proof fn lemma_gathered_stamped<T>(
    props: Seq<SpecEntry>,
    filename: Seq<char>,
    span: Span,
    held: spec_fn(SpecEntry) -> Seq<T>,
)
    requires
        held(marker("3"@)).len() == 0,
        held(key_entry(filename, span)).len() == 0,
    ensures
        gathered(stamped(props, filename, span), held) == gathered(props, held),
{
    let m = seq![marker("3"@)];
    let k = seq![key_entry(filename, span)];
    lemma_gathered_concat(props, m, held);
    lemma_gathered_concat(props + m, k, held);
    lemma_gathered_one(marker("3"@), held);
    lemma_gathered_one(key_entry(filename, span), held);
    assert(stamped(props, filename, span) =~= props + m + k);
    assert(gathered(stamped(props, filename, span), held) =~= gathered(props, held));
}

} // verus!
