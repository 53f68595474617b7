//! The order in which an object literal is evaluated, and what partitioning
//! does to it.
//!
//! An object literal evaluates its entries one after the other. Most entries
//! take one step that could be noticed to move: a spread, an identifier that
//! is read, a call. Literals and functions written in place take none. A
//! nested object or array literal takes the steps of its parts. So moving
//! entries into a bucket, which is a nested object literal, changes nothing
//! but the order of the steps.
use crate::ast::{Span, UnaryOp};
use crate::catalog::SpecCatalog;
use crate::model::{SpecArg, SpecEntry, SpecExpr, SpecIdent, SpecKey, SpecProp};
use crate::order::EmitRank;
use vstd::prelude::*;

verus! {

/// One step of the evaluation of an object literal.
pub enum SpecStep {
    /// The contents of a value are copied.
    Spread(SpecExpr),
    /// A binding is read.
    Read(SpecIdent),
    /// A computed key is evaluated.
    Key(SpecExpr),
    /// Any other expression is evaluated, as a whole.
    Value(SpecExpr),
    /// Any other entry is defined, under a key that may be computed: a getter,
    /// a setter, a method.
    Define(SpecProp),
}

/// A numeric literal, inside whatever parentheses.
pub open spec fn number_literal(e: SpecExpr) -> bool
    decreases e,
{
    match e {
        SpecExpr::Paren(inner) => number_literal(*inner),
        SpecExpr::Lit(l) => l is Num,
        _ => false,
    }
}

/// The steps of an expression. Literals, signed numbers, templates without
/// substitutions and functions written in place take none.
pub open spec fn steps_of_expr(e: SpecExpr) -> Seq<SpecStep>
    decreases e,
{
    match e {
        SpecExpr::Paren(inner) => steps_of_expr(*inner),
        SpecExpr::Object(props) => steps_of_props(props),
        SpecExpr::Array { elems } => steps_of_elems(elems),
        SpecExpr::Lit(_) => Seq::empty(),
        SpecExpr::Arrow(_) => Seq::empty(),
        SpecExpr::Fn(_) => Seq::empty(),
        SpecExpr::Tpl { exprs } => if exprs.len() == 0 {
            Seq::empty()
        } else {
            seq![SpecStep::Value(e)]
        },
        SpecExpr::Unary { op, arg } => if (op == UnaryOp::Minus || op == UnaryOp::Plus)
            && number_literal(*arg) {
            Seq::empty()
        } else {
            seq![SpecStep::Value(e)]
        },
        SpecExpr::Ident(_) => seq![SpecStep::Value(e)],
        SpecExpr::Call(_) => seq![SpecStep::Value(e)],
        SpecExpr::Member { .. } => seq![SpecStep::Value(e)],
        SpecExpr::Other(_) => seq![SpecStep::Value(e)],
    }
}

pub open spec fn steps_of_entry(entry: SpecEntry) -> Seq<SpecStep>
    decreases entry,
{
    match entry {
        SpecEntry::Spread { expr, .. } => seq![SpecStep::Spread(expr)],
        SpecEntry::Prop { prop, .. } => match prop {
            SpecProp::Shorthand(id) => seq![SpecStep::Read(id)],
            SpecProp::KeyValue { key, value } => (match key {
                SpecKey::Computed(e) => seq![SpecStep::Key(*e)],
                _ => Seq::empty(),
            }) + steps_of_expr(value),
            _ => seq![SpecStep::Define(prop)],
        },
    }
}

pub open spec fn steps_of_elem(elem: Option<SpecArg>) -> Seq<SpecStep>
    decreases elem,
{
    match elem {
        None => Seq::empty(),
        Some(arg) => if arg.spread {
            seq![SpecStep::Spread(arg.expr)]
        } else {
            steps_of_expr(arg.expr)
        },
    }
}

/// The steps of the entries of an object literal, in order.
pub open spec fn steps_of_props(props: Seq<SpecEntry>) -> Seq<SpecStep>
    decreases props,
{
    if props.len() == 0 {
        Seq::empty()
    } else {
        steps_of_props(props.drop_last()) + steps_of_entry(props.last())
    }
}

pub open spec fn steps_of_elems(elems: Seq<Option<SpecArg>>) -> Seq<SpecStep>
    decreases elems,
{
    if elems.len() == 0 {
        Seq::empty()
    } else {
        steps_of_elems(elems.drop_last()) + steps_of_elem(elems.last())
    }
}

/// The steps of each entry.
pub open spec fn entry_steps() -> spec_fn(SpecEntry) -> Seq<SpecStep> {
    |entry: SpecEntry| steps_of_entry(entry)
}

proof fn lemma_steps_gathered(props: Seq<SpecEntry>)
    ensures
        steps_of_props(props) == crate::partition::gathered(props, entry_steps()),
    decreases props.len(),
{
    if props.len() > 0 {
        lemma_steps_gathered(props.drop_last());
    }
}

proof fn lemma_steps_push(a: Seq<SpecEntry>, entry: SpecEntry)
    ensures
        steps_of_props(a.push(entry)) == steps_of_props(a) + steps_of_entry(entry),
{
    assert(a.push(entry).drop_last() =~= a);
}

pub proof fn lemma_number_literal(e: SpecExpr)
    ensures
        number_literal(e) <==> (crate::effect::unparen(e) matches SpecExpr::Lit(l) && l is Num),
    decreases e,
{
    match e {
        SpecExpr::Paren(inner) => lemma_number_literal(*inner),
        _ => {},
    }
}

/// An inert value takes no step.
proof fn lemma_inert_takes_no_step(e: SpecExpr)
    requires
        crate::effect::order_inert(e),
    ensures
        steps_of_expr(e) == Seq::<SpecStep>::empty(),
    decreases e,
{
    match e {
        SpecExpr::Paren(inner) => lemma_inert_takes_no_step(*inner),
        SpecExpr::Unary { op, arg } => lemma_number_literal(*arg),
        _ => {},
    }
}

proof fn lemma_insensitive_takes_no_step(entry: SpecEntry)
    requires
        crate::placement::placeable(entry),
        !crate::placement::order_sensitive(entry),
    ensures
        steps_of_entry(entry) == Seq::<SpecStep>::empty(),
{
    match entry {
        SpecEntry::Prop { prop: SpecProp::KeyValue { key, value }, .. } => {
            reveal_with_fuel(steps_of_entry, 2);
            lemma_inert_takes_no_step(value);
            assert(steps_of_entry(entry) =~= Seq::empty());
        },
        _ => {},
    }
}

proof fn lemma_themed_value_steps(e: SpecExpr)
    ensures
        steps_of_expr(crate::partition::themed_value(e)) == steps_of_expr(e),
    decreases e,
{
    match e {
        SpecExpr::Paren(inner) => lemma_themed_value_steps(*inner),
        _ => {},
    }
}

proof fn lemma_themed_entry_steps(entry: SpecEntry)
    ensures
        steps_of_entry(crate::partition::themed(entry)) == steps_of_entry(entry),
{
    match entry {
        SpecEntry::Prop { prop: SpecProp::KeyValue { key, value }, .. } => {
            lemma_themed_value_steps(value);
            reveal_with_fuel(steps_of_entry, 2);
        },
        _ => {},
    }
}

proof fn lemma_bucket_steps(name: Seq<char>, entries: Seq<SpecEntry>)
    ensures
        steps_of_entry(crate::partition::bucket(name, entries)) == steps_of_props(entries),
{
    reveal_with_fuel(steps_of_entry, 3);
    assert(steps_of_entry(crate::partition::bucket(name, entries)) =~= steps_of_props(entries));
}

/// The marker and the call-site key take no step.
proof fn lemma_new_entries_take_no_step(schema: Seq<char>, filename: Seq<char>, span: Span)
    ensures
        steps_of_entry(crate::partition::marker(schema)).len() == 0,
        steps_of_entry(crate::partition::key_entry(filename, span)).len() == 0,
{
    reveal_with_fuel(steps_of_entry, 3);
}

/// A list of strings takes no step.
proof fn lemma_names_take_no_step(names: Seq<Seq<char>>)
    ensures
        steps_of_elems(
            names.map_values(
                |name: Seq<char>|
                    Some(SpecArg { spread: false, expr: crate::partition::new_str(name) }),
            ),
        ) == Seq::<SpecStep>::empty(),
    decreases names.len(),
{
    let f = |name: Seq<char>|
        Some(SpecArg { spread: false, expr: crate::partition::new_str(name) });
    let elems = names.map_values(f);
    if names.len() > 0 {
        lemma_names_take_no_step(names.drop_last());
        assert(elems.drop_last() =~= names.drop_last().map_values(f));
        assert(elems.last() == f(names.last()));
        lemma_inert_takes_no_step(crate::partition::new_str(names.last()));
        assert(steps_of_elem(elems.last()) =~= Seq::empty());
        assert(steps_of_elems(elems) =~= Seq::empty());
    }
}

/// The steps of the four groups of entries, in the order in which they are
/// emitted.
pub open spec fn grouped_steps(
    props: Seq<SpecEntry>,
    with_spread: bool,
    catalog: SpecCatalog,
) -> Seq<SpecStep> {
    group_steps(props, EmitRank::Spread, with_spread, catalog) + group_steps(
        props,
        EmitRank::Css,
        with_spread,
        catalog,
    ) + group_steps(props, EmitRank::Data, with_spread, catalog) + group_steps(
        props,
        EmitRank::Special,
        with_spread,
        catalog,
    )
}

pub open spec fn group_steps(
    props: Seq<SpecEntry>,
    at: EmitRank,
    with_spread: bool,
    catalog: SpecCatalog,
) -> Seq<SpecStep> {
    steps_of_props(crate::partition::group(props, at, with_spread, catalog))
}

/// A partitioned object literal takes the steps of the four groups, and no
/// others.
proof fn lemma_partitioned_steps(
    props: Seq<SpecEntry>,
    filename: Seq<char>,
    span: Span,
    catalog: SpecCatalog,
)
    ensures
        steps_of_props(crate::partition::partitioned(props, filename, span, catalog))
            == grouped_steps(props, crate::placement::has_spread(props), catalog),
{
    let with_spread = crate::placement::has_spread(props);
    let names = crate::partition::dynamic_names(props);
    let f = entry_steps();
    assert forall|entry: SpecEntry| #[trigger] f(crate::partition::themed(entry)) == f(entry) by {
        lemma_themed_entry_steps(entry);
    }
    assert forall|name: Seq<char>, entries: Seq<SpecEntry>| #[trigger]
        f(crate::partition::bucket(name, entries)) == crate::partition::gathered(entries, f) by {
        lemma_bucket_steps(name, entries);
        lemma_steps_gathered(entries);
    }
    lemma_new_entries_take_no_step("2"@, filename, span);
    assert(f(crate::partition::dyn_entry(names)).len() == 0) by {
        lemma_names_take_no_step(names);
        reveal_with_fuel(steps_of_entry, 3);
    }
    crate::partition::lemma_gathered_partitioned(props, filename, span, catalog, f);
    lemma_steps_gathered(crate::partition::partitioned(props, filename, span, catalog));
    lemma_steps_gathered(crate::partition::group(props, EmitRank::Spread, with_spread, catalog));
    lemma_steps_gathered(crate::partition::group(props, EmitRank::Css, with_spread, catalog));
    lemma_steps_gathered(crate::partition::group(props, EmitRank::Data, with_spread, catalog));
    lemma_steps_gathered(crate::partition::group(props, EmitRank::Special, with_spread, catalog));
}

/// Where no order-sensitive entry is emitted later than in a group, the groups
/// behind it take no step.
proof fn lemma_later_groups_take_no_step(
    props: Seq<SpecEntry>,
    bound: EmitRank,
    at: EmitRank,
    with_spread: bool,
    catalog: SpecCatalog,
)
    requires
        crate::placement::all_placeable(props),
        bound.position() < at.position(),
        forall|i: int|
            0 <= i < crate::validate::sensitive_ranks(props, with_spread, catalog).len() ==> (
            #[trigger] crate::validate::sensitive_ranks(
                props,
                with_spread,
                catalog,
            )[i]).position() <= bound.position(),
    ensures
        group_steps(props, at, with_spread, catalog) == Seq::<SpecStep>::empty(),
    decreases props.len(),
{
    if props.len() > 0 {
        let rest = props.drop_last();
        let x = props.last();
        let ranks = crate::validate::sensitive_ranks(props, with_spread, catalog);
        let rest_ranks = crate::validate::sensitive_ranks(rest, with_spread, catalog);
        assert(crate::placement::placeable(props[props.len() - 1]));
        assert forall|i: int| 0 <= i < rest_ranks.len() implies (
        #[trigger] rest_ranks[i]).position() <= bound.position() by {
            assert(ranks[i] == rest_ranks[i]);
        }
        lemma_later_groups_take_no_step(rest, bound, at, with_spread, catalog);
        if crate::placement::rank(x, with_spread, catalog) == at {
            if crate::placement::order_sensitive(x) {
                assert(ranks[rest_ranks.len() as int] == at);
            } else {
                lemma_insensitive_takes_no_step(x);
                lemma_steps_push(
                    crate::partition::group(rest, at, with_spread, catalog),
                    x,
                );
            }
        }
    }
}

/// Where the order-sensitive entries are written in the order in which they
/// are emitted, the groups take the steps of the source, in its order.
proof fn lemma_sorted_groups_keep_steps(
    props: Seq<SpecEntry>,
    with_spread: bool,
    catalog: SpecCatalog,
)
    requires
        crate::placement::all_placeable(props),
        crate::order::non_decreasing(
            crate::validate::sensitive_ranks(props, with_spread, catalog),
        ),
    ensures
        grouped_steps(props, with_spread, catalog) == steps_of_props(props),
    decreases props.len(),
{
    if props.len() == 0 {
        assert(grouped_steps(props, with_spread, catalog) =~= steps_of_props(props));
    } else {
        let rest = props.drop_last();
        let x = props.last();
        let rho = crate::placement::rank(x, with_spread, catalog);
        let ranks = crate::validate::sensitive_ranks(props, with_spread, catalog);
        let rest_ranks = crate::validate::sensitive_ranks(rest, with_spread, catalog);
        assert(crate::placement::placeable(props[props.len() - 1]));
        assert(crate::order::non_decreasing(rest_ranks)) by {
            assert forall|i: int, j: int| 0 <= i < j < rest_ranks.len() implies (
            #[trigger] rest_ranks[i]).position() <= (#[trigger] rest_ranks[j]).position() by {
                assert(ranks[i] == rest_ranks[i]);
                assert(ranks[j] == rest_ranks[j]);
            }
        }
        lemma_sorted_groups_keep_steps(rest, with_spread, catalog);
        lemma_steps_push(crate::partition::group(rest, rho, with_spread, catalog), x);
        if crate::placement::order_sensitive(x) {
            assert forall|i: int| 0 <= i < rest_ranks.len() implies (
            #[trigger] rest_ranks[i]).position() <= rho.position() by {
                assert(ranks[i] == rest_ranks[i]);
                assert(ranks[rest_ranks.len() as int] == rho);
            }
            if rho.position() < EmitRank::Css.position() {
                lemma_later_groups_take_no_step(rest, rho, EmitRank::Css, with_spread, catalog);
            }
            if rho.position() < EmitRank::Data.position() {
                lemma_later_groups_take_no_step(rest, rho, EmitRank::Data, with_spread, catalog);
            }
            if rho.position() < EmitRank::Special.position() {
                lemma_later_groups_take_no_step(rest, rho, EmitRank::Special, with_spread, catalog);
            }
        } else {
            lemma_insensitive_takes_no_step(x);
        }
        assert(grouped_steps(props, with_spread, catalog) =~= steps_of_props(props));
    }
}

/// The groups take the steps of the source, in whatever order.
proof fn lemma_groups_take_all_steps(
    props: Seq<SpecEntry>,
    with_spread: bool,
    catalog: SpecCatalog,
)
    ensures
        grouped_steps(props, with_spread, catalog).to_multiset() =~= steps_of_props(
            props,
        ).to_multiset(),
    decreases props.len(),
{
    let all = grouped_steps(props, with_spread, catalog);
    if props.len() == 0 {
        assert(all =~= steps_of_props(props));
    } else {
        let rest = props.drop_last();
        let x = props.last();
        let rho = crate::placement::rank(x, with_spread, catalog);
        lemma_groups_take_all_steps(rest, with_spread, catalog);
        lemma_steps_push(crate::partition::group(rest, rho, with_spread, catalog), x);
        lemma_four_multisets(
            group_steps(rest, EmitRank::Spread, with_spread, catalog),
            group_steps(rest, EmitRank::Css, with_spread, catalog),
            group_steps(rest, EmitRank::Data, with_spread, catalog),
            group_steps(rest, EmitRank::Special, with_spread, catalog),
        );
        lemma_four_multisets(
            group_steps(props, EmitRank::Spread, with_spread, catalog),
            group_steps(props, EmitRank::Css, with_spread, catalog),
            group_steps(props, EmitRank::Data, with_spread, catalog),
            group_steps(props, EmitRank::Special, with_spread, catalog),
        );
        vstd::seq_lib::lemma_multiset_commutative(
            group_steps(rest, rho, with_spread, catalog),
            steps_of_entry(x),
        );
        vstd::seq_lib::lemma_multiset_commutative(steps_of_props(rest), steps_of_entry(x));
    }
}

proof fn lemma_four_multisets(
    a: Seq<SpecStep>,
    b: Seq<SpecStep>,
    c: Seq<SpecStep>,
    d: Seq<SpecStep>,
)
    ensures
        (a + b + c + d).to_multiset() =~= a.to_multiset().add(b.to_multiset()).add(
            c.to_multiset(),
        ).add(d.to_multiset()),
{
    vstd::seq_lib::lemma_multiset_commutative(a, b);
    vstd::seq_lib::lemma_multiset_commutative(a + b, c);
    vstd::seq_lib::lemma_multiset_commutative(a + b + c, d);
}

/// Where a value of an accepted props object has an effect, partitioning
/// leaves the order of evaluation as it is: the partitioned object takes the
/// same steps in the same order.
pub proof fn law_effects_keep_their_order(
    props: Seq<SpecEntry>,
    filename: Seq<char>,
    span: Span,
    catalog: SpecCatalog,
)
    requires
        crate::validate::ordered_reason(props, catalog) is None,
        crate::validate::has_effect(props),
    ensures
        steps_of_props(crate::partition::partitioned(props, filename, span, catalog))
            == steps_of_props(props),
{
    crate::validate::law_accepted_can_be_placed(props, catalog);
    lemma_partitioned_steps(props, filename, span, catalog);
    lemma_sorted_groups_keep_steps(props, crate::placement::has_spread(props), catalog);
}

/// Partitioning neither loses a step nor adds one, whatever the object.
pub proof fn law_no_step_is_lost_or_added(
    props: Seq<SpecEntry>,
    filename: Seq<char>,
    span: Span,
    catalog: SpecCatalog,
)
    ensures
        steps_of_props(crate::partition::partitioned(props, filename, span, catalog)).to_multiset()
            == steps_of_props(props).to_multiset(),
{
    lemma_partitioned_steps(props, filename, span, catalog);
    lemma_groups_take_all_steps(props, crate::placement::has_spread(props), catalog);
}

/// A call-site key takes no step of its own, and comes behind all others.
pub proof fn law_stamping_keeps_all_steps(props: Seq<SpecEntry>, filename: Seq<char>, span: Span)
    ensures
        steps_of_props(crate::partition::stamped(props, filename, span)) == steps_of_props(props),
        crate::partition::stamped(props, filename, span).take(props.len() as int) == props,
{
    lemma_new_entries_take_no_step("3"@, filename, span);
    crate::partition::lemma_gathered_stamped(props, filename, span, entry_steps());
    lemma_steps_gathered(props);
    lemma_steps_gathered(crate::partition::stamped(props, filename, span));
    assert(crate::partition::stamped(props, filename, span).take(props.len() as int) =~= props);
}

proof fn lemma_leading_spreads(
    props: Seq<SpecEntry>,
    n: int,
    with_spread: bool,
    catalog: SpecCatalog,
)
    requires
        0 <= n <= props.len(),
        forall|i: int| 0 <= i < n ==> (#[trigger] props[i]) is Spread,
    ensures
        crate::partition::group(props, EmitRank::Spread, with_spread, catalog).len() >= n,
        crate::partition::group(props, EmitRank::Spread, with_spread, catalog).take(n)
            == props.take(n),
    decreases props.len(),
{
    let lead = crate::partition::group(props, EmitRank::Spread, with_spread, catalog);
    if props.len() > 0 {
        let rest = props.drop_last();
        if n == props.len() {
            lemma_leading_spreads(rest, n - 1, with_spread, catalog);
            assert(props.last() == props[n - 1]);
            assert(lead.take(n) =~= props.take(n)) by {
                let shorter = crate::partition::group(rest, EmitRank::Spread, with_spread, catalog);
                lemma_group_no_longer(rest, EmitRank::Spread, with_spread, catalog);
                assert(shorter.take(n - 1) =~= shorter);
                assert(rest.take(n - 1) =~= rest);
            }
        } else {
            lemma_leading_spreads(rest, n, with_spread, catalog);
            assert(rest.take(n) =~= props.take(n));
            assert(lead.take(n) =~= props.take(n)) by {
                let shorter = crate::partition::group(rest, EmitRank::Spread, with_spread, catalog);
                assert(lead.take(n) =~= shorter.take(n));
            }
        }
    } else {
        assert(lead.take(n) =~= props.take(n));
    }
}

proof fn lemma_group_no_longer(
    props: Seq<SpecEntry>,
    at: EmitRank,
    with_spread: bool,
    catalog: SpecCatalog,
)
    ensures
        crate::partition::group(props, at, with_spread, catalog).len() <= props.len(),
    decreases props.len(),
{
    if props.len() > 0 {
        lemma_group_no_longer(props.drop_last(), at, with_spread, catalog);
    }
}

/// The spreads at the front of a props object stay at the front, right behind
/// the marker.
pub proof fn law_leading_spreads_stay_in_front(
    props: Seq<SpecEntry>,
    n: int,
    filename: Seq<char>,
    span: Span,
    catalog: SpecCatalog,
)
    requires
        0 <= n <= props.len(),
        forall|i: int| 0 <= i < n ==> (#[trigger] props[i]) is Spread,
    ensures
        crate::partition::partitioned(props, filename, span, catalog).len() > n,
        crate::partition::partitioned(props, filename, span, catalog).subrange(1, n + 1)
            == props.take(n),
{
    let with_spread = crate::placement::has_spread(props);
    let lead = crate::partition::group(props, EmitRank::Spread, with_spread, catalog);
    lemma_leading_spreads(props, n, with_spread, catalog);
    let out = crate::partition::partitioned(props, filename, span, catalog);
    assert(out.subrange(1, n + 1) =~= lead.take(n));
}

/// A step that nothing notices and that notices nothing but the values of
/// bindings: that a binding is read.
pub open spec fn quiet(step: SpecStep) -> bool {
    match step {
        SpecStep::Spread(_) => false,
        SpecStep::Read(_) => true,
        SpecStep::Key(_) => false,
        SpecStep::Value(e) => e is Ident,
        SpecStep::Define(_) => false,
    }
}

pub open spec fn all_quiet(steps: Seq<SpecStep>) -> bool {
    forall|i: int| 0 <= i < steps.len() ==> quiet(#[trigger] steps[i])
}

proof fn lemma_effect_free_is_quiet(e: SpecExpr)
    requires
        crate::effect::effect_free(e),
    ensures
        all_quiet(steps_of_expr(e)),
    decreases e,
{
    reveal_with_fuel(crate::effect::effect_free, 2);
    match e {
        SpecExpr::Paren(inner) => lemma_effect_free_is_quiet(*inner),
        SpecExpr::Unary { op, arg } => lemma_number_literal(*arg),
        SpecExpr::Object(props) => lemma_effect_free_props_are_quiet(props),
        SpecExpr::Array { elems } => lemma_effect_free_elems_are_quiet(elems),
        _ => {},
    }
}

proof fn lemma_effect_free_props_are_quiet(props: Seq<SpecEntry>)
    requires
        crate::effect::effect_free_entries(props),
    ensures
        all_quiet(steps_of_props(props)),
    decreases props,
{
    if props.len() > 0 {
        let rest = props.drop_last();
        assert forall|i: int| 0 <= i < rest.len() implies crate::effect::effect_free_entry(
            #[trigger] rest[i],
        ) by {
            assert(rest[i] == props[i]);
        }
        lemma_effect_free_props_are_quiet(rest);
        assert(crate::effect::effect_free_entry(props[props.len() - 1]));
        match props.last() {
            SpecEntry::Prop { prop: SpecProp::KeyValue { key, value }, .. } => {
                lemma_effect_free_is_quiet(value);
                assert(steps_of_entry(props.last()) =~= steps_of_expr(value));
            },
            _ => {},
        }
        assert(all_quiet(steps_of_entry(props.last())));
    }
}

proof fn lemma_effect_free_elems_are_quiet(elems: Seq<Option<SpecArg>>)
    requires
        crate::effect::effect_free_elems(elems),
    ensures
        all_quiet(steps_of_elems(elems)),
    decreases elems,
{
    if elems.len() > 0 {
        let rest = elems.drop_last();
        assert forall|i: int| 0 <= i < rest.len() implies crate::effect::effect_free_elem(
            #[trigger] rest[i],
        ) by {
            assert(rest[i] == elems[i]);
        }
        lemma_effect_free_elems_are_quiet(rest);
        assert(crate::effect::effect_free_elem(elems[elems.len() - 1]));
        match elems.last() {
            Some(arg) => lemma_effect_free_is_quiet(arg.expr),
            None => {},
        }
        assert(all_quiet(steps_of_elem(elems.last())));
    }
}

/// A spread of an object literal copies a value.
pub open spec fn spreads(props: Seq<SpecEntry>, e: SpecExpr) -> bool {
    exists|i: int| 0 <= i < props.len() && (#[trigger] props[i]) is Spread && props[i]->Spread_expr == e
}

/// Where no value of an object literal has an effect, every step that it takes
/// is quiet, but for those of its own spreads.
pub proof fn law_without_effects_steps_are_quiet(props: Seq<SpecEntry>)
    requires
        crate::placement::all_placeable(props),
        !crate::validate::has_effect(props),
    ensures
        forall|i: int|
            #![trigger steps_of_props(props)[i]]
            0 <= i < steps_of_props(props).len() ==> quiet(steps_of_props(props)[i]) || (
            steps_of_props(props)[i] is Spread && spreads(
                props,
                steps_of_props(props)[i]->Spread_0,
            )),
    decreases props.len(),
{
    if props.len() > 0 {
        let rest = props.drop_last();
        let x = props.last();
        assert forall|i: int| 0 <= i < rest.len() implies crate::placement::placeable(
            #[trigger] rest[i],
        ) && !crate::validate::effectful_entry(rest[i]) by {
            assert(crate::placement::placeable(props[i]));
            assert(!crate::validate::effectful_entry(props[i]));
        }
        law_without_effects_steps_are_quiet(rest);
        assert(crate::placement::placeable(props[props.len() - 1]));
        assert(!crate::validate::effectful_entry(props[props.len() - 1]));
        match x {
            SpecEntry::Prop { prop: SpecProp::KeyValue { key, value }, .. } => {
                lemma_effect_free_is_quiet(value);
                assert(steps_of_entry(x) =~= steps_of_expr(value));
            },
            _ => {},
        }
        let before = steps_of_props(rest);
        assert forall|i: int| #![trigger steps_of_props(props)[i]]
            0 <= i < steps_of_props(props).len() implies quiet(steps_of_props(props)[i]) || (
        steps_of_props(props)[i] is Spread && spreads(
            props,
            steps_of_props(props)[i]->Spread_0,
        )) by {
            if i < before.len() {
                assert(steps_of_props(props)[i] == before[i]);
                if !quiet(before[i]) {
                    let e = before[i]->Spread_0;
                    let j = choose|j: int|
                        0 <= j < rest.len() && (#[trigger] rest[j]) is Spread
                            && rest[j]->Spread_expr == e;
                    assert(props[j] == rest[j]);
                }
            } else {
                assert(steps_of_props(props)[i] == steps_of_entry(x)[i - before.len()]);
                if x is Spread {
                    assert(props[props.len() - 1] is Spread);
                }
            }
        }
    }
}

/// What the strict rule accepts may have an effect in one place only, the
/// value of a `children` prop that is written last. Its steps stay behind all
/// others, and all others are quiet.
pub proof fn law_strict_children_stay_last(
    props: Seq<SpecEntry>,
    filename: Seq<char>,
    span: Span,
    catalog: SpecCatalog,
)
    requires
        crate::validate::strict_reason(props) is None,
        crate::validate::has_effect(props),
    ensures
        props.len() > 0,
        ({
            let after = steps_of_props(
                crate::partition::partitioned(props, filename, span, catalog),
            );
            let own = steps_of_entry(props.last());
            let others = after.take(after.len() - own.len());
            &&& after.len() >= own.len()
            &&& after == others + own
            &&& others.to_multiset() == steps_of_props(props.drop_last()).to_multiset()
            &&& all_quiet(others)
        }),
{
    let k = choose|k: int|
        0 <= k < props.len() && crate::validate::effectful_entry(#[trigger] props[k]);
    crate::validate::law_strict_rule_finds_effects(props, k);
    let rest = props.drop_last();
    let x = props.last();
    assert(x == props[k]);
    assert(!crate::placement::has_spread(props)) by {
        if crate::placement::has_spread(props) {
            let j = choose|j: int| 0 <= j < props.len() && (#[trigger] props[j]) is Spread;
            crate::validate::law_strict_rule_finds_effects(props, j);
        }
    }
    crate::validate::law_accepted_can_be_placed(props, catalog);
    lemma_partitioned_steps(props, filename, span, catalog);
    let after = grouped_steps(props, false, catalog);
    let own = steps_of_entry(x);
    let others = grouped_steps(rest, false, catalog);
    assert(crate::placement::rank(x, false, catalog) == EmitRank::Special);
    lemma_steps_push(crate::partition::group(rest, EmitRank::Special, false, catalog), x);
    assert(after =~= others + own);
    assert(after.take(after.len() - own.len()) =~= others);
    lemma_groups_take_all_steps(rest, false, catalog);
    assert forall|i: int| 0 <= i < rest.len() implies crate::placement::placeable(
        #[trigger] rest[i],
    ) && !crate::validate::effectful_entry(rest[i]) && rest[i] is Prop by {
        assert(rest[i] == props[i]);
        crate::validate::law_strict_rule_finds_effects(props, i);
        assert(crate::placement::placeable(props[i]));
    }
    law_without_effects_steps_are_quiet(rest);
    let source = steps_of_props(rest);
    assert forall|i: int| 0 <= i < others.len() implies quiet(#[trigger] others[i]) by {
        broadcast use vstd::seq_lib::group_to_multiset_ensures;

        let step = others[i];
        assert(others.contains(step));
        assert(others.to_multiset().count(step) > 0);
        assert(source.to_multiset().count(step) > 0);
        assert(source.contains(step));
        let j = choose|j: int| 0 <= j < source.len() && source[j] == step;
        assert(steps_of_props(rest)[j] == step);
        if !quiet(step) {
            assert(spreads(rest, step->Spread_0));
        }
    }
}

proof fn lemma_effectful_is_loud(e: SpecExpr)
    requires
        !crate::effect::effect_free(e),
    ensures
        !all_quiet(steps_of_expr(e)),
    decreases e,
{
    reveal_with_fuel(crate::effect::effect_free, 2);
    match e {
        SpecExpr::Paren(inner) => lemma_effectful_is_loud(*inner),
        SpecExpr::Object(props) => lemma_effectful_props_are_loud(props),
        SpecExpr::Array { elems } => lemma_effectful_elems_are_loud(elems),
        SpecExpr::Unary { op, arg } => {
            lemma_number_literal(*arg);
            assert(!quiet(steps_of_expr(e)[0]));
        },
        _ => {
            assert(!quiet(steps_of_expr(e)[0]));
        },
    }
}

proof fn lemma_loud_part(a: Seq<SpecStep>, b: Seq<SpecStep>)
    ensures
        all_quiet(a + b) <==> all_quiet(a) && all_quiet(b),
{
    if all_quiet(a + b) {
        assert forall|i: int| 0 <= i < a.len() implies quiet(#[trigger] a[i]) by {
            assert((a + b)[i] == a[i]);
        }
        assert forall|i: int| 0 <= i < b.len() implies quiet(#[trigger] b[i]) by {
            assert((a + b)[a.len() + i] == b[i]);
        }
    }
}

proof fn lemma_effectful_props_are_loud(props: Seq<SpecEntry>)
    requires
        !crate::effect::effect_free_entries(props),
    ensures
        !all_quiet(steps_of_props(props)),
    decreases props,
{
    let rest = props.drop_last();
    let x = props.last();
    lemma_loud_part(steps_of_props(rest), steps_of_entry(x));
    let k = choose|k: int|
        0 <= k < props.len() && !crate::effect::effect_free_entry(#[trigger] props[k]);
    if k < rest.len() {
        assert(!crate::effect::effect_free_entry(rest[k]));
        lemma_effectful_props_are_loud(rest);
    } else {
        match x {
            SpecEntry::Prop { prop: SpecProp::KeyValue { key, value }, .. } => {
                lemma_loud_part(
                    match key {
                        SpecKey::Computed(e) => seq![SpecStep::Key(*e)],
                        _ => Seq::empty(),
                    },
                    steps_of_expr(value),
                );
                if key is Computed {
                    assert(!quiet(seq![SpecStep::Key(*key->Computed_0)][0]));
                } else {
                    lemma_effectful_is_loud(value);
                }
            },
            _ => {
                assert(!quiet(steps_of_entry(x)[0]));
            },
        }
    }
}

proof fn lemma_effectful_elems_are_loud(elems: Seq<Option<SpecArg>>)
    requires
        !crate::effect::effect_free_elems(elems),
    ensures
        !all_quiet(steps_of_elems(elems)),
    decreases elems,
{
    let rest = elems.drop_last();
    let x = elems.last();
    lemma_loud_part(steps_of_elems(rest), steps_of_elem(x));
    let k = choose|k: int|
        0 <= k < elems.len() && !crate::effect::effect_free_elem(#[trigger] elems[k]);
    if k < rest.len() {
        assert(!crate::effect::effect_free_elem(rest[k]));
        lemma_effectful_elems_are_loud(rest);
    } else {
        match x {
            Some(arg) => {
                if arg.spread {
                    assert(!quiet(steps_of_elem(x)[0]));
                } else {
                    lemma_effectful_is_loud(arg.expr);
                }
            },
            None => {},
        }
    }
}

/// A value is free of effects exactly if every step of its evaluation is the
/// reading of a binding.
pub proof fn law_effect_free_means_quiet(e: SpecExpr)
    ensures
        crate::effect::effect_free(e) <==> all_quiet(steps_of_expr(e)),
{
    if crate::effect::effect_free(e) {
        lemma_effect_free_is_quiet(e);
    } else {
        lemma_effectful_is_loud(e);
    }
}

/// An order-inert value takes no step, and a value that takes none is either
/// order-inert or made of brackets around such values.
pub proof fn law_inert_means_no_step(e: SpecExpr)
    ensures
        crate::effect::order_inert(e) ==> steps_of_expr(e).len() == 0,
        steps_of_expr(e).len() == 0 ==> crate::effect::order_inert(e)
            || crate::effect::unparen(e) is Object || crate::effect::unparen(e) is Array,
    decreases e,
{
    match e {
        SpecExpr::Paren(inner) => law_inert_means_no_step(*inner),
        SpecExpr::Unary { op, arg } => lemma_number_literal(*arg),
        _ => {},
    }
}

/// Where an accepted props object takes any step that could be noticed, a call
/// say, other than the copying of its own spreads, partitioning leaves all its
/// steps in their order.
pub proof fn law_noticeable_steps_keep_their_order(
    props: Seq<SpecEntry>,
    filename: Seq<char>,
    span: Span,
    catalog: SpecCatalog,
    i: int,
)
    requires
        crate::validate::ordered_reason(props, catalog) is None,
        0 <= i < steps_of_props(props).len(),
        !quiet(steps_of_props(props)[i]),
        steps_of_props(props)[i] matches SpecStep::Spread(e) ==> !spreads(props, e),
    ensures
        steps_of_props(crate::partition::partitioned(props, filename, span, catalog))
            == steps_of_props(props),
{
    crate::validate::law_accepted_can_be_placed(props, catalog);
    if !crate::validate::has_effect(props) {
        law_without_effects_steps_are_quiet(props);
        assert(false);
    }
    law_effects_keep_their_order(props, filename, span, catalog);
}

/// Where every step of a props object is the reading of a binding or the
/// copying of one of its own spreads, the order of evaluation stands against
/// nothing.
pub proof fn law_quiet_objects_are_accepted(props: Seq<SpecEntry>, catalog: SpecCatalog)
    requires
        !crate::validate::has_marker(props),
        crate::validate::first_shape_reason(props, 0) is None,
        forall|i: int|
            0 <= i < props.len() ==> (#[trigger] props[i]) is Spread || all_quiet(
                steps_of_entry(props[i]),
            ),
    ensures
        crate::validate::ordered_reason(props, catalog) is None,
{
    if crate::validate::has_effect(props) {
        let i = choose|i: int|
            0 <= i < props.len() && crate::validate::effectful_entry(#[trigger] props[i]);
        match props[i] {
            SpecEntry::Prop { prop: SpecProp::KeyValue { key, value }, .. } => {
                lemma_effectful_is_loud(value);
                lemma_loud_part(
                    match key {
                        SpecKey::Computed(e) => seq![SpecStep::Key(*e)],
                        _ => Seq::empty(),
                    },
                    steps_of_expr(value),
                );
            },
            _ => {},
        }
    }
}

} // verus!
