//! Which calls are compiled, which are only given a key, and which are left
//! alone, by what is written in them.
use crate::catalog::SpecCatalog;
use crate::detect::{CallSiteDecision, CandidateKind, Decision, PropsRule};
use crate::model::{
    SpecArg, SpecCall, SpecCallee, SpecEntry, SpecExpr, SpecIdent, SpecKey, SpecProp, SpecText,
};
use crate::order::EmitRank;
use crate::validate::BailReason;
use crate::visit::SpecItem;
use vstd::prelude::*;

verus! {

/// An object carries the marker exactly if one of its props is named `__meo$`,
/// quoted or not, wherever it stands and whatever its value.
pub proof fn law_marker_by_name(props: Seq<SpecEntry>)
    ensures
        crate::validate::has_marker(props) <==> exists|i: int|
            0 <= i < props.len() && crate::partition_laws::prop_named(
                #[trigger] props[i],
                "__meo$"@,
            ),
{
    reveal_strlit("__meo$");
    assert("__meo$"@.len() == 6);
    assert forall|i: int| 0 <= i < props.len() implies crate::validate::marker_entry(
        #[trigger] props[i],
    ) == crate::partition_laws::prop_named(props[i], "__meo$"@) by {}
}

/// A quoted key is written like an identifier if it is not empty, holds nothing
/// but ASCII letters, digits, `_` and `$`, and does not start with a digit.
pub proof fn law_identifiers(s: Seq<char>)
    ensures
        crate::validate::identifier_like(s) <==> s.len() > 0 && !('0' <= s[0] && s[0] <= '9')
            && forall|i: int|
            0 <= i < s.len() ==> ('0' <= #[trigger] s[i] && s[i] <= '9') || ('A' <= s[i] && s[i]
                <= 'Z') || ('a' <= s[i] && s[i] <= 'z') || s[i] == '_' || s[i] == '$',
{
    if crate::validate::identifier_like(s) {
        assert forall|i: int| 0 <= i < s.len() implies ('0' <= #[trigger] s[i] && s[i] <= '9') || (
        'A' <= s[i] && s[i] <= 'Z') || ('a' <= s[i] && s[i] <= 'z') || s[i] == '_' || s[i]
            == '$' by {
            if i >= 1 {
                assert(crate::validate::identifier_part(s[i]));
            }
        }
    }
}

/// The reasons that leave room for a call-site key are six: those that stand
/// against the shape or the order of an object that is otherwise known.
pub proof fn law_reasons_that_allow_a_key(reason: BailReason)
    ensures
        crate::validate::allows_key(reason) <==> {
            ||| reason == BailReason::TrailingSpread
            ||| reason == BailReason::ComputedKey
            ||| reason == BailReason::NumericKey
            ||| reason == BailReason::GetterSetterProp
            ||| reason == BailReason::MethodProp
            ||| reason == BailReason::EffectfulReorder
        },
{
}

/// An entry that the ordered rule takes: a spread with nothing but spreads
/// before it, or a prop with a name.
pub open spec fn well_shaped(props: Seq<SpecEntry>, i: int) -> bool {
    if props[i] is Spread {
        forall|j: int| 0 <= j < i ==> (#[trigger] props[j]) is Spread
    } else {
        exists|name: Seq<char>| crate::partition_laws::prop_named(props[i], name)
    }
}

proof fn lemma_well_shaped(props: Seq<SpecEntry>, i: int)
    requires
        0 <= i < props.len(),
    ensures
        well_shaped(props, i) <==> crate::validate::shape_reason(
            props[i],
            crate::validate::prop_before(props, i),
        ) is None,
{
    match props[i] {
        SpecEntry::Spread { .. } => {
            if well_shaped(props, i) && crate::validate::prop_before(props, i) {
                let j = choose|j: int|
                    0 <= j < i && j < props.len() && (#[trigger] props[j]) is Prop;
                assert(props[j] is Spread);
            }
            if !crate::validate::prop_before(props, i) {
                assert forall|j: int| 0 <= j < i implies (#[trigger] props[j]) is Spread by {
                    assert(!(props[j] is Prop));
                }
            }
        },
        SpecEntry::Prop { prop, .. } => match prop {
            SpecProp::Shorthand(id) => {
                assert(crate::partition_laws::prop_named(props[i], id.sym));
            },
            SpecProp::KeyValue { key, .. } => match key {
                SpecKey::Ident(sym) => {
                    assert(crate::partition_laws::prop_named(props[i], sym));
                },
                SpecKey::Str(s) => match s.value {
                    SpecText::Unicode(value) => {
                        assert(crate::partition_laws::prop_named(props[i], value));
                    },
                    SpecText::Surrogates(_) => {
                        assert(crate::partition_laws::prop_named(props[i], Seq::empty()));
                    },
                },
                _ => {},
            },
            _ => {},
        },
    }
}

proof fn lemma_first_shape(props: Seq<SpecEntry>, from: int, i: int)
    requires
        0 <= from <= i <= props.len(),
        forall|j: int| from <= j < i ==> #[trigger] well_shaped(props, j),
    ensures
        crate::validate::first_shape_reason(props, from) == crate::validate::first_shape_reason(
            props,
            i,
        ),
    decreases i - from,
{
    if from < i {
        lemma_well_shaped(props, from);
        lemma_first_shape(props, from + 1, i);
    }
}

/// The first entry that the ordered rule does not take gives the reason, by its
/// kind.
pub proof fn law_first_bad_entry_gives_the_reason(
    props: Seq<SpecEntry>,
    i: int,
    catalog: SpecCatalog,
)
    requires
        !crate::validate::has_marker(props),
        0 <= i < props.len(),
        forall|j: int| 0 <= j < i ==> #[trigger] well_shaped(props, j),
        !well_shaped(props, i),
    ensures
        crate::validate::ordered_reason(props, catalog) == Some(
            match props[i] {
                SpecEntry::Spread { .. } => BailReason::TrailingSpread,
                SpecEntry::Prop { prop, .. } => match prop {
                    SpecProp::KeyValue { key, .. } => if key is Computed {
                        BailReason::ComputedKey
                    } else {
                        BailReason::NumericKey
                    },
                    SpecProp::Getter(_) => BailReason::GetterSetterProp,
                    SpecProp::Setter(_) => BailReason::GetterSetterProp,
                    SpecProp::Method(_) => BailReason::MethodProp,
                    _ => BailReason::UnsupportedPropKind,
                },
            },
        ),
{
    lemma_first_shape(props, 0, i);
    lemma_well_shaped(props, i);
}

/// The groups are emitted in this order: the front, the CSS bucket, the other
/// bucket, the tail.
pub proof fn law_order_of_groups()
    ensures
        EmitRank::Spread.position() < EmitRank::Css.position(),
        EmitRank::Css.position() < EmitRank::Data.position(),
        EmitRank::Data.position() < EmitRank::Special.position(),
{
}

/// Two entries whose evaluation can be told apart, that partitioning would
/// swap.
pub open spec fn swapped(props: Seq<SpecEntry>, i: int, j: int, catalog: SpecCatalog) -> bool {
    let with_spread = !crate::partition_laws::no_spread(props);
    &&& 0 <= i < j < props.len()
    &&& !crate::partition_laws::settled_prop(props[i])
    &&& !crate::partition_laws::settled_prop(props[j])
    &&& crate::placement::rank(props[j], with_spread, catalog).position()
        < crate::placement::rank(props[i], with_spread, catalog).position()
}

proof fn lemma_ranks_below(
    props: Seq<SpecEntry>,
    with_spread: bool,
    catalog: SpecCatalog,
    p: int,
)
    ensures
        ({
            let ranks = crate::validate::sensitive_ranks(props, with_spread, catalog);
            (forall|k: int| 0 <= k < ranks.len() ==> (#[trigger] ranks[k]).position() <= p)
                <==> forall|i: int|
                0 <= i < props.len() && crate::placement::order_sensitive(#[trigger] props[i])
                    ==> crate::placement::rank(props[i], with_spread, catalog).position() <= p
        }),
    decreases props.len(),
{
    let ranks = crate::validate::sensitive_ranks(props, with_spread, catalog);
    if props.len() > 0 {
        let rest = props.drop_last();
        let before = crate::validate::sensitive_ranks(rest, with_spread, catalog);
        let n = props.len() - 1;
        lemma_ranks_below(rest, with_spread, catalog, p);
        if forall|k: int| 0 <= k < ranks.len() ==> (#[trigger] ranks[k]).position() <= p {
            assert forall|k: int| 0 <= k < before.len() implies (#[trigger] before[k]).position()
                <= p by {
                assert(ranks[k] == before[k]);
            }
            assert forall|i: int|
                0 <= i < props.len() && crate::placement::order_sensitive(
                    #[trigger] props[i],
                ) implies crate::placement::rank(props[i], with_spread, catalog).position()
                <= p by {
                if i < n {
                    assert(rest[i] == props[i]);
                } else {
                    assert(ranks[before.len() as int] == crate::placement::rank(
                        props[i],
                        with_spread,
                        catalog,
                    ));
                }
            }
        }
        if forall|i: int|
            0 <= i < props.len() && crate::placement::order_sensitive(#[trigger] props[i])
                ==> crate::placement::rank(props[i], with_spread, catalog).position() <= p {
            assert forall|i: int|
                0 <= i < rest.len() && crate::placement::order_sensitive(
                    #[trigger] rest[i],
                ) implies crate::placement::rank(rest[i], with_spread, catalog).position()
                <= p by {
                assert(rest[i] == props[i]);
            }
            assert forall|k: int| 0 <= k < ranks.len() implies (#[trigger] ranks[k]).position()
                <= p by {
                if k < before.len() {
                    assert(ranks[k] == before[k]);
                } else {
                    assert(props[n] == props.last());
                }
            }
        }
    }
}

/// The order of two order-sensitive entries is kept.
pub open spec fn in_order(
    props: Seq<SpecEntry>,
    i: int,
    j: int,
    with_spread: bool,
    catalog: SpecCatalog,
) -> bool {
    0 <= i < j < props.len() && crate::placement::order_sensitive(props[i])
        && crate::placement::order_sensitive(props[j]) ==> crate::placement::rank(
        props[i],
        with_spread,
        catalog,
    ).position() <= crate::placement::rank(props[j], with_spread, catalog).position()
}

proof fn lemma_ranks_sorted(props: Seq<SpecEntry>, with_spread: bool, catalog: SpecCatalog)
    ensures
        crate::order::non_decreasing(
            crate::validate::sensitive_ranks(props, with_spread, catalog),
        ) <==> forall|i: int, j: int| #[trigger] in_order(props, i, j, with_spread, catalog),
    decreases props.len(),
{
    let ranks = crate::validate::sensitive_ranks(props, with_spread, catalog);
    if props.len() > 0 {
        let rest = props.drop_last();
        let before = crate::validate::sensitive_ranks(rest, with_spread, catalog);
        let n = props.len() - 1;
        let p = crate::placement::rank(props.last(), with_spread, catalog).position();
        lemma_ranks_sorted(rest, with_spread, catalog);
        lemma_ranks_below(rest, with_spread, catalog, p);
        assert(props[n] == props.last());
        if crate::order::non_decreasing(ranks) {
            assert(crate::order::non_decreasing(before)) by {
                assert forall|a: int, b: int| 0 <= a < b < before.len() implies (
                #[trigger] before[a]).position() <= (#[trigger] before[b]).position() by {
                    assert(ranks[a] == before[a] && ranks[b] == before[b]);
                }
            }
            if crate::placement::order_sensitive(props.last()) {
                assert forall|k: int| 0 <= k < before.len() implies (
                #[trigger] before[k]).position() <= p by {
                    assert(ranks[k] == before[k]);
                    assert(ranks[before.len() as int].position() == p);
                }
            }
            assert forall|i: int, j: int| #[trigger]
                in_order(props, i, j, with_spread, catalog) by {
                if 0 <= i < j < n {
                    assert(in_order(rest, i, j, with_spread, catalog));
                } else if 0 <= i < j && j == n && crate::placement::order_sensitive(props[i])
                    && crate::placement::order_sensitive(props[j]) {
                    assert(rest[i] == props[i]);
                }
            }
        }
        if forall|i: int, j: int| #[trigger] in_order(props, i, j, with_spread, catalog) {
            assert forall|i: int, j: int| #[trigger]
                in_order(rest, i, j, with_spread, catalog) by {
                assert(in_order(props, i, j, with_spread, catalog));
            }
            if crate::placement::order_sensitive(props.last()) {
                assert forall|i: int|
                    0 <= i < rest.len() && crate::placement::order_sensitive(
                        #[trigger] rest[i],
                    ) implies crate::placement::rank(rest[i], with_spread, catalog).position()
                    <= p by {
                    assert(in_order(props, i, n, with_spread, catalog));
                }
            }
            assert forall|a: int, b: int| 0 <= a < b < ranks.len() implies (
            #[trigger] ranks[a]).position() <= (#[trigger] ranks[b]).position() by {
                assert(ranks[a] == before[a]);
                if b < before.len() {
                    assert(ranks[b] == before[b]);
                }
            }
        }
    }
}

/// A prop whose value may have an effect.
pub open spec fn loud_prop(entry: SpecEntry) -> bool {
    match entry {
        SpecEntry::Prop { prop: SpecProp::KeyValue { value, .. }, .. } => {
            !crate::steps::all_quiet(crate::steps::steps_of_expr(value))
        },
        _ => false,
    }
}

/// Without the marker, and with entries that the ordered rule takes, an object
/// is rejected only for the order of its effects: exactly if some value may
/// have an effect, and two entries that can be told apart would be swapped.
pub proof fn law_rejected_for_order_only(props: Seq<SpecEntry>, catalog: SpecCatalog)
    requires
        !crate::validate::has_marker(props),
        forall|j: int| 0 <= j < props.len() ==> #[trigger] well_shaped(props, j),
    ensures
        crate::validate::ordered_reason(props, catalog) == (if (exists|i: int|
            0 <= i < props.len() && loud_prop(#[trigger] props[i])) && (exists|i: int, j: int|
         #[trigger] swapped(props, i, j, catalog)) {
            Some(BailReason::EffectfulReorder)
        } else {
            None
        }),
{
    let with_spread = crate::placement::has_spread(props);
    lemma_first_shape(props, 0, props.len() as int);
    lemma_ranks_sorted(props, with_spread, catalog);
    assert(with_spread == !crate::partition_laws::no_spread(props));
    assert forall|i: int| 0 <= i < props.len() implies loud_prop(#[trigger] props[i])
        == crate::validate::effectful_entry(props[i]) by {
        match props[i] {
            SpecEntry::Prop { prop: SpecProp::KeyValue { value, .. }, .. } => {
                crate::steps::law_effect_free_means_quiet(value);
            },
            _ => {},
        }
    }
    assert forall|i: int, j: int| #[trigger]
        swapped(props, i, j, catalog) == !in_order(props, i, j, with_spread, catalog) by {
        if 0 <= i < j < props.len() {
            crate::partition_laws::lemma_entries(props[i]);
            crate::partition_laws::lemma_entries(props[j]);
        }
    }
    if exists|i: int, j: int| #[trigger] swapped(props, i, j, catalog) {
        let (i, j) = choose|i: int, j: int| #[trigger] swapped(props, i, j, catalog);
        assert(!in_order(props, i, j, with_spread, catalog));
    } else {
        assert forall|i: int, j: int| #[trigger] in_order(props, i, j, with_spread, catalog) by {
            assert(!swapped(props, i, j, catalog));
        }
    }
}

/// What the strict rule wants of the entry at `i`, by its kind: nothing if it
/// is a shorthand; of a prop, a key that is an identifier or is quoted like
/// one, and a value that has no effect, unless it is the `children` that are
/// written last.
pub open spec fn strictly_taken(props: Seq<SpecEntry>, i: int) -> bool {
    match props[i] {
        SpecEntry::Spread { .. } => false,
        SpecEntry::Prop { prop, .. } => match prop {
            SpecProp::Shorthand(_) => true,
            SpecProp::KeyValue { key, .. } => {
                &&& match key {
                    SpecKey::Ident(_) => true,
                    SpecKey::Str(s) => match s.value {
                        SpecText::Unicode(value) => crate::validate::identifier_like(value),
                        SpecText::Surrogates(_) => false,
                    },
                    _ => false,
                }
                &&& !loud_prop(props[i]) || (i == props.len() - 1
                    && crate::partition_laws::prop_named(props[i], "children"@))
            },
            _ => false,
        },
    }
}

proof fn lemma_strictly_taken(props: Seq<SpecEntry>, i: int)
    requires
        0 <= i < props.len(),
    ensures
        strictly_taken(props, i) <==> crate::validate::strict_entry_reason(
            props[i],
            i == props.len() - 1,
        ) is None,
{
    reveal_strlit("children");
    assert("children"@.len() == 8);
    match props[i] {
        SpecEntry::Prop { prop: SpecProp::KeyValue { value, .. }, .. } => {
            crate::steps::law_effect_free_means_quiet(value);
        },
        _ => {},
    }
}

proof fn lemma_first_strict(props: Seq<SpecEntry>, from: int, i: int)
    requires
        0 <= from <= i <= props.len(),
        forall|j: int| from <= j < i ==> #[trigger] strictly_taken(props, j),
    ensures
        crate::validate::first_strict_reason(props, from) == crate::validate::first_strict_reason(
            props,
            i,
        ),
    decreases i - from,
{
    if from < i {
        lemma_strictly_taken(props, from);
        lemma_first_strict(props, from + 1, i);
    }
}

/// The strict rule accepts an object without the marker whose entries it takes,
/// all of them.
pub proof fn law_strict_rule_accepts(props: Seq<SpecEntry>)
    requires
        !crate::validate::has_marker(props),
        forall|j: int| 0 <= j < props.len() ==> #[trigger] strictly_taken(props, j),
    ensures
        crate::validate::strict_reason(props) is None,
{
    lemma_first_strict(props, 0, props.len() as int);
}

/// The first entry that the strict rule does not take gives the reason, by its
/// kind. A key is looked at before its value.
pub proof fn law_strict_rule_rejects(props: Seq<SpecEntry>, i: int)
    requires
        !crate::validate::has_marker(props),
        0 <= i < props.len(),
        forall|j: int| 0 <= j < i ==> #[trigger] strictly_taken(props, j),
        !strictly_taken(props, i),
    ensures
        crate::validate::strict_reason(props) == Some(
            match props[i] {
                SpecEntry::Spread { .. } => BailReason::SpreadProp,
                SpecEntry::Prop { prop, .. } => match prop {
                    SpecProp::KeyValue { key, .. } => match key {
                        SpecKey::Computed(_) => BailReason::ComputedKey,
                        SpecKey::Num(_) => BailReason::NumericKey,
                        SpecKey::BigInt(_) => BailReason::NumericKey,
                        SpecKey::Ident(_) => BailReason::EffectfulValue,
                        SpecKey::Str(s) => if s.value is Unicode
                            && crate::validate::identifier_like(s.value->Unicode_0) {
                            BailReason::EffectfulValue
                        } else {
                            BailReason::NonIdentifierStringKey
                        },
                    },
                    SpecProp::Getter(_) => BailReason::GetterSetterProp,
                    SpecProp::Setter(_) => BailReason::GetterSetterProp,
                    SpecProp::Method(_) => BailReason::MethodProp,
                    _ => BailReason::UnsupportedPropKind,
                },
            },
        ),
{
    lemma_first_strict(props, 0, i);
    lemma_strictly_taken(props, i);
}

/// Either rule rejects an object that carries the marker, whatever else it
/// holds, as compiled already.
pub proof fn law_marker_comes_first(props: Seq<SpecEntry>, i: int, catalog: SpecCatalog)
    requires
        0 <= i < props.len(),
        crate::partition_laws::prop_named(props[i], "__meo$"@),
    ensures
        crate::validate::strict_reason(props) == Some(BailReason::ExistingMarker),
        crate::validate::ordered_reason(props, catalog) == Some(BailReason::ExistingMarker),
{
    law_marker_by_name(props);
}

/// What follows from the judgment on an object in the place of the props.
pub proof fn law_object_decisions(props: Seq<SpecEntry>, idx: int, catalog: SpecCatalog)
    requires
        idx == 0 || idx == 1,
    ensures
        ({
            let strict = crate::detect::object_decision(PropsRule::Strict, props, idx, catalog);
            let ordered = crate::detect::object_decision(PropsRule::Ordered, props, idx, catalog);
            &&& match crate::validate::strict_reason(props) {
                None => strict == (Decision::Compilable { props_arg_idx: idx as usize }),
                Some(reason) => strict == Decision::Bail(reason),
            }
            &&& match crate::validate::ordered_reason(props, catalog) {
                None => ordered == (Decision::Compilable { props_arg_idx: idx as usize }),
                Some(BailReason::TrailingSpread) => ordered is KeyOnly,
                Some(BailReason::ComputedKey) => ordered is KeyOnly,
                Some(BailReason::NumericKey) => ordered is KeyOnly,
                Some(BailReason::GetterSetterProp) => ordered is KeyOnly,
                Some(BailReason::MethodProp) => ordered is KeyOnly,
                Some(BailReason::EffectfulReorder) => ordered is KeyOnly,
                Some(reason) => ordered == Decision::Bail(reason),
            }
            &&& ordered is KeyOnly ==> ordered == (Decision::KeyOnly {
                props_arg_idx: idx as usize,
            })
        }),
{
}

/// The entries of an object literal, in parentheses or not.
pub open spec fn object_in(e: SpecExpr) -> Option<Seq<SpecEntry>>
    decreases e,
{
    match e {
        SpecExpr::Paren(inner) => object_in(*inner),
        SpecExpr::Object(props) => Some(props),
        _ => None,
    }
}

pub proof fn lemma_object_in(e: SpecExpr)
    ensures
        object_in(e) == (match crate::effect::unparen(e) {
            SpecExpr::Object(props) => Some(props),
            _ => None,
        }),
    decreases e,
{
    match e {
        SpecExpr::Paren(inner) => lemma_object_in(*inner),
        _ => {},
    }
}

/// The position of the props: after the element or the children if the factory
/// takes one of these first, and first otherwise.
pub proof fn law_props_positions()
    ensures
        crate::detect::props_position(CandidateKind::Node) == 1,
        crate::detect::props_position(CandidateKind::Html { children_first: true }) == 1,
        crate::detect::props_position(CandidateKind::Html { children_first: false }) == 0,
{
}

/// The decision on the argument in the place of the props: the object literal
/// that stands there, in parentheses or not, is judged. There is none if an
/// argument before it or at it is spread, if there are too few arguments, or if
/// the argument is something else.
pub proof fn law_props_argument(
    rule: PropsRule,
    args: Seq<SpecArg>,
    idx: int,
    catalog: SpecCatalog,
)
    requires
        0 <= idx,
    ensures
        ({
            let decision = crate::detect::props_decision(rule, args, idx, catalog);
            let before = exists|i: int|
                0 <= i < idx && i < args.len() && (#[trigger] args[i]).spread;
            &&& before ==> decision == Decision::Bail(BailReason::SpreadBeforeProps)
            &&& !before && args.len() <= idx ==> decision == Decision::Bail(
                BailReason::MissingPropsArg,
            )
            &&& !before && idx < args.len() && args[idx].spread ==> decision == Decision::Bail(
                BailReason::NotObjectLiteral,
            )
            &&& !before && idx < args.len() && !args[idx].spread ==> match object_in(
                args[idx].expr,
            ) {
                Some(props) => decision == crate::detect::object_decision(
                    rule,
                    props,
                    idx,
                    catalog,
                ),
                None => decision == Decision::Bail(BailReason::NotObjectLiteral),
            }
        }),
{
    if 0 <= idx < args.len() {
        lemma_object_in(args[idx].expr);
    }
}

/// The decision on a call, by its callee: of a factory, what is decided on its
/// props; of a name that some factory has in another scope, that it is
/// shadowed; of a member of a namespace import, that it is one. All other
/// calls are none of the library's.
pub proof fn law_calls_by_callee(
    rule: PropsRule,
    call: SpecCall,
    factories: Map<SpecIdent, CandidateKind>,
    namespaces: Set<SpecIdent>,
    catalog: SpecCatalog,
)
    ensures
        ({
            let decision = crate::detect::call_decision(
                rule,
                call,
                factories,
                namespaces,
                catalog,
            );
            match call.callee {
                SpecCallee::Expr(callee) => match *callee {
                    SpecExpr::Ident(id) => {
                        &&& factories.dom().contains(id) ==> decision == Some(
                            crate::detect::props_decision(
                                rule,
                                call.args,
                                match factories[id] {
                                    CandidateKind::Node => 1,
                                    CandidateKind::Html { children_first: true } => 1,
                                    CandidateKind::Html { children_first: false } => 0,
                                },
                                catalog,
                            ),
                        )
                        &&& !factories.dom().contains(id) && (exists|other: SpecIdent|
                         #[trigger] factories.dom().contains(other) && other.sym == id.sym)
                            ==> decision == Some(Decision::Bail(BailReason::ShadowedOrUnbound))
                        &&& !factories.dom().contains(id) && (forall|other: SpecIdent| #[trigger]
                            factories.dom().contains(other) ==> other.sym != id.sym)
                            ==> decision is None
                    },
                    SpecExpr::Member { obj, .. } => if *obj is Ident && namespaces.contains(
                        (*obj)->Ident_0,
                    ) {
                        decision == Some(Decision::Bail(BailReason::NamespaceImport))
                    } else {
                        decision is None
                    },
                    _ => decision is None,
                },
                _ => decision is None,
            }
        }),
{
}

/// The decisions on two pieces of a program are those on the first before those
/// on the second, and a single call gives at most one, at its own span.
pub proof fn law_decisions_are_made_call_by_call(
    rule: PropsRule,
    a: Seq<SpecItem>,
    b: Seq<SpecItem>,
    factories: Map<SpecIdent, CandidateKind>,
    namespaces: Set<SpecIdent>,
    catalog: SpecCatalog,
)
    ensures
        crate::detect::decisions_on(rule, a + b, factories, namespaces, catalog)
            == crate::detect::decisions_on(rule, a, factories, namespaces, catalog)
            + crate::detect::decisions_on(rule, b, factories, namespaces, catalog),
    decreases b.len(),
{
    let all = crate::detect::decisions_on(rule, a + b, factories, namespaces, catalog);
    let first = crate::detect::decisions_on(rule, a, factories, namespaces, catalog);
    let second = crate::detect::decisions_on(rule, b, factories, namespaces, catalog);
    if b.len() > 0 {
        law_decisions_are_made_call_by_call(
            rule,
            a,
            b.drop_last(),
            factories,
            namespaces,
            catalog,
        );
        assert((a + b).drop_last() =~= a + b.drop_last());
        assert((a + b).last() == b.last());
        assert(all =~= first + second);
    } else {
        assert(a + b =~= a);
        assert(all =~= first + second);
    }
}

/// A call is decided on by itself, at its own span, if it is the library's;
/// and no other item is decided on.
pub proof fn law_one_item_one_decision(
    rule: PropsRule,
    item: SpecItem,
    factories: Map<SpecIdent, CandidateKind>,
    namespaces: Set<SpecIdent>,
    catalog: SpecCatalog,
)
    ensures
        ({
            let decisions = crate::detect::decisions_on(
                rule,
                seq![item],
                factories,
                namespaces,
                catalog,
            );
            match item {
                SpecItem::Call(call) => match crate::detect::call_decision(
                    rule,
                    call,
                    factories,
                    namespaces,
                    catalog,
                ) {
                    Some(decision) => decisions == seq![
                        CallSiteDecision { span: call.span, decision },
                    ],
                    None => decisions.len() == 0,
                },
                _ => decisions.len() == 0,
            }
        }),
{
    let items = seq![item];
    assert(items.drop_last() =~= Seq::empty());
    assert(items.last() == item);
    let decisions = crate::detect::decisions_on(rule, items, factories, namespaces, catalog);
    reveal_with_fuel(crate::detect::decisions_on, 2);
    match item {
        SpecItem::Call(call) => match crate::detect::call_decision(
            rule,
            call,
            factories,
            namespaces,
            catalog,
        ) {
            Some(decision) => {
                assert(decisions =~= seq![CallSiteDecision { span: call.span, decision }]);
            },
            None => {},
        },
        _ => {},
    }
}

/// An object holds an effect exactly if the value of one of its props may have
/// one.
pub proof fn law_effects_are_those_of_values(props: Seq<SpecEntry>)
    ensures
        crate::validate::has_effect(props) <==> exists|i: int|
            0 <= i < props.len() && loud_prop(#[trigger] props[i]),
{
    assert forall|i: int| 0 <= i < props.len() implies loud_prop(#[trigger] props[i])
        == crate::validate::effectful_entry(props[i]) by {
        match props[i] {
            SpecEntry::Prop { prop: SpecProp::KeyValue { value, .. }, .. } => {
                crate::steps::law_effect_free_means_quiet(value);
            },
            _ => {},
        }
    }
}

/// The groups that are compared are those of all entries that can be told
/// apart, in source order: each such entry gives its own.
pub proof fn law_compared_groups(
    a: Seq<SpecEntry>,
    entry: SpecEntry,
    with_spread: bool,
    catalog: SpecCatalog,
)
    ensures
        crate::validate::sensitive_ranks(Seq::empty(), with_spread, catalog).len() == 0,
        crate::validate::sensitive_ranks(a.push(entry), with_spread, catalog) == (
        if crate::partition_laws::settled_prop(entry) {
            crate::validate::sensitive_ranks(a, with_spread, catalog)
        } else {
            crate::validate::sensitive_ranks(a, with_spread, catalog).push(
                crate::placement::rank(entry, with_spread, catalog),
            )
        }),
{
    assert(a.push(entry).drop_last() =~= a);
    crate::partition_laws::lemma_entries(entry);
}

} // verus!
