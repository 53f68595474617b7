//! Which props objects can be partitioned.
//!
//! There are two rules. The strict rule accepts an object only if no value in
//! it could be noticed to move: every value is free of effects, save for a
//! `children` value that is written last. The ordered rule looks at the order
//! in which the entries would be emitted: it accepts leading spreads, any
//! quoted key, and values with effects, as long as no order-sensitive entry
//! changes places with another.
use crate::ast::{ObjectLit, Prop, PropName, PropOrSpread, Text};
use crate::catalog::{Catalog, SpecCatalog};
use crate::effect::is_effect_free;
use crate::model::{SpecEntry, SpecKey, SpecProp, SpecText};
use crate::order::{order_preserved, EmitRank};
use crate::placement::{contains_spread, is_order_sensitive, rank_for_prop};
use crate::text::{chars_of, str_eq};
use vstd::prelude::*;

verus! {

/// Why a call site that refers to a factory is not partitioned.
#[derive(Debug, Clone, Copy, PartialEq, Eq, Structural)]
pub enum BailReason {
    /// The callee has the name of a known factory, but refers to another
    /// binding.
    ShadowedOrUnbound,
    /// The callee is a member of a namespace import.
    NamespaceImport,
    /// There is no argument at the position of the props.
    MissingPropsArg,
    /// The props argument is not an object literal.
    NotObjectLiteral,
    /// The object literal holds a spread, which the strict rule rejects.
    SpreadProp,
    /// A spread is written after a prop.
    TrailingSpread,
    /// A key is computed.
    ComputedKey,
    /// A key is a number or a bigint.
    NumericKey,
    /// A quoted key is not an identifier, which the strict rule rejects.
    NonIdentifierStringKey,
    /// The object literal holds a getter or a setter.
    GetterSetterProp,
    /// The object literal holds a shorthand method.
    MethodProp,
    /// The object literal holds an entry that no object literal may hold.
    UnsupportedPropKind,
    /// The object literal already carries the marker.
    ExistingMarker,
    /// A value is not provably free of effects, which the strict rule rejects.
    EffectfulValue,
    /// Partitioning would change the order in which effects are observed.
    EffectfulReorder,
    /// An argument before the props is spread, so that the position of the
    /// props is not known.
    SpreadBeforeProps,
}

/// The key that marks a props object as compiled.
pub open spec fn marker_key() -> Seq<char> {
    "__meo$"@
}

/// An entry that is the marker.
pub open spec fn marker_entry(entry: SpecEntry) -> bool {
    match entry {
        SpecEntry::Spread { .. } => false,
        SpecEntry::Prop { prop, .. } => match prop {
            SpecProp::Shorthand(id) => id.sym == marker_key(),
            SpecProp::KeyValue { key, .. } => match key {
                SpecKey::Ident(sym) => sym == marker_key(),
                SpecKey::Str(s) => s.value == SpecText::Unicode(marker_key()),
                _ => false,
            },
            _ => false,
        },
    }
}

pub open spec fn has_marker(props: Seq<SpecEntry>) -> bool {
    exists|i: int| 0 <= i < props.len() && marker_entry(#[trigger] props[i])
}

pub open spec fn identifier_start(c: char) -> bool {
    c == '_' || c == '$' || ('a' <= c && c <= 'z') || ('A' <= c && c <= 'Z')
}

pub open spec fn identifier_part(c: char) -> bool {
    identifier_start(c) || ('0' <= c && c <= '9')
}

/// A text that is written like an identifier, in ASCII.
pub open spec fn identifier_like(s: Seq<char>) -> bool {
    s.len() > 0 && identifier_start(s[0]) && forall|i: int|
        1 <= i < s.len() ==> identifier_part(#[trigger] s[i])
}

/// What the strict rule holds against a key.
pub open spec fn strict_key_reason(key: SpecKey) -> Option<BailReason> {
    match key {
        SpecKey::Ident(_) => None,
        SpecKey::Str(s) => match s.value {
            SpecText::Unicode(value) => if identifier_like(value) {
                None
            } else {
                Some(BailReason::NonIdentifierStringKey)
            },
            SpecText::Surrogates(_) => Some(BailReason::NonIdentifierStringKey),
        },
        SpecKey::Num(_) => Some(BailReason::NumericKey),
        SpecKey::BigInt(_) => Some(BailReason::NumericKey),
        SpecKey::Computed(_) => Some(BailReason::ComputedKey),
    }
}

/// The key `children`, quoted or not.
pub open spec fn children_key(key: SpecKey) -> bool {
    match key {
        SpecKey::Ident(sym) => sym == "children"@,
        SpecKey::Str(s) => s.value == SpecText::Unicode("children"@),
        _ => false,
    }
}

/// What the strict rule holds against an entry, which may be the last one.
pub open spec fn strict_entry_reason(entry: SpecEntry, last: bool) -> Option<BailReason> {
    match entry {
        SpecEntry::Spread { .. } => Some(BailReason::SpreadProp),
        SpecEntry::Prop { prop, .. } => match prop {
            SpecProp::Shorthand(_) => None,
            SpecProp::KeyValue { key, value } => if strict_key_reason(key) is Some {
                strict_key_reason(key)
            } else if !(children_key(key) && last) && !crate::effect::effect_free(value) {
                Some(BailReason::EffectfulValue)
            } else {
                None
            },
            SpecProp::Getter(_) => Some(BailReason::GetterSetterProp),
            SpecProp::Setter(_) => Some(BailReason::GetterSetterProp),
            SpecProp::Method(_) => Some(BailReason::MethodProp),
            SpecProp::Assign { .. } => Some(BailReason::UnsupportedPropKind),
        },
    }
}

/// The first reason that the strict rule finds from entry `i` on.
pub open spec fn first_strict_reason(props: Seq<SpecEntry>, i: int) -> Option<BailReason>
    decreases props.len() - i,
{
    if i < 0 || i >= props.len() {
        None
    } else {
        let found = strict_entry_reason(props[i], i == props.len() - 1);
        if found is Some {
            found
        } else {
            first_strict_reason(props, i + 1)
        }
    }
}

/// What the strict rule holds against an object literal: the marker, wherever
/// it stands, or else the first reason in source order.
pub open spec fn strict_reason(props: Seq<SpecEntry>) -> Option<BailReason> {
    if has_marker(props) {
        Some(BailReason::ExistingMarker)
    } else {
        first_strict_reason(props, 0)
    }
}

/// What the ordered rule holds against the shape of an entry, which may stand
/// behind a prop.
pub open spec fn shape_reason(entry: SpecEntry, behind_prop: bool) -> Option<BailReason> {
    match entry {
        SpecEntry::Spread { .. } => if behind_prop {
            Some(BailReason::TrailingSpread)
        } else {
            None
        },
        SpecEntry::Prop { prop, .. } => match prop {
            SpecProp::Shorthand(_) => None,
            SpecProp::KeyValue { key, .. } => match key {
                SpecKey::Ident(_) => None,
                SpecKey::Str(_) => None,
                SpecKey::Num(_) => Some(BailReason::NumericKey),
                SpecKey::BigInt(_) => Some(BailReason::NumericKey),
                SpecKey::Computed(_) => Some(BailReason::ComputedKey),
            },
            SpecProp::Getter(_) => Some(BailReason::GetterSetterProp),
            SpecProp::Setter(_) => Some(BailReason::GetterSetterProp),
            SpecProp::Method(_) => Some(BailReason::MethodProp),
            SpecProp::Assign { .. } => Some(BailReason::UnsupportedPropKind),
        },
    }
}

/// One of the first `i` entries is a prop.
pub open spec fn prop_before(props: Seq<SpecEntry>, i: int) -> bool {
    exists|j: int| 0 <= j < i && j < props.len() && (#[trigger] props[j]) is Prop
}

/// The first reason that the ordered rule finds in the shape of the entries
/// from `i` on.
pub open spec fn first_shape_reason(props: Seq<SpecEntry>, i: int) -> Option<BailReason>
    decreases props.len() - i,
{
    if i < 0 || i >= props.len() {
        None
    } else {
        let found = shape_reason(props[i], prop_before(props, i));
        if found is Some {
            found
        } else {
            first_shape_reason(props, i + 1)
        }
    }
}

/// A prop whose value is not provably free of effects.
pub open spec fn effectful_entry(entry: SpecEntry) -> bool {
    match entry {
        SpecEntry::Prop { prop: SpecProp::KeyValue { value, .. }, .. } => {
            !crate::effect::effect_free(value)
        },
        _ => false,
    }
}

pub open spec fn has_effect(props: Seq<SpecEntry>) -> bool {
    exists|i: int| 0 <= i < props.len() && effectful_entry(#[trigger] props[i])
}

/// The groups of the order-sensitive entries, in source order.
pub open spec fn sensitive_ranks(
    props: Seq<SpecEntry>,
    with_spread: bool,
    catalog: SpecCatalog,
) -> Seq<EmitRank>
    decreases props.len(),
{
    if props.len() == 0 {
        Seq::empty()
    } else {
        let rest = sensitive_ranks(props.drop_last(), with_spread, catalog);
        if crate::placement::order_sensitive(props.last()) {
            rest.push(crate::placement::rank(props.last(), with_spread, catalog))
        } else {
            rest
        }
    }
}

/// What the ordered rule holds against an object literal: the marker, wherever
/// it stands; else the first reason in the shape of its entries; else that it
/// holds an effect and emitting it would reorder order-sensitive entries.
pub open spec fn ordered_reason(props: Seq<SpecEntry>, catalog: SpecCatalog) -> Option<BailReason> {
    if has_marker(props) {
        Some(BailReason::ExistingMarker)
    } else if first_shape_reason(props, 0) is Some {
        first_shape_reason(props, 0)
    } else if has_effect(props) && !crate::order::non_decreasing(
        sensitive_ranks(props, crate::placement::has_spread(props), catalog),
    ) {
        Some(BailReason::EffectfulReorder)
    } else {
        None
    }
}

/// A reason that stands against partitioning only, not against a call-site
/// key.
pub open spec fn allows_key(reason: BailReason) -> bool {
    match reason {
        BailReason::TrailingSpread => true,
        BailReason::ComputedKey => true,
        BailReason::NumericKey => true,
        BailReason::GetterSetterProp => true,
        BailReason::MethodProp => true,
        BailReason::EffectfulReorder => true,
        _ => false,
    }
}

/// Whether a text has the given characters.
pub fn text_is(text: &Text, s: &str) -> (r: bool)
    ensures
        r == (text@ == SpecText::Unicode(s@)),
{
    match text {
        Text::Unicode(value) => str_eq(value.as_str(), s),
        Text::Surrogates(_) => false,
    }
}

fn is_marker_prop(entry: &PropOrSpread) -> (r: bool)
    ensures
        r == marker_entry(entry@),
{
    proof {
        reveal_with_fuel(crate::ast::entry_view, 3);
    }
    match entry {
        PropOrSpread::Spread { .. } => false,
        PropOrSpread::Prop { span: _, prop } => match prop {
            Prop::Shorthand(id) => str_eq(id.sym.as_str(), "__meo$"),
            Prop::KeyValue { key, value: _ } => match key {
                PropName::Ident(sym) => str_eq(sym.as_str(), "__meo$"),
                PropName::Str(s) => text_is(&s.value, "__meo$"),
                _ => false,
            },
            _ => false,
        },
    }
}

/// Whether an object literal already carries the marker.
pub fn contains_marker(props: &Vec<PropOrSpread>) -> (r: bool)
    ensures
        r == has_marker(crate::ast::props_view(props@)),
{
    let ghost view = crate::ast::props_view(props@);
    let mut i: usize = 0;
    while i < props.len()
        invariant
            i <= props@.len(),
            view == crate::ast::props_view(props@),
            forall|j: int| 0 <= j < i ==> !marker_entry(#[trigger] view[j]),
        decreases props.len() - i,
    {
        if is_marker_prop(&props[i]) {
            assert(marker_entry(view[i as int]));
            return true;
        }
        i += 1;
    }
    false
}

fn is_identifier_like(s: &str) -> (r: bool)
    ensures
        r == identifier_like(s@),
{
    let chars = chars_of(s);
    if chars.len() == 0 {
        return false;
    }
    let c = chars[0];
    if !(c == '_' || c == '$' || ('a' <= c && c <= 'z') || ('A' <= c && c <= 'Z')) {
        return false;
    }
    let mut i: usize = 1;
    while i < chars.len()
        invariant
            1 <= i <= chars@.len(),
            chars@ == s@,
            forall|j: int| 1 <= j < i ==> identifier_part(#[trigger] chars@[j]),
        decreases chars.len() - i,
    {
        let c = chars[i];
        if !(c == '_' || c == '$' || ('a' <= c && c <= 'z') || ('A' <= c && c <= 'Z') || ('0' <= c
            && c <= '9')) {
            assert(!identifier_part(chars@[i as int]));
            return false;
        }
        i += 1;
    }
    true
}

fn validate_key(key: &PropName) -> (r: Option<BailReason>)
    ensures
        r == strict_key_reason(key@),
{
    match key {
        PropName::Ident(_) => None,
        PropName::Str(s) => match &s.value {
            Text::Unicode(value) => if is_identifier_like(value.as_str()) {
                None
            } else {
                Some(BailReason::NonIdentifierStringKey)
            },
            Text::Surrogates(_) => Some(BailReason::NonIdentifierStringKey),
        },
        PropName::Num(_) => Some(BailReason::NumericKey),
        PropName::BigInt(_) => Some(BailReason::NumericKey),
        PropName::Computed(_) => Some(BailReason::ComputedKey),
    }
}

fn is_children_key(key: &PropName) -> (r: bool)
    ensures
        r == children_key(key@),
{
    match key {
        PropName::Ident(sym) => str_eq(sym.as_str(), "children"),
        PropName::Str(s) => text_is(&s.value, "children"),
        _ => false,
    }
}

fn validate_entry(entry: &PropOrSpread, last: bool) -> (r: Option<BailReason>)
    ensures
        r == strict_entry_reason(entry@, last),
{
    proof {
        reveal_with_fuel(crate::ast::entry_view, 2);
    }
    match entry {
        PropOrSpread::Spread { .. } => Some(BailReason::SpreadProp),
        PropOrSpread::Prop { span: _, prop } => match prop {
            Prop::Shorthand(_) => None,
            Prop::KeyValue { key, value } => {
                let reason = validate_key(key);
                if reason.is_some() {
                    reason
                } else if !(is_children_key(key) && last) && !is_effect_free(value) {
                    Some(BailReason::EffectfulValue)
                } else {
                    None
                }
            },
            Prop::Getter(_) => Some(BailReason::GetterSetterProp),
            Prop::Setter(_) => Some(BailReason::GetterSetterProp),
            Prop::Method(_) => Some(BailReason::MethodProp),
            Prop::Assign { .. } => Some(BailReason::UnsupportedPropKind),
        },
    }
}

/// Holds an object literal to the strict rule, and returns the first reason
/// against it. The marker is looked for first, so that a compiled object is
/// always reported as such.
///
/// A `children` value that is written last may have effects: special keys move
/// to the tail, so it stays behind everything that it was written behind.
pub fn validate_object(obj: &ObjectLit) -> (r: Option<BailReason>)
    ensures
        r == strict_reason(obj@),
{
    if contains_marker(&obj.props) {
        return Some(BailReason::ExistingMarker);
    }
    let mut i: usize = 0;
    while i < obj.props.len()
        invariant
            i <= obj.props@.len(),
            obj@.len() == obj.props@.len(),
            first_strict_reason(obj@, 0) == first_strict_reason(obj@, i as int),
            !has_marker(obj@),
        decreases obj.props.len() - i,
    {
        let reason = validate_entry(&obj.props[i], i == obj.props.len() - 1);
        if reason.is_some() {
            return reason;
        }
        i += 1;
    }
    None
}

fn validate_shape(entry: &PropOrSpread, behind_prop: bool) -> (r: Option<BailReason>)
    ensures
        r == shape_reason(entry@, behind_prop),
{
    proof {
        reveal_with_fuel(crate::ast::entry_view, 3);
    }
    match entry {
        PropOrSpread::Spread { .. } => if behind_prop {
            Some(BailReason::TrailingSpread)
        } else {
            None
        },
        PropOrSpread::Prop { span: _, prop } => match prop {
            Prop::Shorthand(_) => None,
            Prop::KeyValue { key, value: _ } => match key {
                PropName::Ident(_) => None,
                PropName::Str(_) => None,
                PropName::Num(_) => Some(BailReason::NumericKey),
                PropName::BigInt(_) => Some(BailReason::NumericKey),
                PropName::Computed(_) => Some(BailReason::ComputedKey),
            },
            Prop::Getter(_) => Some(BailReason::GetterSetterProp),
            Prop::Setter(_) => Some(BailReason::GetterSetterProp),
            Prop::Method(_) => Some(BailReason::MethodProp),
            Prop::Assign { .. } => Some(BailReason::UnsupportedPropKind),
        },
    }
}

fn is_effectful_entry(entry: &PropOrSpread) -> (r: bool)
    ensures
        r == effectful_entry(entry@),
{
    proof {
        reveal_with_fuel(crate::ast::entry_view, 2);
    }
    match entry {
        PropOrSpread::Prop { span: _, prop: Prop::KeyValue { key: _, value } } => !is_effect_free(
            value,
        ),
        _ => false,
    }
}

/// Whether some value of an object literal is not provably free of effects.
pub fn contains_effect(props: &Vec<PropOrSpread>) -> (r: bool)
    ensures
        r == has_effect(crate::ast::props_view(props@)),
{
    let ghost view = crate::ast::props_view(props@);
    let mut i: usize = 0;
    while i < props.len()
        invariant
            i <= props@.len(),
            view == crate::ast::props_view(props@),
            forall|j: int| 0 <= j < i ==> !effectful_entry(#[trigger] view[j]),
        decreases props.len() - i,
    {
        if is_effectful_entry(&props[i]) {
            assert(effectful_entry(view[i as int]));
            return true;
        }
        i += 1;
    }
    false
}

/// The groups of the order-sensitive entries, in source order.
pub fn emit_ranks(props: &Vec<PropOrSpread>, catalog: &Catalog) -> (r: Vec<EmitRank>)
    requires
        crate::placement::all_placeable(crate::ast::props_view(props@)),
    ensures
        r@ == sensitive_ranks(
            crate::ast::props_view(props@),
            crate::placement::has_spread(crate::ast::props_view(props@)),
            catalog@,
        ),
{
    let ghost view = crate::ast::props_view(props@);
    let with_spread = contains_spread(props);
    let mut out: Vec<EmitRank> = Vec::new();
    let mut i: usize = 0;
    while i < props.len()
        invariant
            i <= props@.len(),
            view == crate::ast::props_view(props@),
            crate::placement::all_placeable(view),
            out@ == sensitive_ranks(view.take(i as int), with_spread, catalog@),
        decreases props.len() - i,
    {
        assert(view[i as int] == props@[i as int]@);
        assert(view.take(i + 1).drop_last() == view.take(i as int));
        if is_order_sensitive(&props[i]) {
            out.push(rank_for_prop(&props[i], with_spread, catalog));
        }
        i += 1;
    }
    assert(view.take(i as int) == view);
    out
}

/// Holds an object literal to the ordered rule, and returns the first reason
/// against it.
///
/// Where no value has an effect, no order of evaluation can be told from
/// another. Where one has, every entry that could see it or be seen by it must
/// keep its place among the others.
pub fn validate_object_ordered(obj: &ObjectLit, catalog: &Catalog) -> (r: Option<BailReason>)
    ensures
        r == ordered_reason(obj@, catalog@),
{
    if contains_marker(&obj.props) {
        return Some(BailReason::ExistingMarker);
    }
    let mut behind_prop = false;
    let mut i: usize = 0;
    while i < obj.props.len()
        invariant
            i <= obj.props@.len(),
            obj@.len() == obj.props@.len(),
            behind_prop == prop_before(obj@, i as int),
            first_shape_reason(obj@, 0) == first_shape_reason(obj@, i as int),
            !has_marker(obj@),
            forall|j: int| 0 <= j < i ==> crate::placement::placeable(#[trigger] obj@[j]),
        decreases obj.props.len() - i,
    {
        assert(obj@[i as int] == obj.props@[i as int]@);
        let reason = validate_shape(&obj.props[i], behind_prop);
        if reason.is_some() {
            return reason;
        }
        let is_prop = matches!(&obj.props[i], PropOrSpread::Prop { .. });
        assert(is_prop == (obj@[i as int] is Prop));
        assert(prop_before(obj@, i + 1) == (behind_prop || is_prop)) by {
            if behind_prop {
                let j = choose|j: int|
                    0 <= j < i && j < obj@.len() && (#[trigger] obj@[j]) is Prop;
                assert(obj@[j] is Prop);
            }
        }
        behind_prop = behind_prop || is_prop;
        i += 1;
    }
    if contains_effect(&obj.props) && !order_preserved(emit_ranks(&obj.props, catalog).as_slice()) {
        Some(BailReason::EffectfulReorder)
    } else {
        None
    }
}

/// Whether a reason stands against partitioning only, not against a call-site
/// key.
pub fn is_key_only_reason(reason: BailReason) -> (r: bool)
    ensures
        r == allows_key(reason),
{
    matches!(
        reason,
        BailReason::TrailingSpread | BailReason::ComputedKey | BailReason::NumericKey
            | BailReason::GetterSetterProp | BailReason::MethodProp | BailReason::EffectfulReorder
    )
}

proof fn lemma_shape_accepted(props: Seq<SpecEntry>, i: int)
    requires
        0 <= i,
        first_shape_reason(props, i) is None,
    ensures
        forall|j: int|
            i <= j < props.len() ==> shape_reason(#[trigger] props[j], prop_before(props, j)) is None,
    decreases props.len() - i,
{
    if i < props.len() {
        lemma_shape_accepted(props, i + 1);
    }
}

proof fn lemma_strict_accepted(props: Seq<SpecEntry>, i: int)
    requires
        0 <= i,
        first_strict_reason(props, i) is None,
    ensures
        forall|j: int|
            i <= j < props.len() ==> strict_entry_reason(
                #[trigger] props[j],
                j == props.len() - 1,
            ) is None,
    decreases props.len() - i,
{
    if i < props.len() {
        lemma_strict_accepted(props, i + 1);
    }
}

/// What either rule accepts holds no entry that cannot be placed.
pub proof fn law_accepted_can_be_placed(props: Seq<SpecEntry>, catalog: SpecCatalog)
    requires
        ordered_reason(props, catalog) is None || strict_reason(props) is None,
    ensures
        crate::placement::all_placeable(props),
{
    if ordered_reason(props, catalog) is None {
        lemma_shape_accepted(props, 0);
    } else {
        lemma_strict_accepted(props, 0);
    }
}

/// In what the ordered rule accepts, no spread is written behind a prop.
pub proof fn law_accepted_spreads_lead(props: Seq<SpecEntry>, catalog: SpecCatalog, i: int, j: int)
    requires
        ordered_reason(props, catalog) is None,
        0 <= i < j < props.len(),
        props[j] is Spread,
    ensures
        props[i] is Spread,
{
    lemma_shape_accepted(props, 0);
    if props[i] is Prop {
        assert(prop_before(props, j));
    }
}

/// In what the strict rule accepts there is no spread, and a value with an
/// effect is that of a `children` prop that is written last.
pub proof fn law_strict_rule_finds_effects(props: Seq<SpecEntry>, i: int)
    requires
        strict_reason(props) is None,
        0 <= i < props.len(),
    ensures
        props[i] is Prop,
        effectful_entry(props[i]) ==> i == props.len() - 1 && crate::placement::entry_name(props[i])
            == "children"@,
{
    lemma_strict_accepted(props, 0);
}

/// Without an effect the ordered rule looks at nothing but the marker and the
/// shape of the entries.
pub proof fn law_no_effect_no_order(props: Seq<SpecEntry>, catalog: SpecCatalog)
    requires
        !has_marker(props),
        first_shape_reason(props, 0) is None,
        !has_effect(props),
    ensures
        ordered_reason(props, catalog) is None,
{
}

/// Where at most one entry is order-sensitive, the order of evaluation stands
/// against nothing.
pub proof fn law_single_sensitive_entry_accepted(
    props: Seq<SpecEntry>,
    catalog: SpecCatalog,
    at: int,
)
    requires
        !has_marker(props),
        first_shape_reason(props, 0) is None,
        forall|i: int|
            0 <= i < props.len() && i != at ==> !crate::placement::order_sensitive(
                #[trigger] props[i],
            ),
    ensures
        ordered_reason(props, catalog) is None,
{
    let with_spread = crate::placement::has_spread(props);
    lemma_few_sensitive_ranks(props, with_spread, catalog, at);
    crate::order::law_single_rank_preserved(sensitive_ranks(props, with_spread, catalog));
}

proof fn lemma_few_sensitive_ranks(
    props: Seq<SpecEntry>,
    with_spread: bool,
    catalog: SpecCatalog,
    at: int,
)
    requires
        forall|i: int|
            0 <= i < props.len() && i != at ==> !crate::placement::order_sensitive(
                #[trigger] props[i],
            ),
    ensures
        sensitive_ranks(props, with_spread, catalog).len() <= 1,
        !(0 <= at < props.len()) ==> sensitive_ranks(props, with_spread, catalog).len() == 0,
    decreases props.len(),
{
    if props.len() > 0 {
        let rest = props.drop_last();
        assert forall|i: int| 0 <= i < rest.len() && i != at implies !(
        #[trigger] crate::placement::order_sensitive(rest[i])) by {
            assert(rest[i] == props[i]);
        }
        lemma_few_sensitive_ranks(rest, with_spread, catalog, at);
        assert(props.last() == props[props.len() - 1]);
    }
}

} // verus!
