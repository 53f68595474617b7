//! Where each entry of a props object goes.
//!
//! Detection asks this question to find out whether partitioning would
//! reorder anything, and partitioning asks it to move the entries. Both get
//! the answer from here.
use crate::ast::{Prop, PropName, PropOrSpread};
use crate::catalog::{Catalog, SpecCatalog};
use crate::effect::{is_order_inert, is_static_literal};
use crate::keys::{is_special_key, key_name_atom};
use crate::model::{SpecEntry, SpecProp};
use crate::order::EmitRank;
use vstd::prelude::*;

verus! {

/// An entry that can be placed: a spread, a shorthand, or a value under a key
/// whose name is known.
pub open spec fn placeable(entry: SpecEntry) -> bool {
    match entry {
        SpecEntry::Spread { .. } => true,
        SpecEntry::Prop { prop, .. } => match prop {
            SpecProp::Shorthand(_) => true,
            SpecProp::KeyValue { key, .. } => crate::keys::named_key(key),
            _ => false,
        },
    }
}

pub open spec fn all_placeable(props: Seq<SpecEntry>) -> bool {
    forall|i: int| 0 <= i < props.len() ==> placeable(#[trigger] props[i])
}

/// The name of a prop.
pub open spec fn entry_name(entry: SpecEntry) -> Seq<char> {
    match entry {
        SpecEntry::Spread { .. } => Seq::empty(),
        SpecEntry::Prop { prop, .. } => match prop {
            SpecProp::Shorthand(id) => id.sym,
            SpecProp::KeyValue { key, .. } => crate::keys::key_name(key),
            _ => Seq::empty(),
        },
    }
}

/// A prop whose value is written out in full.
pub open spec fn static_entry(entry: SpecEntry) -> bool {
    match entry {
        SpecEntry::Prop { prop: SpecProp::KeyValue { value, .. }, .. } => {
            crate::effect::static_literal(value)
        },
        _ => false,
    }
}

/// A prop whose value is a function written in place.
pub open spec fn inline_function_entry(entry: SpecEntry) -> bool {
    match entry {
        SpecEntry::Prop { prop: SpecProp::KeyValue { value, .. }, .. } => {
            crate::effect::inline_function(value)
        },
        _ => false,
    }
}

pub open spec fn has_spread(props: Seq<SpecEntry>) -> bool {
    exists|i: int| 0 <= i < props.len() && (#[trigger] props[i]) is Spread
}

/// The group in which an entry is emitted, in an object with or without a
/// spread. Beside a spread only static values are put into a bucket: what may
/// vary between two evaluations stays where the runtime compares it by value.
pub open spec fn rank(entry: SpecEntry, with_spread: bool, catalog: SpecCatalog) -> EmitRank {
    if entry is Spread {
        EmitRank::Spread
    } else if crate::keys::special_key(entry_name(entry)) {
        EmitRank::Special
    } else if with_spread && !static_entry(entry) {
        EmitRank::Spread
    } else if catalog.css_props.contains(entry_name(entry)) {
        EmitRank::Css
    } else {
        EmitRank::Data
    }
}

/// An entry whose evaluation depends on when it happens: a spread, a
/// shorthand, or a value that is not inert.
pub open spec fn order_sensitive(entry: SpecEntry) -> bool {
    match entry {
        SpecEntry::Spread { .. } => true,
        SpecEntry::Prop { prop, .. } => match prop {
            SpecProp::KeyValue { value, .. } => !crate::effect::order_inert(value),
            _ => true,
        },
    }
}

/// Whether an object literal holds a spread.
pub fn contains_spread(props: &Vec<PropOrSpread>) -> (r: bool)
    ensures
        r == has_spread(crate::ast::props_view(props@)),
{
    let ghost view = crate::ast::props_view(props@);
    let mut i: usize = 0;
    while i < props.len()
        invariant
            i <= props@.len(),
            view == crate::ast::props_view(props@),
            forall|j: int| 0 <= j < i ==> !((#[trigger] view[j]) is Spread),
        decreases props.len() - i,
    {
        let hit = matches!(&props[i], PropOrSpread::Spread { .. });
        assert(hit == (view[i as int] is Spread));
        if hit {
            return true;
        }
        i += 1;
    }
    false
}

fn is_placeable(entry: &PropOrSpread) -> (r: bool)
    ensures
        r == placeable(entry@),
{
    proof {
        reveal_with_fuel(crate::ast::entry_view, 3);
    }
    match entry {
        PropOrSpread::Spread { .. } => true,
        PropOrSpread::Prop { span: _, prop } => match prop {
            Prop::Shorthand(_) => true,
            Prop::KeyValue { key, value: _ } => matches!(key, PropName::Ident(_) | PropName::Str(_)),
            _ => false,
        },
    }
}

/// Whether every entry of an object literal can be placed.
pub fn are_placeable(props: &Vec<PropOrSpread>) -> (r: bool)
    ensures
        r == all_placeable(crate::ast::props_view(props@)),
{
    let ghost view = crate::ast::props_view(props@);
    let mut i: usize = 0;
    while i < props.len()
        invariant
            i <= props@.len(),
            view == crate::ast::props_view(props@),
            forall|j: int| 0 <= j < i ==> placeable(#[trigger] view[j]),
        decreases props.len() - i,
    {
        let ok = is_placeable(&props[i]);
        assert(ok == placeable(view[i as int]));
        if !ok {
            return false;
        }
        i += 1;
    }
    true
}

/// The name of a placeable prop.
pub fn prop_name(prop: &Prop) -> (r: String)
    requires
        prop@ matches SpecProp::KeyValue { key, .. } ==> crate::keys::named_key(key),
        prop@ is Shorthand || prop@ is KeyValue,
    ensures
        r@ == (match prop@ {
            SpecProp::Shorthand(id) => id.sym,
            SpecProp::KeyValue { key, .. } => crate::keys::key_name(key),
            _ => Seq::empty(),
        }),
{
    proof {
        reveal_with_fuel(crate::ast::prop_view, 2);
    }
    match prop {
        Prop::Shorthand(id) => id.sym.clone(),
        Prop::KeyValue { key, value: _ } => key_name_atom(key),
        _ => String::new(),
    }
}

/// The group in which an entry is emitted, in an object with or without a
/// spread.
pub fn rank_for_prop(entry: &PropOrSpread, with_spread: bool, catalog: &Catalog) -> (r: EmitRank)
    requires
        placeable(entry@),
    ensures
        r == rank(entry@, with_spread, catalog@),
{
    proof {
        reveal_with_fuel(crate::ast::entry_view, 2);
    }
    match entry {
        PropOrSpread::Spread { .. } => EmitRank::Spread,
        PropOrSpread::Prop { span: _, prop } => {
            let name = prop_name(prop);
            if is_special_key(name.as_str()) {
                EmitRank::Special
            } else {
                let is_static = match prop {
                    Prop::KeyValue { key: _, value } => is_static_literal(value),
                    _ => false,
                };
                if with_spread && !is_static {
                    EmitRank::Spread
                } else if catalog.is_css_prop(name.as_str()) {
                    EmitRank::Css
                } else {
                    EmitRank::Data
                }
            }
        },
    }
}

/// Whether the evaluation of an entry depends on when it happens.
pub fn is_order_sensitive(entry: &PropOrSpread) -> (r: bool)
    ensures
        r == order_sensitive(entry@),
{
    proof {
        reveal_with_fuel(crate::ast::entry_view, 2);
    }
    match entry {
        PropOrSpread::Spread { .. } => true,
        PropOrSpread::Prop { span: _, prop } => match prop {
            Prop::KeyValue { key: _, value } => !is_order_inert(value),
            _ => true,
        },
    }
}

} // verus!
