//! What holds of every partitioned props object.
use crate::ast::Span;
use crate::catalog::SpecCatalog;
use crate::model::{SpecEntry, SpecExpr, SpecIdent, SpecLit, SpecProp, SpecText};
use crate::order::EmitRank;
use crate::validate::BailReason;
use vstd::prelude::*;

verus! {

/// What is in a group is an entry of the source, and belongs to the group.
proof fn lemma_group_members(
    props: Seq<SpecEntry>,
    at: EmitRank,
    with_spread: bool,
    catalog: SpecCatalog,
)
    ensures
        forall|i: int|
            0 <= i < crate::partition::group(props, at, with_spread, catalog).len()
                ==> crate::placement::rank(
                #[trigger] crate::partition::group(props, at, with_spread, catalog)[i],
                with_spread,
                catalog,
            ) == at && props.contains(
                crate::partition::group(props, at, with_spread, catalog)[i],
            ),
    decreases props.len(),
{
    if props.len() > 0 {
        let rest = props.drop_last();
        let all = crate::partition::group(props, at, with_spread, catalog);
        let shorter = crate::partition::group(rest, at, with_spread, catalog);
        lemma_group_members(rest, at, with_spread, catalog);
        assert forall|i: int| 0 <= i < all.len() implies crate::placement::rank(
            #[trigger] all[i],
            with_spread,
            catalog,
        ) == at && props.contains(all[i]) by {
            if i < shorter.len() {
                assert(all[i] == shorter[i]);
                let j = choose|j: int| 0 <= j < rest.len() && rest[j] == shorter[i];
                assert(props[j] == all[i]);
            } else {
                assert(props[props.len() - 1] == all[i]);
            }
        }
    }
}

/// Every entry is emitted, and once: the four groups together hold the entries
/// of the source.
pub proof fn law_every_entry_is_placed_once(
    props: Seq<SpecEntry>,
    with_spread: bool,
    catalog: SpecCatalog,
)
    ensures
        crate::partition::group(props, EmitRank::Spread, with_spread, catalog).to_multiset().add(
            crate::partition::group(props, EmitRank::Css, with_spread, catalog).to_multiset(),
        ).add(
            crate::partition::group(props, EmitRank::Data, with_spread, catalog).to_multiset(),
        ).add(
            crate::partition::group(props, EmitRank::Special, with_spread, catalog).to_multiset(),
        ) == props.to_multiset(),
    decreases props.len(),
{
    broadcast use vstd::seq_lib::group_to_multiset_ensures;

    let all = crate::partition::group(props, EmitRank::Spread, with_spread, catalog).to_multiset().add(
        crate::partition::group(props, EmitRank::Css, with_spread, catalog).to_multiset(),
    ).add(crate::partition::group(props, EmitRank::Data, with_spread, catalog).to_multiset()).add(
        crate::partition::group(props, EmitRank::Special, with_spread, catalog).to_multiset(),
    );
    if props.len() > 0 {
        let rest = props.drop_last();
        law_every_entry_is_placed_once(rest, with_spread, catalog);
        assert(rest.push(props.last()) =~= props);
        assert(all =~= props.to_multiset());
    } else {
        assert(all =~= props.to_multiset());
    }
}

/// A compiled props object is recognized as such, by either rule, and so is
/// one that was given a call-site key only.
pub proof fn law_compiled_is_recognized(
    props: Seq<SpecEntry>,
    filename: Seq<char>,
    span: Span,
    catalog: SpecCatalog,
)
    ensures
        crate::validate::strict_reason(
            crate::partition::partitioned(props, filename, span, catalog),
        ) == Some(BailReason::ExistingMarker),
        crate::validate::ordered_reason(
            crate::partition::partitioned(props, filename, span, catalog),
            catalog,
        ) == Some(BailReason::ExistingMarker),
        crate::validate::strict_reason(crate::partition::stamped(props, filename, span)) == Some(
            BailReason::ExistingMarker,
        ),
        crate::validate::ordered_reason(crate::partition::stamped(props, filename, span), catalog)
            == Some(BailReason::ExistingMarker),
{
    let out = crate::partition::partitioned(props, filename, span, catalog);
    assert(out[0] == crate::partition::marker("2"@));
    assert(crate::validate::marker_entry(out[0]));
    let keyed = crate::partition::stamped(props, filename, span);
    assert(keyed[props.len() as int] == crate::partition::marker("3"@));
    assert(crate::validate::marker_entry(keyed[props.len() as int]));
}

pub proof fn lemma_contains_concat<T>(a: Seq<T>, b: Seq<T>, x: T)
    ensures
        (a + b).contains(x) <==> a.contains(x) || b.contains(x),
{
    if a.contains(x) {
        let i = choose|i: int| 0 <= i < a.len() && a[i] == x;
        assert((a + b)[i] == x);
    }
    if b.contains(x) {
        let i = choose|i: int| 0 <= i < b.len() && b[i] == x;
        assert((a + b)[a.len() + i] == x);
    }
}

/// What stands at the top level of a partitioned props object.
pub proof fn lemma_partitioned_entries(
    props: Seq<SpecEntry>,
    filename: Seq<char>,
    span: Span,
    catalog: SpecCatalog,
    x: SpecEntry,
)
    ensures
        ({
            let with_spread = crate::placement::has_spread(props);
            crate::partition::partitioned(props, filename, span, catalog).contains(x) <==> {
                ||| x == crate::partition::marker("2"@)
                ||| crate::partition::group(props, EmitRank::Spread, with_spread, catalog).contains(
                    x,
                )
                ||| crate::partition::bucket_part(
                    "__meo$c"@,
                    props,
                    EmitRank::Css,
                    catalog,
                ).contains(x)
                ||| crate::partition::bucket_part(
                    "__meo$d"@,
                    props,
                    EmitRank::Data,
                    catalog,
                ).contains(x)
                ||| !with_spread && x == crate::partition::key_entry(filename, span)
                ||| crate::partition::names_part(props).contains(x)
                ||| crate::partition::group(props, EmitRank::Special, with_spread, catalog).contains(
                    x,
                )
            }
        }),
{
    let with_spread = crate::placement::has_spread(props);
    let p0 = seq![crate::partition::marker("2"@)];
    let p1 = p0 + crate::partition::group(props, EmitRank::Spread, with_spread, catalog);
    let p2 = p1 + crate::partition::bucket_part("__meo$c"@, props, EmitRank::Css, catalog);
    let p3 = p2 + crate::partition::bucket_part("__meo$d"@, props, EmitRank::Data, catalog);
    let key = crate::partition::key_part(props, filename, span);
    let p4 = p3 + key;
    let p5 = p4 + crate::partition::names_part(props);
    let special = crate::partition::group(props, EmitRank::Special, with_spread, catalog);
    assert(p0[0] == crate::partition::marker("2"@));
    if !with_spread {
        assert(key[0] == crate::partition::key_entry(filename, span));
    }
    lemma_contains_concat(
        p0,
        crate::partition::group(props, EmitRank::Spread, with_spread, catalog),
        x,
    );
    lemma_contains_concat(
        p1,
        crate::partition::bucket_part("__meo$c"@, props, EmitRank::Css, catalog),
        x,
    );
    lemma_contains_concat(
        p2,
        crate::partition::bucket_part("__meo$d"@, props, EmitRank::Data, catalog),
        x,
    );
    lemma_contains_concat(p3, key, x);
    lemma_contains_concat(p4, crate::partition::names_part(props), x);
    lemma_contains_concat(p5, special, x);
}

/// Beside a spread there is neither a call-site key nor a list of dynamic
/// props, since neither could stand for what the spread holds.
pub proof fn law_no_key_beside_a_spread(
    props: Seq<SpecEntry>,
    filename: Seq<char>,
    span: Span,
    catalog: SpecCatalog,
    i: int,
)
    requires
        crate::placement::has_spread(props),
        forall|j: int|
            0 <= j < props.len() ==> crate::placement::entry_name(#[trigger] props[j])
                != "__meo$k"@ && crate::placement::entry_name(props[j]) != "__meo$dyn"@,
        0 <= i < crate::partition::partitioned(props, filename, span, catalog).len(),
    ensures
        crate::placement::entry_name(
            crate::partition::partitioned(props, filename, span, catalog)[i],
        ) != "__meo$k"@,
        crate::placement::entry_name(
            crate::partition::partitioned(props, filename, span, catalog)[i],
        ) != "__meo$dyn"@,
{
    let x = crate::partition::partitioned(props, filename, span, catalog)[i];
    lemma_new_names_differ();
    lemma_partitioned_entries(props, filename, span, catalog, x);
    lemma_group_members(props, EmitRank::Spread, true, catalog);
    lemma_group_members(props, EmitRank::Special, true, catalog);
}

pub proof fn lemma_new_names_differ()
    ensures
        "__meo$c"@ != "__meo$"@,
        "__meo$d"@ != "__meo$"@,
        "__meo$c"@ != "__meo$d"@,
        "__meo$c"@ != "__meo$k"@,
        "__meo$d"@ != "__meo$k"@,
        "__meo$c"@ != "__meo$dyn"@,
        "__meo$d"@ != "__meo$dyn"@,
        "__meo$k"@ != "__meo$dyn"@,
        "__meo$"@ != "__meo$dyn"@,
        "__meo$"@ != "__meo$k"@,
{
    reveal_strlit("__meo$");
    reveal_strlit("__meo$c");
    reveal_strlit("__meo$d");
    reveal_strlit("__meo$k");
    reveal_strlit("__meo$dyn");
    assert("__meo$"@.len() == 6);
    assert("__meo$c"@.len() == 7 && "__meo$c"@[6] == 'c');
    assert("__meo$d"@.len() == 7 && "__meo$d"@[6] == 'd');
    assert("__meo$k"@.len() == 7 && "__meo$k"@[6] == 'k');
    assert("__meo$dyn"@.len() == 9);
}

/// Without a spread the call-site key is there.
pub proof fn law_key_without_a_spread(
    props: Seq<SpecEntry>,
    filename: Seq<char>,
    span: Span,
    catalog: SpecCatalog,
)
    requires
        !crate::placement::has_spread(props),
    ensures
        crate::partition::partitioned(props, filename, span, catalog).contains(
            crate::partition::key_entry(filename, span),
        ),
{
    lemma_partitioned_entries(
        props,
        filename,
        span,
        catalog,
        crate::partition::key_entry(filename, span),
    );
}

/// Beside a spread nothing is put into a bucket but static values: what may
/// differ between two evaluations stays where the runtime compares it by
/// value.
pub proof fn law_only_static_values_beside_a_spread(
    props: Seq<SpecEntry>,
    catalog: SpecCatalog,
    i: int,
)
    ensures
        0 <= i < crate::partition::group(props, EmitRank::Css, true, catalog).len()
            ==> crate::placement::static_entry(
            crate::partition::group(props, EmitRank::Css, true, catalog)[i],
        ),
        0 <= i < crate::partition::group(props, EmitRank::Data, true, catalog).len()
            ==> crate::placement::static_entry(
            crate::partition::group(props, EmitRank::Data, true, catalog)[i],
        ),
{
    lemma_group_members(props, EmitRank::Css, true, catalog);
    lemma_group_members(props, EmitRank::Data, true, catalog);
}

/// Without a spread nothing stays flat at the front.
pub proof fn law_all_bucketed_without_a_spread(props: Seq<SpecEntry>, catalog: SpecCatalog)
    requires
        !crate::placement::has_spread(props),
    ensures
        crate::partition::group(props, EmitRank::Spread, false, catalog) == Seq::<
            SpecEntry,
        >::empty(),
{
    let lead = crate::partition::group(props, EmitRank::Spread, false, catalog);
    lemma_group_members(props, EmitRank::Spread, false, catalog);
    if lead.len() > 0 {
        let j = choose|j: int| 0 <= j < props.len() && props[j] == lead[0];
        assert(props[j] is Spread);
    }
    assert(lead =~= Seq::empty());
}

/// Special keys stay at the top level, unchanged and in source order, at the
/// tail of the object.
pub proof fn law_special_keys_at_the_tail(
    props: Seq<SpecEntry>,
    filename: Seq<char>,
    span: Span,
    catalog: SpecCatalog,
)
    ensures
        ({
            let with_spread = crate::placement::has_spread(props);
            let special = crate::partition::group(props, EmitRank::Special, with_spread, catalog);
            let out = crate::partition::partitioned(props, filename, span, catalog);
            &&& out.len() >= special.len()
            &&& out.skip(out.len() - special.len()) == special
            &&& special == props.filter(
                |entry: SpecEntry|
                    entry is Prop && crate::keys::special_key(crate::placement::entry_name(entry)),
            )
        }),
{
    let with_spread = crate::placement::has_spread(props);
    let special = crate::partition::group(props, EmitRank::Special, with_spread, catalog);
    let out = crate::partition::partitioned(props, filename, span, catalog);
    assert(out.skip(out.len() - special.len()) =~= special);
    lemma_special_group(props, with_spread, catalog);
}

proof fn lemma_special_group(props: Seq<SpecEntry>, with_spread: bool, catalog: SpecCatalog)
    ensures
        crate::partition::group(props, EmitRank::Special, with_spread, catalog) == props.filter(
            |entry: SpecEntry|
                entry is Prop && crate::keys::special_key(crate::placement::entry_name(entry)),
        ),
    decreases props.len(),
{
    reveal(Seq::filter);
    if props.len() > 0 {
        lemma_special_group(props.drop_last(), with_spread, catalog);
    }
}

/// No special key is put into a bucket.
pub proof fn law_special_keys_are_not_bucketed(
    props: Seq<SpecEntry>,
    with_spread: bool,
    catalog: SpecCatalog,
    i: int,
)
    ensures
        0 <= i < crate::partition::group(props, EmitRank::Css, with_spread, catalog).len()
            ==> !crate::keys::special_key(
            crate::placement::entry_name(
                crate::partition::group(props, EmitRank::Css, with_spread, catalog)[i],
            ),
        ),
        0 <= i < crate::partition::group(props, EmitRank::Data, with_spread, catalog).len()
            ==> !crate::keys::special_key(
            crate::placement::entry_name(
                crate::partition::group(props, EmitRank::Data, with_spread, catalog)[i],
            ),
        ),
{
    lemma_group_members(props, EmitRank::Css, with_spread, catalog);
    lemma_group_members(props, EmitRank::Data, with_spread, catalog);
}

/// The list of dynamic props names each once, and names those of the dynamic
/// entries and no others.
pub proof fn law_dynamic_names(props: Seq<SpecEntry>)
    ensures
        crate::partition::dynamic_names(props).no_duplicates(),
        forall|name: Seq<char>| #[trigger]
            crate::partition::dynamic_names(props).contains(name) <==> exists|i: int|
                0 <= i < props.len() && crate::partition::dynamic_entry(#[trigger] props[i])
                    && crate::placement::entry_name(props[i]) == name,
    decreases props.len(),
{
    let names = crate::partition::dynamic_names(props);
    if props.len() > 0 {
        let rest = props.drop_last();
        let before = crate::partition::dynamic_names(rest);
        law_dynamic_names(rest);
        assert forall|name: Seq<char>| #[trigger] names.contains(name) <==> exists|i: int|
            0 <= i < props.len() && crate::partition::dynamic_entry(#[trigger] props[i])
                && crate::placement::entry_name(props[i]) == name by {
            if names.contains(name) {
                let k = choose|k: int| 0 <= k < names.len() && names[k] == name;
                if k < before.len() {
                    assert(before[k] == name);
                    assert(before.contains(name));
                    let i = choose|i: int|
                        0 <= i < rest.len() && crate::partition::dynamic_entry(#[trigger] rest[i])
                            && crate::placement::entry_name(rest[i]) == name;
                    assert(props[i] == rest[i]);
                } else {
                    assert(props[props.len() - 1] == props.last());
                }
            }
            if exists|i: int|
                0 <= i < props.len() && crate::partition::dynamic_entry(#[trigger] props[i])
                    && crate::placement::entry_name(props[i]) == name {
                let i = choose|i: int|
                    0 <= i < props.len() && crate::partition::dynamic_entry(#[trigger] props[i])
                        && crate::placement::entry_name(props[i]) == name;
                if i < rest.len() {
                    assert(rest[i] == props[i]);
                    assert(before.contains(name));
                    let k = choose|k: int| 0 <= k < before.len() && before[k] == name;
                    assert(names[k] == name);
                } else if before.contains(name) {
                    let k = choose|k: int| 0 <= k < before.len() && before[k] == name;
                    assert(names[k] == name);
                } else {
                    assert(names[before.len() as int] == name);
                }
            }
        }
    }
}

/// Replacing theme tokens has no say in where a prop goes, nor in whether it
/// is dynamic or order-sensitive.
pub proof fn law_theming_moves_nothing(entry: SpecEntry, with_spread: bool, catalog: SpecCatalog)
    ensures
        crate::placement::rank(crate::partition::themed(entry), with_spread, catalog)
            == crate::placement::rank(entry, with_spread, catalog),
        crate::partition::dynamic_entry(crate::partition::themed(entry))
            == crate::partition::dynamic_entry(entry),
        crate::placement::order_sensitive(crate::partition::themed(entry))
            == crate::placement::order_sensitive(entry),
        crate::placement::entry_name(crate::partition::themed(entry))
            == crate::placement::entry_name(entry),
{
    match entry {
        SpecEntry::Prop { prop: SpecProp::KeyValue { key, value }, .. } => lemma_themed_class(value),
        _ => {},
    }
}

proof fn lemma_themed_class(e: SpecExpr)
    ensures
        crate::effect::static_literal(crate::partition::themed_value(e))
            == crate::effect::static_literal(e),
        crate::effect::inline_function(crate::partition::themed_value(e))
            == crate::effect::inline_function(e),
    decreases e,
{
    match e {
        SpecExpr::Paren(inner) => lemma_themed_class(*inner),
        _ => {},
    }
}

/// Partitioning twice rewrites no token twice: once replaced, the tokens of a
/// value are gone.
pub proof fn law_theming_is_idempotent(entry: SpecEntry)
    ensures
        crate::partition::themed(crate::partition::themed(entry)) == crate::partition::themed(
            entry,
        ),
{
    match entry {
        SpecEntry::Prop { prop: SpecProp::KeyValue { key, value }, .. } => lemma_themed_twice(value),
        _ => {},
    }
}

proof fn lemma_themed_twice(e: SpecExpr)
    ensures
        crate::partition::themed_value(crate::partition::themed_value(e))
            == crate::partition::themed_value(e),
    decreases e,
{
    match e {
        SpecExpr::Paren(inner) => lemma_themed_twice(*inner),
        SpecExpr::Lit(SpecLit::Str(s)) => match s.value {
            SpecText::Unicode(text) => {
                crate::theme::law_rewriting_is_idempotent(text);
            },
            _ => {},
        },
        _ => {},
    }
}

/// A static literal is order-inert, and what is order-inert is free of
/// effects.
pub proof fn law_effect_classes(e: SpecExpr)
    ensures
        crate::effect::static_literal(e) ==> crate::effect::order_inert(e),
        crate::effect::order_inert(e) ==> crate::effect::effect_free(e),
    decreases e,
{
    match e {
        SpecExpr::Paren(inner) => law_effect_classes(*inner),
        _ => {},
    }
}

/// Reading a binding is free of effects, but it is not order-inert, and so not
/// a static literal: the classes differ.
pub proof fn law_effect_classes_differ(id: SpecIdent)
    ensures
        crate::effect::effect_free(SpecExpr::Ident(id)),
        !crate::effect::order_inert(SpecExpr::Ident(id)),
        !crate::effect::static_literal(SpecExpr::Ident(id)),
{
}

} // verus!
