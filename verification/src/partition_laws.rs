//! Where each prop of a partitioned object stands, by its name and by the kind
//! of its value.
use crate::ast::{Span, UnaryOp};
use crate::catalog::SpecCatalog;
use crate::model::{
    SpecArg, SpecEntry, SpecExpr, SpecKey, SpecLit, SpecProp, SpecStr, SpecText,
};
use crate::order::EmitRank;
use vstd::prelude::*;

verus! {

/// A prop with the given name, quoted or not. A quoted name with unpaired
/// surrogates counts as empty.
pub open spec fn prop_named(entry: SpecEntry, name: Seq<char>) -> bool {
    match entry {
        SpecEntry::Spread { .. } => false,
        SpecEntry::Prop { prop, .. } => match prop {
            SpecProp::Shorthand(id) => id.sym == name,
            SpecProp::KeyValue { key, .. } => match key {
                SpecKey::Ident(sym) => sym == name,
                SpecKey::Str(s) => match s.value {
                    SpecText::Unicode(value) => value == name,
                    SpecText::Surrogates(_) => name.len() == 0,
                },
                _ => false,
            },
            _ => false,
        },
    }
}

/// Every entry is a spread or has a name.
pub open spec fn all_named(props: Seq<SpecEntry>) -> bool {
    forall|i: int|
        0 <= i < props.len() ==> (#[trigger] props[i]) is Spread || exists|name: Seq<char>|
            prop_named(props[i], name)
}

pub open spec fn no_spread(props: Seq<SpecEntry>) -> bool {
    forall|i: int| 0 <= i < props.len() ==> !((#[trigger] props[i]) is Spread)
}

/// The names that stay at the top level.
pub open spec fn reserved(name: Seq<char>) -> bool {
    ||| name == "as"@
    ||| name == "children"@
    ||| name == "css"@
    ||| name == "disableEmotion"@
    ||| name == "key"@
    ||| name == "props"@
    ||| name == "ref"@
    ||| name == "theme"@
}

/// A value that is written out: a literal, a signed number or a template
/// without substitutions, in parentheses or not.
pub open spec fn written_out(e: SpecExpr) -> bool
    decreases e,
{
    match e {
        SpecExpr::Paren(inner) => written_out(*inner),
        SpecExpr::Lit(_) => true,
        SpecExpr::Unary { op, arg } => (op == UnaryOp::Minus || op == UnaryOp::Plus)
            && crate::steps::number_literal(*arg),
        SpecExpr::Tpl { exprs } => exprs.len() == 0,
        _ => false,
    }
}

/// A function that is written in place, in parentheses or not.
pub open spec fn defined_in_place(e: SpecExpr) -> bool
    decreases e,
{
    match e {
        SpecExpr::Paren(inner) => defined_in_place(*inner),
        SpecExpr::Arrow(_) => true,
        SpecExpr::Fn(_) => true,
        _ => false,
    }
}

/// A prop whose value is written out.
pub open spec fn fixed_prop(entry: SpecEntry) -> bool {
    match entry {
        SpecEntry::Prop { prop: SpecProp::KeyValue { value, .. }, .. } => written_out(value),
        _ => false,
    }
}

/// A prop whose value is written out or is a function written in place.
pub open spec fn settled_prop(entry: SpecEntry) -> bool {
    match entry {
        SpecEntry::Prop { prop: SpecProp::KeyValue { value, .. }, .. } => written_out(value)
            || defined_in_place(value),
        _ => false,
    }
}

proof fn lemma_values(e: SpecExpr)
    ensures
        crate::effect::static_literal(e) == written_out(e),
        crate::effect::inline_function(e) == defined_in_place(e),
    decreases e,
{
    match e {
        SpecExpr::Paren(inner) => lemma_values(*inner),
        SpecExpr::Unary { op, arg } => crate::steps::lemma_number_literal(*arg),
        _ => {},
    }
}

pub proof fn lemma_entries(entry: SpecEntry)
    ensures
        crate::placement::static_entry(entry) == fixed_prop(entry),
        crate::placement::static_entry(entry) || crate::placement::inline_function_entry(entry)
            <==> settled_prop(entry),
        forall|name: Seq<char>| #[trigger]
            prop_named(entry, name) ==> crate::placement::entry_name(entry) == name,
{
    match entry {
        SpecEntry::Prop { prop: SpecProp::KeyValue { key, value }, .. } => {
            lemma_values(value);
            assert forall|name: Seq<char>| #[trigger] prop_named(entry, name) implies
                crate::placement::entry_name(entry) == name by {
                assert(crate::placement::entry_name(entry) =~= name);
            }
        },
        _ => {},
    }
}

/// The special names are the eight reserved ones. Those that may be listed as
/// dynamic are all but `ref`, `key` and `children`.
pub proof fn law_special_names(name: Seq<char>)
    ensures
        crate::keys::special_key(name) <==> reserved(name),
        crate::keys::stable_key_visible(name) <==> reserved(name) && name != "ref"@ && name
            != "key"@ && name != "children"@,
{
    crate::keys::law_stable_key_visible_specials(name);
}

/// The name of a prop is that of its binding, its identifier or its quoted key.
/// A key that is computed or a number has none, and nor has an accessor or a
/// method: an object that holds one cannot be partitioned.
pub proof fn law_names(props: Seq<SpecEntry>)
    ensures
        crate::placement::all_placeable(props) <==> all_named(props),
        forall|i: int, name: Seq<char>|
            0 <= i < props.len() && #[trigger] prop_named(props[i], name)
                ==> crate::placement::entry_name(props[i]) == name,
{
    assert forall|i: int| 0 <= i < props.len() implies crate::placement::placeable(
        #[trigger] props[i],
    ) == (props[i] is Spread || exists|name: Seq<char>| prop_named(props[i], name)) by {
        lemma_entries(props[i]);
        if props[i] is Prop && crate::placement::placeable(props[i]) {
            assert(prop_named(props[i], crate::placement::entry_name(props[i])));
        }
    }
    assert forall|i: int, name: Seq<char>|
        0 <= i < props.len() && #[trigger] prop_named(
            props[i],
            name,
        ) implies crate::placement::entry_name(props[i]) == name by {
        lemma_entries(props[i]);
    }
    if all_named(props) {
        assert forall|i: int| 0 <= i < props.len() implies crate::placement::placeable(
            #[trigger] props[i],
        ) by {}
    }
    if crate::placement::all_placeable(props) {
        assert forall|i: int| 0 <= i < props.len() implies (#[trigger] props[i]) is Spread
            || exists|name: Seq<char>| prop_named(props[i], name) by {
            assert(crate::placement::placeable(props[i]));
        }
    }
}

/// Where a prop goes, by its name and, beside a spread, by the kind of its
/// value: a reserved name to the tail, what is not written out to the front if
/// there is a spread, a CSS property to the CSS bucket, and all else to the
/// other bucket.
pub proof fn law_ranks(entry: SpecEntry, name: Seq<char>, with_spread: bool, catalog: SpecCatalog)
    requires
        prop_named(entry, name),
    ensures
        ({
            let rank = crate::placement::rank(entry, with_spread, catalog);
            let bucketed = !reserved(name) && (with_spread ==> fixed_prop(entry));
            &&& rank == EmitRank::Special <==> reserved(name)
            &&& rank == EmitRank::Spread <==> with_spread && !reserved(name) && !fixed_prop(entry)
            &&& rank == EmitRank::Css <==> bucketed && catalog.css_props.contains(name)
            &&& rank == EmitRank::Data <==> bucketed && !catalog.css_props.contains(name)
        }),
{
    lemma_entries(entry);
    law_special_names(name);
}

/// A spread is emitted in front.
pub proof fn law_spreads_in_front(entry: SpecEntry, with_spread: bool, catalog: SpecCatalog)
    requires
        entry is Spread,
    ensures
        crate::placement::rank(entry, with_spread, catalog) == EmitRank::Spread,
{
}

/// The groups keep the order of the source: the group of two pieces is the
/// group of the first before that of the second.
pub proof fn law_groups_keep_the_order(
    a: Seq<SpecEntry>,
    b: Seq<SpecEntry>,
    at: EmitRank,
    with_spread: bool,
    catalog: SpecCatalog,
)
    ensures
        crate::partition::group(a + b, at, with_spread, catalog) == crate::partition::group(
            a,
            at,
            with_spread,
            catalog,
        ) + crate::partition::group(b, at, with_spread, catalog),
    decreases b.len(),
{
    if b.len() > 0 {
        let rest = b.drop_last();
        law_groups_keep_the_order(a, rest, at, with_spread, catalog);
        assert((a + b).drop_last() =~= a + rest);
        assert((a + b).last() == b.last());
        assert(crate::partition::group(a + b, at, with_spread, catalog)
            =~= crate::partition::group(a, at, with_spread, catalog) + crate::partition::group(
            b,
            at,
            with_spread,
            catalog,
        ));
    } else {
        assert(a + b =~= a);
        assert(crate::partition::group(a, at, with_spread, catalog) + crate::partition::group(
            b,
            at,
            with_spread,
            catalog,
        ) =~= crate::partition::group(a, at, with_spread, catalog));
    }
}

/// An entry is in a group exactly if it is in the source and goes there.
proof fn lemma_in_group(
    props: Seq<SpecEntry>,
    at: EmitRank,
    with_spread: bool,
    catalog: SpecCatalog,
    x: SpecEntry,
)
    ensures
        crate::partition::group(props, at, with_spread, catalog).contains(x) <==> props.contains(x)
            && crate::placement::rank(x, with_spread, catalog) == at,
    decreases props.len(),
{
    let all = crate::partition::group(props, at, with_spread, catalog);
    if props.len() > 0 {
        let rest = props.drop_last();
        let shorter = crate::partition::group(rest, at, with_spread, catalog);
        lemma_in_group(rest, at, with_spread, catalog, x);
        assert(props =~= rest + seq![props.last()]);
        crate::laws::lemma_contains_concat(rest, seq![props.last()], x);
        assert(seq![props.last()].contains(x) <==> x == props.last()) by {
            assert(seq![props.last()][0] == props.last());
        }
        if crate::placement::rank(props.last(), with_spread, catalog) == at {
            assert(all =~= shorter + seq![props.last()]);
            crate::laws::lemma_contains_concat(shorter, seq![props.last()], x);
        }
    }
}

/// An entry in a bucket of the given name, at the top level of an object.
pub open spec fn in_bucket(out: Seq<SpecEntry>, bucket: Seq<char>, x: SpecEntry) -> bool {
    exists|k: int| #[trigger] in_bucket_at(out, k, bucket, x)
}

pub open spec fn in_bucket_at(out: Seq<SpecEntry>, k: int, bucket: Seq<char>, x: SpecEntry) -> bool {
    &&& 0 <= k < out.len()
    &&& prop_named(out[k], bucket)
    &&& match out[k] {
        SpecEntry::Prop {
            prop: SpecProp::KeyValue { value: SpecExpr::Object(inner), .. },
            ..
        } => inner.contains(x),
        _ => false,
    }
}

proof fn lemma_spreads(props: Seq<SpecEntry>)
    ensures
        crate::placement::has_spread(props) == !no_spread(props),
{
}

proof fn lemma_bucketed(
    props: Seq<SpecEntry>,
    filename: Seq<char>,
    span: Span,
    catalog: SpecCatalog,
    name: Seq<char>,
    at: EmitRank,
    x: SpecEntry,
)
    requires
        props.contains(x),
        crate::placement::rank(x, crate::placement::has_spread(props), catalog) == at,
        (name == "__meo$c"@ && at == EmitRank::Css) || (name == "__meo$d"@ && at
            == EmitRank::Data),
    ensures
        in_bucket(
            crate::partition::partitioned(props, filename, span, catalog),
            name,
            crate::partition::themed(x),
        ),
{
    let out = crate::partition::partitioned(props, filename, span, catalog);
    let g = crate::partition::group(props, at, crate::placement::has_spread(props), catalog);
    lemma_in_group(props, at, crate::placement::has_spread(props), catalog, x);
    let j = choose|j: int| 0 <= j < g.len() && g[j] == x;
    let inner = crate::partition::themed_all(g);
    assert(inner[j] == crate::partition::themed(x));
    let part = crate::partition::bucket_part(name, props, at, catalog);
    assert(part[0] == crate::partition::bucket(name, inner));
    crate::laws::lemma_partitioned_entries(
        props,
        filename,
        span,
        catalog,
        crate::partition::bucket(name, inner),
    );
    let k = choose|k: int|
        0 <= k < out.len() && out[k] == crate::partition::bucket(name, inner);
    assert(in_bucket_at(out, k, name, crate::partition::themed(x)));
}

/// A prop whose name is not reserved is put into the CSS bucket if its name is
/// a CSS property of the catalog, and into the other bucket if it is not,
/// whatever its value. Beside a spread the same holds of the values that are
/// written out.
pub proof fn law_props_are_bucketed_by_name(
    props: Seq<SpecEntry>,
    filename: Seq<char>,
    span: Span,
    catalog: SpecCatalog,
    i: int,
    name: Seq<char>,
)
    requires
        0 <= i < props.len(),
        prop_named(props[i], name),
        !reserved(name),
        no_spread(props) || fixed_prop(props[i]),
    ensures
        ({
            let out = crate::partition::partitioned(props, filename, span, catalog);
            let x = crate::partition::themed(props[i]);
            if catalog.css_props.contains(name) {
                in_bucket(out, "__meo$c"@, x)
            } else {
                in_bucket(out, "__meo$d"@, x)
            }
        }),
{
    lemma_spreads(props);
    law_ranks(props[i], name, crate::placement::has_spread(props), catalog);
    assert(props.contains(props[i]));
    if catalog.css_props.contains(name) {
        lemma_bucketed(props, filename, span, catalog, "__meo$c"@, EmitRank::Css, props[i]);
    } else {
        lemma_bucketed(props, filename, span, catalog, "__meo$d"@, EmitRank::Data, props[i]);
    }
}

/// What stands in a bucket has a name that is not reserved and that belongs
/// there, and beside a spread a value that is written out; and it is an entry
/// of the source, save for the theme tokens.
pub proof fn law_buckets_hold_nothing_else(
    props: Seq<SpecEntry>,
    filename: Seq<char>,
    span: Span,
    catalog: SpecCatalog,
    x: SpecEntry,
)
    requires
        all_named(props),
        forall|i: int|
            0 <= i < props.len() ==> !prop_named(#[trigger] props[i], "__meo$c"@) && !prop_named(
                props[i],
                "__meo$d"@,
            ),
    ensures
        ({
            let out = crate::partition::partitioned(props, filename, span, catalog);
            &&& in_bucket(out, "__meo$c"@, x) ==> exists|i: int, name: Seq<char>|
                0 <= i < props.len() && #[trigger] prop_named(props[i], name) && !reserved(name)
                    && catalog.css_props.contains(name) && x == crate::partition::themed(props[i])
                    && (no_spread(props) || fixed_prop(props[i]))
            &&& in_bucket(out, "__meo$d"@, x) ==> exists|i: int, name: Seq<char>|
                0 <= i < props.len() && #[trigger] prop_named(props[i], name) && !reserved(name)
                    && !catalog.css_props.contains(name) && x == crate::partition::themed(props[i])
                    && (no_spread(props) || fixed_prop(props[i]))
        }),
{
    let out = crate::partition::partitioned(props, filename, span, catalog);
    if in_bucket(out, "__meo$c"@, x) {
        lemma_from_bucket(props, filename, span, catalog, "__meo$c"@, EmitRank::Css, x);
    }
    if in_bucket(out, "__meo$d"@, x) {
        lemma_from_bucket(props, filename, span, catalog, "__meo$d"@, EmitRank::Data, x);
    }
}

proof fn lemma_from_bucket(
    props: Seq<SpecEntry>,
    filename: Seq<char>,
    span: Span,
    catalog: SpecCatalog,
    bucket: Seq<char>,
    at: EmitRank,
    x: SpecEntry,
)
    requires
        all_named(props),
        forall|i: int|
            0 <= i < props.len() ==> !prop_named(#[trigger] props[i], "__meo$c"@) && !prop_named(
                props[i],
                "__meo$d"@,
            ),
        (bucket == "__meo$c"@ && at == EmitRank::Css) || (bucket == "__meo$d"@ && at
            == EmitRank::Data),
        in_bucket(crate::partition::partitioned(props, filename, span, catalog), bucket, x),
    ensures
        exists|i: int, name: Seq<char>|
            0 <= i < props.len() && #[trigger] prop_named(props[i], name) && !reserved(name)
                && catalog.css_props.contains(name) == (at == EmitRank::Css) && x
                == crate::partition::themed(props[i]) && (no_spread(props) || fixed_prop(
                props[i],
            )),
{
    let out = crate::partition::partitioned(props, filename, span, catalog);
    let with_spread = crate::placement::has_spread(props);
    let k = choose|k: int| #[trigger] in_bucket_at(out, k, bucket, x);
    let y = out[k];
    crate::laws::lemma_new_names_differ();
    lemma_spreads(props);
    crate::laws::lemma_partitioned_entries(props, filename, span, catalog, y);
    lemma_in_group(props, EmitRank::Spread, with_spread, catalog, y);
    lemma_in_group(props, EmitRank::Special, with_spread, catalog, y);
    assert(!props.contains(y)) by {
        if props.contains(y) {
            let i = choose|i: int| 0 <= i < props.len() && props[i] == y;
            assert(!prop_named(props[i], bucket));
        }
    }
    let g = crate::partition::group(props, at, with_spread, catalog);
    let inner = crate::partition::themed_all(g);
    assert(y == crate::partition::bucket(bucket, inner));
    let m = choose|m: int| 0 <= m < inner.len() && inner[m] == x;
    let e = g[m];
    assert(g.contains(e));
    lemma_in_group(props, at, with_spread, catalog, e);
    let i = choose|i: int| 0 <= i < props.len() && props[i] == e;
    let name = choose|name: Seq<char>| prop_named(props[i], name);
    law_ranks(props[i], name, with_spread, catalog);
    assert(prop_named(props[i], name));
}

/// The bucket of the CSS properties, or of the other props.
pub open spec fn bucket_for(css: bool) -> Seq<char> {
    if css {
        "__meo$c"@
    } else {
        "__meo$d"@
    }
}

/// Two entries of a bucket, in this order.
pub open spec fn bucketed_in_order(
    out: Seq<SpecEntry>,
    k: int,
    m: int,
    n: int,
    bucket: Seq<char>,
    x: SpecEntry,
    y: SpecEntry,
) -> bool {
    &&& 0 <= k < out.len()
    &&& prop_named(out[k], bucket)
    &&& match out[k] {
        SpecEntry::Prop {
            prop: SpecProp::KeyValue { value: SpecExpr::Object(inner), .. },
            ..
        } => 0 <= m < n < inner.len() && inner[m] == x && inner[n] == y,
        _ => false,
    }
}

/// Two props that go to the same bucket stand there in the order of the source.
/// So of two props of one name the later one still counts.
pub proof fn law_buckets_keep_the_order(
    props: Seq<SpecEntry>,
    filename: Seq<char>,
    span: Span,
    catalog: SpecCatalog,
    i: int,
    name: Seq<char>,
    j: int,
    other: Seq<char>,
)
    requires
        0 <= i < j < props.len(),
        prop_named(props[i], name),
        prop_named(props[j], other),
        !reserved(name),
        !reserved(other),
        no_spread(props) || (fixed_prop(props[i]) && fixed_prop(props[j])),
        catalog.css_props.contains(name) == catalog.css_props.contains(other),
    ensures
        exists|k: int, m: int, n: int| #[trigger]
            bucketed_in_order(
                crate::partition::partitioned(props, filename, span, catalog),
                k,
                m,
                n,
                bucket_for(catalog.css_props.contains(name)),
                crate::partition::themed(props[i]),
                crate::partition::themed(props[j]),
            ),
{
    let with_spread = crate::placement::has_spread(props);
    let out = crate::partition::partitioned(props, filename, span, catalog);
    let css = catalog.css_props.contains(name);
    let bucket = bucket_for(css);
    let at = if css {
        EmitRank::Css
    } else {
        EmitRank::Data
    };
    lemma_spreads(props);
    law_ranks(props[i], name, with_spread, catalog);
    law_ranks(props[j], other, with_spread, catalog);
    let a = props.take(j);
    let b = props.skip(j);
    let ga = crate::partition::group(a, at, with_spread, catalog);
    let gb = crate::partition::group(b, at, with_spread, catalog);
    assert(a + b =~= props);
    law_groups_keep_the_order(a, b, at, with_spread, catalog);
    assert(a[i] == props[i]);
    assert(a.contains(props[i]));
    assert(b[0] == props[j]);
    assert(b.contains(props[j]));
    lemma_in_group(a, at, with_spread, catalog, props[i]);
    lemma_in_group(b, at, with_spread, catalog, props[j]);
    let m = choose|m: int| 0 <= m < ga.len() && ga[m] == props[i];
    let l = choose|l: int| 0 <= l < gb.len() && gb[l] == props[j];
    let n = ga.len() + l;
    let g = ga + gb;
    let inner = crate::partition::themed_all(g);
    assert(g == crate::partition::group(props, at, with_spread, catalog));
    assert(g[m] == props[i]);
    assert(g[n] == props[j]);
    assert(inner[m] == crate::partition::themed(props[i]));
    assert(inner[n] == crate::partition::themed(props[j]));
    let part = crate::partition::bucket_part(bucket, props, at, catalog);
    assert(part[0] == crate::partition::bucket(bucket, inner));
    crate::laws::lemma_partitioned_entries(
        props,
        filename,
        span,
        catalog,
        crate::partition::bucket(bucket, inner),
    );
    let k = choose|k: int|
        0 <= k < out.len() && out[k] == crate::partition::bucket(bucket, inner);
    assert(bucketed_in_order(
        out,
        k,
        m,
        n,
        bucket,
        crate::partition::themed(props[i]),
        crate::partition::themed(props[j]),
    ));
}

/// A prop with a reserved name stays at the top level as it is, and so, beside
/// a spread, do the spreads and whatever is not written out.
pub proof fn law_what_stays_flat(
    props: Seq<SpecEntry>,
    filename: Seq<char>,
    span: Span,
    catalog: SpecCatalog,
    i: int,
)
    requires
        0 <= i < props.len(),
        props[i] is Spread || (exists|name: Seq<char>| prop_named(props[i], name) && reserved(name))
            || (!no_spread(props) && props[i] is Prop && !fixed_prop(props[i])),
    ensures
        crate::partition::partitioned(props, filename, span, catalog).contains(props[i]),
{
    let with_spread = crate::placement::has_spread(props);
    lemma_spreads(props);
    lemma_entries(props[i]);
    law_special_names(crate::placement::entry_name(props[i]));
    assert(props.contains(props[i]));
    lemma_in_group(props, EmitRank::Spread, with_spread, catalog, props[i]);
    lemma_in_group(props, EmitRank::Special, with_spread, catalog, props[i]);
    crate::laws::lemma_partitioned_entries(props, filename, span, catalog, props[i]);
}

/// A name in the list of dynamic props at the top level of an object.
pub open spec fn listed(out: Seq<SpecEntry>, name: Seq<char>) -> bool {
    exists|k: int| #[trigger] listed_at(out, k, name)
}

pub open spec fn listed_at(out: Seq<SpecEntry>, k: int, name: Seq<char>) -> bool {
    &&& 0 <= k < out.len()
    &&& prop_named(out[k], "__meo$dyn"@)
    &&& match out[k] {
        SpecEntry::Prop {
            prop: SpecProp::KeyValue { value: SpecExpr::Array { elems }, .. },
            ..
        } => elems.contains(
            Some(
                SpecArg {
                    spread: false,
                    expr: SpecExpr::Lit(
                        SpecLit::Str(SpecStr { value: SpecText::Unicode(name), raw: None }),
                    ),
                },
            ),
        ),
        _ => false,
    }
}

/// Without a spread the list of dynamic props names a prop exactly if some prop
/// of that name has a value that is neither written out nor a function written
/// in place, and the name is none of `ref`, `key` and `children`.
pub proof fn law_dynamic_props_are_listed(
    props: Seq<SpecEntry>,
    filename: Seq<char>,
    span: Span,
    catalog: SpecCatalog,
    name: Seq<char>,
)
    requires
        all_named(props),
        no_spread(props),
    ensures
        listed(crate::partition::partitioned(props, filename, span, catalog), name) <==> name
            != "ref"@ && name != "key"@ && name != "children"@ && exists|i: int|
            0 <= i < props.len() && prop_named(#[trigger] props[i], name) && !settled_prop(
                props[i],
            ),
{
    let out = crate::partition::partitioned(props, filename, span, catalog);
    let names = crate::partition::dynamic_names(props);
    lemma_spreads(props);
    lemma_named_dynamics(props, name);
    lemma_list(names, name);
    if names.contains(name) {
        assert(crate::partition::names_part(props)[0] == crate::partition::dyn_entry(names));
        crate::laws::lemma_partitioned_entries(
            props,
            filename,
            span,
            catalog,
            crate::partition::dyn_entry(names),
        );
        let k = choose|k: int|
            0 <= k < out.len() && out[k] == crate::partition::dyn_entry(names);
        assert(listed_at(out, k, name));
    }
    if listed(out, name) {
        let k = choose|k: int| #[trigger] listed_at(out, k, name);
        let y = out[k];
        crate::laws::lemma_new_names_differ();
        crate::laws::lemma_partitioned_entries(props, filename, span, catalog, y);
        lemma_in_group(props, EmitRank::Spread, false, catalog, y);
        lemma_in_group(props, EmitRank::Special, false, catalog, y);
        law_ranks(y, "__meo$dyn"@, false, catalog);
        lemma_not_reserved();
        assert(y == crate::partition::dyn_entry(names));
    }
}

proof fn lemma_not_reserved()
    ensures
        !reserved("__meo$dyn"@),
{
    reveal_strlit("__meo$dyn");
    reveal_strlit("css");
    reveal_strlit("props");
    reveal_strlit("ref");
    reveal_strlit("key");
    reveal_strlit("children");
    reveal_strlit("as");
    reveal_strlit("theme");
    reveal_strlit("disableEmotion");
    assert("__meo$dyn"@.len() == 9);
    assert("css"@.len() == 3 && "ref"@.len() == 3 && "key"@.len() == 3);
    assert("props"@.len() == 5 && "as"@.len() == 2 && "theme"@.len() == 5);
    assert("children"@.len() == 8 && "disableEmotion"@.len() == 14);
}

proof fn lemma_list(names: Seq<Seq<char>>, name: Seq<char>)
    ensures
        ({
            let elems = names.map_values(
                |n: Seq<char>|
                    Some(SpecArg { spread: false, expr: crate::partition::new_str(n) }),
            );
            names.contains(name) <==> elems.contains(
                Some(SpecArg { spread: false, expr: crate::partition::new_str(name) }),
            )
        }),
{
    let elems = names.map_values(
        |n: Seq<char>| Some(SpecArg { spread: false, expr: crate::partition::new_str(n) }),
    );
    let elem = Some(SpecArg { spread: false, expr: crate::partition::new_str(name) });
    if names.contains(name) {
        let i = choose|i: int| 0 <= i < names.len() && names[i] == name;
        assert(elems[i] == elem);
    }
    if elems.contains(elem) {
        let i = choose|i: int| 0 <= i < elems.len() && elems[i] == elem;
        assert(elems[i] == Some(
            SpecArg { spread: false, expr: crate::partition::new_str(names[i]) },
        ));
        assert(names[i] == name);
    }
}

proof fn lemma_named_dynamics(props: Seq<SpecEntry>, name: Seq<char>)
    requires
        all_named(props),
        no_spread(props),
    ensures
        crate::partition::dynamic_names(props).contains(name) <==> name != "ref"@ && name
            != "key"@ && name != "children"@ && exists|i: int|
            0 <= i < props.len() && prop_named(#[trigger] props[i], name) && !settled_prop(
                props[i],
            ),
{
    crate::laws::law_dynamic_names(props);
    law_special_names(name);
    if crate::partition::dynamic_names(props).contains(name) {
        let i = choose|i: int|
            0 <= i < props.len() && crate::partition::dynamic_entry(#[trigger] props[i])
                && crate::placement::entry_name(props[i]) == name;
        let own = choose|own: Seq<char>| prop_named(props[i], own);
        lemma_entries(props[i]);
        assert(prop_named(props[i], own));
        assert(prop_named(props[i], name) && !settled_prop(props[i]));
    }
    if name != "ref"@ && name != "key"@ && name != "children"@ && exists|i: int|
        0 <= i < props.len() && prop_named(#[trigger] props[i], name) && !settled_prop(props[i]) {
        let i = choose|i: int|
            0 <= i < props.len() && prop_named(#[trigger] props[i], name) && !settled_prop(
                props[i],
            );
        lemma_entries(props[i]);
        assert(crate::partition::dynamic_entry(props[i]));
    }
}

/// The strings of the list of dynamic props, if an entry is one.
pub open spec fn list_of(entry: SpecEntry) -> Option<Seq<Option<SpecArg>>> {
    if prop_named(entry, "__meo$dyn"@) {
        match entry {
            SpecEntry::Prop {
                prop: SpecProp::KeyValue { value: SpecExpr::Array { elems }, .. },
                ..
            } => Some(elems),
            _ => None,
        }
    } else {
        None
    }
}

/// Without a spread the list of dynamic props holds the dynamic names as
/// strings, in their order, each once. There is no list if there is nothing to
/// list.
pub proof fn law_dynamic_list_is_in_order(
    props: Seq<SpecEntry>,
    filename: Seq<char>,
    span: Span,
    catalog: SpecCatalog,
    k: int,
)
    requires
        all_named(props),
        no_spread(props),
        0 <= k < crate::partition::partitioned(props, filename, span, catalog).len(),
        prop_named(crate::partition::partitioned(props, filename, span, catalog)[k], "__meo$dyn"@),
    ensures
        ({
            let names = crate::partition::dynamic_names(props);
            let list = list_of(
                crate::partition::partitioned(props, filename, span, catalog)[k],
            );
            &&& names.len() > 0
            &&& names.no_duplicates()
            &&& list is Some
            &&& list->0.len() == names.len()
            &&& forall|m: int|
                0 <= m < names.len() ==> #[trigger] list->0[m] == Some(
                    SpecArg {
                        spread: false,
                        expr: SpecExpr::Lit(
                            SpecLit::Str(
                                SpecStr { value: SpecText::Unicode(names[m]), raw: None },
                            ),
                        ),
                    },
                )
        }),
{
    let y = crate::partition::partitioned(props, filename, span, catalog)[k];
    lemma_spreads(props);
    crate::laws::lemma_new_names_differ();
    lemma_not_reserved();
    crate::laws::law_dynamic_names(props);
    crate::laws::lemma_partitioned_entries(props, filename, span, catalog, y);
    lemma_in_group(props, EmitRank::Spread, false, catalog, y);
    lemma_in_group(props, EmitRank::Special, false, catalog, y);
    law_ranks(y, "__meo$dyn"@, false, catalog);
    assert(y == crate::partition::dyn_entry(crate::partition::dynamic_names(props)));
}

/// The list of dynamic props is in the order of first occurrence: what is
/// written later only adds to its end.
pub proof fn law_dynamic_list_grows(a: Seq<SpecEntry>, b: Seq<SpecEntry>)
    ensures
        ({
            let before = crate::partition::dynamic_names(a);
            let all = crate::partition::dynamic_names(a + b);
            &&& before.len() <= all.len()
            &&& all.take(before.len() as int) == before
        }),
    decreases b.len(),
{
    let before = crate::partition::dynamic_names(a);
    let all = crate::partition::dynamic_names(a + b);
    if b.len() > 0 {
        law_dynamic_list_grows(a, b.drop_last());
        assert((a + b).drop_last() =~= a + b.drop_last());
        let rest = crate::partition::dynamic_names(a + b.drop_last());
        assert(all.take(before.len() as int) =~= rest.take(before.len() as int));
    } else {
        assert(a + b =~= a);
        assert(all.take(before.len() as int) =~= before);
    }
}

/// The call-site key, written out as the prop that it is.
pub open spec fn key_prop(filename: Seq<char>, span: Span) -> SpecEntry {
    SpecEntry::Prop {
        span: Span { lo: 0, hi: 0 },
        prop: SpecProp::KeyValue {
            key: SpecKey::Ident("__meo$k"@),
            value: SpecExpr::Lit(
                SpecLit::Str(
                    SpecStr {
                        value: SpecText::Unicode(crate::site_key::site_key(filename, span)),
                        raw: None,
                    },
                ),
            ),
        },
    }
}

/// The marker, written out as the prop that it is.
pub open spec fn marker_prop(schema: Seq<char>) -> SpecEntry {
    SpecEntry::Prop {
        span: Span { lo: 0, hi: 0 },
        prop: SpecProp::KeyValue {
            key: SpecKey::Ident("__meo$"@),
            value: SpecExpr::Lit(SpecLit::Num(schema)),
        },
    }
}

/// A partitioned object starts with the marker `2`. It has the call-site key
/// exactly if there is no spread, unless the source has one of its own.
pub proof fn law_marker_and_key(
    props: Seq<SpecEntry>,
    filename: Seq<char>,
    span: Span,
    catalog: SpecCatalog,
)
    ensures
        ({
            let out = crate::partition::partitioned(props, filename, span, catalog);
            &&& out.len() > 0
            &&& out[0] == marker_prop("2"@)
            &&& no_spread(props) ==> out.contains(key_prop(filename, span))
            &&& !no_spread(props) && !props.contains(key_prop(filename, span)) ==> !out.contains(
                key_prop(filename, span),
            )
        }),
{
    let with_spread = crate::placement::has_spread(props);
    let key = crate::partition::key_entry(filename, span);
    lemma_spreads(props);
    crate::laws::lemma_new_names_differ();
    assert(key == key_prop(filename, span));
    crate::laws::lemma_partitioned_entries(props, filename, span, catalog, key);
    lemma_in_group(props, EmitRank::Spread, with_spread, catalog, key);
    lemma_in_group(props, EmitRank::Special, with_spread, catalog, key);
}

/// A stamped object is the source as it was, then the marker `3`, then the
/// call-site key, and nothing more.
pub proof fn law_stamped(props: Seq<SpecEntry>, filename: Seq<char>, span: Span)
    ensures
        ({
            let out = crate::partition::stamped(props, filename, span);
            &&& out.len() == props.len() + 2
            &&& out.take(props.len() as int) == props
            &&& out[props.len() as int] == marker_prop("3"@)
            &&& out[props.len() as int + 1] == key_prop(filename, span)
        }),
{
    let out = crate::partition::stamped(props, filename, span);
    assert(out.take(props.len() as int) =~= props);
}

/// How long a partitioned object is: the marker, what stays flat, the reserved
/// names, a bucket for each group that is not empty, and without a spread the
/// key and the list, if there is anything to list.
pub proof fn law_nothing_else_is_emitted(
    props: Seq<SpecEntry>,
    filename: Seq<char>,
    span: Span,
    catalog: SpecCatalog,
)
    ensures
        ({
            let with_spread = !no_spread(props);
            let flat = crate::partition::group(props, EmitRank::Spread, with_spread, catalog).len();
            let css = crate::partition::group(props, EmitRank::Css, with_spread, catalog).len();
            let data = crate::partition::group(props, EmitRank::Data, with_spread, catalog).len();
            let tail = crate::partition::group(props, EmitRank::Special, with_spread, catalog).len();
            let names = crate::partition::dynamic_names(props).len();
            let out = crate::partition::partitioned(props, filename, span, catalog);
            &&& flat + css + data + tail == props.len()
            &&& out.len() == 1 + flat + tail + (if css > 0 {
                1int
            } else {
                0
            }) + (if data > 0 {
                1int
            } else {
                0
            }) + (if with_spread {
                0int
            } else if names > 0 {
                2
            } else {
                1
            })
        }),
{
    lemma_spreads(props);
    lemma_group_lengths(props, !no_spread(props), catalog);
}

proof fn lemma_group_lengths(props: Seq<SpecEntry>, with_spread: bool, catalog: SpecCatalog)
    ensures
        crate::partition::group(props, EmitRank::Spread, with_spread, catalog).len()
            + crate::partition::group(props, EmitRank::Css, with_spread, catalog).len()
            + crate::partition::group(props, EmitRank::Data, with_spread, catalog).len()
            + crate::partition::group(props, EmitRank::Special, with_spread, catalog).len()
            == props.len(),
    decreases props.len(),
{
    if props.len() > 0 {
        lemma_group_lengths(props.drop_last(), with_spread, catalog);
    }
}

/// Theme tokens are replaced in the string that is a prop's value, in
/// parentheses or not. The string then loses the text it was written with. A
/// string without a token stays as it is.
pub proof fn law_tokens_are_replaced_in_strings(text: Seq<char>, raw: Option<Seq<char>>)
    ensures
        ({
            let e = SpecExpr::Lit(
                SpecLit::Str(SpecStr { value: SpecText::Unicode(text), raw }),
            );
            &&& crate::theme::has_token(text) ==> crate::partition::themed_value(e)
                == SpecExpr::Lit(
                SpecLit::Str(
                    SpecStr {
                        value: SpecText::Unicode(crate::theme::rewritten(text)),
                        raw: None,
                    },
                ),
            )
            &&& !crate::theme::has_token(text) ==> crate::partition::themed_value(e) == e
        }),
{
}

/// No other value is changed: not a template, nor what is inside a call, an
/// array or an object.
pub proof fn law_other_values_are_kept(e: SpecExpr)
    requires
        !(e is Paren),
        e is Lit && e->Lit_0 is Str ==> (e->Lit_0)->Str_0.value is Surrogates,
    ensures
        crate::partition::themed_value(e) == e,
        crate::partition::themed_value(SpecExpr::Paren(Box::new(e))) == SpecExpr::Paren(
            Box::new(e),
        ),
{
}

/// Replacing theme tokens keeps parentheses, keys and spans.
pub proof fn law_theming_keeps_the_rest(span: Span, key: SpecKey, value: SpecExpr)
    ensures
        crate::partition::themed_value(SpecExpr::Paren(Box::new(value))) == SpecExpr::Paren(
            Box::new(crate::partition::themed_value(value)),
        ),
        crate::partition::themed(
            SpecEntry::Prop { span, prop: SpecProp::KeyValue { key, value } },
        ) == (SpecEntry::Prop {
            span,
            prop: SpecProp::KeyValue { key, value: crate::partition::themed_value(value) },
        }),
{
}

/// A spread or a shorthand holds no theme token.
pub proof fn law_theming_is_for_values(entry: SpecEntry)
    requires
        entry is Spread || !(entry->Prop_prop is KeyValue),
    ensures
        crate::partition::themed(entry) == entry,
{
}

} // verus!
