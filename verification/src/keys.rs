//! Prop keys: which are special, and what a key is called.
//!
//! Detection and partitioning share these, so that both agree on which key a
//! prop is ranked and placed under.
use crate::ast::{PropName, Text};
use crate::model::{SpecKey, SpecText};
use crate::text::str_eq;
use vstd::prelude::*;

verus! {

/// The keys that stay at the top level of a props object, whatever the catalog
/// of CSS properties says of them.
pub open spec fn special_key(name: Seq<char>) -> bool {
    ||| name == "css"@
    ||| name == "props"@
    ||| name == "ref"@
    ||| name == "key"@
    ||| name == "children"@
    ||| name == "as"@
    ||| name == "theme"@
    ||| name == "disableEmotion"@
}

/// The special keys that the runtime still sees when it derives a stable key.
/// `ref`, `key` and `children` are taken off before that.
pub open spec fn stable_key_visible(name: Seq<char>) -> bool {
    ||| name == "css"@
    ||| name == "props"@
    ||| name == "as"@
    ||| name == "theme"@
    ||| name == "disableEmotion"@
}

/// A key whose name is known from its text alone.
pub open spec fn named_key(key: SpecKey) -> bool {
    key is Ident || key is Str
}

/// The name of a key: of an identifier its symbol, of a string literal its
/// value, where a value with unpaired surrogates counts as the empty name.
pub open spec fn key_name(key: SpecKey) -> Seq<char> {
    match key {
        SpecKey::Ident(sym) => sym,
        SpecKey::Str(s) => match s.value {
            SpecText::Unicode(v) => v,
            SpecText::Surrogates(_) => Seq::empty(),
        },
        _ => Seq::empty(),
    }
}

/// Whether `name` is one of `css`, `props`, `ref`, `key`, `children`, `as`,
/// `theme` and `disableEmotion`.
pub fn is_special_key(name: &str) -> (r: bool)
    ensures
        r == special_key(name@),
{
    str_eq(name, "css") || str_eq(name, "props") || str_eq(name, "ref") || str_eq(name, "key")
        || str_eq(name, "children") || str_eq(name, "as") || str_eq(name, "theme") || str_eq(
        name,
        "disableEmotion",
    )
}

/// The name of a prop key, as an owned string. Computed and numeric keys have
/// none.
pub fn key_name_atom(key: &PropName) -> (r: String)
    requires
        named_key(key@),
    ensures
        r@ == key_name(key@),
{
    match key {
        PropName::Ident(sym) => sym.clone(),
        PropName::Str(s) => match &s.value {
            Text::Unicode(value) => value.clone(),
            Text::Surrogates(_) => String::new(),
        },
        _ => String::new(),
    }
}

/// Whether `name` is a special key that may be named in the list of dynamic
/// props.
pub fn is_stable_key_visible_special(name: &str) -> (r: bool)
    ensures
        r == stable_key_visible(name@),
{
    str_eq(name, "css") || str_eq(name, "props") || str_eq(name, "as") || str_eq(name, "theme")
        || str_eq(name, "disableEmotion")
}

/// Every special key that the runtime still sees is special, and the three
/// others are exactly those it takes off first.
pub proof fn law_stable_key_visible_specials(name: Seq<char>)
    ensures
        stable_key_visible(name) <==> special_key(name) && name != "ref"@ && name != "key"@
            && name != "children"@,
{
    reveal_strlit("css");
    reveal_strlit("props");
    reveal_strlit("ref");
    reveal_strlit("key");
    reveal_strlit("children");
    reveal_strlit("as");
    reveal_strlit("theme");
    reveal_strlit("disableEmotion");
    assert("css"@[0] == 'c' && "css"@.len() == 3);
    assert("key"@[0] == 'k' && "ref"@[0] == 'r');
    assert("props"@.len() == 5 && "as"@.len() == 2 && "theme"@.len() == 5);
    assert("children"@.len() == 8 && "disableEmotion"@.len() == 14);
}

} // verus!
