use meonode_compiler::ast::{PropName, StrLit, Text};
use meonode_compiler::keys::{is_special_key, is_stable_key_visible_special, key_name_atom};

const SPECIAL_KEYS: &[&str] = &[
    "css",
    "props",
    "ref",
    "key",
    "children",
    "as",
    "theme",
    "disableEmotion",
];

#[test]
fn special_keys_are_recognized() {
    for key in SPECIAL_KEYS {
        assert!(is_special_key(key));
    }
}

#[test]
fn non_special_key_is_not_recognized() {
    assert!(!is_special_key("padding"));
    assert!(!is_special_key("onClick"));
}

#[test]
fn stable_key_visible_specials_are_the_special_keys_but_three() {
    for key in SPECIAL_KEYS {
        let taken_off = ["ref", "key", "children"].contains(key);
        assert_eq!(is_stable_key_visible_special(key), !taken_off);
    }
    assert!(!is_stable_key_visible_special("padding"));
    assert!(!is_special_key(""));
    assert!(!is_special_key("CSS"));
    assert!(!is_special_key("css "));
}

#[test]
fn key_names() {
    assert_eq!(key_name_atom(&PropName::Ident("padding".to_string())), "padding");
    let quoted = StrLit { value: Text::Unicode("data-x".to_string()), raw: None };
    assert_eq!(key_name_atom(&PropName::Str(quoted)), "data-x");
    let lone = StrLit { value: Text::Surrogates(vec![0xed, 0xa0, 0x80]), raw: None };
    assert_eq!(key_name_atom(&PropName::Str(lone)), "");
}
