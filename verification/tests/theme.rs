use meonode_compiler::theme::{
    is_js_word_char, is_theme_path_char, rewrite_theme_tokens, to_theme_var_name,
};

#[test]
fn var_name_collapses_dots_to_hyphens() {
    assert_eq!(
        to_theme_var_name("spacing.md"),
        "--meonode-theme-spacing-md"
    );
    assert_eq!(
        to_theme_var_name("base.content"),
        "--meonode-theme-base-content"
    );
}

#[test]
fn var_name_keeps_word_chars_and_hyphens() {
    assert_eq!(
        to_theme_var_name("my_token-2"),
        "--meonode-theme-my_token-2"
    );
}

#[test]
fn var_name_maps_non_word_chars_to_hyphens() {
    // Not reachable from a token, but other names are mapped all the same.
    assert_eq!(to_theme_var_name("a b"), "--meonode-theme-a-b");
    assert_eq!(to_theme_var_name("café"), "--meonode-theme-caf-");
}

#[test]
fn rewrites_a_bare_token() {
    assert_eq!(
        rewrite_theme_tokens("theme.primary").as_deref(),
        Some("var(--meonode-theme-primary)")
    );
}

#[test]
fn rewrites_a_token_embedded_in_a_shorthand_value() {
    assert_eq!(
        rewrite_theme_tokens("1px solid theme.base.deep").as_deref(),
        Some("1px solid var(--meonode-theme-base-deep)")
    );
}

#[test]
fn rewrites_every_occurrence() {
    assert_eq!(
        rewrite_theme_tokens("theme.spacing.sm theme.spacing.md").as_deref(),
        Some("var(--meonode-theme-spacing-sm) var(--meonode-theme-spacing-md)")
    );
}

#[test]
fn returns_none_when_no_token_present() {
    assert_eq!(rewrite_theme_tokens("16px"), None);
    assert_eq!(rewrite_theme_tokens(""), None);
    assert_eq!(rewrite_theme_tokens("#007ACC"), None);
}

#[test]
fn bare_theme_dot_with_no_path_does_not_match() {
    // The capture group requires at least one path character.
    assert_eq!(rewrite_theme_tokens("theme."), None);
    assert_eq!(rewrite_theme_tokens("theme. "), None);
}

#[test]
fn stops_the_path_at_the_first_disallowed_character() {
    assert_eq!(
        rewrite_theme_tokens("theme.primary, theme.base").as_deref(),
        Some("var(--meonode-theme-primary), var(--meonode-theme-base)")
    );
    assert_eq!(
        rewrite_theme_tokens("calc(theme.spacing.md + 2px)").as_deref(),
        Some("calc(var(--meonode-theme-spacing-md) + 2px)")
    );
}

#[test]
fn greedy_path_consumes_trailing_dot_like_the_runtime() {
    // `[a-zA-Z0-9_.-]+` includes `.`, so a trailing dot is captured and
    // becomes a trailing `-`. Matches @meonode/ui, quirk included.
    assert_eq!(
        rewrite_theme_tokens("theme.spacing.md.").as_deref(),
        Some("var(--meonode-theme-spacing-md-)")
    );
}

#[test]
fn matches_without_a_word_boundary_like_the_runtime() {
    // No `\b` in the runtime regex, so this is a real match at offset 2.
    // Reproduced deliberately: diverging would make compiled output differ
    // from uncompiled output.
    assert_eq!(
        rewrite_theme_tokens("mytheme.primary").as_deref(),
        Some("myvar(--meonode-theme-primary)")
    );
}

#[test]
fn preserves_multibyte_content_around_a_token() {
    assert_eq!(
        rewrite_theme_tokens("→ theme.primary ←").as_deref(),
        Some("→ var(--meonode-theme-primary) ←")
    );
}

#[test]
fn multibyte_immediately_after_a_token_terminates_the_path() {
    assert_eq!(
        rewrite_theme_tokens("theme.primary→").as_deref(),
        Some("var(--meonode-theme-primary)→")
    );
}

#[test]
fn token_at_end_of_input_is_rewritten() {
    assert_eq!(
        rewrite_theme_tokens("solid theme.base").as_deref(),
        Some("solid var(--meonode-theme-base)")
    );
}

#[test]
fn already_rewritten_value_is_left_alone() {
    // Idempotence matters: `var(--meonode-theme-x)` has no `theme.`
    // substring, so a second pass is a no-op. This is also exactly why the
    // runtime's own `includes('theme.')` guard short-circuits on compiled
    // output.
    assert_eq!(rewrite_theme_tokens("var(--meonode-theme-primary)"), None);
}

#[test]
fn var_name_maps_each_code_unit_to_a_hyphen() {
    assert_eq!(to_theme_var_name("\u{1F600}"), "--meonode-theme---");
    assert_eq!(to_theme_var_name("a\u{1F600}b\u{FFFF}c"), "--meonode-theme-a--b-c");
    assert_eq!(to_theme_var_name("\u{10000}\u{10FFFF}"), "--meonode-theme-----");
    assert_eq!(to_theme_var_name(""), "--meonode-theme-");
}

#[test]
fn path_characters_are_ascii() {
    for ch in ['a', 'Z', '0', '9', '_'] {
        assert!(is_js_word_char(ch) && is_theme_path_char(ch));
    }
    for ch in ['.', '-'] {
        assert!(!is_js_word_char(ch) && is_theme_path_char(ch));
    }
    for ch in [' ', '/', ':', '@', '[', '`', '{', '\u{7F}', 'é', '→', '\u{1F600}'] {
        assert!(!is_js_word_char(ch) && !is_theme_path_char(ch));
    }
}
