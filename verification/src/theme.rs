//! Rewriting of `theme.*` tokens to `var(--meonode-theme-*)`.
//!
//! The UI library makes this conversion on every render. Making it at build
//! time changes when it happens, never what it produces, so its quirks are
//! kept: a token needs no word boundary before it, its path is as long as
//! possible and may end in a dot, and a path that names nothing in the theme is
//! converted all the same.
//!
//! Only string values are eligible. Tokens in object keys must stay, because
//! CSS variables are invalid in media features and selector text.
use crate::text::{chars_of, string_of};
use vstd::prelude::*;

verus! {

pub open spec fn ascii_alphanumeric(c: char) -> bool {
    ('a' <= c && c <= 'z') || ('A' <= c && c <= 'Z') || ('0' <= c && c <= '9')
}

/// JavaScript's `\w`: `[A-Za-z0-9_]`.
pub open spec fn js_word_char(c: char) -> bool {
    ascii_alphanumeric(c) || c == '_'
}

/// `[a-zA-Z0-9_.-]`, the characters of a token's path.
pub open spec fn theme_path_char(c: char) -> bool {
    js_word_char(c) || c == '.' || c == '-'
}

/// What a character of a path becomes in the name of a variable. JavaScript
/// replaces each UTF-16 code unit by a hyphen, and a character above U+FFFF has
/// two of them.
pub open spec fn var_chars(c: char) -> Seq<char> {
    if js_word_char(c) {
        seq![c]
    } else if c > '\u{FFFF}' {
        seq!['-', '-']
    } else {
        seq!['-']
    }
}

/// What a path becomes in the name of a variable, character by character.
pub open spec fn var_path(path: Seq<char>) -> Seq<char>
    decreases path.len(),
{
    if path.len() == 0 {
        Seq::empty()
    } else {
        var_path(path.drop_last()) + var_chars(path.last())
    }
}

/// The name of the CSS variable for a path.
pub open spec fn theme_var_name(path: Seq<char>) -> Seq<char> {
    "--meonode-theme-"@ + var_path(path)
}

/// A token stands at position `i`: `theme.` and at least one character of a
/// path.
pub open spec fn token_at(s: Seq<char>, i: int) -> bool {
    0 <= i && i + 6 < s.len() && s.subrange(i, i + 6) == "theme."@ && theme_path_char(s[i + 6])
}

/// A token stands somewhere in `s`.
pub open spec fn has_token(s: Seq<char>) -> bool {
    exists|i: int| #[trigger] token_at(s, i)
}

/// The end of the longest run of path characters that starts at `i`.
pub open spec fn path_end(s: Seq<char>, i: int) -> int
    decreases s.len() - i,
{
    if 0 <= i < s.len() && theme_path_char(s[i]) {
        path_end(s, i + 1)
    } else {
        i
    }
}

/// A variable reference for a path.
pub open spec fn var_ref(path: Seq<char>) -> Seq<char> {
    "var("@ + theme_var_name(path) + ")"@
}

/// The characters of `s` from position `i` on, with every token replaced,
/// from left to right, each as long as possible.
pub open spec fn rewritten_from(s: Seq<char>, i: int) -> Seq<char>
    decreases s.len() - i,
{
    if i < 0 || i >= s.len() {
        Seq::empty()
    } else if token_at(s, i) {
        proof {
            lemma_path_end(s, i + 7);
        }
        var_ref(s.subrange(i + 6, path_end(s, i + 7))) + rewritten_from(s, path_end(s, i + 7))
    } else {
        seq![s[i]] + rewritten_from(s, i + 1)
    }
}

/// `s` with every token replaced.
pub open spec fn rewritten(s: Seq<char>) -> Seq<char> {
    rewritten_from(s, 0)
}

/// A run of path characters ends no earlier than it starts, and inside the text.
pub proof fn lemma_path_end(s: Seq<char>, i: int)
    requires
        0 <= i <= s.len(),
    ensures
        i <= path_end(s, i) <= s.len(),
    decreases s.len() - i,
{
    if i < s.len() && theme_path_char(s[i]) {
        lemma_path_end(s, i + 1);
    }
}

/// Whether `ch` is one of `[A-Za-z0-9_]`.
pub fn is_js_word_char(ch: char) -> (r: bool)
    ensures
        r == js_word_char(ch),
{
    ('a' <= ch && ch <= 'z') || ('A' <= ch && ch <= 'Z') || ('0' <= ch && ch <= '9') || ch == '_'
}

/// Whether `ch` may stand in the path of a token: `[a-zA-Z0-9_.-]`.
pub fn is_theme_path_char(ch: char) -> (r: bool)
    ensures
        r == theme_path_char(ch),
{
    is_js_word_char(ch) || ch == '.' || ch == '-'
}

/// The name of the CSS variable for a path: `--meonode-theme-` and then the
/// path, in which every UTF-16 code unit outside `[A-Za-z0-9_-]` is replaced by
/// `-`. So a character above U+FFFF, which has two code units, gives two
/// hyphens.
pub fn to_theme_var_name(path: &str) -> (r: String)
    ensures
        r@ == theme_var_name(path@),
{
    let chars = chars_of(path);
    let mut out = "--meonode-theme-".to_owned();
    let mut i: usize = 0;
    while i < chars.len()
        invariant
            i <= chars@.len(),
            chars@ == path@,
            out@ == theme_var_name(path@.take(i as int)),
        decreases chars.len() - i,
    {
        let ghost before = out@;
        let ch = chars[i];
        if is_js_word_char(ch) {
            out.push(ch);
        } else {
            out.push('-');
            if ch > '\u{FFFF}' {
                out.push('-');
            }
        }
        i += 1;
        assert(out@ =~= before + var_chars(ch));
        assert(path@.take(i as int).drop_last() =~= path@.take(i - 1));
        assert(out@ =~= theme_var_name(path@.take(i as int)));
    }
    assert(path@.take(i as int) == path@);
    out
}

/// Whether `theme.` is written at position `i`.
fn starts_token(chars: &Vec<char>, i: usize) -> (r: bool)
    requires
        i < chars@.len(),
    ensures
        r == token_at(chars@, i as int),
{
    proof {
        reveal_strlit("theme.");
    }
    if chars.len() - i <= 6 {
        return false;
    }
    let r = chars[i] == 't' && chars[i + 1] == 'h' && chars[i + 2] == 'e' && chars[i + 3] == 'm'
        && chars[i + 4] == 'e' && chars[i + 5] == '.' && is_theme_path_char(chars[i + 6]);
    proof {
        let sub = chars@.subrange(i as int, i + 6);
        if r {
            assert(sub =~= "theme."@);
        }
        if token_at(chars@, i as int) {
            assert(sub[0] == 't' && sub[1] == 'h' && sub[2] == 'e' && sub[3] == 'm' && sub[4]
                == 'e' && sub[5] == '.');
        }
    }
    r
}

/// Replaces every `theme.<path>` in `input` by `var(--meonode-theme-<path>)`,
/// or returns `None` where there is nothing to replace. A bare `theme.` with no
/// path character behind it is left alone.
pub fn rewrite_theme_tokens(input: &str) -> (r: Option<String>)
    ensures
        r is Some <==> has_token(input@),
        r matches Some(out) ==> out@ == rewritten(input@),
{
    let chars = chars_of(input);
    let mut out = String::new();
    let mut i: usize = 0;
    let mut matched = false;
    while i < chars.len()
        invariant
            i <= chars@.len(),
            chars@ == input@,
            out@ + rewritten_from(input@, i as int) == rewritten(input@),
            matched ==> has_token(input@),
            !matched ==> forall|k: int| #[trigger] token_at(input@, k) ==> k >= i,
        decreases chars.len() - i,
    {
        let ghost before = out@;
        if starts_token(&chars, i) {
            let mut end: usize = i + 7;
            proof {
                lemma_path_end(input@, i + 7);
            }
            while end < chars.len() && is_theme_path_char(chars[end])
                invariant
                    i + 7 <= end <= chars@.len(),
                    chars@ == input@,
                    path_end(input@, end as int) == path_end(input@, i + 7),
                decreases chars.len() - end,
            {
                end += 1;
            }
            let path = string_of(&chars, i + 6, end);
            out.append("var(");
            out.append(to_theme_var_name(path.as_str()).as_str());
            out.append(")");
            matched = true;
            assert(out@ =~= before + var_ref(path@));
            assert(before + (var_ref(path@) + rewritten_from(input@, end as int)) =~= out@
                + rewritten_from(input@, end as int));
            i = end;
        } else {
            out.push(chars[i]);
            assert(before + (seq![input@[i as int]] + rewritten_from(input@, i + 1)) =~= out@
                + rewritten_from(input@, i + 1));
            i += 1;
        }
    }
    assert(out@ + rewritten_from(input@, i as int) =~= out@);
    if matched {
        Some(out)
    } else {
        None
    }
}

/// Without a token in between, the text is copied.
proof fn lemma_copied(s: Seq<char>, i: int, k: int)
    requires
        0 <= i <= k <= s.len(),
        forall|j: int| i <= j < k ==> !#[trigger] token_at(s, j),
    ensures
        rewritten_from(s, i) == s.subrange(i, k) + rewritten_from(s, k),
    decreases k - i,
{
    if i < k {
        lemma_copied(s, i + 1, k);
        assert(!token_at(s, i));
        assert(s.subrange(i, k) =~= seq![s[i]] + s.subrange(i + 1, k));
        assert(seq![s[i]] + (s.subrange(i + 1, k) + rewritten_from(s, k)) =~= s.subrange(i, k)
            + rewritten_from(s, k));
    } else {
        assert(s.subrange(i, k) + rewritten_from(s, k) =~= rewritten_from(s, k));
    }
}

/// A token that starts at the first character of the rewritten text was a
/// token of the text itself.
proof fn lemma_no_token_at_copy(s: Seq<char>, i: int)
    requires
        0 <= i < s.len(),
        !token_at(s, i),
    ensures
        !token_at(rewritten_from(s, i), 0),
{
    reveal_strlit("theme.");
    reveal_strlit("var(");
    let r = rewritten_from(s, i);
    if token_at(r, 0) {
        let head = r.subrange(0, 6);
        assert(head[0] == 't' && head[1] == 'h' && head[2] == 'e' && head[3] == 'm' && head[4]
            == 'e' && head[5] == '.');
        lemma_copied_run(s, i, 7);
        lemma_copied(s, i, i + 7);
        assert(s.subrange(i, i + 6) =~= head) by {
            assert forall|j: int| 0 <= j < 6 implies s.subrange(i, i + 6)[j] == head[j] by {
                assert(r[j] == s.subrange(i, i + 7)[j]);
            }
        }
        assert(r[6] == s.subrange(i, i + 7)[6]);
        assert(token_at(s, i));
    }
}

/// Where the rewritten text starts with `theme.` and a path character, its
/// first `d` characters were copied.
proof fn lemma_copied_run(s: Seq<char>, i: int, d: int)
    requires
        0 <= i < s.len(),
        1 <= d <= 7,
        !token_at(s, i),
        token_at(rewritten_from(s, i), 0),
    ensures
        i + d <= s.len(),
        forall|j: int| i <= j < i + d ==> !#[trigger] token_at(s, j),
    decreases d,
{
    reveal_strlit("theme.");
    reveal_strlit("var(");
    let r = rewritten_from(s, i);
    let head = r.subrange(0, 6);
    assert(head[0] == 't' && head[1] == 'h' && head[2] == 'e' && head[3] == 'm' && head[4] == 'e'
        && head[5] == '.');
    if d > 1 {
        let k = i + d - 1;
        lemma_copied_run(s, i, d - 1);
        lemma_copied(s, i, k);
        assert(r == s.subrange(i, k) + rewritten_from(s, k));
        if k >= s.len() {
            assert(rewritten_from(s, k).len() == 0);
            assert(r.len() == d - 1);
            assert(false);
        }
        if token_at(s, k) {
            let rest = rewritten_from(s, k);
            assert(rest[0] == 'v');
            assert(r[d - 1] == 'v');
            if d < 7 {
                assert(head[d - 1] == 'v');
                assert(false);
            } else {
                // The text has `theme.` at `i` and a token right behind it.
                assert(s.subrange(k, k + 6)[0] == 't');
                assert(s.subrange(i, i + 6) =~= head) by {
                    assert forall|j: int| 0 <= j < 6 implies s.subrange(i, i + 6)[j] == head[j] by {
                        assert(r[j] == s.subrange(i, k)[j]);
                    }
                }
                assert(token_at(s, i));
                assert(false);
            }
        }
    }
}

/// No dot is left in the name of a variable.
proof fn lemma_no_dot_in_var_path(path: Seq<char>)
    ensures
        forall|j: int| 0 <= j < var_path(path).len() ==> (#[trigger] var_path(path)[j]) != '.',
    decreases path.len(),
{
    if path.len() > 0 {
        let rest = var_path(path.drop_last());
        lemma_no_dot_in_var_path(path.drop_last());
        assert forall|j: int| 0 <= j < var_path(path).len() implies (#[trigger] var_path(
            path,
        )[j]) != '.' by {
            if j < rest.len() {
                assert(var_path(path)[j] == rest[j]);
            } else {
                assert(var_path(path)[j] == var_chars(path.last())[j - rest.len()]);
            }
        }
    }
}

/// No position of a variable reference starts a token, whatever follows it.
proof fn lemma_no_token_in_var_ref(path: Seq<char>, rest: Seq<char>, p: int)
    requires
        0 <= p < var_ref(path).len(),
    ensures
        !token_at(var_ref(path) + rest, p),
{
    reveal_strlit("theme.");
    reveal_strlit("var(");
    reveal_strlit(")");
    reveal_strlit("--meonode-theme-");
    let v = var_ref(path);
    let all = v + rest;
    let n = v.len() as int;
    assert(v[n - 1] == ')');
    lemma_no_dot_in_var_path(path);
    assert forall|j: int| 0 <= j < n implies v[j] != '.' by {
        let name = theme_var_name(path);
        if 4 <= j < n - 1 {
            assert(v[j] == name[j - 4]);
            if j - 4 < 16 {
                assert(name[j - 4] == "--meonode-theme-"@[j - 4]);
            } else {
                assert(name[j - 4] == var_path(path)[j - 20]);
            }
        } else if j < 4 {
            assert(v[j] == "var("@[j]);
        }
    }
    if token_at(all, p) {
        let sub = all.subrange(p, p + 6);
        assert(sub[5] == '.');
        assert(all[p + 5] == '.');
        if p + 5 < n {
            assert(v[p + 5] == all[p + 5]);
        } else {
            assert(p <= n - 1 < p + 6);
            assert(sub[n - 1 - p] == ')');
            assert("theme."@[n - 1 - p] != ')');
        }
    }
}

proof fn lemma_no_token_left(s: Seq<char>, i: int)
    requires
        0 <= i <= s.len(),
    ensures
        !has_token(rewritten_from(s, i)),
    decreases s.len() - i,
{
    let r = rewritten_from(s, i);
    if i < s.len() {
        if token_at(s, i) {
            lemma_path_end(s, i + 7);
            let e = path_end(s, i + 7);
            lemma_no_token_left(s, e);
            let path = s.subrange(i + 6, e);
            let rest = rewritten_from(s, e);
            let n = var_ref(path).len() as int;
            assert forall|p: int| !#[trigger] token_at(r, p) by {
                if 0 <= p < n {
                    lemma_no_token_in_var_ref(path, rest, p);
                } else if token_at(r, p) {
                    assert(rest.subrange(p - n, p - n + 6) =~= r.subrange(p, p + 6));
                    assert(token_at(rest, p - n));
                }
            }
        } else {
            lemma_no_token_left(s, i + 1);
            lemma_no_token_at_copy(s, i);
            let rest = rewritten_from(s, i + 1);
            assert forall|p: int| !#[trigger] token_at(r, p) by {
                if p > 0 && token_at(r, p) {
                    assert(rest.subrange(p - 1, p + 5) =~= r.subrange(p, p + 6));
                    assert(token_at(rest, p - 1));
                }
            }
        }
    }
}

/// The characters of a token's path are JavaScript's word characters, the dot
/// and the hyphen. All of them are ASCII.
pub proof fn law_path_characters(c: char)
    ensures
        theme_path_char(c) <==> js_word_char(c) || c == '.' || c == '-',
        js_word_char(c) <==> ('A' <= c && c <= 'Z') || ('a' <= c && c <= 'z') || ('0' <= c && c
            <= '9') || c == '_',
        c > '\u{7F}' ==> !js_word_char(c) && !theme_path_char(c),
{
}

/// Rewriting leaves no token behind, so a second pass has nothing to do.
pub proof fn law_rewriting_is_idempotent(s: Seq<char>)
    ensures
        !has_token(rewritten(s)),
{
    lemma_no_token_left(s, 0);
}

/// A text without a token is its own rewriting.
pub proof fn law_no_token_no_change(s: Seq<char>)
    requires
        !has_token(s),
    ensures
        rewritten(s) == s,
{
    lemma_copied(s, 0, s.len() as int);
    assert(s.subrange(0, s.len() as int) + rewritten_from(s, s.len() as int) =~= s);
}

/// The path of a token is as long as possible: it consists of path characters,
/// and ends with the text or before a character that is none.
pub proof fn law_path_is_longest(s: Seq<char>, i: int)
    requires
        0 <= i <= s.len(),
    ensures
        i <= path_end(s, i) <= s.len(),
        forall|j: int| i <= j < path_end(s, i) ==> theme_path_char(#[trigger] s[j]),
        path_end(s, i) == s.len() || !theme_path_char(s[path_end(s, i)]),
    decreases s.len() - i,
{
    if i < s.len() && theme_path_char(s[i]) {
        law_path_is_longest(s, i + 1);
    }
}

/// The end of a run of path characters is where no more follow.
proof fn lemma_path_end_is(s: Seq<char>, i: int, e: int)
    requires
        0 <= i <= e <= s.len(),
        forall|j: int| i <= j < e ==> theme_path_char(#[trigger] s[j]),
        e == s.len() || !theme_path_char(s[e]),
    ensures
        path_end(s, i) == e,
    decreases e - i,
{
    if i < e {
        assert(theme_path_char(s[i]));
        lemma_path_end_is(s, i + 1, e);
    }
}

/// A token stands wherever `theme.` is written with a path character behind it.
pub proof fn law_where_tokens_stand(s: Seq<char>, i: int)
    requires
        0 <= i,
        i + 6 < s.len(),
    ensures
        token_at(s, i) <==> s[i] == 't' && s[i + 1] == 'h' && s[i + 2] == 'e' && s[i + 3] == 'm'
            && s[i + 4] == 'e' && s[i + 5] == '.' && theme_path_char(s[i + 6]),
        token_at(s, i) ==> has_token(s),
{
    reveal_strlit("theme.");
    let sub = s.subrange(i, i + 6);
    if s[i] == 't' && s[i + 1] == 'h' && s[i + 2] == 'e' && s[i + 3] == 'm' && s[i + 4] == 'e' && s[i
        + 5] == '.' {
        assert(sub =~= "theme."@);
    }
    if sub == "theme."@ {
        assert(sub[0] == 't' && sub[1] == 'h' && sub[2] == 'e' && sub[3] == 'm' && sub[4] == 'e'
            && sub[5] == '.');
    }
}

/// No token stands so near the end of a text that its path would be empty.
pub proof fn law_no_token_at_the_end(s: Seq<char>, i: int)
    requires
        i < 0 || i + 6 >= s.len(),
    ensures
        !token_at(s, i),
{
}

proof fn lemma_path_end_shift(s: Seq<char>, k: int, i: int)
    requires
        0 <= k <= i <= s.len(),
    ensures
        path_end(s, i) == path_end(s.skip(k), i - k) + k,
    decreases s.len() - i,
{
    if i < s.len() {
        assert(s.skip(k)[i - k] == s[i]);
        if theme_path_char(s[i]) {
            lemma_path_end_shift(s, k, i + 1);
        }
    }
}

/// What is in front of a position has no say in what comes behind it.
proof fn lemma_rewritten_shift(s: Seq<char>, k: int, i: int)
    requires
        0 <= k <= i <= s.len(),
    ensures
        rewritten_from(s, i) == rewritten_from(s.skip(k), i - k),
    decreases s.len() - i,
{
    let t = s.skip(k);
    if i < s.len() {
        assert(t[i - k] == s[i]);
        assert(token_at(s, i) == token_at(t, i - k)) by {
            if i + 6 < s.len() {
                assert(s.subrange(i, i + 6) =~= t.subrange(i - k, i - k + 6));
                assert(t[i - k + 6] == s[i + 6]);
            }
        }
        if token_at(s, i) {
            lemma_path_end_shift(s, k, i + 7);
            lemma_path_end(s, i + 7);
            lemma_path_end(t, i - k + 7);
            let e = path_end(s, i + 7);
            lemma_rewritten_shift(s, k, e);
            assert(s.subrange(i + 6, e) =~= t.subrange(i - k + 6, e - k));
        } else {
            lemma_rewritten_shift(s, k, i + 1);
        }
    }
}

/// The first token of a text is replaced, with a path that is as long as
/// possible: what stands before it is copied, the path becomes the name of a
/// variable, and the rest is rewritten by itself.
pub proof fn law_first_token_is_replaced(before: Seq<char>, path: Seq<char>, after: Seq<char>)
    requires
        path.len() > 0,
        forall|j: int| 0 <= j < path.len() ==> theme_path_char(#[trigger] path[j]),
        after.len() == 0 || !theme_path_char(after[0]),
        forall|j: int|
            0 <= j < before.len() ==> !(#[trigger] token_at(
                before + "theme."@ + path + after,
                j,
            )),
    ensures
        has_token(before + "theme."@ + path + after),
        rewritten(before + "theme."@ + path + after) == before + "var("@ + "--meonode-theme-"@
            + var_path(path) + ")"@ + rewritten(after),
{
    reveal_strlit("theme.");
    let s = before + "theme."@ + path + after;
    let n = before.len() as int;
    let e = n + 6 + path.len();
    lemma_copied(s, 0, n);
    assert(s.subrange(0, n) =~= before);
    assert(s.subrange(n, n + 6) =~= "theme."@);
    assert(s[n + 6] == path[0]);
    assert(token_at(s, n));
    assert forall|j: int| n + 7 <= j < e implies theme_path_char(#[trigger] s[j]) by {
        assert(s[j] == path[j - n - 6]);
    }
    if e < s.len() {
        assert(s[e] == after[0]);
    }
    lemma_path_end_is(s, n + 7, e);
    assert(s.subrange(n + 6, e) =~= path);
    lemma_rewritten_shift(s, e, e);
    assert(s.skip(e) =~= after);
    assert(rewritten(s) =~= before + "var("@ + "--meonode-theme-"@ + var_path(path) + ")"@
        + rewritten(after));
}

/// The name of a variable is made piece by piece.
pub proof fn law_variable_names_are_made_piecewise(a: Seq<char>, b: Seq<char>)
    ensures
        var_path(a + b) == var_path(a) + var_path(b),
    decreases b.len(),
{
    if b.len() == 0 {
        assert(a + b =~= a);
        assert(var_path(a) + var_path(b) =~= var_path(a));
    } else {
        law_variable_names_are_made_piecewise(a, b.drop_last());
        assert((a + b).drop_last() =~= a + b.drop_last());
        assert((a + b).last() == b.last());
        assert(var_path(a + b) =~= var_path(a) + var_path(b));
    }
}

/// In the name of a variable a letter, digit or underscore stays, and any other
/// character becomes a hyphen for each of its UTF-16 code units.
pub proof fn law_variable_names_by_character(c: char)
    ensures
        ('a' <= c && c <= 'z') || ('A' <= c && c <= 'Z') || ('0' <= c && c <= '9') || c == '_'
            ==> var_path(seq![c]) == seq![c],
        !(('a' <= c && c <= 'z') || ('A' <= c && c <= 'Z') || ('0' <= c && c <= '9') || c == '_')
            && c <= '\u{FFFF}' ==> var_path(seq![c]) == seq!['-'],
        c > '\u{FFFF}' ==> var_path(seq![c]) == seq!['-', '-'],
        theme_var_name(seq![c]) == "--meonode-theme-"@ + var_path(seq![c]),
{
    assert(seq![c].drop_last() =~= Seq::empty());
    assert(var_path(seq![c].drop_last()) =~= Seq::empty());
    assert(var_path(seq![c]) =~= var_chars(c));
}

/// The name of a variable for a path is the prefix, and then what the path
/// becomes.
pub proof fn law_variable_names_have_the_prefix(path: Seq<char>)
    ensures
        theme_var_name(path) == "--meonode-theme-"@ + var_path(path),
        theme_var_name(Seq::empty()) == "--meonode-theme-"@,
{
    assert(theme_var_name(Seq::empty()) =~= "--meonode-theme-"@);
}

/// A text that is `theme.` and a path, and nothing else, becomes the variable
/// reference for the whole of that path.
pub proof fn law_single_tokens(path: Seq<char>)
    requires
        path.len() > 0,
        forall|j: int|
            0 <= j < path.len() ==> ('a' <= #[trigger] path[j] && path[j] <= 'z') || ('A' <= path[j]
                && path[j] <= 'Z') || ('0' <= path[j] && path[j] <= '9') || path[j] == '_'
                || path[j] == '.' || path[j] == '-',
    ensures
        rewritten("theme."@ + path) == "var(--meonode-theme-"@ + var_path(path) + ")"@,
        var_ref(path) == "var(--meonode-theme-"@ + var_path(path) + ")"@,
{
    let none = Seq::<char>::empty();
    law_first_token_is_replaced(none, path, none);
    assert(none + "theme."@ + path + none =~= "theme."@ + path);
    reveal_strlit("var(");
    reveal_strlit("--meonode-theme-");
    reveal_strlit("var(--meonode-theme-");
    assert("var("@ + "--meonode-theme-"@ =~= "var(--meonode-theme-"@);
    assert(rewritten("theme."@ + path) =~= "var(--meonode-theme-"@ + var_path(path) + ")"@);
    assert(var_ref(path) =~= "var(--meonode-theme-"@ + var_path(path) + ")"@);
}

} // verus!
