//! The entry point of the compiler, on plain values.
use crate::ast::Program;
use crate::catalog::Catalog;
use crate::config::CompileConfig;
use crate::partition::{transform_program, try_transform_program};
use crate::text::{chars_of, string_of};
use vstd::prelude::*;

verus! {

pub open spec fn path_separator(c: char) -> bool {
    c == '/' || c == '\\'
}

/// A path without the separators at its front.
pub open spec fn trimmed(path: Seq<char>) -> Seq<char>
    decreases path.len(),
{
    if path.len() > 0 && path_separator(path[0]) {
        trimmed(path.skip(1))
    } else {
        path
    }
}

/// The filename that call-site keys are made from: the path relative to the
/// working directory, where that is known and is a prefix of the path.
pub open spec fn resolved(filename: Option<Seq<char>>, cwd: Option<Seq<char>>) -> Seq<char> {
    match filename {
        None => "unknown"@,
        Some(path) => match cwd {
            Some(dir) => if dir.len() > 0 && dir.is_prefix_of(path) {
                trimmed(path.skip(dir.len() as int))
            } else {
                path
            },
            None => path,
        },
    }
}

pub open spec fn opt_view(s: Option<String>) -> Option<Seq<char>> {
    match s {
        Some(s) => Some(s@),
        None => None,
    }
}

fn starts_with(path: &Vec<char>, dir: &Vec<char>) -> (r: bool)
    ensures
        r == dir@.is_prefix_of(path@),
{
    if path.len() < dir.len() {
        return false;
    }
    let mut i: usize = 0;
    while i < dir.len()
        invariant
            i <= dir@.len() <= path@.len(),
            forall|j: int| 0 <= j < i ==> dir@[j] == path@[j],
        decreases dir.len() - i,
    {
        if dir[i] != path[i] {
            assert(path@.subrange(0, dir@.len() as int)[i as int] == path@[i as int]);
            return false;
        }
        i += 1;
    }
    assert(dir@ =~= path@.subrange(0, dir@.len() as int));
    true
}

/// The filename that call-site keys are made from. Without a filename it is
/// `unknown`. The working directory is taken off its front, so that keys do
/// not depend on where a project is checked out.
pub fn resolve_filename(filename: Option<String>, cwd: Option<String>) -> (r: String)
    ensures
        r@ == resolved(opt_view(filename), opt_view(cwd)),
{
    let path = match filename {
        Some(path) => path,
        None => return "unknown".to_owned(),
    };
    let dir = match cwd {
        Some(dir) => chars_of(dir.as_str()),
        None => return path,
    };
    let chars = chars_of(path.as_str());
    if dir.len() == 0 || !starts_with(&chars, &dir) {
        return path;
    }
    let mut from: usize = dir.len();
    while from < chars.len() && (chars[from] == '/' || chars[from] == '\\')
        invariant
            from <= chars@.len(),
            trimmed(chars@.skip(dir@.len() as int)) == trimmed(chars@.skip(from as int)),
        decreases chars.len() - from,
    {
        assert(chars@.skip(from as int)[0] == chars@[from as int]);
        assert(chars@.skip(from as int).skip(1) =~= chars@.skip(from + 1));
        from += 1;
    }
    assert(chars@.skip(from as int) =~= chars@.subrange(from as int, chars@.len() as int));
    string_of(&chars, from, chars.len())
}

/// Compiles a program: finds the calls of UI factories, and rewrites each
/// whose props object can be rewritten.
pub fn process_transform(
    program: Program,
    filename: Option<String>,
    cwd: Option<String>,
    config: &CompileConfig,
    catalog: &Catalog,
) -> (r: Program)
    requires
        crate::rewrite::rewritable(
            program@,
            crate::detect::decisions_of(
                crate::detect::PropsRule::Ordered,
                program@,
                config@,
                catalog@,
            ),
        ),
    ensures
        r@ == crate::partition::transformed(
            program@,
            resolved(opt_view(filename), opt_view(cwd)),
            config@,
            catalog@,
        ),
{
    let mut program = program;
    let filename = resolve_filename(filename, cwd);
    transform_program(&mut program, filename.as_str(), config, catalog);
    program
}

/// Does what [`process_transform`] does, for any program. The result is `None`
/// where two calls share a span and one of them cannot be rewritten as
/// detection decided on the other.
pub fn try_process_transform(
    program: Program,
    filename: Option<String>,
    cwd: Option<String>,
    config: &CompileConfig,
    catalog: &Catalog,
) -> (r: Option<Program>)
    ensures
        r is Some <==> crate::rewrite::rewritable(
            program@,
            crate::detect::decisions_of(
                crate::detect::PropsRule::Ordered,
                program@,
                config@,
                catalog@,
            ),
        ),
        r matches Some(out) ==> out@ == crate::partition::transformed(
            program@,
            resolved(opt_view(filename), opt_view(cwd)),
            config@,
            catalog@,
        ),
{
    let mut program = program;
    let filename = resolve_filename(filename, cwd);
    if try_transform_program(&mut program, filename.as_str(), config, catalog) {
        Some(program)
    } else {
        None
    }
}

/// The filename does not depend on where a project is checked out: the same
/// file below two different working directories resolves to the same name.
pub proof fn law_checkout_does_not_matter(dir1: Seq<char>, dir2: Seq<char>, rest: Seq<char>)
    requires
        dir1.len() > 0,
        dir2.len() > 0,
    ensures
        resolved(Some(dir1 + rest), Some(dir1)) == resolved(Some(dir2 + rest), Some(dir2)),
{
    assert((dir1 + rest).subrange(0, dir1.len() as int) =~= dir1);
    assert((dir2 + rest).subrange(0, dir2.len() as int) =~= dir2);
    assert((dir1 + rest).skip(dir1.len() as int) =~= rest);
    assert((dir2 + rest).skip(dir2.len() as int) =~= rest);
}

/// A file without a name is called `unknown`, wherever it is compiled.
pub proof fn law_unnamed_files(cwd: Option<Seq<char>>)
    ensures
        resolved(None, cwd) == "unknown"@,
{
}

/// A path stays as it is if the working directory is not known, is empty, or is
/// not what the path starts with.
pub proof fn law_other_paths_stay(path: Seq<char>, dir: Seq<char>)
    requires
        dir.len() == 0 || path.len() < dir.len() || path.take(dir.len() as int) != dir,
    ensures
        resolved(Some(path), None) == path,
        resolved(Some(path), Some(dir)) == path,
{
    if dir.len() > 0 && dir.is_prefix_of(path) {
        assert(path.take(dir.len() as int) =~= dir);
    }
}

/// Of a path below the working directory there remains what follows the
/// directory and the separators behind it, of either kind and however many.
pub proof fn law_paths_below_the_working_directory(
    dir: Seq<char>,
    separators: Seq<char>,
    rest: Seq<char>,
)
    requires
        dir.len() > 0,
        forall|i: int|
            0 <= i < separators.len() ==> #[trigger] separators[i] == '/' || separators[i] == '\\',
        rest.len() > 0 ==> rest[0] != '/' && rest[0] != '\\',
    ensures
        resolved(Some(dir + separators + rest), Some(dir)) == rest,
{
    let path = dir + separators + rest;
    assert(path.subrange(0, dir.len() as int) =~= dir);
    assert(dir.is_prefix_of(path));
    assert(path.skip(dir.len() as int) =~= separators + rest);
    lemma_trimmed(separators, rest);
}

proof fn lemma_trimmed(separators: Seq<char>, rest: Seq<char>)
    requires
        forall|i: int| 0 <= i < separators.len() ==> path_separator(#[trigger] separators[i]),
        rest.len() > 0 ==> !path_separator(rest[0]),
    ensures
        trimmed(separators + rest) == rest,
    decreases separators.len(),
{
    let path = separators + rest;
    if separators.len() > 0 {
        assert(path[0] == separators[0]);
        assert(path.skip(1) =~= separators.skip(1) + rest);
        lemma_trimmed(separators.skip(1), rest);
    } else {
        assert(path =~= rest);
    }
}

} // verus!
