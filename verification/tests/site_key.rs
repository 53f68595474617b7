use meonode_compiler::ast::Span;
use meonode_compiler::plugin::resolve_filename;
use meonode_compiler::site_key::{call_site_key, fnv1a64, to_base36};

#[test]
fn fnv1a64_of_known_inputs() {
    assert_eq!(fnv1a64(b""), 0xcbf2_9ce4_8422_2325);
    assert_eq!(fnv1a64(b"a"), 0xaf63_dc4c_8601_ec8c);
    assert_eq!(fnv1a64(b"foobar"), 0x8594_4171_f739_67e8);
}

#[test]
fn base36_of_known_numbers() {
    assert_eq!(to_base36(0), "0");
    assert_eq!(to_base36(9), "9");
    assert_eq!(to_base36(10), "a");
    assert_eq!(to_base36(35), "z");
    assert_eq!(to_base36(36), "10");
    assert_eq!(to_base36(u64::MAX), "3w5e11264sgsf");
}

#[test]
fn call_site_key_of_known_spans() {
    assert_eq!(call_site_key("test.tsx", Span { lo: 56, hi: 75 }), "mpzj0vv9xl9n9");
    assert_eq!(call_site_key("src/a.tsx", Span { lo: 0, hi: 0 }), "m4wdefayhxy4o");
    assert_eq!(call_site_key("é", Span { lo: 1, hi: u32::MAX }), "m28i9f5g83x3wt");
}

#[test]
fn call_site_key_tells_spans_and_files_apart() {
    let here = call_site_key("a.tsx", Span { lo: 1, hi: 23 });
    assert_ne!(here, call_site_key("a.tsx", Span { lo: 12, hi: 3 }));
    assert_ne!(here, call_site_key("a.tsx", Span { lo: 1, hi: 24 }));
    assert_ne!(here, call_site_key("b.tsx", Span { lo: 1, hi: 23 }));
    assert_eq!(here, call_site_key("a.tsx", Span { lo: 1, hi: 23 }));
}

fn resolve(filename: Option<&str>, cwd: Option<&str>) -> String {
    resolve_filename(filename.map(str::to_string), cwd.map(str::to_string))
}

#[test]
fn filename_is_unknown_without_one() {
    assert_eq!(resolve(None, None), "unknown");
    assert_eq!(resolve(None, Some("/home")), "unknown");
}

#[test]
fn filename_is_relative_to_the_working_directory() {
    assert_eq!(resolve(Some("/home/p/src/a.tsx"), Some("/home/p")), "src/a.tsx");
    assert_eq!(resolve(Some("/home/p/src/a.tsx"), Some("/home/p/")), "src/a.tsx");
    assert_eq!(resolve(Some("C:\\p\\src\\a.tsx"), Some("C:\\p")), "src\\a.tsx");
    assert_eq!(resolve(Some("/p//\\/a.tsx"), Some("/p")), "a.tsx");
    assert_eq!(resolve(Some("/é/a.tsx"), Some("/é")), "a.tsx");
}

#[test]
fn filename_outside_the_working_directory_is_kept() {
    assert_eq!(resolve(Some("/other/a.tsx"), Some("/home/p")), "/other/a.tsx");
    assert_eq!(resolve(Some("/home"), Some("/home/p")), "/home");
    assert_eq!(resolve(Some("/home/p/a.tsx"), Some("")), "/home/p/a.tsx");
    assert_eq!(resolve(Some("/home/p/a.tsx"), None), "/home/p/a.tsx");
}

#[test]
fn filename_does_not_depend_on_the_checkout() {
    assert_eq!(
        resolve(Some("/home/one/src/a.tsx"), Some("/home/one")),
        resolve(Some("/tmp/two/src/a.tsx"), Some("/tmp/two"))
    );
    // A directory whose name merely starts like the working directory counts
    // as inside it.
    assert_eq!(resolve(Some("/home/project2/a.tsx"), Some("/home/project")), "2/a.tsx");
}
