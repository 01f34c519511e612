use amas::resolve::candidate_paths;
use amas::resolve::is_relative;
use amas::resolve::join_relative;
use amas::resolve::lexical_resolve;
use amas::resolve::resolve_against;
use amas::resolve::with_extension;
use amas::scan::basename;
use amas::scan::extension_of;
use amas::scan::has_source_extension;
use amas::scan::is_excluded_path;
use amas::scan::should_scan;

fn s(v: &str) -> String {
    v.to_string()
}

#[test]
fn only_dot_prefixed_specifiers_are_relative() {
    assert!(is_relative("./b"));
    assert!(is_relative("../b"));
    assert!(!is_relative("lodash"));
    assert!(!is_relative(""));
    assert!(!is_relative("/abs/path"));
}

#[test]
fn resolves_to_tsx_when_only_tsx_exists() {
    let existing = vec![s("/proj/b.tsx")];
    let r = resolve_against("./b", "/proj", &existing);
    assert_eq!(r, Some(s("/proj/b.tsx")));
}

#[test]
fn unresolved_when_no_candidate_exists() {
    let existing: Vec<String> = vec![s("/proj/other.ts")];
    assert_eq!(resolve_against("./b", "/proj", &existing), None);
    let empty: Vec<String> = vec![];
    assert_eq!(resolve_against("./b", "/proj", &empty), None);
}

#[test]
fn bare_specifier_never_resolves() {
    // even when files that look like candidates exist
    let existing = vec![s("/proj/lodash.ts"), s("/proj/lodash/index.ts")];
    assert_eq!(resolve_against("lodash", "/proj", &existing), None);
}

#[test]
fn extension_probe_order_is_ts_tsx_js_jsx() {
    let existing = vec![s("/proj/b.jsx"), s("/proj/b.ts")];
    assert_eq!(resolve_against("./b", "/proj", &existing), Some(s("/proj/b.ts")));
    let existing = vec![s("/proj/b.jsx"), s("/proj/b.js")];
    assert_eq!(resolve_against("./b", "/proj", &existing), Some(s("/proj/b.js")));
}

#[test]
fn index_files_are_probed_after_direct_files() {
    let existing = vec![s("/proj/b/index.js")];
    assert_eq!(resolve_against("./b", "/proj", &existing), Some(s("/proj/b/index.js")));
    let existing = vec![s("/proj/b/index.ts"), s("/proj/b.jsx")];
    assert_eq!(resolve_against("./b", "/proj", &existing), Some(s("/proj/b.jsx")));
}

#[test]
fn specifier_extension_is_replaced_when_probing() {
    let existing = vec![s("/proj/b.ts")];
    assert_eq!(resolve_against("./b.js", "/proj", &existing), Some(s("/proj/b.ts")));
}

#[test]
fn parent_segments_resolve_lexically() {
    let existing = vec![s("/proj/x.ts")];
    assert_eq!(resolve_against("../x", "/proj/sub", &existing), Some(s("/proj/x.ts")));
    assert_eq!(resolve_against("./.././x", "/proj/sub", &existing), Some(s("/proj/x.ts")));
}

#[test]
fn lexical_resolution_pops_and_drops_segments() {
    assert_eq!(lexical_resolve("/proj/./a/../b"), s("/proj/b"));
    assert_eq!(lexical_resolve("a/b/../../c"), s("c"));
    assert_eq!(lexical_resolve("/a//b/"), s("/a/b"));
    assert_eq!(lexical_resolve("/.."), s("/"));
}

#[test]
fn join_relative_concatenates_with_separator() {
    assert_eq!(join_relative("/proj", "./b"), s("/proj/./b"));
    assert_eq!(join_relative("", "./b"), s("./b"));
}

#[test]
fn candidates_come_in_fixed_order() {
    let c = candidate_paths("/proj/b");
    assert_eq!(
        c,
        vec![
            s("/proj/b.ts"),
            s("/proj/b.tsx"),
            s("/proj/b.js"),
            s("/proj/b.jsx"),
            s("/proj/b/index.ts"),
            s("/proj/b/index.tsx"),
            s("/proj/b/index.js"),
            s("/proj/b/index.jsx"),
        ]
    );
}

#[test]
fn with_extension_replaces_or_appends() {
    assert_eq!(with_extension("/p/b.js", "ts"), s("/p/b.ts"));
    assert_eq!(with_extension("/p/b", "ts"), s("/p/b.ts"));
    assert_eq!(with_extension("/p.d/b", "ts"), s("/p.d/b.ts"));
    assert_eq!(with_extension("/p/.hidden", "ts"), s("/p/.hidden.ts"));
}

#[test]
fn extension_of_reads_the_last_segment() {
    assert_eq!(extension_of("/p/b.ts"), Some(s("ts")));
    assert_eq!(extension_of("/p.d/b"), None);
    assert_eq!(extension_of("/p/.gitignore"), None);
    assert_eq!(extension_of("a.test.tsx"), Some(s("tsx")));
}

#[test]
fn scan_keeps_source_files_outside_excluded_directories() {
    assert!(should_scan("/proj/src/a.ts"));
    assert!(should_scan("/proj/src/a.cjs"));
    assert!(!should_scan("/proj/src/a.rs"));
    assert!(!should_scan("/proj/node_modules/lib/a.ts"));
    assert!(!should_scan("/proj/.git/hooks/a.js"));
    assert!(!should_scan("/proj/dist/a.js"));
    assert!(!should_scan("/proj/build/a.jsx"));
    assert!(!should_scan("/proj/coverage/a.mjs"));
    assert!(!has_source_extension("/proj/src/noext"));
    assert!(is_excluded_path("node_modules/a.ts"));
    assert!(!is_excluded_path("/proj/src/a.ts"));
}

#[test]
fn basename_takes_the_last_segment() {
    assert_eq!(basename("/proj/src/a.ts"), s("a.ts"));
    assert_eq!(basename("a.ts"), s("a.ts"));
    assert_eq!(basename("/proj/dir/"), s(""));
}
