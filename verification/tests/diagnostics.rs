use blast_radius::diagnostics::{path_part_of, should_count_unresolved_import, unresolved_reason};
use blast_radius::facts::{ImportFact, ImportKind, ImportTarget};

fn import(source: &str, type_only: bool) -> ImportFact {
    ImportFact {
        source: source.to_string(),
        local: "local".to_string(),
        imported: ImportTarget::Default,
        kind: ImportKind::Esm,
        type_only,
    }
}

#[test]
fn skips_asset_imports_without_any_config() {
    for source in [
        "./package.json",
        "./logo.svg",
        "../styles/theme.css",
        "./tokens.json",
        "./content.mdx",
    ] {
        assert!(!should_count_unresolved_import(&import(source, false), &Vec::new()));
    }
}

#[test]
fn skips_asset_imports_with_query_or_hash_suffixes() {
    for source in [
        "./logo.svg?react",
        "./style.css?inline",
        "./data.json?raw",
        "./icon.svg#symbol",
        "./image.png?url",
    ] {
        assert!(!should_count_unresolved_import(&import(source, false), &Vec::new()));
    }
}

#[test]
fn skips_repo_configured_ignore_patterns() {
    let ignore = vec![
        ".velite".to_string(),
        "/+types/".to_string(),
        "styled-system/css".to_string(),
        "/dist/esm/".to_string(),
    ];
    for source in [
        "./.velite/generated",
        "./+types/root",
        "./routes/+types/page",
        "./styled-system/css",
        "./pkg/dist/esm/index",
    ] {
        assert!(!should_count_unresolved_import(&import(source, false), &ignore));
    }
}

#[test]
fn skips_type_only_unresolved_imports() {
    assert!(!should_count_unresolved_import(&import("./types", true), &Vec::new()));
}

#[test]
fn counts_regular_runtime_imports() {
    assert!(should_count_unresolved_import(&import("./missing", false), &Vec::new()));
    // The same specifier with no matching ignore pattern is still counted.
    assert!(should_count_unresolved_import(
        &import("./missing", false),
        &vec!["styled-system/css".to_string()]
    ));
}

#[test]
fn path_part_stops_at_query_or_hash() {
    assert_eq!(path_part_of("./logo.svg?react"), "./logo.svg");
    assert_eq!(path_part_of("./icon.svg#symbol"), "./icon.svg");
    assert_eq!(path_part_of("./plain"), "./plain");
}

#[test]
fn unresolved_reasons_by_specifier_shape() {
    assert_eq!(unresolved_reason("./x"), "relative or absolute path");
    assert_eq!(unresolved_reason("/abs"), "relative or absolute path");
    assert_eq!(unresolved_reason("#internal"), "package.json imports");
    assert_eq!(unresolved_reason("@/also-missing"), "tsconfig paths or workspace package export");
    assert_eq!(unresolved_reason("~/x"), "path alias not configured (add it to tsconfig/jsconfig paths, or .blast-radius.json)");
    assert_eq!(unresolved_reason("@scope/pkg"), "tsconfig paths or workspace package export");
    assert_eq!(unresolved_reason("lodash"), "workspace package export or tsconfig baseUrl");
}
