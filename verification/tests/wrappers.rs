//! Results that come from outside crates, seen through the library.
use blast_radius::collections::StrMap;
use blast_radius::config::RepoContext;
use blast_radius::graph::RiskTier;
use blast_radius::language::Resolver;
use blast_radius::lines::trim_str;
use blast_radius::resolve::Resolution;
use blast_radius::run::collect_workspaces;
use blast_radius::theme::Theme;

fn context(files: &[&str]) -> RepoContext {
    RepoContext {
        repo_root: "/repo".to_string(),
        source_files: files.iter().map(|f| f.to_string()).collect(),
        tsconfigs: Vec::new(),
        package_jsons: Vec::new(),
        ignore_unresolved: Vec::new(),
        warnings: Vec::new(),
    }
}

#[test]
fn workspace_names_come_from_package_manifests() {
    let jsons = vec!["/repo/packages/ui/package.json".to_string(), "/repo/apps/web/package.json".to_string()];
    let contents = vec![Some("{\"name\": \"@acme/ui\", \"version\": \"1.0.0\"}".to_string()), Some("not json".to_string())];
    let workspaces = collect_workspaces("/repo", &jsons, &contents);
    assert_eq!(workspaces.len(), 2);
    assert_eq!(workspaces[0].name, "@acme/ui");
    assert_eq!(workspaces[0].root, "packages/ui");
    // An unreadable manifest names its workspace after its directory.
    assert_eq!(workspaces[1].name, "apps/web");
    assert_eq!(workspaces[1].root, "apps/web");
}

#[test]
fn rust_workspace_crates_are_found_by_cargo_package_name() {
    let files = ["/repo/crates/app/src/main.rs", "/repo/crates/core-lib/src/lib.rs", "/repo/crates/core-lib/src/models.rs"];
    let ctx = context(&files);
    let mut cargo: StrMap<String> = StrMap::new();
    cargo.set("/repo/crates/core-lib".to_string(), "[package]\nname = \"core-lib\"\nversion = \"0.1.0\"\n".to_string());
    cargo.set("/repo/crates/app".to_string(), "[package]\nname = \"app\"\n".to_string());
    let resolver = Resolver::new(&ctx, &Vec::new(), cargo);
    let resolution = resolver.resolve("/repo/crates/app/src/main.rs", "core_lib::models");
    match resolution {
        Resolution::Resolved(path) => assert_eq!(path, "/repo/crates/core-lib/src/models.rs"),
        Resolution::Unresolved => panic!("the workspace crate should resolve"),
    }
    let missing = resolver.resolve("/repo/crates/app/src/main.rs", "other_crate::models");
    assert!(matches!(missing, Resolution::Unresolved));
}

#[test]
fn section_rules_are_upper_cased() {
    let theme = Theme::new(false);
    let rule = theme.rule("impacted files");
    assert!(rule.contains("IMPACTED FILES"), "{rule}");
    assert!(!rule.contains("impacted files"));
}

#[test]
fn risk_pill_names_the_tier() {
    let theme = Theme::new(false);
    assert!(theme.risk_pill(RiskTier::Moderate).contains("MODERATE"));
    assert!(theme.risk_pill(RiskTier::High).contains("HIGH"));
}

#[test]
fn banner_is_a_rendered_wordmark() {
    let theme = Theme::new(false);
    let rows = theme.banner();
    assert!(rows.len() > 1, "the wordmark spans several rows");
    assert!(rows.iter().all(|row| !row.ends_with(' ')), "rows are trimmed on the right");
}

#[test]
fn trimming_uses_unicode_whitespace() {
    assert_eq!(trim_str(" \t\u{a0}x y\u{2003}\n"), "x y");
}
