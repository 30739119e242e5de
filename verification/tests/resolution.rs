use blast_radius::config::{sibling_tsconfig_names, TsCompilerOptions};
use blast_radius::config::{config_file_kind, extends_file_names, ConfigFileKind};
use blast_radius::config::is_skipped_dir;
use blast_radius::alias::match_alias;

#[test]
fn overlapping_wildcard_alias_is_no_match() {
    assert_eq!(match_alias("lib/*/lib", "lib/lib"), None);
    assert_eq!(
        match_alias("lib/*/lib", "lib/x/lib"),
        Some(vec!["x".to_string()])
    );
}

#[test]
fn exact_alias_matches_without_captures() {
    assert_eq!(match_alias("@app", "@app"), Some(Vec::new()));
    assert_eq!(match_alias("@app", "@app/x"), None);
}

#[test]
fn repository_walk_skips_tool_and_output_directories() {
    for name in [".git", "node_modules", "dist", "build", "coverage", ".next", ".turbo"] {
        assert!(is_skipped_dir(name), "{name}");
    }
    for name in ["src", "lib", ".github", "builds", "distribution"] {
        assert!(!is_skipped_dir(name), "{name}");
    }
}

#[test]
fn configuration_files_are_classified_by_name() {
    assert_eq!(config_file_kind("tsconfig.json"), ConfigFileKind::TsConfig);
    assert_eq!(config_file_kind("package.json"), ConfigFileKind::PackageJson);
    assert_eq!(config_file_kind("Cargo.toml"), ConfigFileKind::CargoManifest);
    assert_eq!(config_file_kind("tsconfig.base.json"), ConfigFileKind::Other);
}

#[test]
fn extends_targets_try_the_name_then_with_json() {
    assert_eq!(extends_file_names("./base"), vec!["./base".to_string(), "./base.json".to_string()]);
    assert_eq!(extends_file_names("../tsconfig.json"), vec!["../tsconfig.json".to_string()]);
}

#[test]
fn sibling_configs_are_looked_at_only_without_own_aliases() {
    let plain = TsCompilerOptions::empty();
    assert_eq!(sibling_tsconfig_names(&plain), vec!["tsconfig.base.json".to_string(), "tsconfig.app.json".to_string()]);
    let mut aliased = TsCompilerOptions::empty();
    aliased.base_dir = Some("/repo".to_string());
    assert!(sibling_tsconfig_names(&aliased).is_empty());
}
