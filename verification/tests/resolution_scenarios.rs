//! Resolving import specifiers against an indexed repository: relative
//! paths, TypeScript configs, package manifests, and the other languages.
use blast_radius::collections::StrMap;
use blast_radius::config::{merge_compiler_options, RawCompilerOptions, RepoContext, TsCompilerOptions, TsConfigPath};
use blast_radius::language::Resolver;
use blast_radius::manifest::{JsonValue, PackageManifest};
use blast_radius::resolve::Resolution;

fn context(files: &[&str], tsconfigs: Vec<TsConfigPath>) -> RepoContext {
    RepoContext {
        repo_root: "/repo".to_string(),
        source_files: files.iter().map(|f| f.to_string()).collect(),
        tsconfigs,
        package_jsons: Vec::new(),
        ignore_unresolved: Vec::new(),
        warnings: Vec::new(),
    }
}

fn resolver(files: &[&str], tsconfigs: Vec<TsConfigPath>, manifests: Vec<PackageManifest>) -> Resolver {
    Resolver::new(&context(files, tsconfigs), &manifests, StrMap::new())
}

fn options(parents: Vec<TsCompilerOptions>, base_url: Option<&str>, paths: &[(&str, &[&str])], dir: &str) -> TsCompilerOptions {
    let paths = if paths.is_empty() {
        None
    } else {
        let mut map: StrMap<Vec<String>> = StrMap::new();
        for (key, targets) in paths {
            map.set(key.to_string(), targets.iter().map(|t| t.to_string()).collect());
        }
        Some(map)
    };
    merge_compiler_options(parents, RawCompilerOptions { base_url: base_url.map(str::to_string), paths }, dir)
}

fn tsconfig(path: &str, compiler_options: TsCompilerOptions) -> TsConfigPath {
    TsConfigPath { path: path.to_string(), compiler_options }
}

fn manifest(path: &str, name: &str) -> PackageManifest {
    PackageManifest {
        path: path.to_string(),
        name: name.to_string(),
        main: None,
        module: None,
        source: None,
        types: None,
        exports: None,
        imports: None,
    }
}

fn s(v: &str) -> JsonValue {
    JsonValue::Str(v.to_string())
}

fn obj(entries: Vec<(&str, JsonValue)>) -> JsonValue {
    JsonValue::Object(entries.into_iter().map(|(k, v)| (k.to_string(), v)).collect())
}

fn resolved(r: Resolution) -> Option<String> {
    match r {
        Resolution::Resolved(path) => Some(path),
        Resolution::Unresolved => None,
    }
}

fn resolves_to(r: Resolution, suffix: &str) -> bool {
    resolved(r).is_some_and(|path| path.ends_with(suffix))
}

#[test]
fn resolves_tsconfig_aliases_and_workspace_packages() {
    let files = ["/repo/packages/ui/src/index.ts", "/repo/packages/ui/src/Button.tsx", "/repo/apps/web/src/App.tsx"];
    let ts = tsconfig("/repo/tsconfig.json", options(Vec::new(), Some("."), &[("@ui/*", &["packages/ui/src/*"])], "/repo"));
    let mut ui = manifest("/repo/packages/ui/package.json", "@acme/ui");
    ui.source = Some("src/index.ts".to_string());
    let r = resolver(&files, vec![ts], vec![ui]);
    let importer = "/repo/apps/web/src/App.tsx";
    assert!(resolves_to(r.resolve(importer, "@ui/Button"), "packages/ui/src/Button.tsx"));
    assert!(resolves_to(r.resolve(importer, "@acme/ui"), "packages/ui/src/index.ts"));
}

#[test]
fn resolves_modern_module_extensions() {
    let files = ["/repo/src/App.tsx", "/repo/src/button.mjs", "/repo/src/server.cts"];
    let r = resolver(&files, Vec::new(), vec![manifest("/repo/package.json", "fixture")]);
    assert!(resolves_to(r.resolve("/repo/src/App.tsx", "./button"), "src/button.mjs"));
    assert!(resolves_to(r.resolve("/repo/src/App.tsx", "./server"), "src/server.cts"));
}

#[test]
fn resolves_workspace_package_exports() {
    let files = [
        "/repo/packages/ui/src/index.ts",
        "/repo/packages/ui/src/preset.ts",
        "/repo/packages/ui/src/components/button/index.ts",
        "/repo/apps/web/src/App.tsx",
    ];
    let mut ui = manifest("/repo/packages/ui/package.json", "@acme/ui");
    ui.exports = Some(obj(vec![
        (".", obj(vec![("dev", s("./src/index.ts"))])),
        ("./preset", obj(vec![("dev", s("./src/preset.ts"))])),
        ("./*", obj(vec![("dev", s("./src/components/*/index.ts"))])),
    ]));
    let r = resolver(&files, Vec::new(), vec![ui]);
    let importer = "/repo/apps/web/src/App.tsx";
    assert!(resolves_to(r.resolve(importer, "@acme/ui/button"), "packages/ui/src/components/button/index.ts"));
    assert!(resolves_to(r.resolve(importer, "@acme/ui/preset"), "packages/ui/src/preset.ts"));
}

#[test]
fn resolves_package_imports_with_custom_source_condition() {
    let files = ["/repo/server/core/foo.ts", "/repo/app/src/App.ts"];
    let mut root = manifest("/repo/package.json", "fixture");
    root.imports = Some(obj(vec![(
        "#core/*.js",
        obj(vec![("custom-source", s("./server/core/*.ts")), ("default", s("./dist/core/*.js"))]),
    )]));
    let r = resolver(&files, Vec::new(), vec![root]);
    let importer = "/repo/app/src/App.ts";
    assert!(resolves_to(r.resolve(importer, "#core/foo.js"), "server/core/foo.ts"));
    assert!(r.is_internal_specifier(importer, "#core/foo.js"));
}

#[test]
fn resolves_vite_tsconfig_paths_and_base_url() {
    let files = ["/repo/app/src/components/Button.tsx", "/repo/server/core/foo.ts", "/repo/app/src/env.ts", "/repo/app/src/App.tsx"];
    let ts = tsconfig(
        "/repo/tsconfig.json",
        options(Vec::new(), Some("."), &[("@/*", &["app/src/*"]), ("@shared/*", &["server/core/*"])], "/repo"),
    );
    let r = resolver(&files, vec![ts], vec![manifest("/repo/package.json", "fixture")]);
    let importer = "/repo/app/src/App.tsx";
    assert!(resolves_to(r.resolve(importer, "@/components/Button.js"), "app/src/components/Button.tsx"));
    assert!(resolves_to(r.resolve(importer, "@shared/foo.js"), "server/core/foo.ts"));
    assert!(resolves_to(r.resolve(importer, "app/src/env.js"), "app/src/env.ts"));
}

#[test]
fn resolves_workspace_exports_with_custom_source_condition() {
    let files = ["/repo/packages/core/server/core/foo.ts", "/repo/apps/web/src/App.ts"];
    let mut core = manifest("/repo/packages/core/package.json", "@acme/core");
    core.exports = Some(obj(vec![(
        "./*.js",
        obj(vec![("custom-source", s("./server/core/*.ts")), ("default", s("./dist/core/*.js"))]),
    )]));
    let r = resolver(&files, Vec::new(), vec![core]);
    assert!(resolves_to(r.resolve("/repo/apps/web/src/App.ts", "@acme/core/foo.js"), "packages/core/server/core/foo.ts"));
}

#[test]
fn resolves_multi_dot_basenames() {
    let files = ["/repo/src/App.tsx", "/repo/src/recipe.types.ts", "/repo/src/docs.config.ts", "/repo/src/routeTree.gen.ts"];
    let r = resolver(&files, Vec::new(), vec![manifest("/repo/package.json", "fixture")]);
    let importer = "/repo/src/App.tsx";
    assert!(resolves_to(r.resolve(importer, "./recipe.types"), "src/recipe.types.ts"));
    assert!(resolves_to(r.resolve(importer, "./docs.config"), "src/docs.config.ts"));
    assert!(resolves_to(r.resolve(importer, "./routeTree.gen"), "src/routeTree.gen.ts"));
}

#[test]
fn multi_dot_specifier_wins_over_extension_replacement() {
    let files = ["/repo/src/App.tsx", "/repo/src/recipe.ts", "/repo/src/recipe.types.ts"];
    let r = resolver(&files, Vec::new(), vec![manifest("/repo/package.json", "fixture")]);
    let importer = "/repo/src/App.tsx";
    assert!(resolves_to(r.resolve(importer, "./recipe.types"), "src/recipe.types.ts"));
    assert!(resolves_to(r.resolve(importer, "./recipe"), "src/recipe.ts"));
}

#[test]
fn asset_imports_do_not_resolve_via_extension_replacement() {
    let files = ["/repo/src/App.tsx", "/repo/src/theme.ts"];
    let r = resolver(&files, Vec::new(), vec![manifest("/repo/package.json", "fixture")]);
    let importer = "/repo/src/App.tsx";
    assert!(matches!(r.resolve(importer, "./theme.css"), Resolution::Unresolved));
    assert!(resolves_to(r.resolve(importer, "./theme.js"), "src/theme.ts"));
}

#[test]
fn resolves_declaration_only_modules() {
    let files = ["/repo/src/App.tsx", "/repo/src/types.d.ts", "/repo/src/models/index.d.ts", "/repo/src/legacy.d.ts"];
    let r = resolver(&files, Vec::new(), vec![manifest("/repo/package.json", "fixture")]);
    let importer = "/repo/src/App.tsx";
    assert!(resolves_to(r.resolve(importer, "./types"), "src/types.d.ts"));
    assert!(resolves_to(r.resolve(importer, "./models"), "src/models/index.d.ts"));
    assert!(resolves_to(r.resolve(importer, "./legacy.js"), "src/legacy.d.ts"));
}

#[test]
fn follows_tsconfig_extends_for_paths_anchored_to_declaring_config() {
    let files = ["/repo/packages/ui/src/Button.tsx", "/repo/apps/web/src/App.tsx"];
    let base = options(Vec::new(), None, &[("@ui/*", &["packages/ui/src/*"])], "/repo");
    let web = tsconfig("/repo/apps/web/tsconfig.json", options(vec![base], None, &[], "/repo/apps/web"));
    let r = resolver(&files, vec![web], vec![manifest("/repo/package.json", "fixture")]);
    let importer = "/repo/apps/web/src/App.tsx";
    assert!(resolves_to(r.resolve(importer, "@ui/Button"), "packages/ui/src/Button.tsx"));
    assert!(r.is_internal_specifier(importer, "@ui/Button"));
}

#[test]
fn child_paths_replace_extended_parent_paths_wholesale() {
    let files = ["/repo/old/legacy.ts", "/repo/packages/ui/src/Button.tsx", "/repo/apps/web/src/App.tsx"];
    let base = options(Vec::new(), Some("."), &[("@old/*", &["old/*"])], "/repo");
    let web = tsconfig("/repo/apps/web/tsconfig.json", options(vec![base], None, &[("@new/*", &["packages/ui/src/*"])], "/repo/apps/web"));
    let r = resolver(&files, vec![web], vec![manifest("/repo/package.json", "fixture")]);
    let importer = "/repo/apps/web/src/App.tsx";
    assert!(resolves_to(r.resolve(importer, "@new/Button"), "packages/ui/src/Button.tsx"));
    assert!(matches!(r.resolve(importer, "@old/legacy"), Resolution::Unresolved));
}

#[test]
fn discovers_alias_bearing_sibling_tsconfig() {
    let files = ["/repo/packages/ui/src/Button.tsx", "/repo/apps/web/src/App.tsx"];
    let app = tsconfig("/repo/tsconfig.app.json", options(Vec::new(), Some("."), &[("@ui/*", &["packages/ui/src/*"])], "/repo"));
    let root = tsconfig("/repo/tsconfig.json", TsCompilerOptions::empty());
    let r = resolver(&files, vec![app, root], vec![manifest("/repo/package.json", "fixture")]);
    assert!(resolves_to(r.resolve("/repo/apps/web/src/App.tsx", "@ui/Button"), "packages/ui/src/Button.tsx"));
}

#[test]
fn aliasless_nested_tsconfig_does_not_shadow_root_aliases() {
    let files = ["/repo/packages/ui/src/Button.tsx", "/repo/apps/web/src/App.tsx"];
    let nested = tsconfig("/repo/apps/web/tsconfig.json", TsCompilerOptions::empty());
    let root = tsconfig("/repo/tsconfig.json", options(Vec::new(), Some("."), &[("@ui/*", &["packages/ui/src/*"])], "/repo"));
    let r = resolver(&files, vec![nested, root], vec![manifest("/repo/package.json", "fixture")]);
    assert!(resolves_to(r.resolve("/repo/apps/web/src/App.tsx", "@ui/Button"), "packages/ui/src/Button.tsx"));
}

#[test]
fn overlapping_wildcard_alias_does_not_panic_during_resolution() {
    let files = ["/repo/src/App.tsx"];
    let ts = tsconfig("/repo/tsconfig.json", options(Vec::new(), Some("."), &[("lib/*/lib", &["src/*/lib"])], "/repo"));
    let r = resolver(&files, vec![ts], vec![manifest("/repo/package.json", "fixture")]);
    assert!(matches!(r.resolve("/repo/src/App.tsx", "lib/lib"), Resolution::Unresolved));
}

#[test]
fn exact_package_export_wins_over_wildcard() {
    let files = ["/repo/packages/ui/src/preset.ts", "/repo/packages/ui/src/components/preset/index.ts", "/repo/apps/web/src/App.tsx"];
    let mut ui = manifest("/repo/packages/ui/package.json", "@acme/ui");
    ui.exports = Some(obj(vec![
        ("./preset", obj(vec![("dev", s("./src/preset.ts"))])),
        ("./*", obj(vec![("dev", s("./src/components/*/index.ts"))])),
    ]));
    let r = resolver(&files, Vec::new(), vec![ui]);
    assert!(resolves_to(r.resolve("/repo/apps/web/src/App.tsx", "@acme/ui/preset"), "packages/ui/src/preset.ts"));
}

#[test]
fn exact_tsconfig_alias_wins_over_broad_wildcard() {
    let files = ["/repo/src/theme.ts", "/repo/src/theme/index.ts", "/repo/src/App.tsx"];
    let ts = tsconfig(
        "/repo/tsconfig.json",
        options(Vec::new(), Some("."), &[("@/*", &["src/*"]), ("@/theme", &["src/theme/index.ts"])], "/repo"),
    );
    let r = resolver(&files, vec![ts], vec![manifest("/repo/package.json", "fixture")]);
    assert!(resolves_to(r.resolve("/repo/src/App.tsx", "@/theme"), "src/theme/index.ts"));
}

#[test]
fn javascript_import_does_not_resolve_to_python_file() {
    let files = ["/repo/src/app.tsx", "/repo/src/model.py"];
    let r = resolver(&files, Vec::new(), vec![manifest("/repo/package.json", "fixture")]);
    assert!(matches!(r.resolve("/repo/src/app.tsx", "./model.py"), Resolution::Unresolved));
}

#[test]
fn python_import_does_not_resolve_to_javascript_file() {
    let files = ["/repo/app/__init__.py", "/repo/app/models.py", "/repo/app/models.ts", "/repo/app/main.py"];
    let r = resolver(&files, Vec::new(), Vec::new());
    assert!(resolves_to(r.resolve("/repo/app/main.py", "app.models"), "app/models.py"));
}

#[test]
fn resolves_python_absolute_relative_and_package_imports() {
    let files = ["/repo/app/__init__.py", "/repo/app/models.py", "/repo/app/services/email.py", "/repo/app/utils/__init__.py"];
    let r = resolver(&files, Vec::new(), Vec::new());
    let importer = "/repo/app/services/email.py";
    assert!(resolves_to(r.resolve(importer, "..models"), "app/models.py"));
    assert!(resolves_to(r.resolve(importer, "app.utils"), "app/utils/__init__.py"));
    assert!(r.is_internal_specifier(importer, "..models"));
    assert!(r.is_internal_specifier(importer, "app.models"));
    assert!(!r.is_internal_specifier(importer, "dataclasses"));
}

#[test]
fn resolves_python_src_layout_package_imports() {
    let files = ["/repo/src/my_pkg/__init__.py", "/repo/src/my_pkg/models.py", "/repo/src/my_pkg/main.py"];
    let r = resolver(&files, Vec::new(), Vec::new());
    let importer = "/repo/src/my_pkg/main.py";
    assert!(resolves_to(r.resolve(importer, "my_pkg.models"), "src/my_pkg/models.py"));
    assert!(r.is_internal_specifier(importer, "my_pkg.models"));
}

#[test]
fn rust_crate_import_resolves_within_importers_crate() {
    let files = ["/repo/crates/a/src/lib.rs", "/repo/crates/a/src/models.rs", "/repo/crates/b/src/lib.rs", "/repo/crates/b/src/models.rs"];
    let r = resolver(&files, Vec::new(), Vec::new());
    assert!(resolves_to(r.resolve("/repo/crates/b/src/lib.rs", "crate::models"), "crates/b/src/models.rs"));
}

#[test]
fn resolves_rust_crate_super_self_and_mod_imports() {
    let files = [
        "/repo/src/lib.rs",
        "/repo/src/models.rs",
        "/repo/src/services/mod.rs",
        "/repo/src/services/email.rs",
        "/repo/src/services/formatter.rs",
        "/repo/src/utils/mod.rs",
        "/repo/src/utils/formatting.rs",
    ];
    let r = resolver(&files, Vec::new(), Vec::new());
    let lib = "/repo/src/lib.rs";
    let service_mod = "/repo/src/services/mod.rs";
    let email = "/repo/src/services/email.rs";
    assert!(resolves_to(r.resolve(lib, "mod:services"), "src/services/mod.rs"));
    assert!(resolves_to(r.resolve(lib, "crate::models"), "src/models.rs"));
    assert!(resolves_to(r.resolve(service_mod, "self::email"), "src/services/email.rs"));
    assert!(resolves_to(r.resolve(email, "super::formatter"), "src/services/formatter.rs"));
    assert!(r.is_internal_specifier(email, "crate::models"));
    assert!(!r.is_internal_specifier(email, "serde"));
}
