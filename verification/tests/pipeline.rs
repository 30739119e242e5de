use blast_radius::collections::StrMap;
use blast_radius::config::RepoContext;
use blast_radius::facts::{ExportFact, ExportKind, ImportFact, ImportKind, ImportTarget, ModuleFacts, ReexportFact, ReexportTarget};
use blast_radius::graph::{AnalysisMode, NodeKind, RiskTier};
use blast_radius::pipeline::{load_modules, run, AnalysisCommand, LoadedModules, ParsedFile};
use blast_radius::report::{render, OutputFormat};
use blast_radius::run::FileInput;

fn context(files: &[&str]) -> RepoContext {
    RepoContext {
        repo_root: "/repo".to_string(),
        source_files: files.iter().map(|f| f.to_string()).collect(),
        tsconfigs: Vec::new(),
        package_jsons: Vec::new(),
        ignore_unresolved: Vec::new(),
        warnings: Vec::new(),
    }
}

fn named_import(source: &str, name: &str) -> ImportFact {
    ImportFact {
        source: source.to_string(),
        local: name.to_string(),
        imported: ImportTarget::Name(name.to_string()),
        kind: ImportKind::Esm,
        type_only: false,
    }
}

fn local_export(name: &str) -> ExportFact {
    ExportFact { exported: name.to_string(), local: Some(name.to_string()), kind: ExportKind::Local }
}

/// button.js exports Button; card.js imports and uses it and exports Card;
/// app.js imports Card and uses it; unused.js imports Button but never uses it.
fn repo_modules() -> Vec<ModuleFacts> {
    let mut button = ModuleFacts::empty("/repo/src/button.js".to_string());
    button.exports.push(local_export("Button"));

    let mut card = ModuleFacts::empty("/repo/src/card.js".to_string());
    card.imports.push(named_import("./button", "Button"));
    card.used_locals.insert("Button".to_string());
    card.exports.push(local_export("Card"));

    let mut app = ModuleFacts::empty("/repo/src/app.js".to_string());
    app.imports.push(named_import("./card", "Card"));
    app.used_locals.insert("Card".to_string());

    let mut unused = ModuleFacts::empty("/repo/src/unused.js".to_string());
    unused.imports.push(named_import("./button", "Button"));

    vec![app, button, card, unused]
}

fn repo_context() -> RepoContext {
    context(&["/repo/src/app.js", "/repo/src/button.js", "/repo/src/card.js", "/repo/src/unused.js"])
}

fn loaded(modules: Vec<ModuleFacts>) -> LoadedModules {
    LoadedModules { modules, warnings: Vec::new(), parse_failures: 0 }
}

fn analyze(command: AnalysisCommand) -> Result<blast_radius::graph::AnalysisResult, String> {
    let ctx = repo_context();
    run(command, false, &ctx, &Vec::new(), StrMap::new(), &Vec::new(), loaded(repo_modules()))
}

#[test]
fn file_run_reaches_direct_and_transitive_consumers() {
    let result = analyze(AnalysisCommand::File { file: "/repo/src/button.js".to_string() }).unwrap();
    assert_eq!(result.mode, AnalysisMode::File);
    assert_eq!(result.summary.directly_affected_files, 1);
    assert_eq!(result.summary.transitively_affected_files, 1);
    assert_eq!(result.summary.total_affected_files, 2);
    assert_eq!(result.summary.risk_tier, RiskTier::Minor);
    let files: Vec<&str> = result
        .nodes
        .iter()
        .filter(|n| n.kind == NodeKind::File)
        .map(|n| n.label.as_str())
        .collect();
    assert!(files.contains(&"src/card.js"));
    assert!(files.contains(&"src/app.js"));
    assert!(!files.contains(&"src/unused.js"), "an unused import carries no impact");
}

#[test]
fn totals_add_up_to_direct_plus_transitive() {
    let result = analyze(AnalysisCommand::File { file: "/repo/src/card.js".to_string() }).unwrap();
    assert_eq!(
        result.summary.total_affected_files,
        result.summary.directly_affected_files + result.summary.transitively_affected_files
    );
    assert_eq!(result.summary.total_affected_files, 1);
}

#[test]
fn leaf_file_reaches_nothing_and_is_minor() {
    let result = analyze(AnalysisCommand::File { file: "/repo/src/app.js".to_string() }).unwrap();
    assert_eq!(result.summary.total_affected_files, 0);
    assert_eq!(result.summary.risk_tier, RiskTier::Minor);
}

#[test]
fn unknown_file_is_an_error() {
    let err = analyze(AnalysisCommand::File { file: "/repo/src/missing.js".to_string() }).unwrap_err();
    assert_eq!(err, "source file not found in repository index: /repo/src/missing.js");
}

#[test]
fn unknown_export_is_refused_with_the_available_ones() {
    let err = analyze(AnalysisCommand::Export {
        file: "/repo/src/button.js".to_string(),
        export_name: "Nope".to_string(),
    })
    .unwrap_err();
    assert_eq!(err, "export 'Nope' not found in src/button.js; available exports: Button");
}

#[test]
fn known_export_run_starts_from_that_export() {
    let result = analyze(AnalysisCommand::Export {
        file: "/repo/src/button.js".to_string(),
        export_name: "Button".to_string(),
    })
    .unwrap();
    assert_eq!(result.mode, AnalysisMode::Export);
    assert_eq!(result.summary.total_affected_files, 2);
}

#[test]
fn files_run_skips_missing_and_unknown_inputs_with_warnings() {
    let inputs = vec![
        FileInput { input: "src/button.js".to_string(), resolved: Some("/repo/src/button.js".to_string()) },
        FileInput { input: "gone.js".to_string(), resolved: None },
        FileInput { input: "README.md".to_string(), resolved: Some("/repo/README.md".to_string()) },
        FileInput { input: "src/button.js".to_string(), resolved: Some("/repo/src/button.js".to_string()) },
    ];
    let result = analyze(AnalysisCommand::Files { inputs }).unwrap();
    assert_eq!(result.mode, AnalysisMode::Files);
    assert_eq!(result.summary.skipped_inputs, 2);
    assert!(result.warnings.iter().any(|w| w == "skipped input gone.js: not found on disk"));
    assert!(result.warnings.iter().any(|w| w == "skipped input README.md: not a recognized source file"));
    assert_eq!(result.summary.total_affected_files, 2);
}

#[test]
fn files_run_with_nothing_recognized_warns() {
    let inputs = vec![FileInput { input: "gone.js".to_string(), resolved: None }];
    let result = analyze(AnalysisCommand::Files { inputs }).unwrap();
    assert!(result.warnings.iter().any(|w| w == "no recognized source files among 1 input path"));
    assert_eq!(result.summary.total_affected_files, 0);
}

#[test]
fn edge_list_flips_edges_and_sorts_them() {
    let result = analyze(AnalysisCommand::File { file: "/repo/src/button.js".to_string() }).unwrap();
    let listing = blast_radius::graph_formats::render_graph_edge_list(&result);
    let lines: Vec<&str> = listing.lines().collect();
    let mut sorted = lines.clone();
    sorted.sort();
    assert_eq!(lines, sorted);
    assert!(lines.iter().all(|l| l.contains(" -> ")));
    assert!(lines.iter().any(|l| l.starts_with("src/app.js -> ")));
}

#[test]
fn edge_list_of_an_edgeless_graph_counts_files() {
    let result = analyze(AnalysisCommand::File { file: "/repo/src/app.js".to_string() }).unwrap();
    assert_eq!(blast_radius::graph_formats::render_graph_edge_list(&result), "4 files, no import edges");
}

#[test]
fn load_modules_prefixes_warnings_and_counts_failures() {
    let mut ok = ModuleFacts::empty("/repo/src/a.vue".to_string());
    ok.warnings.push("parsed vue script blocks as JavaScript/TypeScript".to_string());
    let files = vec![
        ParsedFile { path: "/repo/src/a.vue".to_string(), facts: Ok(ok) },
        ParsedFile { path: "/repo/src/b.js".to_string(), facts: Err("unexpected token".to_string()) },
    ];
    let loaded = load_modules("/repo", files);
    assert_eq!(loaded.modules.len(), 1);
    assert_eq!(loaded.parse_failures, 1);
    assert_eq!(
        loaded.warnings,
        vec![
            "src/a.vue: parsed vue script blocks as JavaScript/TypeScript".to_string(),
            "skipped src/b.js: unexpected token".to_string(),
        ]
    );
}

#[test]
fn parse_failures_head_the_warnings() {
    let ctx = repo_context();
    let files = vec![ParsedFile { path: "/repo/src/broken.js".to_string(), facts: Err("bad".to_string()) }];
    let mut l = load_modules("/repo", files);
    l.modules = repo_modules();
    let result = run(
        AnalysisCommand::File { file: "/repo/src/button.js".to_string() },
        false,
        &ctx,
        &Vec::new(),
        StrMap::new(),
        &Vec::new(),
        l,
    )
    .unwrap();
    assert_eq!(result.summary.parse_failures, 1);
    assert_eq!(result.warnings[0], "1 source file could not be parsed and was skipped");
    assert_eq!(result.warnings[1], "skipped src/broken.js: bad");
}

/// A barrel re-exports two components; a consumer that takes only the other
/// one through the barrel is not reached by a change to the first.
#[test]
fn barrel_consumers_of_other_symbols_are_pruned() {
    let mut button = ModuleFacts::empty("/repo/ui/button.js".to_string());
    button.exports.push(local_export("Button"));
    let mut icon = ModuleFacts::empty("/repo/ui/icon.js".to_string());
    icon.exports.push(local_export("Icon"));
    let mut barrel = ModuleFacts::empty("/repo/ui/index.js".to_string());
    for (source, name) in [("./button", "Button"), ("./icon", "Icon")] {
        barrel.reexports.push(ReexportFact {
            source: source.to_string(),
            imported: ReexportTarget::Name(name.to_string()),
            exported: name.to_string(),
            is_ambiguous: false,
        });
    }
    let mut uses_icon = ModuleFacts::empty("/repo/app/toolbar.js".to_string());
    uses_icon.imports.push(named_import("../ui/index", "Icon"));
    uses_icon.used_locals.insert("Icon".to_string());
    let mut uses_button = ModuleFacts::empty("/repo/app/form.js".to_string());
    uses_button.imports.push(named_import("../ui/index", "Button"));
    uses_button.used_locals.insert("Button".to_string());

    let files = ["/repo/app/form.js", "/repo/app/toolbar.js", "/repo/ui/button.js", "/repo/ui/icon.js", "/repo/ui/index.js"];
    let ctx = context(&files);
    let modules = vec![uses_button, uses_icon, button, icon, barrel];
    let result = run(
        AnalysisCommand::File { file: "/repo/ui/button.js".to_string() },
        false,
        &ctx,
        &Vec::new(),
        StrMap::new(),
        &Vec::new(),
        loaded(modules),
    )
    .unwrap();
    let files: Vec<&str> = result.nodes.iter().filter(|n| n.kind == NodeKind::File).map(|n| n.label.as_str()).collect();
    assert!(files.contains(&"app/form.js"));
    assert!(files.contains(&"ui/index.js"));
    assert!(!files.contains(&"app/toolbar.js"), "a consumer of another barrel symbol is pruned");
}

#[test]
fn render_writes_text_formats_and_leaves_json_to_the_caller() {

    let result = analyze(AnalysisCommand::File { file: "/repo/src/button.js".to_string() }).unwrap();
    let mermaid = render(&OutputFormat::Mermaid, &result, false, false).unwrap();
    assert!(mermaid.starts_with("graph TD"));
    let dot = render(&OutputFormat::Dot, &result, false, false).unwrap();
    assert!(dot.starts_with("digraph blast_radius {"));
    let tree = render(&OutputFormat::Tree, &result, false, false).unwrap();
    assert!(tree.contains("src/card.js") || tree.contains("card.js"));
    assert!(render(&OutputFormat::Json, &result, false, false).is_none());
}

fn file_depths(result: &blast_radius::graph::AnalysisResult) -> Vec<(String, usize)> {
    let mut out: Vec<(String, usize)> =
        result.nodes.iter().filter(|n| n.kind == NodeKind::File).map(|n| (n.label.clone(), n.depth)).collect();
    out.sort();
    out
}

fn module(path: &str, imports: &[(&str, &str)], exports: &[&str]) -> ModuleFacts {
    let mut m = ModuleFacts::empty(path.to_string());
    for (source, name) in imports {
        m.imports.push(named_import(source, name));
        m.used_locals.insert(name.to_string());
    }
    for name in exports {
        m.exports.push(local_export(name));
    }
    m
}

fn run_on(paths: &[&str], modules: Vec<ModuleFacts>, command: AnalysisCommand) -> blast_radius::graph::AnalysisResult {
    run(command, false, &context(paths), &Vec::new(), StrMap::new(), &Vec::new(), loaded(modules)).unwrap()
}

#[test]
fn import_cycle_terminates_with_shortest_depths() {
    let paths = ["/repo/a.js", "/repo/b.js", "/repo/c.js"];
    let modules = vec![
        module("/repo/a.js", &[("./b", "b")], &["a"]),
        module("/repo/b.js", &[("./a", "a")], &["b"]),
        module("/repo/c.js", &[("./a", "a")], &["c"]),
    ];
    let result = run_on(&paths, modules, AnalysisCommand::File { file: "/repo/b.js".to_string() });
    assert_eq!(file_depths(&result), vec![("a.js".to_string(), 1), ("b.js".to_string(), 0), ("c.js".to_string(), 2)]);
    assert_eq!(result.summary.directly_affected_files, 1);
    assert_eq!(result.summary.transitively_affected_files, 1);
}

#[test]
fn diamond_dependent_is_reported_once_at_its_shortest_depth() {
    let paths = ["/repo/d.js", "/repo/e.js", "/repo/f.js", "/repo/g.js"];
    let modules = vec![
        module("/repo/d.js", &[], &["d"]),
        module("/repo/e.js", &[("./d", "d")], &["e"]),
        module("/repo/f.js", &[("./d", "d")], &["f"]),
        module("/repo/g.js", &[("./e", "e"), ("./f", "f")], &["g"]),
    ];
    let result = run_on(&paths, modules, AnalysisCommand::File { file: "/repo/d.js".to_string() });
    assert_eq!(
        file_depths(&result),
        vec![("d.js".to_string(), 0), ("e.js".to_string(), 1), ("f.js".to_string(), 1), ("g.js".to_string(), 2)]
    );
    assert_eq!(result.summary.directly_affected_files, 2);
    assert_eq!(result.summary.transitively_affected_files, 1);
    assert_eq!(result.edges.len(), 4, "both edges into the bottom of the diamond are kept");
}

#[test]
fn named_export_change_skips_default_import_consumers() {
    let paths = ["/repo/s.js", "/repo/dc.js", "/repo/nc.js"];
    let mut s = module("/repo/s.js", &[], &["namedThing"]);
    s.exports.push(ExportFact { exported: "default".to_string(), local: Some("Thing".to_string()), kind: ExportKind::Default });
    let mut dc = ModuleFacts::empty("/repo/dc.js".to_string());
    dc.imports.push(ImportFact {
        source: "./s".to_string(),
        local: "DefaultThing".to_string(),
        imported: ImportTarget::Default,
        kind: ImportKind::Esm,
        type_only: false,
    });
    dc.used_locals.insert("DefaultThing".to_string());
    dc.exports.push(local_export("useDefault"));
    let nc = module("/repo/nc.js", &[("./s", "namedThing")], &["useNamed"]);
    let result = run_on(
        &paths,
        vec![s, dc, nc],
        AnalysisCommand::Export { file: "/repo/s.js".to_string(), export_name: "namedThing".to_string() },
    );
    let files: Vec<String> = file_depths(&result).into_iter().map(|(f, _)| f).collect();
    assert!(files.contains(&"nc.js".to_string()));
    assert!(!files.contains(&"dc.js".to_string()), "a default import does not depend on a named export");
    assert_eq!(result.summary.total_affected_files, 1);
}
