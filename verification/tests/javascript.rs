//! The facts of JavaScript modules, from the items, `require` calls, usage
//! and dynamic imports a walk of each module's syntax tree yields.
use blast_radius::js_facts::{is_mock_call, is_require_call};
use blast_radius::facts::{ExportKind, ImportKind, ImportTarget, ModuleFacts};
use blast_radius::js_facts::{
    module_facts_from_javascript_module, JsImportDecl, JsImportSpecifier, JsItem, JsPat, JsPatProp, JsRequireEvent, JsUsage,
};

fn usage(used: &[&str]) -> JsUsage {
    JsUsage {
        used_locals: used.iter().map(|s| s.to_string()).collect(),
        jsx_locals: Vec::new(),
        namespace_member_usage: Vec::new(),
        jsx_namespace_member_usage: Vec::new(),
    }
}

fn facts(path: &str, items: Vec<JsItem>, calls: Vec<JsRequireEvent>, used: &[&str], mocks: &[&str]) -> ModuleFacts {
    let mocks: Vec<String> = mocks.iter().map(|s| s.to_string()).collect();
    module_facts_from_javascript_module(path, &items, &calls, usage(used), &Vec::new(), &mocks).unwrap()
}

fn bare_import(source: &str) -> JsItem {
    JsItem::Import(JsImportDecl { source: source.to_string(), type_only: false, specifiers: Vec::new() })
}

/// `import './polyfills';\nimport './styles.css';\n`
#[test]
fn collects_side_effect_imports() {
    let facts = facts("setup.js", vec![bare_import("./polyfills"), bare_import("./styles.css")], Vec::new(), &[], &[]);
    for source in ["./polyfills", "./styles.css"] {
        let import = facts.imports.iter().find(|import| import.source == source).expect("side-effect import should be collected");
        assert!(matches!(import.imported, ImportTarget::SideEffect));
        assert_eq!(import.kind, ImportKind::Esm);
    }
}

/// `import lib = require('./lib');\nexport = lib;\n`
#[test]
fn collects_ts_import_equals_and_export_assignment() {
    let items = vec![
        JsItem::ImportEquals { source: "./lib".to_string(), local: "lib".to_string(), type_only: false },
        JsItem::ExportDefault(Some("lib".to_string())),
    ];
    let facts = facts("legacy.ts", items, Vec::new(), &["lib"], &[]);
    let import = facts.imports.iter().find(|import| import.source == "./lib").expect("import-equals should be collected");
    assert_eq!(import.local, "lib");
    assert!(matches!(import.imported, ImportTarget::Default));
    assert_eq!(import.kind, ImportKind::CommonJs);
    assert!(!import.type_only);
    let export = facts.exports.iter().find(|export| export.exported == "default").expect("export assignment should export the file's value");
    assert_eq!(export.local.as_deref(), Some("lib"));
    assert_eq!(export.kind, ExportKind::Default);
}

/// ```js
/// require('./register');
/// function load() {
///   const helper = require('./helper');
///   return helper;
/// }
/// setTimeout(() => require('./worker').start(), 0);
/// ```
#[test]
fn collects_requires_anywhere_in_the_module() {
    let calls = vec![
        JsRequireEvent::Bare { source: "./register".to_string() },
        JsRequireEvent::Binding { source: "./helper".to_string(), pattern: JsPat::Ident("helper".to_string()) },
        JsRequireEvent::Value { source: "./worker".to_string() },
    ];
    let facts = facts("server.cjs", vec![JsItem::Other, JsItem::Other, JsItem::Other], calls, &["helper"], &[]);

    let register = facts.imports.iter().find(|import| import.source == "./register").expect("bare require should be a side-effect import");
    assert!(matches!(register.imported, ImportTarget::SideEffect));
    assert_eq!(register.kind, ImportKind::CommonJs);

    let helper = facts.imports.iter().find(|import| import.source == "./helper").expect("in-function require should keep its binding");
    assert_eq!(helper.local, "helper");
    assert!(matches!(helper.imported, ImportTarget::Default));
    assert_eq!(helper.kind, ImportKind::CommonJs);
    assert!(facts.used_locals.contains("helper"));

    let worker = facts.imports.iter().find(|import| import.source == "./worker").expect("value-position require should be collected");
    assert!(matches!(worker.imported, ImportTarget::Namespace));
    assert_eq!(worker.kind, ImportKind::CommonJs);
    assert!(facts.used_locals.contains(&worker.local));
}

/// `vi.mock`, `jest.mock` and `vi.doMock` reference modules; `vi.unmock` and
/// a non-runner `.mock(...)` do not, so the walk never hands them over.
#[test]
fn collects_vitest_and_jest_mock_references() {
    let items = vec![JsItem::Import(JsImportDecl {
        source: "vitest".to_string(),
        type_only: false,
        specifiers: vec![JsImportSpecifier::Named { local: "vi".to_string(), imported: None, type_only: false }],
    })];
    let facts = facts("widget.test.ts", items, Vec::new(), &["vi"], &["./real-module", "@scope/pkg", "./lazy-mock"]);
    for source in ["./real-module", "@scope/pkg", "./lazy-mock"] {
        let mock = facts
            .imports
            .iter()
            .find(|import| import.source == source)
            .unwrap_or_else(|| panic!("mock of {source} should be collected"));
        assert!(matches!(mock.imported, ImportTarget::SideEffect));
        assert_eq!(mock.kind, ImportKind::Mock);
        assert!(!mock.type_only);
    }
    assert!(!facts.imports.iter().any(|import| import.source == "./not-a-dep" || import.source == "./also-not-a-dep"));
}

/// `const { format, parse: parseDate } = require('./dates');\nmodule.exports = { format, parseDate };\n`
#[test]
fn keeps_top_level_destructured_require_locals() {
    let items = vec![
        JsItem::Other,
        JsItem::Assign {
            path: vec!["module".to_string(), "exports".to_string()],
            object_props: Some(vec![Some("format".to_string()), Some("parseDate".to_string())]),
        },
    ];
    let calls = vec![JsRequireEvent::Binding {
        source: "./dates".to_string(),
        pattern: JsPat::Object(vec![
            JsPatProp::Assign("format".to_string()),
            JsPatProp::KeyValue(Some("parse".to_string()), JsPat::Ident("parseDate".to_string())),
        ]),
    }];
    let facts = facts("format.cjs", items, calls, &["format", "parseDate"], &[]);
    assert!(facts
        .imports
        .iter()
        .any(|import| import.source == "./dates" && matches!(&import.imported, ImportTarget::Name(n) if n == "format")));
    assert!(facts.imports.iter().any(|import| {
        import.source == "./dates" && import.local == "parseDate" && matches!(&import.imported, ImportTarget::Name(n) if n == "parse")
    }));
    assert_eq!(facts.imports.iter().filter(|import| import.source == "./dates").count(), 2);
    let exports: Vec<(&str, ExportKind)> = facts.exports.iter().map(|e| (e.exported.as_str(), e.kind)).collect();
    assert_eq!(
        exports,
        vec![("default", ExportKind::CommonJs), ("format", ExportKind::CommonJs), ("parseDate", ExportKind::CommonJs)]
    );
}

#[test]
fn test_runner_mocks_and_requires_are_recognised_by_name() {
    assert!(is_mock_call("vi", "mock"));
    assert!(is_mock_call("jest", "doMock"));
    assert!(!is_mock_call("vi", "fn"));
    assert!(!is_mock_call("sinon", "mock"));
    assert!(is_require_call("require", 1));
    assert!(!is_require_call("require", 2));
    assert!(!is_require_call("load", 1));
}
