use blast_radius::js_syntax::read_javascript_items;
use blast_radius::run::expanded_exports_for_root;
use blast_radius::facts::{ExportKind, ImportKind, ImportTarget, ReexportTarget};
use blast_radius::java_parse::parse_java_module;
use blast_radius::js_facts::{
    module_facts_from_javascript_module, syntax_for_path, JsDecl, JsImportDecl, JsImportSpecifier, JsItem, JsPat, JsPatProp,
    JsRequireEvent, JsUsage, ScriptSyntax,
};
use blast_radius::python_parse::{parse_python_module, parse_python_source, PyAlias, PyStmt, PyTarget};
use blast_radius::ruby_parse::parse_ruby_module;
use blast_radius::rust_parse::{parse_rust_module, parse_rust_source, RsItem, RsUseTree};

fn alias(name: &str, asname: Option<&str>) -> PyAlias {
    PyAlias { name: name.to_string(), asname: asname.map(str::to_string) }
}

#[test]
fn python_imports_exports_and_reexports() {
    let suite = vec![
        PyStmt::Import(vec![alias("os.path", None)]),
        PyStmt::ImportFrom { level: 1, module: Some("utils".to_string()), names: vec![alias("helper", Some("h")), alias("*", None)] },
        PyStmt::ImportFrom { level: 1, module: None, names: vec![alias("sibling", None)] },
        PyStmt::Def { name: "public_fn".to_string(), body: vec![PyStmt::Import(vec![alias("json", None)])] },
        PyStmt::Def { name: "_private".to_string(), body: vec![] },
        PyStmt::Assign(vec![PyTarget::Sequence(vec![PyTarget::Name("A".to_string()), PyTarget::Name("_b".to_string())])]),
        PyStmt::Compound(vec![vec![PyStmt::Assign(vec![PyTarget::Name("FLAG".to_string())])]]),
    ];
    let facts = parse_python_module("pkg/mod.py", &suite).unwrap();
    let imports: Vec<(&str, &str, bool)> =
        facts.imports.iter().map(|i| (i.source.as_str(), i.local.as_str(), i.type_only)).collect();
    assert_eq!(
        imports,
        vec![
            ("os.path", "os", false),
            (".utils", "h", false),
            (".utils.helper", "h", true),
            (".sibling", "sibling", false),
            ("json", "json", false),
        ]
    );
    assert!(matches!(&facts.imports[1].imported, ImportTarget::Name(n) if n == "helper"));
    assert!(matches!(facts.imports[3].imported, ImportTarget::Namespace));
    assert_eq!(facts.reexports.len(), 1);
    assert_eq!(facts.reexports[0].source, ".utils");
    assert!(matches!(facts.reexports[0].imported, ReexportTarget::All));
    let exports: Vec<(&str, ExportKind)> = facts.exports.iter().map(|e| (e.exported.as_str(), e.kind)).collect();
    assert_eq!(
        exports,
        vec![
            ("h", ExportKind::Reexport),
            ("sibling", ExportKind::Reexport),
            ("public_fn", ExportKind::Local),
            ("A", ExportKind::Local),
            ("FLAG", ExportKind::Local),
        ]
    );
    for local in ["os", "h", "sibling", "json"] {
        assert!(facts.used_locals.contains(local));
    }
}

#[test]
fn rust_use_trees_mods_and_public_items() {
    let items = vec![
        RsItem::Use {
            public: false,
            tree: RsUseTree::Path(
                "crate".to_string(),
                Box::new(RsUseTree::Group(vec![
                    RsUseTree::Name("a".to_string()),
                    RsUseTree::Path("b".to_string(), Box::new(RsUseTree::Name("C".to_string()))),
                    RsUseTree::Rename("d".to_string(), "e".to_string()),
                ])),
            ),
        },
        RsItem::Use { public: true, tree: RsUseTree::Path("super".to_string(), Box::new(RsUseTree::Glob)) },
        RsItem::Named { public: true, name: "Foo".to_string() },
        RsItem::Named { public: false, name: "bar".to_string() },
        RsItem::Mod { public: true, name: "inner".to_string(), inline: false },
        RsItem::Mod { public: false, name: "tests".to_string(), inline: true },
    ];
    let facts = parse_rust_module("src/lib.rs", &items).unwrap();
    let imports: Vec<(&str, &str)> = facts.imports.iter().map(|i| (i.source.as_str(), i.local.as_str())).collect();
    assert_eq!(imports, vec![("crate::a", "a"), ("crate::b", "C"), ("crate::d", "e"), ("mod:inner", "inner")]);
    assert!(matches!(facts.imports[0].imported, ImportTarget::Namespace));
    assert!(matches!(&facts.imports[1].imported, ImportTarget::Name(n) if n == "C"));
    assert_eq!(facts.reexports.len(), 1);
    assert_eq!(facts.reexports[0].source, "super");
    assert_eq!(facts.reexports[0].exported, "*");
    assert!(facts.reexports[0].is_ambiguous);
    let exports: Vec<&str> = facts.exports.iter().map(|e| e.exported.as_str()).collect();
    assert_eq!(exports, vec!["Foo", "inner"]);
    assert!(facts.used_locals.contains("e"));
}

#[test]
fn javascript_facts_from_items_requires_and_usage() {
    let items = vec![
        JsItem::Import(JsImportDecl {
            source: "./Button".to_string(),
            type_only: false,
            specifiers: vec![JsImportSpecifier::Named { local: "Button".to_string(), imported: None, type_only: false }],
        }),
        JsItem::ExportDecl(JsDecl::Fn("Card".to_string())),
    ];
    let calls = vec![
        JsRequireEvent::Bare { source: "./polyfill".to_string() },
        JsRequireEvent::Value { source: "./worker".to_string() },
        JsRequireEvent::Value { source: "./worker".to_string() },
        JsRequireEvent::Binding {
            source: "./dates".to_string(),
            pattern: JsPat::Object(vec![
                JsPatProp::Assign("format".to_string()),
                JsPatProp::KeyValue(Some("parse".to_string()), JsPat::Ident("parseDate".to_string())),
            ]),
        },
    ];
    let usage = JsUsage {
        used_locals: vec!["Button".to_string()],
        jsx_locals: vec!["Button".to_string()],
        namespace_member_usage: Vec::new(),
        jsx_namespace_member_usage: Vec::new(),
    };
    let dynamic = vec!["./Lazy".to_string(), "./Lazy".to_string()];
    let mocks = vec!["./real".to_string()];
    let facts = module_facts_from_javascript_module("/repo/src/Card.jsx", &items, &calls, usage, &dynamic, &mocks).unwrap();
    let imports: Vec<(&str, &str, ImportKind)> =
        facts.imports.iter().map(|i| (i.source.as_str(), i.local.as_str(), i.kind)).collect();
    assert_eq!(
        imports,
        vec![
            ("./Button", "Button", ImportKind::Esm),
            ("./polyfill", "side-effect:1", ImportKind::CommonJs),
            ("./worker", "require():0", ImportKind::CommonJs),
            ("./dates", "format", ImportKind::CommonJs),
            ("./dates", "parseDate", ImportKind::CommonJs),
            ("./Lazy", "import():0", ImportKind::Dynamic),
            ("./real", "side-effect:0", ImportKind::Mock),
        ]
    );
    assert!(matches!(&facts.imports[4].imported, ImportTarget::Name(n) if n == "parse"));
    assert_eq!(facts.exports.len(), 1);
    assert_eq!(facts.exports[0].exported, "Card");
    for local in ["Button", "require():0", "import():0"] {
        assert!(facts.used_locals.contains(local), "{local} should count as used");
    }
    assert!(facts.jsx_locals.contains("Button"));
}

#[test]
fn script_grammar_follows_the_extension() {
    assert_eq!(syntax_for_path("a/b.ts"), ScriptSyntax::TypeScript);
    assert_eq!(syntax_for_path("a/b.cts"), ScriptSyntax::TypeScript);
    assert_eq!(syntax_for_path("a/b.tsx"), ScriptSyntax::Tsx);
    assert_eq!(syntax_for_path("a/b.mjs"), ScriptSyntax::EcmaScript);
    assert_eq!(syntax_for_path("a/b.vue.js"), ScriptSyntax::EcmaScript);
    assert_eq!(syntax_for_path("Makefile"), ScriptSyntax::EcmaScript);
}

#[test]
fn java_imports_and_declared_type() {
    let source = "package com.acme;\n\nimport com.acme.util.Helper;\nimport static com.acme.Constants.MAX;\n\npublic class Widget {\n}\n";
    let facts = parse_java_module("src/com/acme/Widget.java", source).unwrap();
    assert!(facts.imports.iter().any(|i| i.source == "com.acme.util.Helper"));
    assert!(facts.exports.iter().any(|e| e.exported == "Widget"));
    for import in &facts.imports {
        assert!(facts.used_locals.contains(&import.local));
    }
}

#[test]
fn ruby_requires_and_definitions() {
    let source = "require 'json'\nrequire_relative \"lib/helper\"\n\nclass Widget\n  def render\n  end\nend\n";
    let facts = parse_ruby_module("app/widget.rb", source).unwrap();
    assert!(facts.imports.iter().any(|i| i.source == "json"));
    assert!(facts.exports.iter().any(|e| e.exported == "Widget"));
    for import in &facts.imports {
        assert!(facts.used_locals.contains(&import.local));
    }
}

#[test]
fn python_source_text_gives_the_same_facts_as_its_statements() {
    let source = "import os.path\nfrom .utils import helper as h\nfrom .utils import *\nfrom . import sibling\n\ndef public_fn():\n    import json\n\ndef _private():\n    pass\n\nA, _b = 1, 2\nif True:\n    FLAG = 1\n";
    let from_text = parse_python_source("pkg/mod.py", source).unwrap();
    let suite = vec![
        PyStmt::Import(vec![alias("os.path", None)]),
        PyStmt::ImportFrom { level: 1, module: Some("utils".to_string()), names: vec![alias("helper", Some("h"))] },
        PyStmt::ImportFrom { level: 1, module: Some("utils".to_string()), names: vec![alias("*", None)] },
        PyStmt::ImportFrom { level: 1, module: None, names: vec![alias("sibling", None)] },
        PyStmt::Def { name: "public_fn".to_string(), body: vec![PyStmt::Import(vec![alias("json", None)])] },
        PyStmt::Def { name: "_private".to_string(), body: vec![PyStmt::Other] },
        PyStmt::Assign(vec![PyTarget::Sequence(vec![PyTarget::Name("A".to_string()), PyTarget::Name("_b".to_string())])]),
        PyStmt::Compound(vec![vec![PyStmt::Assign(vec![PyTarget::Name("FLAG".to_string())])], vec![]]),
    ];
    let from_items = parse_python_module("pkg/mod.py", &suite).unwrap();
    let imports = |f: &blast_radius::facts::ModuleFacts| -> Vec<(String, String, bool)> {
        f.imports.iter().map(|i| (i.source.clone(), i.local.clone(), i.type_only)).collect()
    };
    let exports = |f: &blast_radius::facts::ModuleFacts| -> Vec<String> { f.exports.iter().map(|e| e.exported.clone()).collect() };
    assert_eq!(imports(&from_text), imports(&from_items));
    assert_eq!(exports(&from_text), exports(&from_items));
    assert_eq!(exports(&from_text), vec!["h", "sibling", "public_fn", "A", "FLAG"]);
    assert_eq!(from_text.reexports.len(), 1);
}

#[test]
fn python_source_that_does_not_parse_is_an_error_naming_the_file() {
    let err = parse_python_source("pkg/bad.py", "def (:\n").unwrap_err();
    assert!(err.starts_with("failed to parse python module pkg/bad.py: "), "{err}");
}

#[test]
fn rust_source_text_gives_the_same_facts_as_its_items() {
    let source = "use crate::{a, b::C, d as e};\npub use super::*;\npub struct Foo;\nfn bar() {}\npub mod inner;\n#[cfg(test)]\nmod tests {}\n";
    let facts = parse_rust_source("src/lib.rs", source).unwrap();
    let imports: Vec<(&str, &str)> = facts.imports.iter().map(|i| (i.source.as_str(), i.local.as_str())).collect();
    assert_eq!(imports, vec![("crate::a", "a"), ("crate::b", "C"), ("crate::d", "e"), ("mod:inner", "inner")]);
    let exports: Vec<&str> = facts.exports.iter().map(|e| e.exported.as_str()).collect();
    assert_eq!(exports, vec!["Foo", "inner"]);
    assert_eq!(facts.reexports.len(), 1);
}

#[test]
fn rust_source_that_does_not_parse_is_an_error_naming_the_file() {
    assert_eq!(parse_rust_source("src/bad.rs", "fn (").unwrap_err(), "failed to parse rust module src/bad.rs");
}

#[test]
fn javascript_source_text_is_read_into_items() {
    let source = "import { A, b as c } from './a';\nexport const x = 1;\nexport default Thing;\nexport * from './all';\nmodule.exports.y = 2;\n";
    let (items, _module) = read_javascript_items("src/app.ts", source).unwrap();
    assert_eq!(items.len(), 5);
    assert!(matches!(&items[0], JsItem::Import(d) if d.source == "./a" && d.specifiers.len() == 2));
    assert!(matches!(&items[1], JsItem::ExportDecl(JsDecl::Var(pats)) if pats.len() == 1));
    assert!(matches!(&items[2], JsItem::ExportDefault(Some(name)) if name == "Thing"));
    assert!(matches!(&items[3], JsItem::ExportAll(source) if source == "./all"));
    assert!(matches!(&items[4], JsItem::Assign { path, object_props: None } if path == &vec!["module".to_string(), "exports".to_string(), "y".to_string()]));
}

#[test]
fn javascript_source_that_does_not_parse_is_an_error_naming_the_file() {
    let err = read_javascript_items("src/bad.ts", "import { from").err().unwrap();
    assert!(err.starts_with("failed to parse module src/bad.ts: "), "{err}");
}

#[test]
fn expansion_of_a_file_without_state_keeps_the_names() {
    let names = vec!["default".to_string()];
    let r = expanded_exports_for_root(3, &names, &Vec::new());
    assert_eq!(r.to_vec(), vec!["default".to_string()]);
}
