//! The facts of a JavaScript/TypeScript module from what its syntax tree
//! says: the module's top-level items, the `require` calls in the order a
//! walk of the tree meets them, the bindings its body uses, and its dynamic
//! imports and test-runner mocks.
use vstd::prelude::*;

use crate::collections::{add_to_set_map, set_at, set_map_view, set_map_wf, str_views, StrMap, StrSet};
use crate::facts::{ExportFact, ExportKind, ImportFact, ImportKind, ImportTarget, ModuleFacts, ReexportFact, ReexportTarget};
use crate::java_parse::{export_view, export_views, import_view, import_views, ImportView};
use crate::text::{concat, decimal, owned, str_eq, usize_to_string};

verus! {

// ---------------------------------------------------------------------------
// The syntax the facts are read from
// ---------------------------------------------------------------------------

/// A binding pattern (`a`, `[a, b]`, `{ a, b: c }`, `...rest`, `a = 1`).
pub enum JsPat {
    Ident(String),
    Array(Vec<JsPat>),
    Object(Vec<JsPatProp>),
    Rest(Box<JsPat>),
    Assign(Box<JsPat>),
    Other,
}

/// A property of an object pattern: shorthand `{ a }`, `{ key: pattern }`
/// (the key's name when it has a plain one), or `{ ...rest }`.
pub enum JsPatProp {
    Assign(String),
    KeyValue(Option<String>, JsPat),
    Rest(JsPat),
}

pub enum JsImportSpecifier {
    /// `{ imported as local }`, or `{ local }` when `imported` is `None`.
    Named { local: String, imported: Option<String>, type_only: bool },
    Default { local: String },
    Namespace { local: String },
}

pub struct JsImportDecl {
    pub source: String,
    pub type_only: bool,
    pub specifiers: Vec<JsImportSpecifier>,
}

pub enum JsExportSpecifier {
    /// `{ orig as exported }`, or `{ orig }` when `exported` is `None`.
    Named { orig: String, exported: Option<String> },
    /// `* as name`.
    Namespace { name: String },
    /// `default as exported` (`export v from 'm'`).
    Default { exported: String },
}

pub struct JsNamedExport {
    pub source: Option<String>,
    pub specifiers: Vec<JsExportSpecifier>,
}

/// What an `export` declaration declares.
pub enum JsDecl {
    Fn(String),
    Class(String),
    Var(Vec<JsPat>),
    Other,
}

/// A top-level item of the module.
pub enum JsItem {
    Import(JsImportDecl),
    ExportDecl(JsDecl),
    NamedExport(JsNamedExport),
    /// `export default ...`, `export =`: the local it names, if any.
    ExportDefault(Option<String>),
    /// `export * from 'source'`.
    ExportAll(String),
    /// `import local = require('source')`.
    ImportEquals { source: String, local: String, type_only: bool },
    /// An assignment statement to the member path `path` (`module.exports.x = ...`),
    /// with the property names of the assigned object literal, if it is one.
    Assign { path: Vec<String>, object_props: Option<Vec<Option<String>>> },
    Other,
}

/// A `require` call as a walk of the module meets it.
pub enum JsRequireEvent {
    /// `const pattern = require('source')`.
    Binding { source: String, pattern: JsPat },
    /// A statement that is only `require('source')`.
    Bare { source: String },
    /// Any other `require('source')`.
    Value { source: String },
}

// ---------------------------------------------------------------------------
// Pattern names
// ---------------------------------------------------------------------------

/// The names a pattern binds, left to right.
pub open spec fn pat_names(p: JsPat) -> Seq<Seq<char>>
    decreases p, 0nat,
{
    match p {
        JsPat::Ident(n) => seq![n@],
        JsPat::Array(items) => pats_names(items@),
        JsPat::Object(props) => props_names(props@),
        JsPat::Rest(inner) => pat_names(*inner),
        JsPat::Assign(inner) => pat_names(*inner),
        JsPat::Other => Seq::empty(),
    }
}

pub open spec fn pats_names(items: Seq<JsPat>) -> Seq<Seq<char>>
    decreases items, items.len(),
{
    if items.len() == 0 {
        Seq::empty()
    } else {
        pats_names(items.drop_last()) + pat_names(items.last())
    }
}

pub open spec fn props_names(props: Seq<JsPatProp>) -> Seq<Seq<char>>
    decreases props, props.len(),
{
    if props.len() == 0 {
        Seq::empty()
    } else {
        props_names(props.drop_last()) + match props.last() {
            JsPatProp::Assign(k) => seq![k@],
            JsPatProp::KeyValue(_, v) => pat_names(v),
            JsPatProp::Rest(v) => pat_names(v),
        }
    }
}

fn append_names(names: &mut Vec<String>, more: Vec<String>)
    ensures
        str_views(final(names)@) == str_views(old(names)@) + str_views(more@),
{
    let mut more = more;
    let ghost a = str_views(names@);
    let ghost b = str_views(more@);
    names.append(&mut more);
    proof {
        assert(str_views(names@) =~= a + b);
    }
}

/// The names `pattern` binds.
pub fn collect_pat_names(pattern: &JsPat) -> (r: Vec<String>)
    ensures
        str_views(r@) == pat_names(*pattern),
    decreases pattern,
{
    match pattern {
        JsPat::Ident(n) => {
            let r = vec![n.clone()];
            proof {
                assert(str_views(r@) =~= seq![n@]);
            }
            r
        },
        JsPat::Array(items) => {
            let mut out: Vec<String> = Vec::new();
            let mut i: usize = 0;
            proof {
                assert(str_views(out@) =~= pats_names(items@.take(0)));
            }
            while i < items.len()
                invariant
                    *pattern == JsPat::Array(*items),
                    i <= items.len(),
                    str_views(out@) == pats_names(items@.take(i as int)),
                decreases items.len() - i,
            {
                proof {
                    assert(items@.take(i + 1).drop_last() =~= items@.take(i as int));
                    assert(items@.take(i + 1).last() == items@[i as int]);
                    assert((*pattern)->Array_0 == *items);
                    assert(decreases_to!(*pattern => (*pattern)->Array_0));
                }
                let more = collect_pat_names(&items[i]);
                append_names(&mut out, more);
                i = i + 1;
            }
            proof {
                assert(items@.take(items.len() as int) =~= items@);
            }
            out
        },
        JsPat::Object(props) => {
            let mut out: Vec<String> = Vec::new();
            let mut i: usize = 0;
            proof {
                assert(str_views(out@) =~= props_names(props@.take(0)));
            }
            while i < props.len()
                invariant
                    *pattern == JsPat::Object(*props),
                    i <= props.len(),
                    str_views(out@) == props_names(props@.take(i as int)),
                decreases props.len() - i,
            {
                proof {
                    assert(props@.take(i + 1).drop_last() =~= props@.take(i as int));
                    assert(props@.take(i + 1).last() == props@[i as int]);
                    assert((*pattern)->Object_0 == *props);
                    assert(decreases_to!(*pattern => (*pattern)->Object_0));
                }
                let more = match &props[i] {
                    JsPatProp::Assign(k) => {
                        let r = vec![k.clone()];
                        proof {
                            assert(str_views(r@) =~= seq![k@]);
                        }
                        r
                    },
                    JsPatProp::KeyValue(_, v) => {
                        proof {
                            assert(decreases_to!(props@[i as int] => props@[i as int]->KeyValue_1));
                        }
                        collect_pat_names(v)
                    },
                    JsPatProp::Rest(v) => {
                        proof {
                            assert(decreases_to!(props@[i as int] => props@[i as int]->Rest_0));
                        }
                        collect_pat_names(v)
                    },
                };
                append_names(&mut out, more);
                i = i + 1;
            }
            proof {
                assert(props@.take(props.len() as int) =~= props@);
            }
            out
        },
        JsPat::Rest(inner) => collect_pat_names(inner),
        JsPat::Assign(inner) => collect_pat_names(inner),
        JsPat::Other => {
            let r: Vec<String> = Vec::new();
            proof {
                assert(str_views(r@) =~= Seq::<Seq<char>>::empty());
            }
            r
        },
    }
}

// ---------------------------------------------------------------------------
// What the items contribute
// ---------------------------------------------------------------------------

pub type ExportView = (Seq<char>, Option<Seq<char>>, ExportKind);

/// A re-export as (source, target tag and name, exported name, ambiguity);
/// tags: 0 a name, 1 the default export, 2 a namespace, 3 everything.
pub type ReexportView = (Seq<char>, (u8, Seq<char>), Seq<char>, bool);

pub open spec fn reexport_target_view(t: ReexportTarget) -> (u8, Seq<char>) {
    match t {
        ReexportTarget::Name(n) => (0, n@),
        ReexportTarget::Default => (1, Seq::empty()),
        ReexportTarget::Namespace => (2, Seq::empty()),
        ReexportTarget::All => (3, Seq::empty()),
    }
}

pub open spec fn reexport_view(r: ReexportFact) -> ReexportView {
    (r.source@, reexport_target_view(r.imported), r.exported@, r.is_ambiguous)
}

pub open spec fn reexport_views(rs: Seq<ReexportFact>) -> Seq<ReexportView> {
    rs.map_values(|r: ReexportFact| reexport_view(r))
}

/// The facts so far: imports, exports, re-exports.
pub type FactsView = (Seq<ImportView>, Seq<ExportView>, Seq<ReexportView>);

pub open spec fn facts_view(f: ModuleFacts) -> FactsView {
    (import_views(f.imports@), export_views(f.exports@), reexport_views(f.reexports@))
}

/// The local a side-effect import at position `index` binds.
pub open spec fn side_effect_local(index: nat) -> Seq<char> {
    "side-effect:"@ + decimal(index)
}

pub open spec fn specifier_import(d: JsImportDecl, s: JsImportSpecifier) -> ImportView {
    match s {
        JsImportSpecifier::Named { local, imported, type_only } => (
            d.source@,
            local@,
            (0u8, match imported {
                Some(i) => i@,
                None => local@,
            }),
            ImportKind::Esm,
            d.type_only || type_only,
        ),
        JsImportSpecifier::Default { local } => (d.source@, local@, (1u8, Seq::empty()), ImportKind::Esm, d.type_only),
        JsImportSpecifier::Namespace { local } => (d.source@, local@, (2u8, Seq::empty()), ImportKind::Esm, d.type_only),
    }
}

/// An import declaration: one import per specifier, or, without
/// specifiers, a side-effect import of the whole module.
pub open spec fn import_decl_effect(st: FactsView, d: JsImportDecl) -> FactsView {
    if d.specifiers@.len() == 0 {
        (st.0.push((d.source@, side_effect_local(st.0.len()), (3u8, Seq::empty()), ImportKind::Esm, false)), st.1, st.2)
    } else {
        (st.0 + d.specifiers@.map_values(|s: JsImportSpecifier| specifier_import(d, s)), st.1, st.2)
    }
}

pub open spec fn local_exports(names: Seq<Seq<char>>) -> Seq<ExportView> {
    names.map_values(|n: Seq<char>| (n, Some(n), ExportKind::Local))
}

/// An export declaration exports what it declares under its own name.
pub open spec fn export_decl_effect(st: FactsView, d: JsDecl) -> FactsView {
    match d {
        JsDecl::Fn(n) => (st.0, st.1.push((n@, Some(n@), ExportKind::Local)), st.2),
        JsDecl::Class(n) => (st.0, st.1.push((n@, Some(n@), ExportKind::Local)), st.2),
        JsDecl::Var(pats) => (st.0, st.1 + local_exports(pats_names(pats@)), st.2),
        JsDecl::Other => st,
    }
}

pub open spec fn specifier_reexport(source: Seq<char>, s: JsExportSpecifier) -> ReexportView {
    match s {
        JsExportSpecifier::Named { orig, exported } => (
            source,
            if orig@ == "default"@ { (1u8, Seq::empty()) } else { (0u8, orig@) },
            match exported {
                Some(e) => e@,
                None => orig@,
            },
            false,
        ),
        JsExportSpecifier::Namespace { name } => (source, (2u8, Seq::empty()), name@, false),
        JsExportSpecifier::Default { exported } => (source, (1u8, Seq::empty()), exported@, false),
    }
}

/// The local exports of `export { a as b }` (named specifiers only).
pub open spec fn specifier_exports(specs: Seq<JsExportSpecifier>) -> Seq<ExportView>
    decreases specs.len(),
{
    if specs.len() == 0 {
        Seq::empty()
    } else {
        let rest = specifier_exports(specs.drop_last());
        match specs.last() {
            JsExportSpecifier::Named { orig, exported } => rest.push(
                (
                    match exported {
                        Some(e) => e@,
                        None => orig@,
                    },
                    Some(orig@),
                    ExportKind::Local,
                ),
            ),
            _ => rest,
        }
    }
}

/// `export { ... } from 'm'` re-exports; `export { ... }` exports locals.
pub open spec fn named_export_effect(st: FactsView, ne: JsNamedExport) -> FactsView {
    match ne.source {
        Some(src) => (st.0, st.1, st.2 + ne.specifiers@.map_values(|s: JsExportSpecifier| specifier_reexport(src@, s))),
        None => (st.0, st.1 + specifier_exports(ne.specifiers@), st.2),
    }
}

/// The CommonJS exports of an object literal's named properties.
pub open spec fn prop_exports(props: Seq<Option<String>>) -> Seq<ExportView>
    decreases props.len(),
{
    if props.len() == 0 {
        Seq::empty()
    } else {
        let rest = prop_exports(props.drop_last());
        match props.last() {
            Some(n) => rest.push((n@, Some(n@), ExportKind::CommonJs)),
            None => rest,
        }
    }
}

/// An assignment to `module.exports` exports the module value (and the
/// named properties of an assigned object literal); one to `exports.x` or
/// `module.exports.x` exports `x`.
pub open spec fn assign_effect(st: FactsView, path: Seq<Seq<char>>, props: Option<Vec<Option<String>>>) -> FactsView {
    if path == seq!["module"@, "exports"@] {
        let whole = st.1.push(("default"@, None, ExportKind::CommonJs));
        (st.0, whole + match props {
            Some(ps) => prop_exports(ps@),
            None => Seq::empty(),
        }, st.2)
    } else if path.len() == 2 && path[0] == "exports"@ {
        (st.0, st.1.push((path[1], Some(path[1]), ExportKind::CommonJs)), st.2)
    } else if path.len() == 3 && path[0] == "module"@ && path[1] == "exports"@ {
        (st.0, st.1.push((path[2], Some(path[2]), ExportKind::CommonJs)), st.2)
    } else {
        st
    }
}

/// What one top-level item contributes.
pub open spec fn item_effect(st: FactsView, item: JsItem) -> FactsView {
    match item {
        JsItem::Import(d) => import_decl_effect(st, d),
        JsItem::ExportDecl(d) => export_decl_effect(st, d),
        JsItem::NamedExport(ne) => named_export_effect(st, ne),
        JsItem::ExportDefault(local) => (st.0, st.1.push(("default"@, crate::collections::opt_str(local), ExportKind::Default)), st.2),
        JsItem::ExportAll(src) => (st.0, st.1, st.2.push((src@, (3u8, Seq::empty()), "*"@, true))),
        JsItem::ImportEquals { source, local, type_only } => (
            st.0.push((source@, local@, (1u8, Seq::empty()), ImportKind::CommonJs, type_only)),
            st.1,
            st.2,
        ),
        JsItem::Assign { path, object_props } => assign_effect(st, str_views(path@), object_props),
        JsItem::Other => st,
    }
}

pub open spec fn items_effect(items: Seq<JsItem>) -> FactsView
    decreases items.len(),
{
    if items.len() == 0 {
        (Seq::empty(), Seq::empty(), Seq::empty())
    } else {
        item_effect(items_effect(items.drop_last()), items.last())
    }
}

// ---------------------------------------------------------------------------
// Applying the items
// ---------------------------------------------------------------------------

/// The facts fields other than imports, exports and re-exports are as given.
pub open spec fn rest_same(a: ModuleFacts, b: ModuleFacts) -> bool {
    &&& a.file == b.file
    &&& a.used_locals == b.used_locals
    &&& a.jsx_locals == b.jsx_locals
    &&& a.namespace_member_usage == b.namespace_member_usage
    &&& a.jsx_namespace_member_usage == b.jsx_namespace_member_usage
    &&& a.warnings == b.warnings
}

pub(crate) fn push_import_fact(facts: &mut ModuleFacts, fact: ImportFact)
    ensures
        facts_view(*final(facts)) == (facts_view(*old(facts)).0.push(import_view(fact)), facts_view(*old(facts)).1, facts_view(*old(facts)).2),
        rest_same(*final(facts), *old(facts)),
{
    let ghost v = import_view(fact);
    let ghost before = import_views(facts.imports@);
    facts.imports.push(fact);
    proof {
        assert(import_views(facts.imports@) =~= before.push(v));
    }
}

pub(crate) fn push_export_fact(facts: &mut ModuleFacts, fact: ExportFact)
    ensures
        facts_view(*final(facts)) == (facts_view(*old(facts)).0, facts_view(*old(facts)).1.push(export_view(fact)), facts_view(*old(facts)).2),
        rest_same(*final(facts), *old(facts)),
{
    let ghost v = export_view(fact);
    let ghost before = export_views(facts.exports@);
    facts.exports.push(fact);
    proof {
        assert(export_views(facts.exports@) =~= before.push(v));
    }
}

pub(crate) fn push_reexport_fact(facts: &mut ModuleFacts, fact: ReexportFact)
    ensures
        facts_view(*final(facts)) == (facts_view(*old(facts)).0, facts_view(*old(facts)).1, facts_view(*old(facts)).2.push(reexport_view(fact))),
        rest_same(*final(facts), *old(facts)),
{
    let ghost v = reexport_view(fact);
    let ghost before = reexport_views(facts.reexports@);
    facts.reexports.push(fact);
    proof {
        assert(reexport_views(facts.reexports@) =~= before.push(v));
    }
}

fn opt_clone(o: &Option<String>) -> (r: Option<String>)
    ensures
        crate::collections::opt_str(r) == crate::collections::opt_str(*o),
{
    match o {
        Some(s) => Some(s.clone()),
        None => None,
    }
}

fn side_effect_import(source: String, kind: ImportKind, index: usize) -> (r: ImportFact)
    ensures
        import_view(r) == (source@, side_effect_local(index as nat), (3u8, Seq::<char>::empty()), kind, false),
{
    proof {
        reveal_strlit("side-effect:");
    }
    ImportFact { source, local: concat("side-effect:", usize_to_string(index).as_str()), imported: ImportTarget::SideEffect, kind, type_only: false }
}

fn collect_import_decl(import: &JsImportDecl, facts: &mut ModuleFacts)
    ensures
        facts_view(*final(facts)) == import_decl_effect(facts_view(*old(facts)), *import),
        rest_same(*final(facts), *old(facts)),
{
    if import.specifiers.len() == 0 {
        let n = facts.imports.len();
        push_import_fact(facts, side_effect_import(import.source.clone(), ImportKind::Esm, n));
        return;
    }
    let ghost st = facts_view(*facts);
    let ghost want = import.specifiers@.map_values(|s: JsImportSpecifier| specifier_import(*import, s));
    let mut k: usize = 0;
    proof {
        assert(facts_view(*facts) =~= (st.0 + want.take(0), st.1, st.2));
    }
    while k < import.specifiers.len()
        invariant
            k <= import.specifiers@.len(),
            want == import.specifiers@.map_values(|s: JsImportSpecifier| specifier_import(*import, s)),
            facts_view(*facts) == (st.0 + want.take(k as int), st.1, st.2),
            rest_same(*facts, *old(facts)),
        decreases import.specifiers.len() - k,
    {
        let fact = match &import.specifiers[k] {
            JsImportSpecifier::Named { local, imported, type_only } => {
                let name = match imported {
                    Some(i) => i.clone(),
                    None => local.clone(),
                };
                ImportFact { source: import.source.clone(), local: local.clone(), imported: ImportTarget::Name(name), kind: ImportKind::Esm, type_only: import.type_only || *type_only }
            },
            JsImportSpecifier::Default { local } => ImportFact {
                source: import.source.clone(),
                local: local.clone(),
                imported: ImportTarget::Default,
                kind: ImportKind::Esm,
                type_only: import.type_only,
            },
            JsImportSpecifier::Namespace { local } => ImportFact {
                source: import.source.clone(),
                local: local.clone(),
                imported: ImportTarget::Namespace,
                kind: ImportKind::Esm,
                type_only: import.type_only,
            },
        };
        proof {
            assert(import_view(fact) == want[k as int]);
        }
        push_import_fact(facts, fact);
        proof {
            assert(want.take(k + 1) =~= want.take(k as int).push(want[k as int]));
            assert(st.0 + want.take(k + 1) =~= (st.0 + want.take(k as int)).push(want[k as int]));
        }
        k = k + 1;
    }
    proof {
        assert(want.take(import.specifiers@.len() as int) =~= want);
    }
}

fn push_local_names(facts: &mut ModuleFacts, names: &Vec<String>)
    ensures
        facts_view(*final(facts)) == (facts_view(*old(facts)).0, facts_view(*old(facts)).1 + local_exports(str_views(names@)), facts_view(*old(facts)).2),
        rest_same(*final(facts), *old(facts)),
{
    let ghost st = facts_view(*facts);
    let ghost want = local_exports(str_views(names@));
    let mut k: usize = 0;
    proof {
        assert(facts_view(*facts) =~= (st.0, st.1 + want.take(0), st.2));
    }
    while k < names.len()
        invariant
            k <= names@.len(),
            want == local_exports(str_views(names@)),
            facts_view(*facts) == (st.0, st.1 + want.take(k as int), st.2),
            rest_same(*facts, *old(facts)),
        decreases names.len() - k,
    {
        let n = names[k].clone();
        push_export_fact(facts, ExportFact { exported: n.clone(), local: Some(n), kind: ExportKind::Local });
        proof {
            assert(want.take(k + 1) =~= want.take(k as int).push(want[k as int]));
            assert(st.1 + want.take(k + 1) =~= (st.1 + want.take(k as int)).push(want[k as int]));
        }
        k = k + 1;
    }
    proof {
        assert(want.take(names@.len() as int) =~= want);
    }
}

fn collect_export_decl(decl: &JsDecl, facts: &mut ModuleFacts)
    ensures
        facts_view(*final(facts)) == export_decl_effect(facts_view(*old(facts)), *decl),
        rest_same(*final(facts), *old(facts)),
{
    match decl {
        JsDecl::Fn(n) => push_export_fact(facts, ExportFact { exported: n.clone(), local: Some(n.clone()), kind: ExportKind::Local }),
        JsDecl::Class(n) => push_export_fact(facts, ExportFact { exported: n.clone(), local: Some(n.clone()), kind: ExportKind::Local }),
        JsDecl::Var(pats) => {
            let mut names: Vec<String> = Vec::new();
            let mut i: usize = 0;
            proof {
                assert(str_views(names@) =~= pats_names(pats@.take(0)));
            }
            while i < pats.len()
                invariant
                    i <= pats@.len(),
                    str_views(names@) == pats_names(pats@.take(i as int)),
                decreases pats.len() - i,
            {
                proof {
                    assert(pats@.take(i + 1).drop_last() =~= pats@.take(i as int));
                    assert(pats@.take(i + 1).last() == pats@[i as int]);
                }
                let more = collect_pat_names(&pats[i]);
                append_names(&mut names, more);
                i = i + 1;
            }
            proof {
                assert(pats@.take(pats@.len() as int) =~= pats@);
            }
            push_local_names(facts, &names);
        },
        JsDecl::Other => {},
    }
}

fn collect_named_export(named: &JsNamedExport, facts: &mut ModuleFacts)
    ensures
        facts_view(*final(facts)) == named_export_effect(facts_view(*old(facts)), *named),
        rest_same(*final(facts), *old(facts)),
{
    let ghost st = facts_view(*facts);
    match &named.source {
        Some(src) => {
            let ghost want = named.specifiers@.map_values(|s: JsExportSpecifier| specifier_reexport(src@, s));
            let mut k: usize = 0;
            proof {
                assert(facts_view(*facts) =~= (st.0, st.1, st.2 + want.take(0)));
            }
            while k < named.specifiers.len()
                invariant
                    k <= named.specifiers@.len(),
                    named.source == Some(*src),
                    want == named.specifiers@.map_values(|s: JsExportSpecifier| specifier_reexport(src@, s)),
                    facts_view(*facts) == (st.0, st.1, st.2 + want.take(k as int)),
                    rest_same(*facts, *old(facts)),
                decreases named.specifiers.len() - k,
            {
                let fact = match &named.specifiers[k] {
                    JsExportSpecifier::Named { orig, exported } => {
                        let out = match exported {
                            Some(e) => e.clone(),
                            None => orig.clone(),
                        };
                        proof {
                            reveal_strlit("default");
                        }
                        let target = if str_eq(orig.as_str(), "default") { ReexportTarget::Default } else { ReexportTarget::Name(orig.clone()) };
                        ReexportFact { source: src.clone(), imported: target, exported: out, is_ambiguous: false }
                    },
                    JsExportSpecifier::Namespace { name } => ReexportFact {
                        source: src.clone(),
                        imported: ReexportTarget::Namespace,
                        exported: name.clone(),
                        is_ambiguous: false,
                    },
                    JsExportSpecifier::Default { exported } => ReexportFact {
                        source: src.clone(),
                        imported: ReexportTarget::Default,
                        exported: exported.clone(),
                        is_ambiguous: false,
                    },
                };
                proof {
                    assert(reexport_view(fact) == want[k as int]);
                }
                push_reexport_fact(facts, fact);
                proof {
                    assert(want.take(k + 1) =~= want.take(k as int).push(want[k as int]));
                    assert(st.2 + want.take(k + 1) =~= (st.2 + want.take(k as int)).push(want[k as int]));
                }
                k = k + 1;
            }
            proof {
                assert(want.take(named.specifiers@.len() as int) =~= want);
            }
        },
        None => {
            let mut k: usize = 0;
            proof {
                assert(facts_view(*facts) =~= (st.0, st.1 + specifier_exports(named.specifiers@.take(0)), st.2));
            }
            while k < named.specifiers.len()
                invariant
                    k <= named.specifiers@.len(),
                    facts_view(*facts) == (st.0, st.1 + specifier_exports(named.specifiers@.take(k as int)), st.2),
                    rest_same(*facts, *old(facts)),
                decreases named.specifiers.len() - k,
            {
                proof {
                    assert(named.specifiers@.take(k + 1).drop_last() =~= named.specifiers@.take(k as int));
                    assert(named.specifiers@.take(k + 1).last() == named.specifiers@[k as int]);
                }
                match &named.specifiers[k] {
                    JsExportSpecifier::Named { orig, exported } => {
                        let out = match exported {
                            Some(e) => e.clone(),
                            None => orig.clone(),
                        };
                        push_export_fact(facts, ExportFact { exported: out, local: Some(orig.clone()), kind: ExportKind::Local });
                        proof {
                            assert(st.1 + specifier_exports(named.specifiers@.take(k + 1)) =~= (st.1 + specifier_exports(
                                named.specifiers@.take(k as int),
                            )).push(export_view(facts.exports@.last())));
                        }
                    },
                    _ => {},
                }
                k = k + 1;
            }
            proof {
                assert(named.specifiers@.take(named.specifiers@.len() as int) =~= named.specifiers@);
            }
        },
    }
}

fn collect_commonjs_export(path: &Vec<String>, object_props: &Option<Vec<Option<String>>>, facts: &mut ModuleFacts)
    ensures
        facts_view(*final(facts)) == assign_effect(facts_view(*old(facts)), str_views(path@), *object_props),
        rest_same(*final(facts), *old(facts)),
{
    let ghost pv = str_views(path@);
    proof {
        reveal_strlit("module");
        reveal_strlit("exports");
        reveal_strlit("default");
    }
    let n = path.len();
    proof {
        assert(pv.len() == n);
        if n >= 1 {
            assert(pv[0] == path@[0]@);
        }
        if n >= 2 {
            assert(pv[1] == path@[1]@);
        }
        if n >= 3 {
            assert(pv[2] == path@[2]@);
        }
    }
    if n == 2 && str_eq(path[0].as_str(), "module") && str_eq(path[1].as_str(), "exports") {
        proof {
            assert(pv =~= seq!["module"@, "exports"@]);
        }
        push_export_fact(facts, ExportFact { exported: owned("default"), local: None, kind: ExportKind::CommonJs });
        let ghost st = facts_view(*facts);
        match object_props {
            Some(props) => {
                let mut k: usize = 0;
                proof {
                    assert(facts_view(*facts) =~= (st.0, st.1 + prop_exports(props@.take(0)), st.2));
                }
                while k < props.len()
                    invariant
                        k <= props@.len(),
                        facts_view(*facts) == (st.0, st.1 + prop_exports(props@.take(k as int)), st.2),
                        rest_same(*facts, *old(facts)),
                    decreases props.len() - k,
                {
                    proof {
                        assert(props@.take(k + 1).drop_last() =~= props@.take(k as int));
                        assert(props@.take(k + 1).last() == props@[k as int]);
                    }
                    match &props[k] {
                        Some(name) => {
                            push_export_fact(facts, ExportFact { exported: name.clone(), local: Some(name.clone()), kind: ExportKind::CommonJs });
                            proof {
                                assert(st.1 + prop_exports(props@.take(k + 1)) =~= (st.1 + prop_exports(props@.take(k as int))).push(
                                    (name@, Some(name@), ExportKind::CommonJs),
                                ));
                            }
                        },
                        None => {},
                    }
                    k = k + 1;
                }
                proof {
                    assert(props@.take(props@.len() as int) =~= props@);
                }
            },
            None => {
                proof {
                    assert(facts_view(*facts) =~= (st.0, st.1 + Seq::<ExportView>::empty(), st.2));
                }
            },
        }
        return;
    }
    proof {
        if pv == seq!["module"@, "exports"@] {
            assert(pv.len() == 2);
            assert(pv[0] == "module"@ && pv[1] == "exports"@);
        }
        assert(pv != seq!["module"@, "exports"@]);
    }
    if n == 2 && str_eq(path[0].as_str(), "exports") {
        push_export_fact(facts, ExportFact { exported: path[1].clone(), local: Some(path[1].clone()), kind: ExportKind::CommonJs });
    } else if n == 3 && str_eq(path[0].as_str(), "module") && str_eq(path[1].as_str(), "exports") {
        push_export_fact(facts, ExportFact { exported: path[2].clone(), local: Some(path[2].clone()), kind: ExportKind::CommonJs });
    }
}

fn collect_item(item: &JsItem, facts: &mut ModuleFacts)
    ensures
        facts_view(*final(facts)) == item_effect(facts_view(*old(facts)), *item),
        rest_same(*final(facts), *old(facts)),
{
    match item {
        JsItem::Import(d) => collect_import_decl(d, facts),
        JsItem::ExportDecl(d) => collect_export_decl(d, facts),
        JsItem::NamedExport(ne) => collect_named_export(ne, facts),
        JsItem::ExportDefault(local) => {
            proof {
                reveal_strlit("default");
            }
            push_export_fact(facts, ExportFact { exported: owned("default"), local: opt_clone(local), kind: ExportKind::Default });
        },
        JsItem::ExportAll(src) => {
            proof {
                reveal_strlit("*");
            }
            push_reexport_fact(facts, ReexportFact { source: src.clone(), imported: ReexportTarget::All, exported: owned("*"), is_ambiguous: true });
        },
        JsItem::ImportEquals { source, local, type_only } => {
            push_import_fact(
                facts,
                ImportFact { source: source.clone(), local: local.clone(), imported: ImportTarget::Default, kind: ImportKind::CommonJs, type_only: *type_only },
            );
        },
        JsItem::Assign { path, object_props } => collect_commonjs_export(path, object_props, facts),
        JsItem::Other => {},
    }
}

// ---------------------------------------------------------------------------
// `require` calls
// ---------------------------------------------------------------------------

pub open spec fn cjs_import(source: Seq<char>, local: Seq<char>, target: (u8, Seq<char>)) -> ImportView {
    (source, local, target, ImportKind::CommonJs, false)
}

/// The imports of the properties of an object pattern bound to `require(source)`.
pub open spec fn binding_prop_imports(source: Seq<char>, props: Seq<JsPatProp>) -> Seq<ImportView>
    decreases props.len(),
{
    if props.len() == 0 {
        Seq::empty()
    } else {
        binding_prop_imports(source, props.drop_last()) + match props.last() {
            JsPatProp::Assign(k) => seq![cjs_import(source, k@, (0u8, k@))],
            JsPatProp::KeyValue(Some(key), v) => pat_names(v).map_values(|l: Seq<char>| cjs_import(source, l, (0u8, key@))),
            _ => Seq::empty(),
        }
    }
}

/// The imports a binding to `require(source)` makes: the whole module for a
/// plain name, each property for an object pattern, nothing otherwise.
pub open spec fn binding_imports(source: Seq<char>, pattern: JsPat) -> Seq<ImportView> {
    match pattern {
        JsPat::Ident(n) => seq![cjs_import(source, n@, (1u8, Seq::empty()))],
        JsPat::Object(props) => binding_prop_imports(source, props@),
        _ => Seq::empty(),
    }
}

/// The imports so far, the synthetic locals of value-position calls, and
/// the sources those calls named.
pub type RequireState = (Seq<ImportView>, Seq<Seq<char>>, Set<Seq<char>>);

pub open spec fn require_local(index: nat) -> Seq<char> {
    "require():"@ + decimal(index)
}

/// One more `require`: a binding imports what it binds; a bare statement
/// imports the module for its effects; any other call depends on the whole
/// module value, once per source, under a synthetic local.
pub open spec fn require_effect(st: RequireState, ev: JsRequireEvent) -> RequireState {
    match ev {
        JsRequireEvent::Binding { source, pattern } => (st.0 + binding_imports(source@, pattern), st.1, st.2),
        JsRequireEvent::Bare { source } => (
            st.0.push((source@, side_effect_local(st.0.len()), (3u8, Seq::empty()), ImportKind::CommonJs, false)),
            st.1,
            st.2,
        ),
        JsRequireEvent::Value { source } => if st.2.contains(source@) {
            st
        } else {
            let local = require_local(st.1.len());
            (st.0.push(cjs_import(source@, local, (2u8, Seq::empty()))), st.1.push(local), st.2.insert(source@))
        },
    }
}

pub open spec fn requires_effect(st: RequireState, events: Seq<JsRequireEvent>) -> RequireState
    decreases events.len(),
{
    if events.len() == 0 {
        st
    } else {
        require_effect(requires_effect(st, events.drop_last()), events.last())
    }
}

fn push_binding_imports(source: &String, pattern: &JsPat, facts: &mut ModuleFacts)
    ensures
        facts_view(*final(facts)) == (facts_view(*old(facts)).0 + binding_imports(source@, *pattern), facts_view(*old(facts)).1, facts_view(*old(facts)).2),
        rest_same(*final(facts), *old(facts)),
{
    let ghost st = facts_view(*facts);
    match pattern {
        JsPat::Ident(n) => {
            push_import_fact(
                facts,
                ImportFact { source: source.clone(), local: n.clone(), imported: ImportTarget::Default, kind: ImportKind::CommonJs, type_only: false },
            );
            proof {
                assert(st.0.push(cjs_import(source@, n@, (1u8, Seq::empty()))) =~= st.0 + binding_imports(source@, *pattern));
            }
        },
        JsPat::Object(props) => {
            let mut k: usize = 0;
            proof {
                assert(facts_view(*facts) =~= (st.0 + binding_prop_imports(source@, props@.take(0)), st.1, st.2));
            }
            while k < props.len()
                invariant
                    k <= props@.len(),
                    *pattern == JsPat::Object(*props),
                    facts_view(*facts) == (st.0 + binding_prop_imports(source@, props@.take(k as int)), st.1, st.2),
                    rest_same(*facts, *old(facts)),
                decreases props.len() - k,
            {
                let ghost before = facts_view(*facts).0;
                proof {
                    assert(props@.take(k + 1).drop_last() =~= props@.take(k as int));
                    assert(props@.take(k + 1).last() == props@[k as int]);
                }
                match &props[k] {
                    JsPatProp::Assign(key) => {
                        push_import_fact(
                            facts,
                            ImportFact {
                                source: source.clone(),
                                local: key.clone(),
                                imported: ImportTarget::Name(key.clone()),
                                kind: ImportKind::CommonJs,
                                type_only: false,
                            },
                        );
                        proof {
                            assert(st.0 + binding_prop_imports(source@, props@.take(k + 1)) =~= before.push(cjs_import(source@, key@, (0u8, key@))));
                        }
                    },
                    JsPatProp::KeyValue(Some(key), v) => {
                        let locals = collect_pat_names(v);
                        let ghost lv = str_views(locals@);
                        let ghost want = lv.map_values(|l: Seq<char>| cjs_import(source@, l, (0u8, key@)));
                        let mut q: usize = 0;
                        proof {
                            assert(facts_view(*facts).0 =~= before + want.take(0));
                        }
                        while q < locals.len()
                            invariant
                                q <= locals@.len(),
                                lv == str_views(locals@),
                                want == lv.map_values(|l: Seq<char>| cjs_import(source@, l, (0u8, key@))),
                                facts_view(*facts) == (before + want.take(q as int), st.1, st.2),
                                rest_same(*facts, *old(facts)),
                            decreases locals.len() - q,
                        {
                            push_import_fact(
                                facts,
                                ImportFact {
                                    source: source.clone(),
                                    local: locals[q].clone(),
                                    imported: ImportTarget::Name(key.clone()),
                                    kind: ImportKind::CommonJs,
                                    type_only: false,
                                },
                            );
                            proof {
                                assert(want.take(q + 1) =~= want.take(q as int).push(want[q as int]));
                                assert(before + want.take(q + 1) =~= (before + want.take(q as int)).push(want[q as int]));
                            }
                            q = q + 1;
                        }
                        proof {
                            assert(want.take(locals@.len() as int) =~= want);
                            assert(st.0 + binding_prop_imports(source@, props@.take(k + 1)) =~= before + want);
                        }
                    },
                    _ => {
                        proof {
                            assert(st.0 + binding_prop_imports(source@, props@.take(k + 1)) =~= before);
                        }
                    },
                }
                k = k + 1;
            }
            proof {
                assert(props@.take(props@.len() as int) =~= props@);
            }
        },
        _ => {
            proof {
                assert(st.0 + binding_imports(source@, *pattern) =~= st.0);
            }
        },
    }
}

fn collect_require_imports(events: &Vec<JsRequireEvent>, facts: &mut ModuleFacts) -> (r: Vec<String>)
    ensures
        ({
            let out = requires_effect((facts_view(*old(facts)).0, Seq::empty(), Set::empty()), events@);
            &&& facts_view(*final(facts)) == (out.0, facts_view(*old(facts)).1, facts_view(*old(facts)).2)
            &&& str_views(r@) == out.1
        }),
        rest_same(*final(facts), *old(facts)),
{
    let ghost st = facts_view(*facts);
    let ghost start: RequireState = (st.0, Seq::empty(), Set::empty());
    let mut synthetic: Vec<String> = Vec::new();
    let mut seen = StrSet::new();
    let mut k: usize = 0;
    proof {
        assert(seen.set() =~= Set::<Seq<char>>::empty());
        assert(str_views(synthetic@) =~= Seq::<Seq<char>>::empty());
        assert(events@.take(0) =~= Seq::<JsRequireEvent>::empty());
    }
    while k < events.len()
        invariant
            k <= events@.len(),
            seen.wf(),
            start == (st.0, Seq::<Seq<char>>::empty(), Set::<Seq<char>>::empty()),
            ({
                let cur = requires_effect(start, events@.take(k as int));
                &&& facts_view(*facts) == (cur.0, st.1, st.2)
                &&& str_views(synthetic@) == cur.1
                &&& seen.set() == cur.2
            }),
            rest_same(*facts, *old(facts)),
        decreases events.len() - k,
    {
        proof {
            assert(events@.take(k + 1).drop_last() =~= events@.take(k as int));
            assert(events@.take(k + 1).last() == events@[k as int]);
        }
        match &events[k] {
            JsRequireEvent::Binding { source, pattern } => {
                push_binding_imports(source, pattern, facts);
            },
            JsRequireEvent::Bare { source } => {
                let n = facts.imports.len();
                push_import_fact(facts, side_effect_import(source.clone(), ImportKind::CommonJs, n));
            },
            JsRequireEvent::Value { source } => {
                if !seen.contains(source.as_str()) {
                    seen.insert(source.clone());
                    proof {
                        reveal_strlit("require():");
                    }
                    let local = concat("require():", usize_to_string(synthetic.len()).as_str());
                    push_import_fact(
                        facts,
                        ImportFact { source: source.clone(), local: local.clone(), imported: ImportTarget::Namespace, kind: ImportKind::CommonJs, type_only: false },
                    );
                    let ghost sb = str_views(synthetic@);
                    synthetic.push(local);
                    proof {
                        assert(str_views(synthetic@) =~= sb.push(synthetic@.last()@));
                    }
                }
            },
        }
        k = k + 1;
    }
    proof {
        assert(events@.take(events@.len() as int) =~= events@);
    }
    synthetic
}

// ---------------------------------------------------------------------------
// Dynamic imports and mocks
// ---------------------------------------------------------------------------

pub open spec fn dynamic_local(index: nat) -> Seq<char> {
    "import():"@ + decimal(index)
}

/// The first `n` dynamic `import(...)` sources: each new source imports the
/// whole module under a synthetic local named by its position, marked used.
pub open spec fn dyn_fold(sources: Seq<Seq<char>>, n: nat) -> (Seq<ImportView>, Set<Seq<char>>, Set<Seq<char>>)
    decreases n,
{
    if n == 0 {
        (Seq::empty(), Set::empty(), Set::empty())
    } else {
        let st = dyn_fold(sources, (n - 1) as nat);
        let src = sources[n - 1];
        if st.2.contains(src) {
            st
        } else {
            let local = dynamic_local((n - 1) as nat);
            (st.0.push((src, local, (2u8, Seq::empty()), ImportKind::Dynamic, false)), st.1.insert(local), st.2.insert(src))
        }
    }
}

/// The first `n` mocked module sources: each new one imports the module for
/// its effects, tagged as a mock.
pub open spec fn mock_fold(sources: Seq<Seq<char>>, n: nat) -> (Seq<ImportView>, Set<Seq<char>>)
    decreases n,
{
    if n == 0 {
        (Seq::empty(), Set::empty())
    } else {
        let st = mock_fold(sources, (n - 1) as nat);
        let src = sources[n - 1];
        if st.1.contains(src) {
            st
        } else {
            (st.0.push((src, side_effect_local((n - 1) as nat), (3u8, Seq::empty()), ImportKind::Mock, false)), st.1.insert(src))
        }
    }
}

/// What a walk of the module body found: the imported bindings it uses, the
/// ones it renders as JSX components, and the members it reads of namespace
/// bindings (plainly and in JSX), each binding once.
pub struct JsUsage {
    pub used_locals: Vec<String>,
    pub jsx_locals: Vec<String>,
    pub namespace_member_usage: Vec<(String, Vec<String>)>,
    pub jsx_namespace_member_usage: Vec<(String, Vec<String>)>,
}

/// The map from binding to members that the pairs describe.
pub open spec fn usage_map(pairs: Seq<(String, Vec<String>)>) -> Map<Seq<char>, Set<Seq<char>>>
    decreases pairs.len(),
{
    if pairs.len() == 0 {
        Map::empty()
    } else {
        usage_map(pairs.drop_last()).insert(pairs.last().0@, str_views(pairs.last().1@).to_set())
    }
}

fn build_usage_map(pairs: &Vec<(String, Vec<String>)>) -> (r: StrMap<StrSet>)
    ensures
        set_map_wf(&r),
        set_map_view(&r) == usage_map(pairs@),
{
    let mut m: StrMap<StrSet> = StrMap::new();
    let mut k: usize = 0;
    proof {
        assert(set_map_view(&m) =~= usage_map(pairs@.take(0)));
    }
    while k < pairs.len()
        invariant
            k <= pairs@.len(),
            set_map_wf(&m),
            set_map_view(&m) == usage_map(pairs@.take(k as int)),
        decreases pairs.len() - k,
    {
        let ghost before = set_map_view(&m);
        let ghost old_m = m.as_map();
        let members = StrSet::from_vec(&pairs[k].1);
        m.set(pairs[k].0.clone(), members);
        proof {
            assert(pairs@.take(k + 1).drop_last() =~= pairs@.take(k as int));
            assert(pairs@.take(k + 1).last() == pairs@[k as int]);
            assert forall|key: Seq<char>| #[trigger] m.as_map().contains_key(key) implies m.as_map()[key].wf() by {
                if key != pairs@[k as int].0@ {
                    assert(old_m.contains_key(key));
                }
            }
            assert(set_map_view(&m) =~= before.insert(pairs@[k as int].0@, str_views(pairs@[k as int].1@).to_set()));
        }
        k = k + 1;
    }
    proof {
        assert(pairs@.take(pairs@.len() as int) =~= pairs@);
    }
    m
}

/// The facts of a JavaScript module, from its top-level items, its
/// `require` calls in walk order, what its body uses, and its dynamic
/// `import()` and mocked sources in walk order.
pub open spec fn js_facts_ok(
    r: ModuleFacts,
    path: Seq<char>,
    items: Seq<JsItem>,
    events: Seq<JsRequireEvent>,
    usage: JsUsage,
    dynamic: Seq<Seq<char>>,
    mocks: Seq<Seq<char>>,
) -> bool {
    let it = items_effect(items);
    let rq = requires_effect((it.0, Seq::empty(), Set::empty()), events);
    let dy = dyn_fold(dynamic, dynamic.len());
    let mk = mock_fold(mocks, mocks.len());
    &&& r.wf()
    &&& r.file@ == path
    &&& facts_view(r) == (rq.0 + dy.0 + mk.0, it.1, it.2)
    &&& r.used_locals.set() == str_views(usage.used_locals@).to_set().union(rq.1.to_set()).union(dy.1)
    &&& r.jsx_locals.set() == str_views(usage.jsx_locals@).to_set()
    &&& set_map_view(&r.namespace_member_usage) == usage_map(usage.namespace_member_usage@)
    &&& set_map_view(&r.jsx_namespace_member_usage) == usage_map(usage.jsx_namespace_member_usage@)
    &&& r.warnings@.len() == 0
}

fn push_dynamic_imports(sources: &Vec<String>, facts: &mut ModuleFacts)
    requires
        old(facts).used_locals.wf(),
    ensures
        final(facts).used_locals.wf(),
        facts_view(*final(facts)) == (
            facts_view(*old(facts)).0 + dyn_fold(str_views(sources@), sources@.len()).0,
            facts_view(*old(facts)).1,
            facts_view(*old(facts)).2,
        ),
        final(facts).used_locals.set() == old(facts).used_locals.set().union(dyn_fold(str_views(sources@), sources@.len()).1),
        final(facts).file == old(facts).file,
        final(facts).jsx_locals == old(facts).jsx_locals,
        final(facts).namespace_member_usage == old(facts).namespace_member_usage,
        final(facts).jsx_namespace_member_usage == old(facts).jsx_namespace_member_usage,
        final(facts).warnings == old(facts).warnings,
{
    let ghost sv = str_views(sources@);
    let ghost st = facts_view(*facts);
    let ghost used0 = facts.used_locals.set();
    let mut seen = StrSet::new();
    let mut i: usize = 0;
    proof {
        assert(seen.set() =~= Set::<Seq<char>>::empty());
        assert(facts_view(*facts) =~= (st.0 + dyn_fold(sv, 0).0, st.1, st.2));
        assert(facts.used_locals.set() =~= used0.union(dyn_fold(sv, 0).1));
    }
    while i < sources.len()
        invariant
            i <= sources@.len(),
            sv == str_views(sources@),
            seen.wf(),
            facts.used_locals.wf(),
            seen.set() == dyn_fold(sv, i as nat).2,
            facts_view(*facts) == (st.0 + dyn_fold(sv, i as nat).0, st.1, st.2),
            facts.used_locals.set() == used0.union(dyn_fold(sv, i as nat).1),
            facts.file == old(facts).file,
            facts.jsx_locals == old(facts).jsx_locals,
            facts.namespace_member_usage == old(facts).namespace_member_usage,
            facts.jsx_namespace_member_usage == old(facts).jsx_namespace_member_usage,
            facts.warnings == old(facts).warnings,
        decreases sources.len() - i,
    {
        let src = &sources[i];
        proof {
            assert(sv[i as int] == src@);
        }
        if !seen.contains(src.as_str()) {
            seen.insert(src.clone());
            proof {
                reveal_strlit("import():");
            }
            let local = concat("import():", usize_to_string(i).as_str());
            let ghost before = facts_view(*facts);
            let ghost vl = local@;
            push_import_fact(
                facts,
                ImportFact { source: src.clone(), local: local.clone(), imported: ImportTarget::Namespace, kind: ImportKind::Dynamic, type_only: false },
            );
            facts.used_locals.insert(local);
            proof {
                assert(st.0 + dyn_fold(sv, (i + 1) as nat).0 =~= (st.0 + dyn_fold(sv, i as nat).0).push(
                    (src@, vl, (2u8, Seq::<char>::empty()), ImportKind::Dynamic, false),
                ));
                assert(facts.used_locals.set() =~= used0.union(dyn_fold(sv, (i + 1) as nat).1));
            }
        }
        i = i + 1;
    }
}

fn push_mock_imports(sources: &Vec<String>, facts: &mut ModuleFacts)
    ensures
        facts_view(*final(facts)) == (
            facts_view(*old(facts)).0 + mock_fold(str_views(sources@), sources@.len()).0,
            facts_view(*old(facts)).1,
            facts_view(*old(facts)).2,
        ),
        rest_same(*final(facts), *old(facts)),
{
    let ghost sv = str_views(sources@);
    let ghost st = facts_view(*facts);
    let mut seen = StrSet::new();
    let mut i: usize = 0;
    proof {
        assert(seen.set() =~= Set::<Seq<char>>::empty());
        assert(facts_view(*facts) =~= (st.0 + mock_fold(sv, 0).0, st.1, st.2));
    }
    while i < sources.len()
        invariant
            i <= sources@.len(),
            sv == str_views(sources@),
            seen.wf(),
            seen.set() == mock_fold(sv, i as nat).1,
            facts_view(*facts) == (st.0 + mock_fold(sv, i as nat).0, st.1, st.2),
            rest_same(*facts, *old(facts)),
        decreases sources.len() - i,
    {
        let src = &sources[i];
        proof {
            assert(sv[i as int] == src@);
        }
        if !seen.contains(src.as_str()) {
            seen.insert(src.clone());
            let fact = side_effect_import(src.clone(), ImportKind::Mock, i);
            let ghost v = import_view(fact);
            push_import_fact(facts, fact);
            proof {
                assert(st.0 + mock_fold(sv, (i + 1) as nat).0 =~= (st.0 + mock_fold(sv, i as nat).0).push(v));
            }
        }
        i = i + 1;
    }
}

/// The facts of the imports, exports and re-exports the items and `require`
/// calls of a module make, before its body's usage is known.
pub fn js_declared_facts(path: &str, items: &Vec<JsItem>, calls: &Vec<JsRequireEvent>) -> (r: (ModuleFacts, Vec<String>))
    ensures
        ({
            let it = items_effect(items@);
            let rq = requires_effect((it.0, Seq::empty(), Set::empty()), calls@);
            &&& r.0.wf()
            &&& r.0.file@ == path@
            &&& facts_view(r.0) == (rq.0, it.1, it.2)
            &&& str_views(r.1@) == rq.1
            &&& r.0.used_locals@.len() == 0
            &&& r.0.jsx_locals@.len() == 0
            &&& r.0.namespace_member_usage.keys().len() == 0
            &&& r.0.jsx_namespace_member_usage.keys().len() == 0
            &&& r.0.warnings@.len() == 0
        }),
{
    let mut facts = ModuleFacts::empty(owned(path));
    let ghost f0 = facts;
    let mut k: usize = 0;
    proof {
        assert(facts_view(facts) =~= items_effect(items@.take(0)));
    }
    while k < items.len()
        invariant
            k <= items@.len(),
            facts_view(facts) == items_effect(items@.take(k as int)),
            rest_same(facts, f0),
        decreases items.len() - k,
    {
        collect_item(&items[k], &mut facts);
        proof {
            assert(items@.take(k + 1).drop_last() =~= items@.take(k as int));
            assert(items@.take(k + 1).last() == items@[k as int]);
        }
        k = k + 1;
    }
    proof {
        assert(items@.take(items@.len() as int) =~= items@);
    }
    let synthetic = collect_require_imports(calls, &mut facts);
    (facts, synthetic)
}

/// The imported bindings of `facts`, and those bound to a namespace: what a
/// walk of the module body looks for.
pub fn usage_targets(facts: &ModuleFacts) -> (r: (StrSet, StrSet))
    ensures
        r.0.wf(),
        r.1.wf(),
        r.0.set() == Set::new(|l: Seq<char>| exists|k: int| 0 <= k < facts.imports@.len() && (#[trigger] facts.imports@[k]).local@ == l),
        r.1.set() == Set::new(
            |l: Seq<char>| exists|k: int| 0 <= k < facts.imports@.len() && (#[trigger] facts.imports@[k]).local@ == l && facts.imports@[k].imported is Namespace,
        ),
{
    let mut all = StrSet::new();
    let mut ns = StrSet::new();
    let mut k: usize = 0;
    proof {
        assert(all.set() =~= Set::new(|l: Seq<char>| exists|x: int| 0 <= x < 0 && (#[trigger] facts.imports@[x]).local@ == l));
        assert(ns.set() =~= Set::new(
            |l: Seq<char>| exists|x: int| 0 <= x < 0 && (#[trigger] facts.imports@[x]).local@ == l && facts.imports@[x].imported is Namespace,
        ));
    }
    while k < facts.imports.len()
        invariant
            k <= facts.imports@.len(),
            all.wf(),
            ns.wf(),
            all.set() == Set::new(|l: Seq<char>| exists|x: int| 0 <= x < k && (#[trigger] facts.imports@[x]).local@ == l),
            ns.set() == Set::new(
                |l: Seq<char>| exists|x: int| 0 <= x < k && (#[trigger] facts.imports@[x]).local@ == l && facts.imports@[x].imported is Namespace,
            ),
        decreases facts.imports.len() - k,
    {
        let ghost a0 = all.set();
        let ghost n0 = ns.set();
        let imp = &facts.imports[k];
        all.insert(imp.local.clone());
        let is_ns = match imp.imported {
            ImportTarget::Namespace => true,
            _ => false,
        };
        if is_ns {
            ns.insert(imp.local.clone());
        }
        proof {
            assert(all.set() =~= Set::new(|l: Seq<char>| exists|x: int| 0 <= x < k + 1 && (#[trigger] facts.imports@[x]).local@ == l)) by {
                assert forall|l: Seq<char>| #[trigger] all.set().contains(l) implies exists|x: int| 0 <= x < k + 1 && (#[trigger] facts.imports@[x]).local@ == l by {
                    if !a0.contains(l) {
                        assert(facts.imports@[k as int].local@ == l);
                    }
                }
                assert forall|l: Seq<char>| (exists|x: int| 0 <= x < k + 1 && (#[trigger] facts.imports@[x]).local@ == l) implies #[trigger] all.set().contains(l) by {
                    let x = choose|x: int| 0 <= x < k + 1 && (#[trigger] facts.imports@[x]).local@ == l;
                    if x < k {
                        assert(a0.contains(l));
                    }
                }
            }
            assert(ns.set() =~= Set::new(
                |l: Seq<char>| exists|x: int| 0 <= x < k + 1 && (#[trigger] facts.imports@[x]).local@ == l && facts.imports@[x].imported is Namespace,
            )) by {
                assert forall|l: Seq<char>| #[trigger] ns.set().contains(l) implies exists|x: int|
                    0 <= x < k + 1 && (#[trigger] facts.imports@[x]).local@ == l && facts.imports@[x].imported is Namespace by {
                    if !n0.contains(l) {
                        assert(facts.imports@[k as int].local@ == l);
                    }
                }
                assert forall|l: Seq<char>| (exists|x: int|
                    0 <= x < k + 1 && (#[trigger] facts.imports@[x]).local@ == l && facts.imports@[x].imported is Namespace) implies #[trigger] ns.set().contains(
                    l,
                ) by {
                    let x = choose|x: int| 0 <= x < k + 1 && (#[trigger] facts.imports@[x]).local@ == l && facts.imports@[x].imported is Namespace;
                    if x < k {
                        assert(n0.contains(l));
                    }
                }
            }
        }
        k = k + 1;
    }
    (all, ns)
}

/// The facts of the JavaScript module `path`.
pub fn module_facts_from_javascript_module(
    path: &str,
    items: &Vec<JsItem>,
    calls: &Vec<JsRequireEvent>,
    usage: JsUsage,
    dynamic: &Vec<String>,
    mocks: &Vec<String>,
) -> (r: Result<ModuleFacts, String>)
    ensures
        r matches Ok(f) && js_facts_ok(f, path@, items@, calls@, usage, str_views(dynamic@), str_views(mocks@)),
{
    let (mut facts, synthetic) = js_declared_facts(path, items, calls);
    let ghost it = items_effect(items@);
    let ghost rq = requires_effect((it.0, Seq::empty(), Set::empty()), calls@);
    let mut used = StrSet::from_vec(&usage.used_locals);
    used.extend(&StrSet::from_vec(&synthetic));
    facts.used_locals = used;
    facts.jsx_locals = StrSet::from_vec(&usage.jsx_locals);
    facts.namespace_member_usage = build_usage_map(&usage.namespace_member_usage);
    facts.jsx_namespace_member_usage = build_usage_map(&usage.jsx_namespace_member_usage);
    let ghost used1 = facts.used_locals.set();
    proof {
        assert(used1 == str_views(usage.used_locals@).to_set().union(rq.1.to_set()));
    }
    push_dynamic_imports(dynamic, &mut facts);
    push_mock_imports(mocks, &mut facts);
    proof {
        assert(facts.wf());
    }
    Ok(facts)
}

/// The grammar a script is parsed with.
#[derive(Clone, Copy, Debug, PartialEq, Eq, Structural)]
pub enum ScriptSyntax {
    /// TypeScript without JSX (`.ts`, `.mts`, `.cts`).
    TypeScript,
    /// TypeScript with JSX (`.tsx`).
    Tsx,
    /// JavaScript with JSX, decorators and `export v from` (everything else).
    EcmaScript,
}

pub open spec fn syntax_spec(ext: Option<Seq<char>>) -> ScriptSyntax {
    match ext {
        Some(e) => if e == "ts"@ || e == "mts"@ || e == "cts"@ {
            ScriptSyntax::TypeScript
        } else if e == "tsx"@ {
            ScriptSyntax::Tsx
        } else {
            ScriptSyntax::EcmaScript
        },
        None => ScriptSyntax::EcmaScript,
    }
}

/// The grammar for the script at `path`, by its extension.
pub fn syntax_for_path(path: &str) -> (r: ScriptSyntax)
    ensures
        r == syntax_spec(crate::paths::extension_spec(path@)),
{
    match crate::paths::extension(path) {
        Some(e) => {
            if str_eq(e.as_str(), "ts") || str_eq(e.as_str(), "mts") || str_eq(e.as_str(), "cts") {
                ScriptSyntax::TypeScript
            } else if str_eq(e.as_str(), "tsx") {
                ScriptSyntax::Tsx
            } else {
                ScriptSyntax::EcmaScript
            }
        },
        None => ScriptSyntax::EcmaScript,
    }
}

/// A call `object.method(..)` mocks a module when a test runner (`vi`,
/// `jest`) mocks it (`mock`, `doMock`).
pub open spec fn mock_call_spec(object: Seq<char>, method: Seq<char>) -> bool {
    (object == "vi"@ || object == "jest"@) && (method == "mock"@ || method == "doMock"@)
}

/// Whether `object.method(..)` is a test runner's mock of a module.
pub fn is_mock_call(object: &str, method: &str) -> (r: bool)
    ensures
        r == mock_call_spec(object@, method@),
{
    (str_eq(object, "vi") || str_eq(object, "jest")) && (str_eq(method, "mock") || str_eq(method, "doMock"))
}

/// A call of the plain identifier `callee` with `arg_count` arguments is a
/// CommonJS `require` when it calls `require` with exactly one argument.
pub open spec fn require_call_spec(callee: Seq<char>, arg_count: nat) -> bool {
    callee == "require"@ && arg_count == 1
}

/// Whether a call of `callee` with `arg_count` arguments is a `require`.
pub fn is_require_call(callee: &str, arg_count: usize) -> (r: bool)
    ensures
        r == require_call_spec(callee@, arg_count as nat),
{
    str_eq(callee, "require") && arg_count == 1
}

/// What a walk of a module's body has seen of its imported bindings: which
/// it reads, which it renders as JSX elements, and which members of a
/// binding (or namespace import) it reads, in JSX or anywhere.
pub struct UsageTracker {
    imported: StrSet,
    namespaces: StrSet,
    used: StrSet,
    jsx: StrSet,
    members: StrMap<StrSet>,
    jsx_members: StrMap<StrSet>,
}

impl UsageTracker {
    pub closed spec fn wf(&self) -> bool {
        &&& self.imported.wf()
        &&& self.namespaces.wf()
        &&& self.used.wf()
        &&& self.jsx.wf()
        &&& set_map_wf(&self.members)
        &&& set_map_wf(&self.jsx_members)
    }

    pub closed spec fn imported_set(&self) -> Set<Seq<char>> {
        self.imported.set()
    }

    pub closed spec fn namespace_set(&self) -> Set<Seq<char>> {
        self.namespaces.set()
    }

    /// The imported bindings read so far.
    pub closed spec fn used_set(&self) -> Set<Seq<char>> {
        self.used.set()
    }

    /// The imported bindings rendered as JSX elements so far.
    pub closed spec fn jsx_set(&self) -> Set<Seq<char>> {
        self.jsx.set()
    }

    /// The members read of each binding so far.
    pub closed spec fn member_view(&self) -> Map<Seq<char>, Set<Seq<char>>> {
        set_map_view(&self.members)
    }

    /// The members rendered as JSX elements of each binding so far.
    pub closed spec fn jsx_member_view(&self) -> Map<Seq<char>, Set<Seq<char>>> {
        set_map_view(&self.jsx_members)
    }

    /// A tracker for a body whose imported bindings are `imported` and whose
    /// namespace imports are `namespaces`, having seen nothing yet.
    pub fn new(imported: StrSet, namespaces: StrSet) -> (r: UsageTracker)
        requires
            imported.wf(),
            namespaces.wf(),
        ensures
            r.wf(),
            r.imported_set() == imported.set(),
            r.namespace_set() == namespaces.set(),
            r.used_set() == Set::<Seq<char>>::empty(),
            r.jsx_set() == Set::<Seq<char>>::empty(),
            r.member_view() == Map::<Seq<char>, Set<Seq<char>>>::empty(),
            r.jsx_member_view() == Map::<Seq<char>, Set<Seq<char>>>::empty(),
    {
        let r = UsageTracker {
            imported,
            namespaces,
            used: StrSet::new(),
            jsx: StrSet::new(),
            members: StrMap::new(),
            jsx_members: StrMap::new(),
        };
        proof {
            assert(r.used.set() =~= Set::<Seq<char>>::empty());
            assert(r.jsx.set() =~= Set::<Seq<char>>::empty());
            assert(set_map_view(&r.members) =~= Map::<Seq<char>, Set<Seq<char>>>::empty());
            assert(set_map_view(&r.jsx_members) =~= Map::<Seq<char>, Set<Seq<char>>>::empty());
        }
        r
    }

    /// An identifier `name` read in the body: an imported binding is used.
    pub fn mark_ident(&mut self, name: &str)
        requires
            old(self).wf(),
        ensures
            final(self).wf(),
            final(self).imported_set() == old(self).imported_set(),
            final(self).namespace_set() == old(self).namespace_set(),
            final(self).used_set() == (if old(self).imported_set().contains(name@) {
                old(self).used_set().insert(name@)
            } else {
                old(self).used_set()
            }),
            final(self).jsx_set() == old(self).jsx_set(),
            final(self).member_view() == old(self).member_view(),
            final(self).jsx_member_view() == old(self).jsx_member_view(),
    {
        if self.imported.contains(name) {
            self.used.insert(owned(name));
        }
    }

    /// A JSX element named by the plain identifier `name`: an imported
    /// binding is used, and used as a component.
    pub fn mark_jsx_ident(&mut self, name: &str)
        requires
            old(self).wf(),
        ensures
            final(self).wf(),
            final(self).imported_set() == old(self).imported_set(),
            final(self).namespace_set() == old(self).namespace_set(),
            final(self).used_set() == (if old(self).imported_set().contains(name@) {
                old(self).used_set().insert(name@)
            } else {
                old(self).used_set()
            }),
            final(self).jsx_set() == (if old(self).imported_set().contains(name@) {
                old(self).jsx_set().insert(name@)
            } else {
                old(self).jsx_set()
            }),
            final(self).member_view() == old(self).member_view(),
            final(self).jsx_member_view() == old(self).jsx_member_view(),
    {
        if self.imported.contains(name) {
            self.used.insert(owned(name));
            self.jsx.insert(owned(name));
        }
    }

    /// A JSX element named `object.prop`: when `object` is an imported
    /// binding or a namespace import, the member is read and rendered (and
    /// an imported binding is used).
    pub fn mark_jsx_member(&mut self, object: &str, prop: &str)
        requires
            old(self).wf(),
        ensures
            final(self).wf(),
            final(self).imported_set() == old(self).imported_set(),
            final(self).namespace_set() == old(self).namespace_set(),
            final(self).used_set() == (if old(self).imported_set().contains(object@) {
                old(self).used_set().insert(object@)
            } else {
                old(self).used_set()
            }),
            final(self).jsx_set() == old(self).jsx_set(),
            final(self).member_view() == (if old(self).imported_set().contains(object@) || old(self).namespace_set().contains(object@) {
                old(self).member_view().insert(object@, set_at(old(self).member_view(), object@).insert(prop@))
            } else {
                old(self).member_view()
            }),
            final(self).jsx_member_view() == (if old(self).imported_set().contains(object@) || old(self).namespace_set().contains(
                object@,
            ) {
                old(self).jsx_member_view().insert(object@, set_at(old(self).jsx_member_view(), object@).insert(prop@))
            } else {
                old(self).jsx_member_view()
            }),
    {
        let imported = self.imported.contains(object);
        if imported || self.namespaces.contains(object) {
            if imported {
                self.used.insert(owned(object));
            }
            add_to_set_map(&mut self.members, owned(object), owned(prop));
            add_to_set_map(&mut self.jsx_members, owned(object), owned(prop));
        }
    }

    /// A member read `object.prop` in the body: when `object` is an
    /// imported binding or a namespace import, the member is read.
    pub fn mark_member(&mut self, object: &str, prop: &str)
        requires
            old(self).wf(),
        ensures
            final(self).wf(),
            final(self).imported_set() == old(self).imported_set(),
            final(self).namespace_set() == old(self).namespace_set(),
            final(self).used_set() == old(self).used_set(),
            final(self).jsx_set() == old(self).jsx_set(),
            final(self).member_view() == (if old(self).imported_set().contains(object@) || old(self).namespace_set().contains(object@) {
                old(self).member_view().insert(object@, set_at(old(self).member_view(), object@).insert(prop@))
            } else {
                old(self).member_view()
            }),
            final(self).jsx_member_view() == old(self).jsx_member_view(),
    {
        if self.imported.contains(object) || self.namespaces.contains(object) {
            add_to_set_map(&mut self.members, owned(object), owned(prop));
        }
    }

    /// The imported bindings read, in ascending order.
    pub fn used(&self) -> (r: &StrSet)
        ensures
            r.set() == self.used_set(),
    {
        &self.used
    }

    /// The imported bindings rendered as JSX elements, in ascending order.
    pub fn jsx(&self) -> (r: &StrSet)
        ensures
            r.set() == self.jsx_set(),
    {
        &self.jsx
    }

    /// The members read of each binding.
    pub fn members(&self) -> (r: &StrMap<StrSet>)
        ensures
            set_map_view(r) == self.member_view(),
    {
        &self.members
    }

    /// The members rendered as JSX elements of each binding.
    pub fn jsx_members(&self) -> (r: &StrMap<StrSet>)
        ensures
            set_map_view(r) == self.jsx_member_view(),
    {
        &self.jsx_members
    }
}

} // verus!
