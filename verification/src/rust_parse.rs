//! The facts of a Rust source file from its items: the public items it
//! exports, the `use` declarations it imports or re-exports through, and the
//! out-of-line modules it declares.
use vstd::prelude::*;

use crate::facts::{ExportFact, ExportKind, ImportFact, ImportKind, ImportTarget, ModuleFacts, ReexportFact, ReexportTarget};
use crate::java_parse::{use_import_locals, ImportView};
use crate::js_facts::{facts_view, push_export_fact, push_import_fact, push_reexport_fact, rest_same, FactsView};
use crate::text::{concat, join, join_strings, owned, str_eq};

use syn::{Item, ItemMod, ItemUse, UseTree, Visibility};

verus! {

/// A `use` tree.
pub enum RsUseTree {
    /// `segment::tree`.
    Path(String, Box<RsUseTree>),
    /// `name`.
    Name(String),
    /// `name as rename`.
    Rename(String, String),
    /// `*`.
    Glob,
    /// `{ a, b::c }`.
    Group(Vec<RsUseTree>),
}

/// An item, as far as the facts read it.
pub enum RsItem {
    /// A `fn`, `struct`, `enum`, `trait`, `type`, `const` or `static`.
    Named { public: bool, name: String },
    /// A `mod`, with a body (`inline`) or in a file of its own.
    Mod { public: bool, name: String, inline: bool },
    /// A `use` declaration.
    Use { public: bool, tree: RsUseTree },
    Other,
}

/// One imported or re-exported path of a `use` tree: its source path, what
/// it names, the name it is exported under, its local binding, and whether
/// it is a glob.
pub type UseEntry = (Seq<char>, (u8, Seq<char>), Seq<char>, Seq<char>, bool);

pub open spec fn path_sep() -> Seq<char> {
    seq![':', ':']
}

pub open spec fn is_module_keyword(s: Seq<char>) -> bool {
    s == seq!['c', 'r', 'a', 't', 'e'] || s == seq!['s', 'e', 'l', 'f'] || s == seq!['s', 'u', 'p', 'e', 'r']
}

/// A name right after `crate`, `self` or `super` (or alone) is a module.
pub open spec fn names_module(prefix: Seq<Seq<char>>) -> bool {
    prefix.len() == 0 || is_module_keyword(prefix.last())
}

pub open spec fn use_entry(prefix: Seq<Seq<char>>, imported: Seq<char>, local: Seq<char>) -> UseEntry {
    if names_module(prefix) {
        (join(prefix.push(imported), path_sep()), (2u8, Seq::empty()), local, local, false)
    } else {
        (join(prefix, path_sep()), (0u8, imported), local, local, false)
    }
}

pub open spec fn use_entries(prefix: Seq<Seq<char>>, t: RsUseTree) -> Seq<UseEntry>
    decreases t, 0nat,
{
    match t {
        RsUseTree::Path(seg, inner) => use_entries(prefix.push(seg@), *inner),
        RsUseTree::Name(n) => seq![use_entry(prefix, n@, n@)],
        RsUseTree::Rename(n, r) => seq![use_entry(prefix, n@, r@)],
        RsUseTree::Glob => seq![(join(prefix, path_sep()), (3u8, Seq::empty()), seq!['*'], seq!['*'], true)],
        RsUseTree::Group(items) => group_entries(prefix, items@),
    }
}

pub open spec fn group_entries(prefix: Seq<Seq<char>>, items: Seq<RsUseTree>) -> Seq<UseEntry>
    decreases items, items.len(),
{
    if items.len() == 0 {
        Seq::empty()
    } else {
        group_entries(prefix, items.drop_last()) + use_entries(prefix, items.last())
    }
}

/// A private `use` imports each entry; a public one re-exports it.
pub open spec fn use_effect(v: FactsView, public: bool, entries: Seq<UseEntry>) -> FactsView
    decreases entries.len(),
{
    if entries.len() == 0 {
        v
    } else {
        let r = use_effect(v, public, entries.drop_last());
        let e = entries.last();
        if public {
            (r.0, r.1, r.2.push((e.0, e.1, e.2, e.4)))
        } else {
            let target = if e.1.0 == 0 || e.1.0 == 1 { e.1 } else { (2u8, Seq::empty()) };
            (r.0.push((e.0, e.3, target, ImportKind::Esm, false)), r.1, r.2)
        }
    }
}

pub open spec fn rs_export(v: FactsView, public: bool, name: Seq<char>) -> FactsView {
    if public {
        (v.0, v.1.push((name, Some(name), ExportKind::Local)), v.2)
    } else {
        v
    }
}

pub open spec fn rs_item(v: FactsView, item: RsItem) -> FactsView {
    match item {
        RsItem::Named { public, name } => rs_export(v, public, name@),
        RsItem::Mod { public, name, inline } => {
            let e = rs_export(v, public, name@);
            if inline {
                e
            } else {
                (e.0.push(("mod:"@ + name@, name@, (2u8, Seq::empty()), ImportKind::Esm, false)), e.1, e.2)
            }
        },
        RsItem::Use { public, tree } => use_effect(v, public, use_entries(Seq::empty(), tree)),
        RsItem::Other => v,
    }
}

pub open spec fn rs_items(v: FactsView, items: Seq<RsItem>) -> FactsView
    decreases items.len(),
{
    if items.len() == 0 {
        v
    } else {
        rs_item(rs_items(v, items.drop_last()), items.last())
    }
}

/// An entry of a `use` tree.
pub struct RsUseEntry {
    pub source: String,
    pub imported: ReexportTarget,
    pub exported: String,
    pub local: String,
    pub is_ambiguous: bool,
}

pub open spec fn entry_view(e: RsUseEntry) -> UseEntry {
    (e.source@, crate::js_facts::reexport_target_view(e.imported), e.exported@, e.local@, e.is_ambiguous)
}

pub open spec fn entry_views(es: Seq<RsUseEntry>) -> Seq<UseEntry> {
    es.map_values(|e: RsUseEntry| entry_view(e))
}

fn copy_path(v: &Vec<String>) -> (r: Vec<String>)
    ensures
        r@.map_values(|s: String| s@) == v@.map_values(|s: String| s@),
{
    let r = crate::collections::copy_strings(v);
    r
}

fn names_module_exec(prefix: &Vec<String>) -> (r: bool)
    ensures
        r == names_module(prefix@.map_values(|s: String| s@)),
{
    proof {
        reveal_strlit("crate");
        reveal_strlit("self");
        reveal_strlit("super");
    }
    if prefix.len() == 0 {
        return true;
    }
    let last = &prefix[prefix.len() - 1];
    let r = str_eq(last.as_str(), "crate") || str_eq(last.as_str(), "self") || str_eq(last.as_str(), "super");
    proof {
        assert("crate"@ =~= seq!['c', 'r', 'a', 't', 'e']);
        assert("self"@ =~= seq!['s', 'e', 'l', 'f']);
        assert("super"@ =~= seq!['s', 'u', 'p', 'e', 'r']);
        assert(prefix@.map_values(|s: String| s@).last() == last@);
    }
    r
}

fn push_entry(entries: &mut Vec<RsUseEntry>, e: RsUseEntry)
    ensures
        entry_views(final(entries)@) == entry_views(old(entries)@).push(entry_view(e)),
{
    let ghost before = entry_views(entries@);
    let ghost v = entry_view(e);
    entries.push(e);
    proof {
        assert(entry_views(entries@) =~= before.push(v));
    }
}

fn add_use_entry(prefix: &Vec<String>, imported: String, local: String, entries: &mut Vec<RsUseEntry>)
    ensures
        entry_views(final(entries)@) == entry_views(old(entries)@).push(
            use_entry(prefix@.map_values(|s: String| s@), imported@, local@),
        ),
{
    proof {
        reveal_strlit("::");
        assert("::"@ =~= path_sep());
    }
    let ghost p = prefix@.map_values(|s: String| s@);
    if names_module_exec(prefix) {
        let mut source = copy_path(prefix);
        let ghost iv = imported@;
        source.push(imported);
        proof {
            assert(source@.map_values(|s: String| s@) =~= p.push(iv));
        }
        let src = join_strings(&source, "::");
        push_entry(
            entries,
            RsUseEntry { source: src, imported: ReexportTarget::Namespace, exported: local.clone(), local, is_ambiguous: false },
        );
    } else {
        let src = join_strings(prefix, "::");
        push_entry(
            entries,
            RsUseEntry { source: src, imported: ReexportTarget::Name(imported), exported: local.clone(), local, is_ambiguous: false },
        );
    }
}

fn collect_use_tree(prefix: &Vec<String>, tree: &RsUseTree, entries: &mut Vec<RsUseEntry>)
    ensures
        entry_views(final(entries)@) == entry_views(old(entries)@) + use_entries(prefix@.map_values(|s: String| s@), *tree),
    decreases tree,
{
    let ghost p = prefix@.map_values(|s: String| s@);
    let ghost e0 = entry_views(entries@);
    match tree {
        RsUseTree::Path(seg, inner) => {
            let mut next = copy_path(prefix);
            next.push(seg.clone());
            proof {
                assert(next@.map_values(|s: String| s@) =~= p.push(seg@));
            }
            collect_use_tree(&next, inner, entries);
        },
        RsUseTree::Name(n) => {
            add_use_entry(prefix, n.clone(), n.clone(), entries);
            proof {
                assert(entry_views(entries@) =~= e0 + seq![use_entry(p, n@, n@)]);
            }
        },
        RsUseTree::Rename(n, r) => {
            add_use_entry(prefix, n.clone(), r.clone(), entries);
            proof {
                assert(entry_views(entries@) =~= e0 + seq![use_entry(p, n@, r@)]);
            }
        },
        RsUseTree::Glob => {
            proof {
                reveal_strlit("::");
                reveal_strlit("*");
                assert("::"@ =~= path_sep());
                assert("*"@ =~= seq!['*']);
            }
            let src = join_strings(prefix, "::");
            push_entry(
                entries,
                RsUseEntry { source: src, imported: ReexportTarget::All, exported: owned("*"), local: owned("*"), is_ambiguous: true },
            );
            proof {
                assert(entry_views(entries@) =~= e0 + seq![(join(p, path_sep()), (3u8, Seq::<char>::empty()), seq!['*'], seq!['*'], true)]);
            }
        },
        RsUseTree::Group(items) => {
            let mut i: usize = 0;
            proof {
                assert(entry_views(entries@) =~= e0 + group_entries(p, items@.take(0)));
            }
            while i < items.len()
                invariant
                    *tree == RsUseTree::Group(*items),
                    p == prefix@.map_values(|s: String| s@),
                    i <= items@.len(),
                    entry_views(entries@) == e0 + group_entries(p, items@.take(i as int)),
                decreases items.len() - i,
            {
                proof {
                    assert(items@.take(i + 1).drop_last() =~= items@.take(i as int));
                    assert(items@.take(i + 1).last() == items@[i as int]);
                    assert((*tree)->Group_0 == *items);
                    assert(decreases_to!(*tree => (*tree)->Group_0));
                }
                let ghost before = entry_views(entries@);
                collect_use_tree(prefix, &items[i], entries);
                proof {
                    assert(entry_views(entries@) =~= e0 + group_entries(p, items@.take(i + 1)));
                }
                i = i + 1;
            }
            proof {
                assert(items@.take(items@.len() as int) =~= items@);
            }
        },
    }
}

fn collect_use(public: bool, tree: &RsUseTree, facts: &mut ModuleFacts)
    ensures
        facts_view(*final(facts)) == use_effect(facts_view(*old(facts)), public, use_entries(Seq::empty(), *tree)),
        rest_same(*final(facts), *old(facts)),
{
    let mut entries: Vec<RsUseEntry> = Vec::new();
    let empty: Vec<String> = Vec::new();
    proof {
        assert(empty@.map_values(|s: String| s@) =~= Seq::<Seq<char>>::empty());
        assert(entry_views(entries@) =~= Seq::<UseEntry>::empty());
    }
    collect_use_tree(&empty, tree, &mut entries);
    let ghost es = entry_views(entries@);
    proof {
        assert(es =~= use_entries(Seq::empty(), *tree));
    }
    let ghost v0 = facts_view(*facts);
    let ghost f0 = *facts;
    let mut k: usize = 0;
    while k < entries.len()
        invariant
            k <= entries@.len(),
            es == entry_views(entries@),
            facts_view(*facts) == use_effect(v0, public, es.take(k as int)),
            rest_same(*facts, f0),
        decreases entries.len() - k,
    {
        let e = &entries[k];
        proof {
            assert(es[k as int] == entry_view(*e));
            assert(es.take(k + 1).drop_last() =~= es.take(k as int));
            assert(es.take(k + 1).last() == es[k as int]);
        }
        if public {
            push_reexport_fact(
                facts,
                ReexportFact {
                    source: e.source.clone(),
                    imported: copy_target(&e.imported),
                    exported: e.exported.clone(),
                    is_ambiguous: e.is_ambiguous,
                },
            );
        } else {
            let imported = match &e.imported {
                ReexportTarget::Name(name) => ImportTarget::Name(name.clone()),
                ReexportTarget::Namespace => ImportTarget::Namespace,
                ReexportTarget::All => ImportTarget::Namespace,
                ReexportTarget::Default => ImportTarget::Default,
            };
            push_import_fact(
                facts,
                ImportFact { source: e.source.clone(), local: e.local.clone(), imported, kind: ImportKind::Esm, type_only: false },
            );
        }
        k = k + 1;
    }
    proof {
        assert(es.take(entries@.len() as int) =~= es);
    }
}

fn copy_target(t: &ReexportTarget) -> (r: ReexportTarget)
    ensures
        crate::js_facts::reexport_target_view(r) == crate::js_facts::reexport_target_view(*t),
{
    match t {
        ReexportTarget::Name(n) => ReexportTarget::Name(n.clone()),
        ReexportTarget::Default => ReexportTarget::Default,
        ReexportTarget::Namespace => ReexportTarget::Namespace,
        ReexportTarget::All => ReexportTarget::All,
    }
}

fn export_if_public(facts: &mut ModuleFacts, public: bool, name: &String)
    ensures
        facts_view(*final(facts)) == rs_export(facts_view(*old(facts)), public, name@),
        rest_same(*final(facts), *old(facts)),
{
    if public {
        push_export_fact(facts, ExportFact { exported: name.clone(), local: Some(name.clone()), kind: ExportKind::Local });
    }
}

fn collect_item(item: &RsItem, facts: &mut ModuleFacts)
    ensures
        facts_view(*final(facts)) == rs_item(facts_view(*old(facts)), *item),
        rest_same(*final(facts), *old(facts)),
{
    match item {
        RsItem::Named { public, name } => export_if_public(facts, *public, name),
        RsItem::Mod { public, name, inline } => {
            export_if_public(facts, *public, name);
            if !*inline {
                push_import_fact(
                    facts,
                    ImportFact {
                        source: concat("mod:", name.as_str()),
                        local: name.clone(),
                        imported: ImportTarget::Namespace,
                        kind: ImportKind::Esm,
                        type_only: false,
                    },
                );
            }
        },
        RsItem::Use { public, tree } => collect_use(*public, tree, facts),
        RsItem::Other => {},
    }
}

/// The facts of the Rust file `path` with the items `items`: every
/// import's local counts as used.
pub fn parse_rust_module(path: &str, items: &Vec<RsItem>) -> (r: Result<ModuleFacts, String>)
    ensures
        r matches Ok(f) && {
            let v = rs_items((Seq::empty(), Seq::empty(), Seq::empty()), items@);
            &&& f.wf()
            &&& f.file@ == path@
            &&& facts_view(f) == v
            &&& f.used_locals.set() == v.0.map_values(|i: ImportView| i.1).to_set()
            &&& f.jsx_locals@.len() == 0
            &&& f.namespace_member_usage.keys().len() == 0
            &&& f.jsx_namespace_member_usage.keys().len() == 0
            &&& f.warnings@.len() == 0
        },
{
    let mut facts = ModuleFacts::empty(owned(path));
    let ghost f0 = facts;
    proof {
        assert(facts_view(facts) =~= (Seq::<ImportView>::empty(), Seq::empty(), Seq::empty()));
    }
    let mut i: usize = 0;
    while i < items.len()
        invariant
            i <= items@.len(),
            facts_view(f0) == (Seq::<ImportView>::empty(), Seq::<crate::js_facts::ExportView>::empty(), Seq::<crate::js_facts::ReexportView>::empty()),
            facts_view(facts) == rs_items(facts_view(f0), items@.take(i as int)),
            rest_same(facts, f0),
        decreases items.len() - i,
    {
        proof {
            assert(items@.take(i + 1).drop_last() =~= items@.take(i as int));
            assert(items@.take(i + 1).last() == items@[i as int]);
        }
        collect_item(&items[i], &mut facts);
        i = i + 1;
    }
    proof {
        assert(items@.take(items@.len() as int) =~= items@);
    }
    let ghost before = facts;
    use_import_locals(&mut facts);
    proof {
        assert(facts_view(facts) == facts_view(before));
    }
    Ok(facts)
}

// ---------------------------------------------------------------------------
// Reading a Rust source text with syn
// ---------------------------------------------------------------------------

#[verifier::external_type_specification]
#[verifier::external_body]
pub struct ExSynItem(Item);

#[verifier::external_type_specification]
#[verifier::external_body]
pub struct ExSynUseTree(UseTree);

#[verifier::external_type_specification]
#[verifier::external_body]
pub struct ExSynVisibility(Visibility);

#[verifier::external_type_specification]
#[verifier::external_body]
pub struct ExSynIdent(syn::Ident);

#[verifier::external_type_specification]
#[verifier::external_body]
pub struct ExSynItemMod(ItemMod);

#[verifier::external_type_specification]
#[verifier::external_body]
pub struct ExSynItemUse(ItemUse);

/// A `mod` item as the library's; nothing is stated of it.
#[verifier::external_body]
fn syn_mod(item: &ItemMod) -> RsItem {
    RsItem::Mod { public: syn_public(&item.vis), name: item.ident.to_string(), inline: item.content.is_some() }
}

/// A `use` item as the library's; nothing is stated of it.
#[verifier::external_body]
fn syn_use(item: &ItemUse) -> RsItem {
    RsItem::Use { public: syn_public(&item.vis), tree: syn_use_tree(&item.tree) }
}

/// Whether a syn visibility is `pub`; nothing is stated of it.
#[verifier::external_body]
fn syn_public(vis: &Visibility) -> bool {
    matches!(vis, Visibility::Public(_))
}

/// A named item as the library describes it; nothing is stated of it.
#[verifier::external_body]
fn syn_named(vis: &Visibility, ident: &syn::Ident) -> RsItem {
    RsItem::Named { public: syn_public(vis), name: ident.to_string() }
}

/// A syn `use` tree as the library's, variant for variant; nothing is
/// stated of it.
#[verifier::external_body]
fn syn_use_tree(tree: &UseTree) -> RsUseTree {
    match tree {
        UseTree::Path(p) => RsUseTree::Path(p.ident.to_string(), Box::new(syn_use_tree(&p.tree))),
        UseTree::Name(n) => RsUseTree::Name(n.ident.to_string()),
        UseTree::Rename(r) => RsUseTree::Rename(r.ident.to_string(), r.rename.to_string()),
        UseTree::Glob(_) => RsUseTree::Glob,
        UseTree::Group(g) => RsUseTree::Group(g.items.iter().map(syn_use_tree).collect()),
    }
}

/// A syn item as the library's: the named kinds, `mod`, `use`, and any
/// other kind as `Other`; nothing is stated of it.
#[verifier::external_body]
fn syn_item(item: &Item) -> RsItem {
    match item {
        Item::Fn(i) => syn_named(&i.vis, &i.sig.ident),
        Item::Struct(i) => syn_named(&i.vis, &i.ident),
        Item::Enum(i) => syn_named(&i.vis, &i.ident),
        Item::Trait(i) => syn_named(&i.vis, &i.ident),
        Item::Type(i) => syn_named(&i.vis, &i.ident),
        Item::Const(i) => syn_named(&i.vis, &i.ident),
        Item::Static(i) => syn_named(&i.vis, &i.ident),
        Item::Mod(i) => syn_mod(i),
        Item::Use(i) => syn_use(i),
        _ => RsItem::Other,
    }
}

/// The items `syn::parse_file` reads from a Rust source text, as the
/// library describes them, or `None` when it rejects the text.
pub uninterp spec fn spec_rust_file_items(source: Seq<char>) -> Option<Seq<RsItem>>;

/// Parses `source` with `syn::parse_file` and describes each top-level item.
/// The items are named (a function of the text alone); the parser's error
/// message is dropped.
#[verifier::external_body]
fn parse_rust_file_items(source: &str) -> (r: Option<Vec<RsItem>>)
    ensures
        match r {
            Some(v) => spec_rust_file_items(source@) == Some(v@),
            None => spec_rust_file_items(source@) is None,
        },
{
    syn::parse_file(source).ok().map(|file| file.items.iter().map(syn_item).collect())
}

/// The facts of the Rust source text `source` of the file `path`: an error
/// naming the file when syn rejects the text, else the facts of its items.
pub fn parse_rust_source(path: &str, source: &str) -> (r: Result<ModuleFacts, String>)
    ensures
        spec_rust_file_items(source@) is None <==> r is Err,
        r matches Err(e) ==> e@ == "failed to parse rust module "@ + path@,
        spec_rust_file_items(source@) matches Some(items) ==> r matches Ok(f) && {
            let v = rs_items((Seq::empty(), Seq::empty(), Seq::empty()), items);
            &&& f.wf()
            &&& f.file@ == path@
            &&& facts_view(f) == v
            &&& f.used_locals.set() == v.0.map_values(|i: ImportView| i.1).to_set()
            &&& f.jsx_locals@.len() == 0
            &&& f.namespace_member_usage.keys().len() == 0
            &&& f.jsx_namespace_member_usage.keys().len() == 0
            &&& f.warnings@.len() == 0
        },
{
    match parse_rust_file_items(source) {
        Some(items) => parse_rust_module(path, &items),
        None => Err(concat("failed to parse rust module ", path)),
    }
}

} // verus!
