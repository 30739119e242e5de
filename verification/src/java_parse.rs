//! The facts of a Java source file, read line by line: its imports (with
//! wildcard imports fanned out to the type names the file uses), and the
//! types it declares.
use vstd::prelude::*;

use crate::collections::{str_views, StrSet};
use crate::diagnostics::{ascending, lemma_ascending};
use crate::facts::{ExportFact, ExportKind, ImportFact, ImportKind, ImportTarget, ModuleFacts};
use crate::lines::{
    after_last, after_last_of, prefix_until, tokens_spec, token_state, trim_end_matches, trim_end_matches_spec, trim_spec, trim_start_spec,
    trim_start_str, trim_str, lines_of,
};
use crate::text::{chars_of, concat, concat3, ends_with, owned, starts_with, str_ends_with, str_eq, str_starts_with, string_of, sub_string};
use crate::theme::{is_whitespace, lines_spec, unicode_white_space};

verus! {

// ---------------------------------------------------------------------------
// Views of facts
// ---------------------------------------------------------------------------

/// An import target as (tag, name): a name, the default export, the
/// namespace, or the whole module for its effects.
pub open spec fn target_view(t: ImportTarget) -> (u8, Seq<char>) {
    match t {
        ImportTarget::Name(n) => (0, n@),
        ImportTarget::Default => (1, Seq::empty()),
        ImportTarget::Namespace => (2, Seq::empty()),
        ImportTarget::SideEffect => (3, Seq::empty()),
    }
}

pub type ImportView = (Seq<char>, Seq<char>, (u8, Seq<char>), ImportKind, bool);

pub open spec fn import_view(f: ImportFact) -> ImportView {
    (f.source@, f.local@, target_view(f.imported), f.kind, f.type_only)
}

pub open spec fn import_views(fs: Seq<ImportFact>) -> Seq<ImportView> {
    fs.map_values(|f: ImportFact| import_view(f))
}

pub open spec fn export_view(e: ExportFact) -> (Seq<char>, Option<Seq<char>>, ExportKind) {
    (e.exported@, crate::collections::opt_str(e.local), e.kind)
}

pub open spec fn export_views(es: Seq<ExportFact>) -> Seq<(Seq<char>, Option<Seq<char>>, ExportKind)> {
    es.map_values(|e: ExportFact| export_view(e))
}

/// The facts of a line-parsed module: the given imports and exports, every
/// import's local used, and nothing else.
pub open spec fn line_facts(r: ModuleFacts, path: Seq<char>, imports: Seq<ImportView>, exports: Seq<Seq<char>>) -> bool {
    &&& r.wf()
    &&& r.file@ == path
    &&& import_views(r.imports@) == imports
    &&& export_views(r.exports@) == exports.map_values(|n: Seq<char>| (n, Some(n), ExportKind::Local))
    &&& r.reexports@.len() == 0
    &&& r.used_locals.set() == imports.map_values(|i: ImportView| i.1).to_set()
    &&& r.jsx_locals@.len() == 0
    &&& r.namespace_member_usage.keys().len() == 0
    &&& r.jsx_namespace_member_usage.keys().len() == 0
    &&& r.warnings@.len() == 0
}

/// Marks every import's local as used.
pub fn use_import_locals(facts: &mut ModuleFacts)
    requires
        old(facts).wf(),
        old(facts).used_locals@.len() == 0,
    ensures
        final(facts).wf(),
        final(facts).used_locals.set() == import_views(old(facts).imports@).map_values(|i: ImportView| i.1).to_set(),
        final(facts).file == old(facts).file,
        final(facts).imports == old(facts).imports,
        final(facts).exports == old(facts).exports,
        final(facts).reexports == old(facts).reexports,
        final(facts).jsx_locals == old(facts).jsx_locals,
        final(facts).namespace_member_usage == old(facts).namespace_member_usage,
        final(facts).jsx_namespace_member_usage == old(facts).jsx_namespace_member_usage,
        final(facts).warnings == old(facts).warnings,
{
    let ghost locals = import_views(facts.imports@).map_values(|i: ImportView| i.1);
    let ghost f0 = *facts;
    let mut k: usize = 0;
    proof {
        assert(facts.used_locals.set() =~= locals.take(0).to_set());
    }
    while k < facts.imports.len()
        invariant
            k <= facts.imports@.len(),
            facts.used_locals.wf(),
            f0.wf(),
            facts.file == f0.file,
            facts.imports == f0.imports,
            facts.exports == f0.exports,
            facts.reexports == f0.reexports,
            facts.jsx_locals == f0.jsx_locals,
            facts.namespace_member_usage == f0.namespace_member_usage,
            facts.jsx_namespace_member_usage == f0.jsx_namespace_member_usage,
            facts.warnings == f0.warnings,
            locals == import_views(facts.imports@).map_values(|i: ImportView| i.1),
            facts.used_locals.set() == locals.take(k as int).to_set(),
        decreases facts.imports.len() - k,
    {
        let local = facts.imports[k].local.clone();
        facts.used_locals.insert(local);
        proof {
            assert(locals.take(k + 1) =~= locals.take(k as int).push(locals[k as int]));
            crate::collections::lemma_push_to_set(locals.take(k as int), locals[k as int]);
        }
        k = k + 1;
    }
    proof {
        assert(locals.take(facts.imports@.len() as int) =~= locals);
    }
}

// ---------------------------------------------------------------------------
// One Java line
// ---------------------------------------------------------------------------

/// The imported name of an `import` line: after `import ` and an optional
/// `static `, without trailing semicolons and surrounding whitespace.
pub open spec fn java_import_spec(line: Seq<char>) -> Option<Seq<char>> {
    if starts_with(line, "import "@) {
        let rest = trim_start_spec(line.skip(7));
        let rest = if starts_with(rest, "static "@) { trim_start_spec(rest.skip(7)) } else { rest };
        Some(trim_spec(trim_end_matches_spec(rest, ";"@)))
    } else {
        None
    }
}

pub fn java_import(line: &str) -> (r: Option<String>)
    ensures
        crate::collections::opt_str(r) == java_import_spec(line@),
{
    proof {
        reveal_strlit("import ");
        reveal_strlit("static ");
    }
    if !str_starts_with(line, "import ") {
        return None;
    }
    let cs = chars_of(line);
    let rest = trim_start_str(sub_string(cs.as_slice(), 7, cs.len()).as_str());
    let rest = if str_starts_with(rest.as_str(), "static ") {
        let rs = chars_of(rest.as_str());
        trim_start_str(sub_string(rs.as_slice(), 7, rs.len()).as_str())
    } else {
        rest
    };
    proof {
        reveal_strlit(";");
    }
    let stripped = trim_end_matches(rest.as_str(), ";");
    Some(trim_str(stripped.as_str()))
}

pub open spec fn is_decl_delim(c: char) -> bool {
    unicode_white_space(c) || c == '{' || c == '<'
}

pub open spec fn decl_delim() -> spec_fn(char) -> bool {
    |c: char| is_decl_delim(c)
}

pub open spec fn type_delim() -> spec_fn(char) -> bool {
    |c: char| !is_type_char(c)
}

pub open spec fn is_type_keyword(t: Seq<char>) -> bool {
    t == "class"@ || t == "interface"@ || t == "enum"@ || t == "record"@
}

/// The token after the first type keyword among `tokens`.
pub open spec fn declared_in(tokens: Seq<Seq<char>>) -> Option<Seq<char>>
    decreases tokens.len(),
{
    if tokens.len() < 2 {
        None
    } else if is_type_keyword(tokens[0]) {
        Some(tokens[1])
    } else {
        declared_in(tokens.drop_first())
    }
}

/// The type a line declares: the word after `class`, `interface`, `enum` or
/// `record`, words split at whitespace, `{` and `<`.
pub open spec fn java_declared_type_spec(line: Seq<char>) -> Option<Seq<char>> {
    declared_in(tokens_spec(line, decl_delim()))
}

/// Splits `line` into the maximal runs of characters that are not
/// delimiters, for the delimiter set `kind` (0: whitespace, `{`, `<`;
/// 1: anything but an ASCII letter, digit or `_`).
fn tokens_of(line: &str, kind: u8) -> (r: Vec<String>)
    requires
        kind < 2,
    ensures
        kind == 0 ==> str_views(r@) == tokens_spec(line@, decl_delim()),
        kind == 1 ==> str_views(r@) == tokens_spec(line@, type_delim()),
{
    let ghost delim = if kind == 0 { decl_delim() } else { type_delim() };
    let cs = chars_of(line);
    let mut done: Vec<String> = Vec::new();
    let mut cur: Vec<char> = Vec::new();
    let mut i: usize = 0;
    proof {
        assert(line@.take(0) =~= Seq::<char>::empty());
    }
    while i < cs.len()
        invariant
            i <= cs@.len(),
            cs@ == line@,
            kind < 2,
            delim == (if kind == 0 { decl_delim() } else { type_delim() }),
            (str_views(done@), cur@) == token_state(line@.take(i as int), delim),
        decreases cs.len() - i,
    {
        let c = cs[i];
        let d = if kind == 0 {
            is_whitespace(c) || c == '{' || c == '<'
        } else {
            !(('a' <= c && c <= 'z') || ('A' <= c && c <= 'Z') || ('0' <= c && c <= '9') || c == '_')
        };
        proof {
            assert(line@.take(i + 1).drop_last() =~= line@.take(i as int));
            assert(line@.take(i + 1).last() == c);
            assert(d == delim(c));
        }
        let ghost before = str_views(done@);
        if d {
            if cur.len() > 0 {
                done.push(string_of(cur.as_slice()));
                proof {
                    assert(str_views(done@) =~= before.push(cur@));
                }
            }
            cur = Vec::new();
        } else {
            cur.push(c);
        }
        proof {
            assert((str_views(done@), cur@) =~= token_state(line@.take(i + 1), delim));
        }
        i = i + 1;
    }
    proof {
        assert(line@.take(cs@.len() as int) =~= line@);
    }
    if cur.len() > 0 {
        let ghost before = str_views(done@);
        done.push(string_of(cur.as_slice()));
        proof {
            assert(str_views(done@) =~= before.push(cur@));
        }
    }
    done
}

pub fn java_declared_type(line: &str) -> (r: Option<String>)
    ensures
        crate::collections::opt_str(r) == java_declared_type_spec(line@),
{
    let tokens = tokens_of(line, 0);
    let ghost tv = str_views(tokens@);
    let mut i: usize = 0;
    proof {
        assert(tv.skip(0) =~= tv);
    }
    while i < tokens.len() && tokens.len() - i > 1
        invariant
            i <= tokens@.len(),
            tv == str_views(tokens@),
            tv == tokens_spec(line@, decl_delim()),
            declared_in(tv) == declared_in(tv.skip(i as int)),
        decreases tokens.len() - i,
    {
        let t = tokens[i].as_str();
        proof {
            reveal_strlit("class");
            reveal_strlit("interface");
            reveal_strlit("enum");
            reveal_strlit("record");
            assert(tv.skip(i as int)[0] == t@);
            assert(tv.skip(i as int)[1] == tv[i + 1]);
        }
        if str_eq(t, "class") || str_eq(t, "interface") || str_eq(t, "enum") || str_eq(t, "record") {
            proof {
                assert(is_type_keyword(tv.skip(i as int)[0]));
                assert(declared_in(tv.skip(i as int)) == Some(tv[i + 1]));
            }
            let name = owned(tokens[i + 1].as_str());
            proof {
                assert(name@ == tv[i + 1]);
            }
            return Some(name);
        }
        proof {
            assert(tv.skip(i as int).drop_first() =~= tv.skip(i + 1));
        }
        i = i + 1;
    }
    None
}

pub open spec fn is_type_char(c: char) -> bool {
    ('a' <= c && c <= 'z') || ('A' <= c && c <= 'Z') || ('0' <= c && c <= '9') || c == '_'
}

/// The identifiers of a line that look like type names (a leading ASCII
/// capital, by Java convention).
pub open spec fn type_tokens(line: Seq<char>) -> Set<Seq<char>> {
    Set::new(
        |t: Seq<char>| tokens_spec(line, type_delim()).contains(t) && t.len() > 0 && 'A' <= t[0] && t[0] <= 'Z',
    )
}

fn collect_java_type_tokens(line: &str, used: &mut StrSet)
    requires
        old(used).wf(),
    ensures
        final(used).wf(),
        final(used).set() == old(used).set().union(type_tokens(line@)),
{
    let tokens = tokens_of(line, 1);
    let ghost tv = str_views(tokens@);
    let ghost base = used.set();
    let mut k: usize = 0;
    proof {
        assert(used.set() =~= base.union(Set::new(|t: Seq<char>| tv.take(0).contains(t) && t.len() > 0 && 'A' <= t[0] && t[0] <= 'Z')));
    }
    while k < tokens.len()
        invariant
            k <= tokens@.len(),
            tv == str_views(tokens@),
            used.wf(),
            used.set() == base.union(Set::new(|t: Seq<char>| tv.take(k as int).contains(t) && t.len() > 0 && 'A' <= t[0] && t[0] <= 'Z')),
        decreases tokens.len() - k,
    {
        let t = &tokens[k];
        let tc = chars_of(t.as_str());
        let upper = tc.len() > 0 && 'A' <= tc[0] && tc[0] <= 'Z';
        let ghost before = used.set();
        if upper {
            used.insert(t.clone());
        }
        proof {
            assert(tv[k as int] == t@);
            assert(tv.take(k + 1) =~= tv.take(k as int).push(t@));
            let s0 = tv.take(k as int);
            let s1 = tv.take(k + 1);
            assert forall|x: Seq<char>| s1.contains(x) <==> (s0.contains(x) || x == t@) by {
                if s1.contains(x) {
                    let j = choose|j: int| 0 <= j < s1.len() && #[trigger] s1[j] == x;
                    if j < k {
                        assert(s0[j] == x);
                    }
                }
                if s0.contains(x) {
                    let j = choose|j: int| 0 <= j < s0.len() && #[trigger] s0[j] == x;
                    assert(s1[j] == x);
                }
                if x == t@ {
                    assert(s1[k as int] == x);
                }
            }
            assert(used.set() =~= base.union(Set::new(|t: Seq<char>| tv.take(k + 1).contains(t) && t.len() > 0 && 'A' <= t[0] && t[0] <= 'Z')));
        }
        k = k + 1;
    }
    proof {
        assert(tv.take(tokens@.len() as int) =~= tv);
        assert(used.set() =~= old(used).set().union(type_tokens(line@)));
    }
}

// ---------------------------------------------------------------------------
// The whole file
// ---------------------------------------------------------------------------

/// What the lines so far gave: imports, declared types, wildcard packages,
/// names imported by name, and type-like names used.
pub type JavaState = (Seq<ImportView>, Seq<Seq<char>>, Seq<Seq<char>>, Set<Seq<char>>, Set<Seq<char>>);

pub open spec fn skip_java_line(line: Seq<char>) -> bool {
    starts_with(line, "//"@) || starts_with(line, "package "@) || line.len() == 0
}

/// The local an import binds: the last dotted segment.
pub open spec fn java_local(imp: Seq<char>) -> Seq<char> {
    trim_end_matches_spec(after_last(imp, "."@), ".*"@)
}

/// One more line: comments, the package line and blank lines say nothing;
/// an import adds an import (a wildcard one also its package); any other
/// line may declare a type and may use type names.
pub open spec fn java_step(st: JavaState, raw: Seq<char>) -> JavaState {
    let line = trim_spec(raw);
    if skip_java_line(line) {
        st
    } else {
        match java_import_spec(line) {
            Some(imp) => {
                let local = java_local(imp);
                if ends_with(imp, ".*"@) {
                    (st.0.push((imp, local, (2u8, Seq::empty()), ImportKind::Esm, false)), st.1, st.2.push(imp.take(imp.len() - 2)), st.3, st.4)
                } else {
                    (st.0.push((imp, local, (0u8, local), ImportKind::Esm, false)), st.1, st.2, st.3.insert(local), st.4)
                }
            },
            None => {
                let exports = match java_declared_type_spec(line) {
                    Some(n) => st.1.push(n),
                    None => st.1,
                };
                (st.0, exports, st.2, st.3, st.4.union(type_tokens(line)))
            },
        }
    }
}

pub open spec fn java_fold(lines: Seq<Seq<char>>) -> JavaState
    decreases lines.len(),
{
    if lines.len() == 0 {
        (Seq::empty(), Seq::empty(), Seq::empty(), Set::empty(), Set::empty())
    } else {
        java_step(java_fold(lines.drop_last()), lines.last())
    }
}

/// The names (from the `k`-th on) a wildcard import may bind: used, and
/// neither declared here nor imported by name.
pub open spec fn fanout_names(names: Seq<Seq<char>>, declared: Set<Seq<char>>, imported: Set<Seq<char>>, n: nat) -> Seq<Seq<char>>
    decreases n,
{
    if n == 0 {
        Seq::empty()
    } else {
        let rest = fanout_names(names, declared, imported, (n - 1) as nat);
        let x = names[n - 1];
        if !declared.contains(x) && !imported.contains(x) { rest.push(x) } else { rest }
    }
}

pub open spec fn fanout_for(package: Seq<char>, names: Seq<Seq<char>>) -> Seq<ImportView> {
    names.map_values(|x: Seq<char>| (package + "."@ + x, x, (0u8, x), ImportKind::Esm, false))
}

/// One import per wildcard package and candidate name, package by package.
pub open spec fn fanout(packages: Seq<Seq<char>>, names: Seq<Seq<char>>) -> Seq<ImportView>
    decreases packages.len(),
{
    if packages.len() == 0 {
        Seq::empty()
    } else {
        fanout(packages.drop_last(), names) + fanout_for(packages.last(), names)
    }
}

/// The imports of a Java file: its import lines in order, then the
/// wildcard fan-out over the used type names in order.
pub open spec fn java_imports(source: Seq<char>) -> Seq<ImportView> {
    let st = java_fold(lines_spec(source));
    let names = ascending(st.4);
    st.0 + fanout(st.2, fanout_names(names, st.1.to_set(), st.3, names.len()))
}

pub open spec fn java_exports(source: Seq<char>) -> Seq<Seq<char>> {
    java_fold(lines_spec(source)).1
}

pub open spec fn export_names_view(es: Seq<ExportFact>) -> Seq<Seq<char>> {
    es.map_values(|e: ExportFact| e.exported@)
}

pub(crate) fn push_import(facts: &mut ModuleFacts, source: String, local: String, imported: ImportTarget)
    ensures
        import_views(final(facts).imports@) == import_views(old(facts).imports@).push(
            (source@, local@, target_view(imported), ImportKind::Esm, false),
        ),
        final(facts).file == old(facts).file,
        final(facts).exports == old(facts).exports,
        final(facts).reexports == old(facts).reexports,
        final(facts).used_locals == old(facts).used_locals,
        final(facts).jsx_locals == old(facts).jsx_locals,
        final(facts).namespace_member_usage == old(facts).namespace_member_usage,
        final(facts).jsx_namespace_member_usage == old(facts).jsx_namespace_member_usage,
        final(facts).warnings == old(facts).warnings,
{
    let ghost before = import_views(facts.imports@);
    let ghost t = target_view(imported);
    let ghost sv = source@;
    let ghost lv = local@;
    facts.imports.push(ImportFact { source, local, imported, kind: ImportKind::Esm, type_only: false });
    proof {
        assert(import_views(facts.imports@) =~= before.push((sv, lv, t, ImportKind::Esm, false)));
    }
}

pub(crate) fn push_local_export(facts: &mut ModuleFacts, name: String)
    ensures
        export_views(final(facts).exports@) == export_views(old(facts).exports@).push((name@, Some(name@), ExportKind::Local)),
        final(facts).file == old(facts).file,
        final(facts).imports == old(facts).imports,
        final(facts).reexports == old(facts).reexports,
        final(facts).used_locals == old(facts).used_locals,
        final(facts).jsx_locals == old(facts).jsx_locals,
        final(facts).namespace_member_usage == old(facts).namespace_member_usage,
        final(facts).jsx_namespace_member_usage == old(facts).jsx_namespace_member_usage,
        final(facts).warnings == old(facts).warnings,
{
    let ghost before = export_views(facts.exports@);
    let ghost nv = name@;
    let local = name.clone();
    facts.exports.push(ExportFact { exported: name, local: Some(local), kind: ExportKind::Local });
    proof {
        assert(export_views(facts.exports@) =~= before.push((nv, Some(nv), ExportKind::Local)));
    }
}

/// The facts of the Java file `path` with text `source`.
pub fn parse_java_module(path: &str, source: &str) -> (r: Result<ModuleFacts, String>)
    ensures
        r matches Ok(f) && line_facts(f, path@, java_imports(source@), java_exports(source@)),
{
    let mut facts = ModuleFacts::empty(owned(path));
    let mut packages: Vec<String> = Vec::new();
    let mut imported = StrSet::new();
    let mut used = StrSet::new();
    let mut names: Vec<String> = Vec::new();
    let lines = lines_of(source);
    let ghost lv = str_views(lines@);
    let ghost f0 = facts;
    let mut k: usize = 0;
    proof {
        assert(lv.take(0) =~= Seq::<Seq<char>>::empty());
        assert(import_views(facts.imports@) =~= Seq::<ImportView>::empty());
        assert(str_views(names@) =~= Seq::<Seq<char>>::empty());
        assert(imported.set() =~= Set::<Seq<char>>::empty());
        assert(used.set() =~= Set::<Seq<char>>::empty());
    }
    while k < lines.len()
        invariant
            k <= lines@.len(),
            lv == str_views(lines@),
            lv == lines_spec(source@),
            f0.wf(),
            f0.file@ == path@,
            facts.file == f0.file,
            facts.reexports == f0.reexports,
            facts.used_locals == f0.used_locals,
            facts.jsx_locals == f0.jsx_locals,
            facts.namespace_member_usage == f0.namespace_member_usage,
            facts.jsx_namespace_member_usage == f0.jsx_namespace_member_usage,
            facts.warnings == f0.warnings,
            f0.reexports@.len() == 0,
            f0.used_locals@.len() == 0,
            f0.jsx_locals@.len() == 0,
            f0.namespace_member_usage.keys().len() == 0,
            f0.jsx_namespace_member_usage.keys().len() == 0,
            f0.warnings@.len() == 0,
            imported.wf(),
            used.wf(),
            export_views(facts.exports@) == str_views(names@).map_values(|n: Seq<char>| (n, Some(n), ExportKind::Local)),
            (import_views(facts.imports@), str_views(names@), str_views(packages@), imported.set(), used.set()) == java_fold(lv.take(k as int)),
        decreases lines.len() - k,
    {
        let ghost prev = java_fold(lv.take(k as int));
        proof {
            assert(lv.take(k + 1).drop_last() =~= lv.take(k as int));
            assert(lv.take(k + 1).last() == lines@[k as int]@);
        }
        let line = trim_str(lines[k].as_str());
        proof {
            reveal_strlit("//");
            reveal_strlit("package ");
        }
        if !(str_starts_with(line.as_str(), "//") || str_starts_with(line.as_str(), "package ") || crate::text::char_count(line.as_str()) == 0) {
            match java_import(line.as_str()) {
                Some(imp) => {
                    proof {
                        reveal_strlit(".");
                        reveal_strlit(".*");
                    }
                    let last = after_last_of(imp.as_str(), ".");
                    let local = trim_end_matches(last.as_str(), ".*");
                    if str_ends_with(imp.as_str(), ".*") {
                        let ic = chars_of(imp.as_str());
                        let package = sub_string(ic.as_slice(), 0, ic.len() - 2);
                        let ghost pb = str_views(packages@);
                        packages.push(package);
                        proof {
                            assert(str_views(packages@) =~= pb.push(imp@.take(imp@.len() - 2)));
                        }
                        push_import(&mut facts, imp, local, ImportTarget::Namespace);
                    } else {
                        imported.insert(local.clone());
                        let name = local.clone();
                        push_import(&mut facts, imp, local, ImportTarget::Name(name));
                    }
                },
                None => {
                    match java_declared_type(line.as_str()) {
                        Some(n) => {
                            let ghost nb = str_views(names@);
                            names.push(n.clone());
                            push_local_export(&mut facts, n);
                            proof {
                                assert(str_views(names@) =~= nb.push(names@[names@.len() - 1]@));
                            }
                        },
                        None => {},
                    }
                    collect_java_type_tokens(line.as_str(), &mut used);
                },
            }
        }
        proof {
            assert(export_views(facts.exports@) =~= str_views(names@).map_values(|n: Seq<char>| (n, Some(n), ExportKind::Local)));
            assert((import_views(facts.imports@), str_views(names@), str_views(packages@), imported.set(), used.set()) =~~= java_fold(lv.take(k + 1)));
        }
        k = k + 1;
    }
    proof {
        assert(lv.take(lines@.len() as int) =~= lv);
    }
    let ghost st = java_fold(lv);
    // the names declared here
    let declared = StrSet::from_vec(&names);
    proof {
        assert(declared.set() == st.1.to_set());
        lemma_ascending(used@, st.4);
    }
    let ghost cand = fanout_names(used@, st.1.to_set(), st.3, used@.len());
    let mut candidates: Vec<String> = Vec::new();
    let mut j: usize = 0;
    while j < used.len()
        invariant
            j <= used@.len(),
            used.wf(),
            declared.wf(),
            imported.wf(),
            declared.set() == st.1.to_set(),
            imported.set() == st.3,
            str_views(candidates@) == fanout_names(used@, st.1.to_set(), st.3, j as nat),
        decreases used@.len() - j,
    {
        let x = used.get(j);
        if !declared.contains(x.as_str()) && !imported.contains(x.as_str()) {
            let ghost cb = str_views(candidates@);
            candidates.push(x.clone());
            proof {
                assert(str_views(candidates@) =~= cb.push(x@));
            }
        }
        proof {
            assert(declared.set().contains(x@) == declared@.contains(x@));
        }
        j = j + 1;
    }
    let ghost base = import_views(facts.imports@);
    let ghost e0 = facts.exports;
    let mut p: usize = 0;
    proof {
        assert(packages@.len() == st.2.len());
        assert(base + fanout(str_views(packages@).take(0), cand) =~= base);
    }
    while p < packages.len()
        invariant
            p <= packages@.len(),
            str_views(candidates@) == cand,
            import_views(facts.imports@) == base + fanout(str_views(packages@).take(p as int), cand),
            facts.exports == e0,
            f0.wf(),
            f0.used_locals@.len() == 0,
            facts.file == f0.file,
            facts.reexports == f0.reexports,
            facts.used_locals == f0.used_locals,
            facts.jsx_locals == f0.jsx_locals,
            facts.namespace_member_usage == f0.namespace_member_usage,
            facts.jsx_namespace_member_usage == f0.jsx_namespace_member_usage,
            facts.warnings == f0.warnings,
        decreases packages.len() - p,
    {
        let ghost pv = str_views(packages@);
        let ghost mid = import_views(facts.imports@);
        let mut q: usize = 0;
        while q < candidates.len()
            invariant
                q <= candidates@.len(),
                p < packages@.len(),
                pv == str_views(packages@),
                str_views(candidates@) == cand,
                import_views(facts.imports@) == mid + fanout_for(pv[p as int], cand.take(q as int)),
                facts.exports == e0,
                facts.file == f0.file,
                facts.reexports == f0.reexports,
                facts.used_locals == f0.used_locals,
                facts.jsx_locals == f0.jsx_locals,
                facts.namespace_member_usage == f0.namespace_member_usage,
                facts.jsx_namespace_member_usage == f0.jsx_namespace_member_usage,
                facts.warnings == f0.warnings,
            decreases candidates.len() - q,
        {
            let x = &candidates[q];
            let src = concat3(packages[p].as_str(), ".", x.as_str());
            let name = x.clone();
            let ghost before = import_views(facts.imports@);
            push_import(&mut facts, src, x.clone(), ImportTarget::Name(name));
            proof {
                assert(cand[q as int] == x@);
                assert(cand.take(q + 1) =~= cand.take(q as int).push(x@));
                assert(fanout_for(pv[p as int], cand.take(q + 1)) =~= fanout_for(pv[p as int], cand.take(q as int)).push(
                    (pv[p as int] + "."@ + x@, x@, (0u8, x@), ImportKind::Esm, false),
                ));
            }
            q = q + 1;
        }
        proof {
            assert(cand.take(candidates@.len() as int) =~= cand);
            assert(pv.take(p + 1).drop_last() =~= pv.take(p as int));
            assert(pv.take(p + 1).last() == pv[p as int]);
        }
        p = p + 1;
    }
    proof {
        assert(str_views(packages@).take(packages@.len() as int) =~= str_views(packages@));
    }
    let ghost before_use = facts;
    use_import_locals(&mut facts);
    proof {
        assert(facts.wf());
        assert(import_views(facts.imports@) == java_imports(source@));
        assert(export_views(facts.exports@) == java_exports(source@).map_values(|n: Seq<char>| (n, Some(n), ExportKind::Local)));
    }
    Ok(facts)
}

} // verus!
