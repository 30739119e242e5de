//! The facts of a Ruby source file, read line by line: its `require`s and
//! the classes, modules and methods it defines.
use vstd::prelude::*;

use crate::collections::str_views;
use crate::facts::{ImportKind, ImportTarget, ModuleFacts};
use crate::java_parse::{export_views, import_views, line_facts, push_import, push_local_export, use_import_locals, ImportView};
use crate::lines::{after_last, after_last_of, prefix_until, trim_end_matches, trim_end_matches_spec, trim_spec, trim_start_spec, trim_start_str, trim_str, lines_of};
use crate::text::{chars_of, concat, first_pos, owned, starts_with, str_starts_with, string_of, sub_string};
use crate::theme::{is_whitespace, lines_spec, unicode_white_space};

verus! {

/// The quoted path of a `keyword 'path'` line.
pub open spec fn required_path_spec(line: Seq<char>, keyword: Seq<char>) -> Option<Seq<char>> {
    if !starts_with(line, keyword) {
        None
    } else {
        let rest = trim_start_spec(line.skip(keyword.len() as int));
        if rest.len() == 0 || (rest[0] != '\'' && rest[0] != '"') {
            None
        } else {
            let value = rest.skip(1);
            if value.contains(rest[0]) { Some(value.take(first_pos(value, rest[0]))) } else { None }
        }
    }
}

fn required_path(line: &str, keyword: &str) -> (r: Option<String>)
    ensures
        crate::collections::opt_str(r) == required_path_spec(line@, keyword@),
{
    if !str_starts_with(line, keyword) {
        return None;
    }
    let cs = chars_of(line);
    let n = crate::text::char_count(keyword);
    let rest = chars_of(trim_start_str(sub_string(cs.as_slice(), n, cs.len()).as_str()).as_str());
    if rest.len() == 0 || (rest[0] != '\'' && rest[0] != '"') {
        return None;
    }
    let quote = rest[0];
    let value = crate::text::sub_chars(rest.as_slice(), 1, rest.len());
    match crate::text::find_char(value.as_slice(), quote) {
        Some(end) => {
            proof {
                crate::text::lemma_first_pos(value@, quote, end as int);
            }
            Some(sub_string(value.as_slice(), 0, end))
        },
        None => None,
    }
}

pub open spec fn relative_source_spec(s: Seq<char>) -> Seq<char> {
    if starts_with(s, "."@) { s } else { "./"@ + s }
}

fn relative_source(s: &str) -> (r: String)
    ensures
        r@ == relative_source_spec(s@),
{
    if str_starts_with(s, ".") { owned(s) } else { concat("./", s) }
}

/// The local a `require` binds: the file name without `.rb`.
pub open spec fn ruby_local(source: Seq<char>) -> Seq<char> {
    trim_end_matches_spec(after_last(source, "/"@), ".rb"@)
}

pub open spec fn const_stop() -> spec_fn(char) -> bool {
    |c: char| unicode_white_space(c) || c == '<' || c == ';'
}

pub open spec fn method_stop() -> spec_fn(char) -> bool {
    |c: char| unicode_white_space(c) || c == '(' || c == ';'
}

/// The text of `s` up to the first stop character (0: whitespace, `<`,
/// `;`; 1: whitespace, `(`, `;`).
fn prefix_until_exec(s: &str, kind: u8) -> (r: String)
    requires
        kind < 2,
    ensures
        kind == 0 ==> r@ == prefix_until(s@, const_stop()),
        kind == 1 ==> r@ == prefix_until(s@, method_stop()),
{
    let ghost stop = if kind == 0 { const_stop() } else { method_stop() };
    let cs = chars_of(s);
    let mut i: usize = 0;
    while i < cs.len()
        invariant
            i <= cs@.len(),
            cs@ == s@,
            kind < 2,
            stop == (if kind == 0 { const_stop() } else { method_stop() }),
            forall|k: int| 0 <= k < i ==> !stop(#[trigger] s@[k]),
        ensures
            i <= cs@.len(),
            forall|k: int| 0 <= k < i ==> !stop(#[trigger] s@[k]),
            i == cs@.len() || stop(s@[i as int]),
        decreases cs.len() - i,
    {
        let c = cs[i];
        let hit = is_whitespace(c) || c == ';' || (if kind == 0 { c == '<' } else { c == '(' });
        proof {
            assert(hit == stop(c));
        }
        if hit {
            break;
        }
        i = i + 1;
    }
    proof {
        crate::lines::lemma_prefix_until(s@, stop, i as int);
    }
    sub_string(cs.as_slice(), 0, i)
}

/// The constant a `class`/`module` line defines: the first word after the
/// keyword, without its namespace.
pub open spec fn declared_constant_spec(line: Seq<char>, keyword: Seq<char>) -> Option<Seq<char>> {
    if !starts_with(line, keyword) {
        None
    } else {
        let name = prefix_until(trim_start_spec(line.skip(keyword.len() as int)), const_stop());
        if name.len() == 0 { None } else { Some(after_last(name, "::"@)) }
    }
}

fn declared_constant(line: &str, keyword: &str) -> (r: Option<String>)
    ensures
        crate::collections::opt_str(r) == declared_constant_spec(line@, keyword@),
{
    if !str_starts_with(line, keyword) {
        return None;
    }
    let cs = chars_of(line);
    let n = crate::text::char_count(keyword);
    let rest = trim_start_str(sub_string(cs.as_slice(), n, cs.len()).as_str());
    let name = prefix_until_exec(rest.as_str(), 0);
    if crate::text::char_count(name.as_str()) == 0 {
        return None;
    }
    proof {
        reveal_strlit("::");
    }
    Some(after_last_of(name.as_str(), "::"))
}

/// The method a `def` line defines, without its receiver.
pub open spec fn declared_method_spec(line: Seq<char>) -> Option<Seq<char>> {
    if !starts_with(line, "def "@) {
        None
    } else {
        let name = prefix_until(trim_start_spec(line.skip(4)), method_stop());
        if name.len() == 0 { None } else { Some(after_last(name, "."@)) }
    }
}

fn declared_method(line: &str) -> (r: Option<String>)
    ensures
        crate::collections::opt_str(r) == declared_method_spec(line@),
{
    proof {
        reveal_strlit("def ");
        reveal_strlit(".");
    }
    if !str_starts_with(line, "def ") {
        return None;
    }
    let cs = chars_of(line);
    let rest = trim_start_str(sub_string(cs.as_slice(), 4, cs.len()).as_str());
    let name = prefix_until_exec(rest.as_str(), 1);
    if crate::text::char_count(name.as_str()) == 0 {
        return None;
    }
    Some(after_last_of(name.as_str(), "."))
}

/// What the lines so far gave: imports and defined names.
pub type RubyState = (Seq<ImportView>, Seq<Seq<char>>);

pub open spec fn ruby_import(st: RubyState, source: Seq<char>) -> RubyState {
    (st.0.push((source, ruby_local(source), (2u8, Seq::empty()), ImportKind::Esm, false)), st.1)
}

/// One more line: comments and blank lines say nothing; `require_relative`
/// and `require` add an import; `class`, `module` and `def` add a name.
pub open spec fn ruby_step(st: RubyState, raw: Seq<char>) -> RubyState {
    let line = trim_spec(raw);
    if starts_with(line, "#"@) || line.len() == 0 {
        st
    } else if let Some(src) = required_path_spec(line, "require_relative"@) {
        ruby_import(st, relative_source_spec(src))
    } else if let Some(src) = required_path_spec(line, "require"@) {
        ruby_import(st, src)
    } else if let Some(n) = declared_constant_spec(line, "class"@) {
        (st.0, st.1.push(n))
    } else if let Some(n) = declared_constant_spec(line, "module"@) {
        (st.0, st.1.push(n))
    } else if let Some(n) = declared_method_spec(line) {
        (st.0, st.1.push(n))
    } else {
        st
    }
}

pub open spec fn ruby_fold(lines: Seq<Seq<char>>) -> RubyState
    decreases lines.len(),
{
    if lines.len() == 0 {
        (Seq::empty(), Seq::empty())
    } else {
        ruby_step(ruby_fold(lines.drop_last()), lines.last())
    }
}

fn add_ruby_import(facts: &mut ModuleFacts, source: String)
    ensures
        import_views(final(facts).imports@) == import_views(old(facts).imports@).push(
            (source@, ruby_local(source@), (2u8, Seq::empty()), ImportKind::Esm, false),
        ),
        final(facts).file == old(facts).file,
        final(facts).exports == old(facts).exports,
        final(facts).reexports == old(facts).reexports,
        final(facts).used_locals == old(facts).used_locals,
        final(facts).jsx_locals == old(facts).jsx_locals,
        final(facts).namespace_member_usage == old(facts).namespace_member_usage,
        final(facts).jsx_namespace_member_usage == old(facts).jsx_namespace_member_usage,
        final(facts).warnings == old(facts).warnings,
{
    proof {
        reveal_strlit("/");
        reveal_strlit(".rb");
    }
    let last = after_last_of(source.as_str(), "/");
    let local = trim_end_matches(last.as_str(), ".rb");
    push_import(facts, source, local, ImportTarget::Namespace);
}

/// The facts of the Ruby file `path` with text `source`.
pub fn parse_ruby_module(path: &str, source: &str) -> (r: Result<ModuleFacts, String>)
    ensures
        r matches Ok(f) && line_facts(f, path@, ruby_fold(lines_spec(source@)).0, ruby_fold(lines_spec(source@)).1),
{
    let mut facts = ModuleFacts::empty(owned(path));
    let mut names: Vec<String> = Vec::new();
    let lines = lines_of(source);
    let ghost lv = str_views(lines@);
    let ghost f0 = facts;
    let mut k: usize = 0;
    proof {
        assert(lv.take(0) =~= Seq::<Seq<char>>::empty());
        assert(import_views(facts.imports@) =~= Seq::<ImportView>::empty());
        assert(str_views(names@) =~= Seq::<Seq<char>>::empty());
        reveal_strlit("#");
        reveal_strlit("require_relative");
        reveal_strlit("require");
        reveal_strlit("class");
        reveal_strlit("module");
    }
    while k < lines.len()
        invariant
            k <= lines@.len(),
            lv == str_views(lines@),
            lv == lines_spec(source@),
            f0.wf(),
            f0.file@ == path@,
            facts.file == f0.file,
            facts.reexports == f0.reexports,
            facts.used_locals == f0.used_locals,
            facts.jsx_locals == f0.jsx_locals,
            facts.namespace_member_usage == f0.namespace_member_usage,
            facts.jsx_namespace_member_usage == f0.jsx_namespace_member_usage,
            facts.warnings == f0.warnings,
            f0.reexports@.len() == 0,
            f0.used_locals@.len() == 0,
            f0.jsx_locals@.len() == 0,
            f0.namespace_member_usage.keys().len() == 0,
            f0.jsx_namespace_member_usage.keys().len() == 0,
            f0.warnings@.len() == 0,
            export_views(facts.exports@) == str_views(names@).map_values(|n: Seq<char>| (n, Some(n), crate::facts::ExportKind::Local)),
            (import_views(facts.imports@), str_views(names@)) == ruby_fold(lv.take(k as int)),
        decreases lines.len() - k,
    {
        proof {
            assert(lv.take(k + 1).drop_last() =~= lv.take(k as int));
            assert(lv.take(k + 1).last() == lines@[k as int]@);
        }
        let line = trim_str(lines[k].as_str());
        if !(str_starts_with(line.as_str(), "#") || crate::text::char_count(line.as_str()) == 0) {
            if let Some(src) = required_path(line.as_str(), "require_relative") {
                add_ruby_import(&mut facts, relative_source(src.as_str()));
            } else if let Some(src) = required_path(line.as_str(), "require") {
                add_ruby_import(&mut facts, src);
            } else {
                let name = match declared_constant(line.as_str(), "class") {
                    Some(n) => Some(n),
                    None => match declared_constant(line.as_str(), "module") {
                        Some(n) => Some(n),
                        None => declared_method(line.as_str()),
                    },
                };
                if let Some(n) = name {
                    let ghost nb = str_views(names@);
                    names.push(n.clone());
                    push_local_export(&mut facts, n);
                    proof {
                        assert(str_views(names@) =~= nb.push(names@[names@.len() - 1]@));
                    }
                }
            }
        }
        proof {
            assert(export_views(facts.exports@) =~= str_views(names@).map_values(|n: Seq<char>| (n, Some(n), crate::facts::ExportKind::Local)));
            assert((import_views(facts.imports@), str_views(names@)) =~~= ruby_fold(lv.take(k + 1)));
        }
        k = k + 1;
    }
    proof {
        assert(lv.take(lines@.len() as int) =~= lv);
    }
    use_import_locals(&mut facts);
    Ok(facts)
}

} // verus!
