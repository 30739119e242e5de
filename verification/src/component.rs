//! Single-file components (Vue, Svelte): their `<script>` blocks are read
//! together as one JavaScript/TypeScript module.
use vstd::prelude::*;

use crate::collections::str_views;
use crate::facts::{ExportFact, ExportKind, ModuleFacts};
use crate::java_parse::{export_views, import_views, ImportView};
use crate::js_facts::{js_facts_ok, module_facts_from_javascript_module, JsItem, JsRequireEvent, JsUsage};
use crate::paths::{extension, extension_spec, with_extension, with_extension_spec};
use crate::text::{
    chars_of, concat3, contains_seq, find_chars, first_occurrence, join, join_strings, occurs_at, owned,
    str_contains, string_of, sub_chars,
};

verus! {

/// The first position where `p` occurs in `s`, if any.
pub open spec fn find_spec(s: Seq<char>, p: Seq<char>) -> Option<int> {
    if exists|i: int| first_occurrence(s, p, i) {
        Some(choose|i: int| first_occurrence(s, p, i))
    } else {
        None
    }
}

pub open spec fn open_tag() -> Seq<char> {
    seq!['<', 's', 'c', 'r', 'i', 'p', 't']
}

pub open spec fn close_tag() -> Seq<char> {
    seq!['<', '/', 's', 'c', 'r', 'i', 'p', 't', '>']
}

/// The attributes of a `<script` tag ask for TypeScript.
pub open spec fn is_typescript_attrs(attrs: Seq<char>) -> bool {
    ||| contains_seq(attrs, "lang=\"ts\""@)
    ||| contains_seq(attrs, "lang='ts'"@)
    ||| contains_seq(attrs, "lang=ts"@)
    ||| contains_seq(attrs, "lang=\"tsx\""@)
    ||| contains_seq(attrs, "lang='tsx'"@)
    ||| contains_seq(attrs, "lang=tsx"@)
}

/// The bodies of the complete `<script ...>...</script>` blocks of `s` in
/// order, and whether a tag read on the way asks for TypeScript. Reading
/// stops at a tag that is never closed.
pub open spec fn component_scripts(s: Seq<char>) -> (Seq<Seq<char>>, bool)
    decreases s.len(),
{
    match find_spec(s, open_tag()) {
        None => (Seq::empty(), false),
        Some(a) => {
            let r1 = s.skip(a + 7);
            match find_spec(r1, seq!['>']) {
                None => (Seq::empty(), false),
                Some(t) => {
                    let ts = is_typescript_attrs(r1.take(t));
                    let r2 = r1.skip(t + 1);
                    match find_spec(r2, close_tag()) {
                        None => (Seq::empty(), ts),
                        Some(e) => {
                            let rest = component_scripts(r2.skip(e + 9));
                            (seq![r2.take(e)] + rest.0, ts || rest.1)
                        },
                    }
                },
            }
        },
    }
}

/// Two first occurrences are the same position.
pub proof fn lemma_first_occurrence_unique(s: Seq<char>, p: Seq<char>, i: int, j: int)
    requires
        first_occurrence(s, p, i),
        first_occurrence(s, p, j),
    ensures
        i == j,
{
    if i < j {
        assert(!occurs_at(s, p, i));
    } else if j < i {
        assert(!occurs_at(s, p, j));
    }
}

/// `find_chars` computes `find_spec`.
fn find_seq(s: &Vec<char>, p: &Vec<char>) -> (r: Option<usize>)
    ensures
        r matches Some(i) ==> find_spec(s@, p@) == Some(i as int) && i + p@.len() <= s@.len(),
        r is None ==> find_spec(s@, p@) is None,
{
    let r = find_chars(s.as_slice(), p.as_slice());
    proof {
        match r {
            Some(i) => {
                let c = choose|j: int| first_occurrence(s@, p@, j);
                lemma_first_occurrence_unique(s@, p@, i as int, c);
            },
            None => {
                assert forall|j: int| !first_occurrence(s@, p@, j) by {
                    if first_occurrence(s@, p@, j) {
                        assert(occurs_at(s@, p@, j));
                    }
                }
            },
        }
    }
    r
}

fn typescript_attrs(attrs: &str) -> (r: bool)
    ensures
        r == is_typescript_attrs(attrs@),
{
    str_contains(attrs, "lang=\"ts\"") || str_contains(attrs, "lang='ts'") || str_contains(attrs, "lang=ts")
        || str_contains(attrs, "lang=\"tsx\"") || str_contains(attrs, "lang='tsx'") || str_contains(attrs, "lang=tsx")
}

/// The script of a component: its `<script>` bodies joined by newlines, and
/// whether it is TypeScript.
pub struct ComponentScript {
    pub source: String,
    pub is_typescript: bool,
}

/// One step of reading a component's text.
enum ScriptStep {
    /// No further complete block; whether the last tag read asks for TypeScript.
    Stop(bool),
    /// A block's body, whether its tag asks for TypeScript, and the text after it.
    Block(String, bool, Vec<char>),
}

/// Reads the next `<script ...>...</script>` block of `rem`.
fn next_script(rem: &Vec<char>) -> (r: ScriptStep)
    ensures
        r matches ScriptStep::Stop(ts) ==> component_scripts(rem@) == (Seq::<Seq<char>>::empty(), ts),
        r matches ScriptStep::Block(body, ts, rest) ==> rest@.len() < rem@.len() && component_scripts(rem@) == (
            seq![body@] + component_scripts(rest@).0,
            ts || component_scripts(rest@).1,
        ),
{
    proof {
        reveal_strlit("<script");
        reveal_strlit(">");
        reveal_strlit("</script>");
    }
    let open = chars_of("<script");
    let gt = chars_of(">");
    let close = chars_of("</script>");
    proof {
        assert(open@ =~= open_tag());
        assert(gt@ =~= seq!['>']);
        assert(close@ =~= close_tag());
        assert(open@.len() == 7);
        assert(gt@.len() == 1);
        assert(close@.len() == 9);
    }
    let fa = find_seq(rem, &open);
    let a = match fa {
        Some(a) => a,
        None => {
            return ScriptStep::Stop(false);
        },
    };
    let n = rem.len();
    let r1 = sub_chars(rem.as_slice(), a + 7, n);
    proof {
        assert(r1@ =~= rem@.skip(a + 7));
    }
    let ft = find_seq(&r1, &gt);
    let t = match ft {
        Some(t) => t,
        None => {
            return ScriptStep::Stop(false);
        },
    };
    let n1 = r1.len();
    let attrs = string_of(sub_chars(r1.as_slice(), 0, t).as_slice());
    let ts = typescript_attrs(attrs.as_str());
    let r2 = sub_chars(r1.as_slice(), t + 1, n1);
    proof {
        assert(attrs@ =~= r1@.take(t as int));
        assert(r2@ =~= r1@.skip(t + 1));
    }
    let fe = find_seq(&r2, &close);
    let e = match fe {
        Some(e) => e,
        None => {
            return ScriptStep::Stop(ts);
        },
    };
    let n2 = r2.len();
    let body = string_of(sub_chars(r2.as_slice(), 0, e).as_slice());
    let rest = sub_chars(r2.as_slice(), e + 9, n2);
    proof {
        assert(body@ =~= r2@.take(e as int));
        assert(rest@ =~= r2@.skip(e + 9));
    }
    ScriptStep::Block(body, ts, rest)
}

/// The `<script>` blocks of a component's text.
pub fn extract_component_scripts(source: &str) -> (r: ComponentScript)
    ensures
        r.source@ == join(component_scripts(source@).0, seq!['\n']),
        r.is_typescript == component_scripts(source@).1,
{
    let mut rem = chars_of(source);
    let mut scripts: Vec<String> = Vec::new();
    let mut is_ts = false;
    loop
        invariant
            str_views(scripts@) + component_scripts(rem@).0 == component_scripts(source@).0,
            (is_ts || component_scripts(rem@).1) == component_scripts(source@).1,
        ensures
            str_views(scripts@) == component_scripts(source@).0,
            is_ts == component_scripts(source@).1,
        decreases rem@.len(),
    {
        let ghost r0 = rem@;
        match next_script(&rem) {
            ScriptStep::Stop(ts) => {
                is_ts = is_ts || ts;
                proof {
                    assert(str_views(scripts@) + component_scripts(r0).0 =~= str_views(scripts@));
                }
                break;
            },
            ScriptStep::Block(body, ts, rest) => {
                is_ts = is_ts || ts;
                let ghost before = str_views(scripts@);
                scripts.push(body);
                rem = rest;
                proof {
                    assert(str_views(scripts@) =~= before.push(body@));
                    assert(str_views(scripts@) + component_scripts(rem@).0 =~= before + component_scripts(r0).0);
                }
            },
        }
    }
    proof {
        reveal_strlit("\n");
    }
    let joined = join_strings(&scripts, "\n");
    proof {
        assert("\n"@ =~= seq!['\n']);
    }
    ComponentScript { source: joined, is_typescript: is_ts }
}

/// The path under which a component's script is parsed: the component's
/// path with `.js` or `.ts` added after its own extension.
pub open spec fn virtual_script_path_spec(path: Seq<char>, is_typescript: bool) -> Seq<char> {
    let own = match extension_spec(path) {
        Some(e) => e,
        None => "component"@,
    };
    with_extension_spec(path, own + "."@ + (if is_typescript { "ts"@ } else { "js"@ }))
}

pub fn component_virtual_script_path(path: &str, script: &ComponentScript) -> (r: String)
    ensures
        r@ == virtual_script_path_spec(path@, script.is_typescript),
{
    let own = match extension(path) {
        Some(e) => e,
        None => owned("component"),
    };
    let lang = if script.is_typescript { "ts" } else { "js" };
    let ext = concat3(own.as_str(), ".", lang);
    with_extension(path, ext.as_str())
}

/// The warning that says how a component of `kind` was read.
pub open spec fn component_warning(kind: Seq<char>) -> Seq<char> {
    "parsed "@ + kind + " script blocks as JavaScript/TypeScript"@
}

/// What a component's facts add to those of its script: a default export,
/// every import's local used, and a warning that names the kind.
pub open spec fn component_finish_ok(r: ModuleFacts, js: ModuleFacts, kind: Seq<char>) -> bool {
    &&& r.wf()
    &&& r.file == js.file
    &&& r.imports == js.imports
    &&& r.reexports == js.reexports
    &&& export_views(r.exports@) == export_views(js.exports@).push(("default"@, None, ExportKind::Default))
    &&& r.used_locals.set() == js.used_locals.set().union(import_views(js.imports@).map_values(|i: ImportView| i.1).to_set())
    &&& r.jsx_locals == js.jsx_locals
    &&& r.namespace_member_usage == js.namespace_member_usage
    &&& r.jsx_namespace_member_usage == js.jsx_namespace_member_usage
    &&& str_views(r.warnings@) == str_views(js.warnings@).push(component_warning(kind))
}

/// Adds to the facts of a component's script what the component itself
/// declares.
pub fn finish_component_facts(facts: ModuleFacts, kind: &str) -> (r: ModuleFacts)
    requires
        facts.wf(),
    ensures
        component_finish_ok(r, facts, kind@),
{
    let ghost js = facts;
    let mut facts = facts;
    facts.exports.push(ExportFact { exported: owned("default"), local: None, kind: ExportKind::Default });
    proof {
        assert(export_views(facts.exports@) =~= export_views(js.exports@).push(("default"@, None, ExportKind::Default)));
    }
    let ghost locals = import_views(js.imports@).map_values(|i: ImportView| i.1);
    let ghost f1 = facts;
    let mut k: usize = 0;
    proof {
        assert(facts.used_locals.set() =~= js.used_locals.set().union(locals.take(0).to_set()));
    }
    while k < facts.imports.len()
        invariant
            k <= facts.imports@.len(),
            facts.imports == js.imports,
            locals == import_views(js.imports@).map_values(|i: ImportView| i.1),
            facts.used_locals.wf(),
            facts.used_locals.set() == js.used_locals.set().union(locals.take(k as int).to_set()),
            facts.file == f1.file,
            facts.exports == f1.exports,
            facts.reexports == f1.reexports,
            facts.jsx_locals == f1.jsx_locals,
            facts.namespace_member_usage == f1.namespace_member_usage,
            facts.jsx_namespace_member_usage == f1.jsx_namespace_member_usage,
            facts.warnings == f1.warnings,
        decreases facts.imports.len() - k,
    {
        let local = facts.imports[k].local.clone();
        facts.used_locals.insert(local);
        proof {
            assert(locals[k as int] == facts.imports@[k as int].local@);
            assert(locals.take(k + 1) =~= locals.take(k as int).push(locals[k as int]));
            locals.take(k as int).lemma_push_to_set_commute(locals[k as int]);
            assert(facts.used_locals.set() =~= js.used_locals.set().union(locals.take(k + 1).to_set()));
        }
        k = k + 1;
    }
    proof {
        assert(locals.take(facts.imports@.len() as int) =~= locals);
    }
    let ghost w0 = str_views(facts.warnings@);
    let text = concat3("parsed ", kind, " script blocks as JavaScript/TypeScript");
    facts.warnings.push(text);
    proof {
        assert(str_views(facts.warnings@) =~= w0.push(component_warning(kind@)));
    }
    facts
}

/// The facts of the component `path` of `kind`, from what the syntax tree
/// of its script says (see `module_facts_from_javascript_module`).
pub fn parse_component_module(
    path: &str,
    kind: &str,
    items: &Vec<JsItem>,
    calls: &Vec<JsRequireEvent>,
    usage: JsUsage,
    dynamic: &Vec<String>,
    mocks: &Vec<String>,
) -> (r: Result<ModuleFacts, String>)
    ensures
        r matches Ok(f) && exists|js: ModuleFacts|
            #[trigger] js_facts_ok(js, path@, items@, calls@, usage, str_views(dynamic@), str_views(mocks@))
                && component_finish_ok(f, js, kind@),
{
    let js = module_facts_from_javascript_module(path, items, calls, usage, dynamic, mocks);
    match js {
        Ok(facts) => {
            let ghost j = facts;
            proof {
                assert(js_facts_ok(j, path@, items@, calls@, usage, str_views(dynamic@), str_views(mocks@)));
            }
            let f = finish_component_facts(facts, kind);
            proof {
                assert(component_finish_ok(f, j, kind@));

            }
            Ok(f)
        },
        Err(e) => Err(e),
    }
}

} // verus!
