//! The facts of a Python module from its statements: its imports, the names
//! it defines at the top level, and the names it re-exports.
use vstd::prelude::*;

use crate::facts::{ExportFact, ExportKind, ImportFact, ImportKind, ImportTarget, ModuleFacts, ReexportFact, ReexportTarget};
use crate::java_parse::{import_views, use_import_locals, ImportView};
use crate::js_facts::{facts_view, push_export_fact, push_import_fact, push_reexport_fact, rest_same, FactsView};
use crate::text::{chars_of, concat, concat3, find_char, first_pos, owned, repeat, repeat_char, str_eq, str_starts_with_char, sub_string};

use rustpython_parser::ast::{Alias, ExceptHandler, Expr, Identifier, Stmt, StmtImportFrom, Suite};
use rustpython_parser::Parse;

verus! {

/// An assignment target: a name, a tuple or list of targets, or anything
/// else (an attribute, a subscript).
pub enum PyTarget {
    Name(String),
    Sequence(Vec<PyTarget>),
    Other,
}

/// `name as asname` in an import.
pub struct PyAlias {
    pub name: String,
    pub asname: Option<String>,
}

/// A statement, as far as the facts read it.
pub enum PyStmt {
    /// A `def`, `async def` or `class`, and its body.
    Def { name: String, body: Vec<PyStmt> },
    /// An assignment (or annotated assignment) to its targets.
    Assign(Vec<PyTarget>),
    /// `import a.b as c, d`.
    Import(Vec<PyAlias>),
    /// `from ..module import a as b, *`.
    ImportFrom { level: usize, module: Option<String>, names: Vec<PyAlias> },
    /// A compound statement (`if`, `for`, `while`, `with`, `try`, `match`)
    /// and its suites.
    Compound(Vec<Vec<PyStmt>>),
    Other,
}

pub open spec fn nothing() -> (u8, Seq<char>) {
    (2u8, Seq::empty())
}

/// A top-level name is exported unless it starts with `_`.
pub open spec fn py_export(v: FactsView, name: Seq<char>) -> FactsView {
    if name.len() > 0 && name[0] == '_' {
        v
    } else {
        (v.0, v.1.push((name, Some(name), ExportKind::Local)), v.2)
    }
}

pub open spec fn py_target(v: FactsView, t: PyTarget) -> FactsView
    decreases t, 0nat,
{
    match t {
        PyTarget::Name(n) => py_export(v, n@),
        PyTarget::Sequence(items) => py_targets(v, items@),
        PyTarget::Other => v,
    }
}

pub open spec fn py_targets(v: FactsView, ts: Seq<PyTarget>) -> FactsView
    decreases ts, ts.len(),
{
    if ts.len() == 0 {
        v
    } else {
        py_target(py_targets(v, ts.drop_last()), ts.last())
    }
}

/// The first dotted segment of a module path.
pub open spec fn first_segment(name: Seq<char>) -> Seq<char> {
    if name.contains('.') {
        name.take(first_pos(name, '.'))
    } else {
        name
    }
}

pub open spec fn alias_local(a: PyAlias, default: Seq<char>) -> Seq<char> {
    match a.asname {
        Some(n) => n@,
        None => default,
    }
}

/// `import a.b`: the namespace bound under the alias, or the first segment.
pub open spec fn py_import(v: FactsView, names: Seq<PyAlias>) -> FactsView
    decreases names.len(),
{
    if names.len() == 0 {
        v
    } else {
        let r = py_import(v, names.drop_last());
        let a = names.last();
        (r.0.push((a.name@, alias_local(a, first_segment(a.name@)), nothing(), ImportKind::Esm, false)), r.1, r.2)
    }
}

pub open spec fn from_base(level: usize, module: Option<String>) -> Seq<char> {
    repeat_char('.', level as nat) + match module {
        Some(m) => m@,
        None => Seq::empty(),
    }
}

/// One name of `from base import name`.
pub open spec fn py_from_alias(v: FactsView, base: Seq<char>, has_module: bool, a: PyAlias) -> FactsView {
    let name = a.name@;
    if name == seq!['*'] {
        (v.0, v.1, v.2.push((base, (3u8, Seq::empty()), seq!['*'], true)))
    } else {
        let local = alias_local(a, name);
        let first = if has_module {
            (base, local, (0u8, name), ImportKind::Esm, false)
        } else {
            (base + name, local, nothing(), ImportKind::Esm, false)
        };
        let imports = if has_module {
            v.0.push(first).push((base + seq!['.'] + name, local, nothing(), ImportKind::Esm, true))
        } else {
            v.0.push(first)
        };
        (imports, v.1.push((local, Some(name), ExportKind::Reexport)), v.2)
    }
}

pub open spec fn py_import_from(v: FactsView, base: Seq<char>, has_module: bool, names: Seq<PyAlias>) -> FactsView
    decreases names.len(),
{
    if names.len() == 0 {
        v
    } else {
        py_from_alias(py_import_from(v, base, has_module, names.drop_last()), base, has_module, names.last())
    }
}

/// What a statement adds: at the top level its definitions and assignments
/// export names; at any depth its imports are collected.
pub open spec fn py_stmt(v: FactsView, s: PyStmt, top: bool) -> FactsView
    decreases s, 0nat,
{
    match s {
        PyStmt::Def { name, body } => py_stmts(if top { py_export(v, name@) } else { v }, body@, false),
        PyStmt::Assign(targets) => if top { py_targets(v, targets@) } else { v },
        PyStmt::Import(names) => py_import(v, names@),
        PyStmt::ImportFrom { level, module, names } => py_import_from(v, from_base(level, module), module is Some, names@),
        PyStmt::Compound(suites) => py_suites(v, suites@, top),
        PyStmt::Other => v,
    }
}

pub open spec fn py_stmts(v: FactsView, ss: Seq<PyStmt>, top: bool) -> FactsView
    decreases ss, ss.len(),
{
    if ss.len() == 0 {
        v
    } else {
        py_stmt(py_stmts(v, ss.drop_last(), top), ss.last(), top)
    }
}

pub open spec fn py_suites(v: FactsView, suites: Seq<Vec<PyStmt>>, top: bool) -> FactsView
    decreases suites, suites.len(),
{
    if suites.len() == 0 {
        v
    } else {
        py_stmts(py_suites(v, suites.drop_last(), top), suites.last()@, top)
    }
}

fn export_name(facts: &mut ModuleFacts, name: &String)
    ensures
        facts_view(*final(facts)) == py_export(facts_view(*old(facts)), name@),
        rest_same(*final(facts), *old(facts)),
{
    if str_starts_with_char(name.as_str(), '_') {
        return;
    }
    push_export_fact(facts, ExportFact { exported: name.clone(), local: Some(name.clone()), kind: ExportKind::Local });
}

fn collect_target(t: &PyTarget, facts: &mut ModuleFacts)
    ensures
        facts_view(*final(facts)) == py_target(facts_view(*old(facts)), *t),
        rest_same(*final(facts), *old(facts)),
    decreases t,
{
    match t {
        PyTarget::Name(n) => export_name(facts, n),
        PyTarget::Sequence(items) => {
            let ghost v0 = facts_view(*facts);
            let ghost f0 = *facts;
            let mut i: usize = 0;
            while i < items.len()
                invariant
                    *t == PyTarget::Sequence(*items),
                    i <= items@.len(),
                    facts_view(*facts) == py_targets(v0, items@.take(i as int)),
                    rest_same(*facts, f0),
                decreases items.len() - i,
            {
                proof {
                    assert(items@.take(i + 1).drop_last() =~= items@.take(i as int));
                    assert(items@.take(i + 1).last() == items@[i as int]);
                    assert((*t)->Sequence_0 == *items);
                    assert(decreases_to!(*t => (*t)->Sequence_0));
                }
                collect_target(&items[i], facts);
                i = i + 1;
            }
            proof {
                assert(items@.take(items@.len() as int) =~= items@);
            }
        },
        PyTarget::Other => {},
    }
}

fn first_segment_exec(name: &String) -> (r: String)
    ensures
        r@ == first_segment(name@),
{
    let cs = chars_of(name.as_str());
    match find_char(cs.as_slice(), '.') {
        Some(i) => {
            proof {
                crate::text::lemma_first_pos(name@, '.', i as int);
            }
            sub_string(cs.as_slice(), 0, i)
        },
        None => name.clone(),
    }
}

fn alias_local_exec(a: &PyAlias, default: String) -> (r: String)
    ensures
        r@ == alias_local(*a, default@),
{
    match &a.asname {
        Some(n) => n.clone(),
        None => default,
    }
}

fn collect_import(names: &Vec<PyAlias>, facts: &mut ModuleFacts)
    ensures
        facts_view(*final(facts)) == py_import(facts_view(*old(facts)), names@),
        rest_same(*final(facts), *old(facts)),
{
    let ghost v0 = facts_view(*facts);
    let ghost f0 = *facts;
    let mut i: usize = 0;
    while i < names.len()
        invariant
            i <= names@.len(),
            facts_view(*facts) == py_import(v0, names@.take(i as int)),
            rest_same(*facts, f0),
        decreases names.len() - i,
    {
        proof {
            assert(names@.take(i + 1).drop_last() =~= names@.take(i as int));
            assert(names@.take(i + 1).last() == names@[i as int]);
        }
        let a = &names[i];
        let local = alias_local_exec(a, first_segment_exec(&a.name));
        push_import_fact(
            facts,
            ImportFact { source: a.name.clone(), local, imported: ImportTarget::Namespace, kind: ImportKind::Esm, type_only: false },
        );
        i = i + 1;
    }
    proof {
        assert(names@.take(names@.len() as int) =~= names@);
    }
}

fn collect_from_alias(base: &String, module: &Option<String>, a: &PyAlias, facts: &mut ModuleFacts)
    ensures
        facts_view(*final(facts)) == py_from_alias(facts_view(*old(facts)), base@, module is Some, *a),
        rest_same(*final(facts), *old(facts)),
{
    proof {
        reveal_strlit("*");
        reveal_strlit(".");
    }
    if str_eq(a.name.as_str(), "*") {
        proof {
            assert("*"@ =~= seq!['*']);
        }
        push_reexport_fact(
            facts,
            ReexportFact { source: base.clone(), imported: ReexportTarget::All, exported: owned("*"), is_ambiguous: true },
        );
        return;
    }
    proof {
        assert("*"@ =~= seq!['*']);
        assert(a.name@ != seq!['*']);
    }
    let local = alias_local_exec(a, a.name.clone());
    match module {
        Some(_) => {
            push_import_fact(
                facts,
                ImportFact {
                    source: base.clone(),
                    local: local.clone(),
                    imported: ImportTarget::Name(a.name.clone()),
                    kind: ImportKind::Esm,
                    type_only: false,
                },
            );
            let dotted = concat3(base.as_str(), ".", a.name.as_str());
            proof {
                assert("."@ =~= seq!['.']);
            }
            push_import_fact(
                facts,
                ImportFact { source: dotted, local: local.clone(), imported: ImportTarget::Namespace, kind: ImportKind::Esm, type_only: true },
            );
        },
        None => {
            push_import_fact(
                facts,
                ImportFact {
                    source: concat(base.as_str(), a.name.as_str()),
                    local: local.clone(),
                    imported: ImportTarget::Namespace,
                    kind: ImportKind::Esm,
                    type_only: false,
                },
            );
        },
    }
    push_export_fact(facts, ExportFact { exported: local, local: Some(a.name.clone()), kind: ExportKind::Reexport });
}

fn collect_import_from(level: usize, module: &Option<String>, names: &Vec<PyAlias>, facts: &mut ModuleFacts)
    ensures
        facts_view(*final(facts)) == py_import_from(facts_view(*old(facts)), from_base(level, *module), module is Some, names@),
        rest_same(*final(facts), *old(facts)),
{
    let dots = repeat('.', level);
    let base = match module {
        Some(m) => concat(dots.as_str(), m.as_str()),
        None => dots,
    };
    proof {
        assert(base@ =~= from_base(level, *module));
    }
    let ghost v0 = facts_view(*facts);
    let ghost f0 = *facts;
    let mut i: usize = 0;
    while i < names.len()
        invariant
            i <= names@.len(),
            base@ == from_base(level, *module),
            facts_view(*facts) == py_import_from(v0, base@, module is Some, names@.take(i as int)),
            rest_same(*facts, f0),
        decreases names.len() - i,
    {
        proof {
            assert(names@.take(i + 1).drop_last() =~= names@.take(i as int));
            assert(names@.take(i + 1).last() == names@[i as int]);
        }
        collect_from_alias(&base, module, &names[i], facts);
        i = i + 1;
    }
    proof {
        assert(names@.take(names@.len() as int) =~= names@);
    }
}

fn collect_stmt(s: &PyStmt, top: bool, facts: &mut ModuleFacts)
    ensures
        facts_view(*final(facts)) == py_stmt(facts_view(*old(facts)), *s, top),
        rest_same(*final(facts), *old(facts)),
    decreases s,
{
    match s {
        PyStmt::Def { name, body } => {
            if top {
                export_name(facts, name);
            }
            let ghost v0 = facts_view(*facts);
            let ghost f0 = *facts;
            let mut i: usize = 0;
            while i < body.len()
                invariant
                    *s == (PyStmt::Def { name: *name, body: *body }),
                    i <= body@.len(),
                    facts_view(*facts) == py_stmts(v0, body@.take(i as int), false),
                    rest_same(*facts, f0),
                decreases body.len() - i,
            {
                proof {
                    assert(body@.take(i + 1).drop_last() =~= body@.take(i as int));
                    assert(body@.take(i + 1).last() == body@[i as int]);
                    assert((*s)->body == *body);
                    assert(decreases_to!(*s => (*s)->body));
                }
                collect_stmt(&body[i], false, facts);
                i = i + 1;
            }
            proof {
                assert(body@.take(body@.len() as int) =~= body@);
            }
        },
        PyStmt::Assign(targets) => {
            if top {
                let ghost v0 = facts_view(*facts);
                let ghost f0 = *facts;
                let mut i: usize = 0;
                while i < targets.len()
                    invariant
                        i <= targets@.len(),
                        facts_view(*facts) == py_targets(v0, targets@.take(i as int)),
                        rest_same(*facts, f0),
                    decreases targets.len() - i,
                {
                    proof {
                        assert(targets@.take(i + 1).drop_last() =~= targets@.take(i as int));
                        assert(targets@.take(i + 1).last() == targets@[i as int]);
                    }
                    collect_target(&targets[i], facts);
                    i = i + 1;
                }
                proof {
                    assert(targets@.take(targets@.len() as int) =~= targets@);
                }
            }
        },
        PyStmt::Import(names) => collect_import(names, facts),
        PyStmt::ImportFrom { level, module, names } => collect_import_from(*level, module, names, facts),
        PyStmt::Compound(suites) => {
            let ghost v0 = facts_view(*facts);
            let ghost f0 = *facts;
            let mut k: usize = 0;
            while k < suites.len()
                invariant
                    *s == PyStmt::Compound(*suites),
                    k <= suites@.len(),
                    facts_view(*facts) == py_suites(v0, suites@.take(k as int), top),
                    rest_same(*facts, f0),
                decreases suites.len() - k,
            {
                proof {
                    assert(suites@.take(k + 1).drop_last() =~= suites@.take(k as int));
                    assert(suites@.take(k + 1).last() == suites@[k as int]);
                }
                let suite = &suites[k];
                let ghost v1 = facts_view(*facts);
                let ghost f1 = *facts;
                let mut i: usize = 0;
                while i < suite.len()
                    invariant
                        *s == PyStmt::Compound(*suites),
                        k < suites@.len(),
                        *suite == suites@[k as int],
                        i <= suite@.len(),
                        facts_view(*facts) == py_stmts(v1, suite@.take(i as int), top),
                        rest_same(*facts, f1),
                    decreases suite.len() - i,
                {
                    proof {
                        assert(suite@.take(i + 1).drop_last() =~= suite@.take(i as int));
                        assert(suite@.take(i + 1).last() == suite@[i as int]);
                        assert((*s)->Compound_0 == *suites);
                        assert(decreases_to!(*s => (*s)->Compound_0));
                        assert(decreases_to!(suites@[k as int] => suites@[k as int]@));
                    }
                    collect_stmt(&suite[i], top, facts);
                    i = i + 1;
                }
                proof {
                    assert(suite@.take(suite@.len() as int) =~= suite@);
                }
                k = k + 1;
            }
            proof {
                assert(suites@.take(suites@.len() as int) =~= suites@);
            }
        },
        PyStmt::Other => {},
    }
}

/// The facts of the Python module `path` with the top-level statements
/// `suite`: every import's local counts as used.
pub fn parse_python_module(path: &str, suite: &Vec<PyStmt>) -> (r: Result<ModuleFacts, String>)
    ensures
        r matches Ok(f) && {
            let v = py_stmts((Seq::empty(), Seq::empty(), Seq::empty()), suite@, true);
            &&& f.wf()
            &&& f.file@ == path@
            &&& facts_view(f) == v
            &&& f.used_locals.set() == v.0.map_values(|i: ImportView| i.1).to_set()
            &&& f.jsx_locals@.len() == 0
            &&& f.namespace_member_usage.keys().len() == 0
            &&& f.jsx_namespace_member_usage.keys().len() == 0
            &&& f.warnings@.len() == 0
        },
{
    let mut facts = ModuleFacts::empty(owned(path));
    let ghost f0 = facts;
    proof {
        assert(facts_view(facts) =~= (Seq::<ImportView>::empty(), Seq::empty(), Seq::empty()));
        assert(facts_view(facts) == py_stmts(facts_view(f0), suite@.take(0), true));
    }
    let mut i: usize = 0;
    while i < suite.len()
        invariant
            i <= suite@.len(),
            facts_view(f0) == (Seq::<ImportView>::empty(), Seq::<crate::js_facts::ExportView>::empty(), Seq::<crate::js_facts::ReexportView>::empty()),
            facts_view(facts) == py_stmts(facts_view(f0), suite@.take(i as int), true),
            rest_same(facts, f0),
        decreases suite.len() - i,
    {
        proof {
            assert(suite@.take(i + 1).drop_last() =~= suite@.take(i as int));
            assert(suite@.take(i + 1).last() == suite@[i as int]);
        }
        collect_stmt(&suite[i], true, &mut facts);
        i = i + 1;
    }
    proof {
        assert(suite@.take(suite@.len() as int) =~= suite@);
    }
    let ghost before = facts;
    use_import_locals(&mut facts);
    proof {
        assert(import_views(facts.imports@) == facts_view(before).0);
        assert(facts_view(facts) == facts_view(before));
    }
    Ok(facts)
}

// ---------------------------------------------------------------------------
// Reading a Python source text with rustpython
// ---------------------------------------------------------------------------

#[verifier::external_type_specification]
#[verifier::external_body]
pub struct ExPyTextRange(rustpython_parser::text_size::TextRange);

#[verifier::external_type_specification]
#[verifier::external_body]
#[verifier::reject_recursive_types(R)]
pub struct ExPyStmt<R>(Stmt<R>);

#[verifier::external_type_specification]
#[verifier::external_body]
#[verifier::reject_recursive_types(R)]
pub struct ExPyExpr<R>(Expr<R>);

#[verifier::external_type_specification]
#[verifier::external_body]
#[verifier::reject_recursive_types(R)]
pub struct ExPyAlias<R>(Alias<R>);

#[verifier::external_type_specification]
#[verifier::external_body]
#[verifier::reject_recursive_types(R)]
pub struct ExPyExceptHandler<R>(ExceptHandler<R>);

#[verifier::external_type_specification]
#[verifier::external_body]
#[verifier::reject_recursive_types(R)]
pub struct ExPyStmtImportFrom<R>(StmtImportFrom<R>);

#[verifier::external_type_specification]
#[verifier::external_body]
pub struct ExPyIdentifier(Identifier);

/// An import alias as the library's; nothing is stated of it.
#[verifier::external_body]
fn ast_alias(alias: &Alias) -> PyAlias {
    PyAlias { name: alias.name.to_string(), asname: alias.asname.as_ref().map(|n| n.to_string()) }
}

/// An assignment target as the library's: a name, a tuple or list, or any
/// other expression as `Other`; nothing is stated of it.
#[verifier::external_body]
fn ast_target(expr: &Expr) -> PyTarget {
    match expr {
        Expr::Name(n) => PyTarget::Name(n.id.to_string()),
        Expr::Tuple(s) => PyTarget::Sequence(s.elts.iter().map(ast_target).collect()),
        Expr::List(s) => PyTarget::Sequence(s.elts.iter().map(ast_target).collect()),
        _ => PyTarget::Other,
    }
}

/// A suite of statements as the library's; nothing is stated of it.
#[verifier::external_body]
fn ast_suite(suite: &Vec<Stmt>) -> Vec<PyStmt> {
    suite.iter().map(ast_stmt).collect()
}

/// An `except` clause's body as the library's; nothing is stated of it.
#[verifier::external_body]
fn ast_handler(handler: &ExceptHandler) -> Vec<PyStmt> {
    match handler {
        ExceptHandler::ExceptHandler(h) => ast_suite(&h.body),
    }
}

/// A definition as the library's; nothing is stated of it.
#[verifier::external_body]
fn ast_def(name: &Identifier, body: &Vec<Stmt>) -> PyStmt {
    PyStmt::Def { name: name.to_string(), body: ast_suite(body) }
}

/// A `from .. import ..` statement as the library's; nothing is stated of
/// it.
#[verifier::external_body]
fn ast_import_from(i: &StmtImportFrom) -> PyStmt {
    PyStmt::ImportFrom {
        level: i.level.as_ref().map(|l| l.to_usize()).unwrap_or(0),
        module: i.module.as_ref().map(|m| m.to_string()),
        names: i.names.iter().map(ast_alias).collect(),
    }
}

/// A statement as the library's: definitions, assignments and imports
/// here, compound statements below; nothing is stated of it.
#[verifier::external_body]
fn ast_stmt(stmt: &Stmt) -> PyStmt {
    match stmt {
        Stmt::FunctionDef(d) => ast_def(&d.name, &d.body),
        Stmt::AsyncFunctionDef(d) => ast_def(&d.name, &d.body),
        Stmt::ClassDef(d) => ast_def(&d.name, &d.body),
        Stmt::Assign(a) => PyStmt::Assign(a.targets.iter().map(ast_target).collect()),
        Stmt::AnnAssign(a) => PyStmt::Assign(vec![ast_target(&a.target)]),
        Stmt::Import(i) => PyStmt::Import(i.names.iter().map(ast_alias).collect()),
        Stmt::ImportFrom(i) => ast_import_from(i),
        _ => ast_compound(stmt),
    }
}

/// A loop or `if` with its `else` suite, as the library's; nothing is
/// stated of it.
#[verifier::external_body]
fn ast_with_else(body: &Vec<Stmt>, orelse: &Vec<Stmt>) -> PyStmt {
    PyStmt::Compound(vec![ast_suite(body), ast_suite(orelse)])
}

/// A compound statement as the library's, with its suites; the rest below;
/// nothing is stated of it.
#[verifier::external_body]
fn ast_compound(stmt: &Stmt) -> PyStmt {
    match stmt {
        Stmt::If(s) => ast_with_else(&s.body, &s.orelse),
        Stmt::While(s) => ast_with_else(&s.body, &s.orelse),
        Stmt::For(s) => ast_with_else(&s.body, &s.orelse),
        Stmt::AsyncFor(s) => ast_with_else(&s.body, &s.orelse),
        Stmt::With(s) => PyStmt::Compound(vec![ast_suite(&s.body)]),
        Stmt::AsyncWith(s) => PyStmt::Compound(vec![ast_suite(&s.body)]),
        _ => ast_guarded(stmt),
    }
}

/// A `try` or `match` statement as the library's, with its suites; any
/// other statement as `Other`; nothing is stated of it.
#[verifier::external_body]
fn ast_guarded(stmt: &Stmt) -> PyStmt {
    match stmt {
        Stmt::Try(s) => PyStmt::Compound(ast_try(&s.body, &s.handlers, &s.orelse, &s.finalbody)),
        Stmt::TryStar(s) => PyStmt::Compound(ast_try(&s.body, &s.handlers, &s.orelse, &s.finalbody)),
        Stmt::Match(s) => PyStmt::Compound(s.cases.iter().map(|c| ast_suite(&c.body)).collect()),
        _ => PyStmt::Other,
    }
}

/// A `try` statement's suites: body, `else`, `finally`, then each handler's;
/// nothing is stated of it.
#[verifier::external_body]
fn ast_try(
    body: &Vec<Stmt>,
    handlers: &Vec<ExceptHandler>,
    orelse: &Vec<Stmt>,
    finalbody: &Vec<Stmt>,
) -> Vec<Vec<PyStmt>> {
    let mut suites = vec![ast_suite(body), ast_suite(orelse), ast_suite(finalbody)];
    suites.extend(handlers.iter().map(ast_handler));
    suites
}

/// The statements `Suite::parse` reads from a Python source text (with the
/// file's path for its messages), as the library describes them, or `None`
/// when it rejects the text.
pub uninterp spec fn spec_python_statements(source: Seq<char>, path: Seq<char>) -> Option<Seq<PyStmt>>;

/// Parses `source` with rustpython's `Suite::parse` and describes each
/// statement. The statements are named (a function of the text and path);
/// the parser's error message is passed on and not stated.
#[verifier::external_body]
fn parse_python_statements(source: &str, path: &str) -> (r: Result<Vec<PyStmt>, String>)
    ensures
        match r {
            Ok(v) => spec_python_statements(source@, path@) == Some(v@),
            Err(_) => spec_python_statements(source@, path@) is None,
        },
{
    match Suite::parse(source, path) {
        Ok(suite) => Ok(ast_suite(&suite)),
        Err(error) => Err(error.to_string()),
    }
}

/// The facts of the Python source text `source` of the file `path`: an
/// error naming the file (and the parser's message) when rustpython rejects
/// the text, else the facts of its statements.
pub fn parse_python_source(path: &str, source: &str) -> (r: Result<ModuleFacts, String>)
    ensures
        spec_python_statements(source@, path@) is None <==> r is Err,
        r matches Err(e) ==> ("failed to parse python module "@ + path@ + ": "@).is_prefix_of(e@),
        spec_python_statements(source@, path@) matches Some(suite) ==> r matches Ok(f) && {
            let v = py_stmts((Seq::empty(), Seq::empty(), Seq::empty()), suite, true);
            &&& f.wf()
            &&& f.file@ == path@
            &&& facts_view(f) == v
            &&& f.used_locals.set() == v.0.map_values(|i: ImportView| i.1).to_set()
            &&& f.jsx_locals@.len() == 0
            &&& f.namespace_member_usage.keys().len() == 0
            &&& f.jsx_namespace_member_usage.keys().len() == 0
            &&& f.warnings@.len() == 0
        },
{
    match parse_python_statements(source, path) {
        Ok(suite) => parse_python_module(path, &suite),
        Err(message) => {
            let m = concat(concat3("failed to parse python module ", path, ": ").as_str(), message.as_str());
            proof {
                assert(("failed to parse python module "@ + path@ + ": "@).is_prefix_of(m@)) by {
                    assert(m@.take(("failed to parse python module "@ + path@ + ": "@).len() as int) =~= "failed to parse python module "@ + path@ + ": "@);
                }
            }
            Err(m)
        },
    }
}

} // verus!
