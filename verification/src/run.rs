//! The decisions of one analysis run: which files the walk starts from and
//! with which exports, what the run warns about or refuses, and how the
//! result is put together.
use vstd::prelude::*;

use crate::analyze::{count_stars, reexport_ambiguous, relative_label, relative_label_spec, star_count};
use crate::collections::{set_at, set_map_get, set_map_view, str_less, str_lt, str_views, StrMap, StrSet};
use crate::facts::{ExportKind, ModuleFacts, ReexportFact, ReexportTarget};
use crate::analyze::{affected_packages, build_result, candidate_nodes, count_depths, edge_view, first_by_id, first_by_key, node_views, ResultMetadata};
use crate::graph::{tier_for, workspace_roots, AnalysisMode, AnalysisResult, AnalysisTarget, GraphEdge, ModuleState, Workspace};
use crate::impacts::{compute_root_impacts, root_impacts_ok};
use crate::walk::{edge_explains, reason_edge, run_bfs, walk_inputs_wf, walk_ok, walk_reasons_ok, AffectedStates, ConsumerLink, ImpactReason};
use crate::analyze::{indexes_modules, lemma_module_index_bound, module_index};
use crate::text::{concat, concat3, decimal, join, join_strings, owned, usize_to_string};
use crate::walk::file_marker;

verus! {

// ---------------------------------------------------------------------------
// The exports a changed file starts the walk with
// ---------------------------------------------------------------------------

/// A changed file starts with all its public exports, or with the marker
/// that stands for the whole file when it has none.
pub open spec fn root_exports_spec(st: ModuleState) -> Set<Seq<char>> {
    if st.public_exports@.len() == 0 {
        set![file_marker()]
    } else {
        st.public_exports.set()
    }
}

/// The exports the walk starts with when file `file` changed as a whole.
pub fn file_root_exports(file: usize, module_states: &Vec<ModuleState>) -> (r: StrSet)
    requires
        file < module_states@.len(),
        module_states@[file as int].wf(),
    ensures
        r.wf(),
        r.set() == root_exports_spec(module_states@[file as int]),
{
    let st = &module_states[file];
    if st.public_exports.is_empty() {
        let mut s = StrSet::new();
        let marker = owned("*file*");
        proof {
            reveal_strlit("*file*");
            assert(marker@ == file_marker());
        }
        s.insert(marker);
        proof {
            assert(s.set() =~= set![file_marker()]);
        }
        s
    } else {
        st.public_exports.copy()
    }
}

/// The locals bound to any of the export names `names`.
pub open spec fn related_locals(st: ModuleState, names: Seq<Seq<char>>) -> Set<Seq<char>> {
    Set::new(|l: Seq<char>| exists|j: int| 0 <= j < names.len() && #[trigger] set_at(set_map_view(&st.export_to_locals), names[j]).contains(l))
}

/// The export names `names` together with every other name exported from a
/// local that one of them is bound to (`export { a as b }` beside `export { a }`).
pub open spec fn expanded_exports(st: ModuleState, names: Seq<Seq<char>>) -> Set<Seq<char>> {
    names.to_set().union(
        Set::new(|e: Seq<char>| exists|l: Seq<char>| related_locals(st, names).contains(l) && #[trigger] set_at(set_map_view(&st.local_to_exports), l).contains(e)),
    )
}

spec fn locals_upto(m: Map<Seq<char>, Set<Seq<char>>>, names: Seq<Seq<char>>, k: int) -> Set<Seq<char>> {
    Set::new(|l: Seq<char>| exists|j: int| 0 <= j < k && #[trigger] set_at(m, names[j]).contains(l))
}

spec fn exports_upto(m: Map<Seq<char>, Set<Seq<char>>>, locals: Seq<Seq<char>>, k: int) -> Set<Seq<char>> {
    Set::new(|e: Seq<char>| exists|j: int| 0 <= j < k && #[trigger] set_at(m, locals[j]).contains(e))
}

/// The exports the walk starts with when the export names `names` of file
/// `file` changed; a file without a state starts with the names as given.
pub fn expanded_exports_for_root(file: usize, names: &Vec<String>, module_states: &Vec<ModuleState>) -> (r: StrSet)
    requires
        file < module_states@.len() ==> module_states@[file as int].wf(),
    ensures
        r.wf(),
        file < module_states@.len() ==> r.set() == expanded_exports(module_states@[file as int], str_views(names@)),
        file >= module_states@.len() ==> r.set() == str_views(names@).to_set(),
{
    if file >= module_states.len() {
        return StrSet::from_vec(names);
    }
    let st = &module_states[file];
    let ghost names_v = str_views(names@);
    let ghost m1 = set_map_view(&st.export_to_locals);
    let ghost m2 = set_map_view(&st.local_to_exports);
    let mut expanded = StrSet::from_vec(names);
    let mut locals = StrSet::new();
    let mut i: usize = 0;
    proof {
        assert(locals.set() =~= locals_upto(m1, names_v, 0));
    }
    while i < names.len()
        invariant
            i <= names@.len(),
            names_v == str_views(names@),
            st.wf(),
            m1 == set_map_view(&st.export_to_locals),
            locals.wf(),
            locals.set() == locals_upto(m1, names_v, i as int),
        decreases names.len() - i,
    {
        let ghost before = locals.set();
        match set_map_get(&st.export_to_locals, names[i].as_str()) {
            Some(rel) => {
                locals.extend(rel);
            },
            None => {},
        }
        proof {
            assert(names_v[i as int] == names@[i as int]@);
            assert(locals.set() =~= locals_upto(m1, names_v, i + 1)) by {
                assert forall|l: Seq<char>| locals_upto(m1, names_v, i + 1).contains(l) implies #[trigger] locals.set().contains(l) by {
                    let j = choose|j: int| 0 <= j < i + 1 && #[trigger] set_at(m1, names_v[j]).contains(l);
                    if j < i {
                        assert(before.contains(l));
                    }
                }
                assert forall|l: Seq<char>| #[trigger] locals.set().contains(l) implies locals_upto(m1, names_v, i + 1).contains(l) by {
                    if !before.contains(l) {
                        assert(set_at(m1, names_v[i as int]).contains(l));
                    }
                }
            }
        }
        i = i + 1;
    }
    let ghost locals_v = locals@;
    let ghost base = expanded.set();
    let mut k: usize = 0;
    proof {
        assert(base.union(exports_upto(m2, locals_v, 0)) =~= base);
    }
    while k < locals.len()
        invariant
            k <= locals@.len(),
            locals_v == locals@,
            st.wf(),
            m2 == set_map_view(&st.local_to_exports),
            expanded.wf(),
            expanded.set() == base.union(exports_upto(m2, locals_v, k as int)),
        decreases locals@.len() - k,
    {
        let ghost before = expanded.set();
        match set_map_get(&st.local_to_exports, locals.get(k).as_str()) {
            Some(ex) => {
                expanded.extend(ex);
            },
            None => {},
        }
        proof {
            assert(expanded.set() =~= base.union(exports_upto(m2, locals_v, k + 1))) by {
                assert forall|e: Seq<char>| exports_upto(m2, locals_v, k + 1).contains(e) implies #[trigger] expanded.set().contains(e) by {
                    let j = choose|j: int| 0 <= j < k + 1 && #[trigger] set_at(m2, locals_v[j]).contains(e);
                    if j < k {
                        assert(exports_upto(m2, locals_v, k as int).contains(e));
                    }
                }
                assert forall|e: Seq<char>| #[trigger] expanded.set().contains(e) && !base.contains(e) implies exports_upto(m2, locals_v, k + 1).contains(e) by {
                    if !before.contains(e) {
                        assert(set_at(m2, locals_v[k as int]).contains(e));
                    } else {
                        let j = choose|j: int| 0 <= j < k && #[trigger] set_at(m2, locals_v[j]).contains(e);
                        assert(set_at(m2, locals_v[j]).contains(e));
                    }
                }
            }
        }
        k = k + 1;
    }
    proof {
        let st_v = *st;
        assert(related_locals(st_v, names_v) =~= locals_v.to_set()) by {
            assert(locals_upto(m1, names_v, names_v.len() as int) =~= related_locals(st_v, names_v));
        }
        assert(expanded.set() =~= expanded_exports(st_v, names_v)) by {
            assert(base == names_v.to_set());
            assert forall|e: Seq<char>| #[trigger] exports_upto(m2, locals_v, locals_v.len() as int).contains(e) implies expanded_exports(st_v, names_v).contains(e) by {
                let j = choose|j: int| 0 <= j < locals_v.len() && #[trigger] set_at(m2, locals_v[j]).contains(e);
                assert(related_locals(st_v, names_v).contains(locals_v[j]));
            }
            assert forall|e: Seq<char>| #[trigger] expanded_exports(st_v, names_v).contains(e) && !names_v.to_set().contains(e) implies exports_upto(m2, locals_v, locals_v.len() as int).contains(e) by {
                let l = choose|l: Seq<char>| related_locals(st_v, names_v).contains(l) && #[trigger] set_at(m2, l).contains(e);
                assert(locals_v.to_set().contains(l));
                let j = choose|j: int| 0 <= j < locals_v.len() && locals_v[j] == l;
                assert(set_at(m2, locals_v[j]).contains(e));
            }
        }
    }
    expanded
}

// ---------------------------------------------------------------------------
// Checking the export a run asks about
// ---------------------------------------------------------------------------

/// The module re-exports everything from some other module.
pub open spec fn has_star_reexport(m: ModuleFacts) -> bool {
    exists|k: int| 0 <= k < m.reexports@.len() && (#[trigger] m.reexports@[k]).imported is All
}

/// The module assigns a CommonJS export value that binds no local name.
pub open spec fn has_opaque_commonjs(m: ModuleFacts) -> bool {
    exists|k: int| 0 <= k < m.exports@.len() && (#[trigger] m.exports@[k]).kind == ExportKind::CommonJs && m.exports@[k].local is None
}

/// The export `name` is not a known public export, but the module's exports
/// cannot all be known.
pub open spec fn export_unsure(st: ModuleState, m: ModuleFacts, name: Seq<char>) -> bool {
    !st.public_exports.set().contains(name) && (has_star_reexport(m) || has_opaque_commonjs(m) || st.public_exports@.len() == 0)
}

/// The export `name` provably does not exist.
pub open spec fn export_refused(st: ModuleState, m: ModuleFacts, name: Seq<char>) -> bool {
    !st.public_exports.set().contains(name) && !(has_star_reexport(m) || has_opaque_commonjs(m) || st.public_exports@.len() == 0)
}

pub open spec fn not_enumerable_warning(name: Seq<char>, label: Seq<char>) -> Seq<char> {
    "export '"@ + name + "' is not a statically-known export of "@ + label
        + "; continuing because the file's exports are not fully enumerable"@
}

pub open spec fn unknown_export_error(name: Seq<char>, label: Seq<char>, available: Seq<Seq<char>>) -> Seq<char> {
    "export '"@ + name + "' not found in "@ + label + "; available exports: "@ + join(available, ", "@)
}

/// The export `name` of module `file` may be walked from: it is a known
/// public export, or the module's exports cannot all be known, in which case
/// a warning says so. Otherwise the run is refused with the exports that are
/// known, in order.
pub fn validate_export_name(
    file: usize,
    export_name: &str,
    modules: &Vec<ModuleFacts>,
    module_states: &Vec<ModuleState>,
    repo_root: &str,
    warnings: &mut Vec<String>,
) -> (r: Result<(), String>)
    requires
        file < modules@.len(),
        file < module_states@.len(),
        module_states@[file as int].wf(),
    ensures
        ({
            let st = module_states@[file as int];
            let m = modules@[file as int];
            let label = relative_label_spec(repo_root@, m.file@);
            if !export_unsure(st, m, export_name@) && !export_refused(st, m, export_name@) {
                r is Ok && final(warnings)@ == old(warnings)@
            } else if export_unsure(st, m, export_name@) {
                &&& r is Ok
                &&& final(warnings)@.len() == old(warnings)@.len() + 1
                &&& final(warnings)@.take(old(warnings)@.len() as int) == old(warnings)@
                &&& final(warnings)@.last()@ == not_enumerable_warning(export_name@, label)
            } else {
                &&& r matches Err(e) && e@ == unknown_export_error(export_name@, label, st.public_exports@)
                &&& final(warnings)@ == old(warnings)@
            }
        }),
{
    let st = &module_states[file];
    let m = &modules[file];
    if st.public_exports.contains(export_name) {
        return Ok(());
    }
    let mut star = false;
    let mut k: usize = 0;
    while k < m.reexports.len()
        invariant
            k <= m.reexports@.len(),
            star == exists|j: int| 0 <= j < k && (#[trigger] m.reexports@[j]).imported is All,
        decreases m.reexports.len() - k,
    {
        if let ReexportTarget::All = m.reexports[k].imported {
            star = true;
        }
        k = k + 1;
    }
    let mut opaque = false;
    let mut k: usize = 0;
    while k < m.exports.len()
        invariant
            k <= m.exports@.len(),
            opaque == exists|j: int| 0 <= j < k && (#[trigger] m.exports@[j]).kind == ExportKind::CommonJs && m.exports@[j].local is None,
        decreases m.exports.len() - k,
    {
        if m.exports[k].kind == ExportKind::CommonJs && m.exports[k].local.is_none() {
            opaque = true;
        }
        k = k + 1;
    }
    let label = relative_label(repo_root, m.file.as_str());
    if star || opaque || st.public_exports.is_empty() {
        let text = concat(
            concat(concat(concat("export '", export_name).as_str(), "' is not a statically-known export of ").as_str(), label.as_str()).as_str(),
            "; continuing because the file's exports are not fully enumerable",
        );
        let ghost before = warnings@;
        warnings.push(text);
        proof {
            assert(warnings@.take(before.len() as int) =~= before);
        }
        return Ok(());
    }
    let available = join_strings(&st.public_exports.to_vec(), ", ");
    let text = concat(
        concat(concat(concat("export '", export_name).as_str(), "' not found in ").as_str(), label.as_str()).as_str(),
        concat("; available exports: ", available.as_str()).as_str(),
    );
    proof {
        assert(text@ =~= unknown_export_error(export_name@, label@, st.public_exports@));
    }
    Err(text)
}

// ---------------------------------------------------------------------------
// Run-level counts and warnings
// ---------------------------------------------------------------------------

/// How many of the re-exports `rs` are ambiguous, given the module's number
/// of star re-exports.
pub open spec fn ambiguous_count(rs: Seq<ReexportFact>, stars: nat) -> nat
    decreases rs.len(),
{
    if rs.len() == 0 {
        0
    } else {
        ambiguous_count(rs.drop_last(), stars) + if reexport_ambiguous(rs.last(), stars) { 1nat } else { 0nat }
    }
}

/// The ambiguous re-export edges of the first `n` modules: a star re-export
/// when its module has more than one, any other when it is marked so.
pub open spec fn total_ambiguous(ms: Seq<ModuleFacts>, n: nat) -> nat
    decreases n,
{
    if n == 0 {
        0
    } else {
        let m = ms[n - 1];
        total_ambiguous(ms, (n - 1) as nat) + ambiguous_count(m.reexports@, star_count(m.reexports@))
    }
}

/// The re-export facts of the first `n` modules.
pub open spec fn total_reexports(ms: Seq<ModuleFacts>, n: nat) -> nat
    decreases n,
{
    if n == 0 {
        0
    } else {
        total_reexports(ms, (n - 1) as nat) + ms[n - 1].reexports@.len()
    }
}

proof fn lemma_ambiguous_count_bound(rs: Seq<ReexportFact>, stars: nat)
    ensures
        ambiguous_count(rs, stars) <= rs.len(),
    decreases rs.len(),
{
    if rs.len() > 0 {
        lemma_ambiguous_count_bound(rs.drop_last(), stars);
    }
}

proof fn lemma_total_ambiguous_bound(ms: Seq<ModuleFacts>, n: nat)
    requires
        n <= ms.len(),
    ensures
        total_ambiguous(ms, n) <= total_reexports(ms, n),
    decreases n,
{
    if n > 0 {
        lemma_total_ambiguous_bound(ms, (n - 1) as nat);
        let m = ms[n - 1];
        lemma_ambiguous_count_bound(m.reexports@, star_count(m.reexports@));
    }
}

proof fn lemma_total_reexports_monotonic(ms: Seq<ModuleFacts>, i: nat, n: nat)
    requires
        i <= n <= ms.len(),
    ensures
        total_reexports(ms, i) <= total_reexports(ms, n),
    decreases n - i,
{
    if i < n {
        lemma_total_reexports_monotonic(ms, i, (n - 1) as nat);
    }
}

/// The number of ambiguous re-export edges in the repository.
pub fn ambiguous_edges(modules: &Vec<ModuleFacts>) -> (r: usize)
    requires
        total_reexports(modules@, modules@.len()) <= usize::MAX,
    ensures
        r == total_ambiguous(modules@, modules@.len()),
{
    let mut total: usize = 0;
    let mut i: usize = 0;
    while i < modules.len()
        invariant
            i <= modules@.len(),
            total_reexports(modules@, modules@.len()) <= usize::MAX,
            total == total_ambiguous(modules@, i as nat),
        decreases modules.len() - i,
    {
        let rs = &modules[i].reexports;
        let stars = count_stars(rs);
        let mut count: usize = 0;
        let mut k: usize = 0;
        while k < rs.len()
            invariant
                k <= rs@.len(),
                stars == star_count(rs@),
                count == ambiguous_count(rs@.take(k as int), stars as nat),
            decreases rs.len() - k,
        {
            proof {
                assert(rs@.take(k + 1).drop_last() =~= rs@.take(k as int));
                lemma_ambiguous_count_bound(rs@.take(k as int), stars as nat);
            }
            let amb = match rs[k].imported {
                ReexportTarget::All => stars > 1,
                _ => rs[k].is_ambiguous,
            };
            if amb {
                count = count + 1;
            }
            k = k + 1;
        }
        proof {
            assert(rs@.take(rs@.len() as int) =~= rs@);
            lemma_total_ambiguous_bound(modules@, (i + 1) as nat);
            lemma_total_reexports_monotonic(modules@, (i + 1) as nat, modules@.len());
        }
        total = total + count;
        i = i + 1;
    }
    total
}

pub open spec fn parse_failure_text(n: nat) -> Seq<char> {
    decimal(n) + " source file"@ + (if n == 1 { ""@ } else { "s"@ }) + " could not be parsed and "@
        + (if n == 1 { "was"@ } else { "were"@ }) + " skipped"@
}

/// The warning that heads a run in which `n` files could not be parsed.
pub fn parse_failure_warning(n: usize) -> (r: String)
    ensures
        r@ == parse_failure_text(n as nat),
{
    let count = usize_to_string(n);
    let text = if n == 1 {
        concat(concat(count.as_str(), " source file").as_str(), " could not be parsed and was skipped")
    } else {
        concat(concat(count.as_str(), " source files").as_str(), " could not be parsed and were skipped")
    };
    proof {
        reveal_strlit(" source file");
        reveal_strlit(" source files");
        reveal_strlit("");
        reveal_strlit("s");
        reveal_strlit(" could not be parsed and was skipped");
        reveal_strlit(" could not be parsed and were skipped");
        reveal_strlit(" could not be parsed and ");
        reveal_strlit("was");
        reveal_strlit("were");
        reveal_strlit(" skipped");
        assert(text@ =~= parse_failure_text(n as nat));
    }
    text
}

// ---------------------------------------------------------------------------
// From the changed files to the result
// ---------------------------------------------------------------------------

/// What a run gathered before the walk.
pub struct RunDiagnostics {
    pub warnings: Vec<String>,
    pub parse_failures: usize,
    pub unresolved_imports: usize,
    pub skipped_inputs: usize,
}

/// The run's warnings: the count of unparsable files first, when there are
/// any, then the rest in order.
pub open spec fn run_warnings(warnings: Seq<Seq<char>>, parse_failures: nat) -> Seq<Seq<char>> {
    if parse_failures > 0 {
        seq![parse_failure_text(parse_failures)] + warnings
    } else {
        warnings
    }
}

/// The result `r` summarises the walk `a`: its nodes, its downstream file
/// counts and its risk verdict.
pub open spec fn result_of_walk(
    r: AnalysisResult,
    a: AffectedStates,
    root: Seq<char>,
    modules: Seq<ModuleFacts>,
    states: Seq<ModuleState>,
    ws: Seq<Seq<char>>,
) -> bool {
    let n = modules.len();
    &&& node_views(r.nodes@) == first_by_id(candidate_nodes(root, modules, states, a, n))
    &&& r.summary.total_affected_files == count_depths(a, n, 1, usize::MAX)
    &&& r.summary.directly_affected_files == count_depths(a, n, 1, 1)
    &&& r.summary.transitively_affected_files == count_depths(a, n, 2, usize::MAX)
    &&& r.summary.risk_tier == tier_for(count_depths(a, n, 1, usize::MAX), affected_packages(root, modules, a, ws, n).len())
}

/// Walk from the changed files `roots` and put the result together: the
/// run's warnings and counts, the walk's nodes, edges and summary, and, when
/// more than one file changed, each file's own impact.
pub fn analyze_from_roots(
    mode: AnalysisMode,
    target: AnalysisTarget,
    repo_root: &String,
    source_file_count: usize,
    modules: &Vec<ModuleFacts>,
    module_states: &Vec<ModuleState>,
    reverse: &Vec<Vec<ConsumerLink>>,
    workspaces: Vec<Workspace>,
    diagnostics: RunDiagnostics,
    roots: Vec<(usize, StrSet)>,
) -> (r: AnalysisResult)
    requires
        walk_inputs_wf(roots@, modules@, module_states@, reverse@),
        total_reexports(modules@, modules@.len()) <= usize::MAX,
    ensures
        r.mode == mode,
        r.target == target,
        r.repo_root == *repo_root,
        r.source_file_count == source_file_count,
        str_views(r.warnings@) == run_warnings(str_views(diagnostics.warnings@), diagnostics.parse_failures as nat),
        r.summary.parse_failures == diagnostics.parse_failures,
        r.summary.unresolved_imports == diagnostics.unresolved_imports,
        r.summary.skipped_inputs == diagnostics.skipped_inputs,
        r.summary.ambiguous_edges == total_ambiguous(modules@, modules@.len()),
        r.workspaces == workspaces,
        roots@.len() <= 1 ==> r.roots@.len() == 0,
        roots@.len() > 1 ==> root_impacts_ok(r.roots@, roots@, repo_root@, modules@, module_states@, reverse@, workspace_roots(workspaces@)),
        exists|a: AffectedStates|
            #[trigger] walk_ok(a, roots@, modules@, module_states@, reverse@)
                && result_of_walk(r, a, repo_root@, modules@, module_states@, workspace_roots(workspaces@))
                && edges_explained(r, a, modules@, reverse@) && edges_from_walk(r, a, roots@, modules@, reverse@),
{
    let RunDiagnostics { warnings, parse_failures, unresolved_imports, skipped_inputs } = diagnostics;
    let mut warnings = warnings;
    let ambiguous = ambiguous_edges(modules);
    if parse_failures > 0 {
        let ghost before = warnings@;
        warnings.insert(0, parse_failure_warning(parse_failures));
        proof {
            assert(str_views(warnings@) =~= seq![parse_failure_text(parse_failures as nat)] + str_views(before));
        }
    }
    let (a, reasons) = run_bfs(&roots, modules, module_states, reverse);
    let ghost reasons_view = reasons@;
    let root_impacts = if roots.len() > 1 {
        compute_root_impacts(&roots, modules, module_states, reverse, &workspaces, repo_root.as_str())
    } else {
        Vec::new()
    };
    let ghost ws = workspace_roots(workspaces@);
    let metadata = ResultMetadata {
        mode,
        target,
        warnings,
        parse_failures,
        unresolved_imports,
        ambiguous_edges: ambiguous,
        skipped_inputs,
        workspaces,
        root_impacts,
    };
    let r = build_result(repo_root, source_file_count, modules, module_states, a, reasons, metadata);
    proof {
        crate::analyze::lemma_first_by_key_from(reasons_view);
        assert forall|j: int| 0 <= j < r.edges@.len() implies edge_explains(a, modules@, reverse@, #[trigger] edge_view(r.edges@[j])) by {
            assert(edge_view(r.edges@[j]) == r.edges@.map_values(|e: GraphEdge| edge_view(e))[j]);
            let x = choose|x: int| 0 <= x < reasons_view.len() && #[trigger] first_by_key(reasons_view)[j] == crate::analyze::reason_view(reasons_view[x]);
            assert(edge_explains(a, modules@, reverse@, reason_edge(reasons_view[x])));
        }
        assert(walk_ok(a, roots@, modules@, module_states@, reverse@) && result_of_walk(r, a, repo_root@, modules@, module_states@, ws));
        assert(walk_reasons_ok(a, roots@, modules@, reverse@, reasons_view));
        assert(edges_from_walk(r, a, roots@, modules@, reverse@));
    }
    r
}

/// The result's edges are a finished walk's edges (every live link between
/// reached files has one, and each explains a link), the first of each
/// key, in the order the walk found them.
pub open spec fn edges_from_walk(
    r: AnalysisResult,
    a: AffectedStates,
    roots: Seq<(usize, StrSet)>,
    modules: Seq<ModuleFacts>,
    reverse: Seq<Vec<ConsumerLink>>,
) -> bool {
    exists|rs: Seq<ImpactReason>|
        #[trigger] walk_reasons_ok(a, roots, modules, reverse, rs) && r.edges@.map_values(|e: GraphEdge| edge_view(e)) == first_by_key(rs)
}

/// Every edge of the result explains a consumer link between two files the
/// walk reached.
pub open spec fn edges_explained(r: AnalysisResult, a: AffectedStates, modules: Seq<ModuleFacts>, reverse: Seq<Vec<ConsumerLink>>) -> bool {
    forall|j: int| 0 <= j < r.edges@.len() ==> edge_explains(a, modules, reverse, #[trigger] edge_view(r.edges@[j]))
}

// ---------------------------------------------------------------------------
// Which files the walk starts from
// ---------------------------------------------------------------------------

/// Where the walk starts: the run's mode and target, each changed file with
/// the exports it changes, and how many inputs were skipped.
pub struct Plan {
    pub mode: AnalysisMode,
    pub target: AnalysisTarget,
    pub roots: Vec<(usize, StrSet)>,
    pub skipped_inputs: usize,
}

/// The roots are well formed and name modules.
pub open spec fn roots_wf(roots: Seq<(usize, StrSet)>, n: nat) -> bool {
    forall|j: int| 0 <= j < roots.len() ==> (#[trigger] roots[j]).0 < n && roots[j].1.wf()
}

pub open spec fn not_indexed_error(file: Seq<char>) -> Seq<char> {
    "source file not found in repository index: "@ + file
}

/// The position of the module whose file is `file`.
fn find_module(file: &String, index: &StrMap<usize>, modules: &Vec<ModuleFacts>) -> (r: Option<usize>)
    requires
        indexes_modules(*index, modules@),
    ensures
        r matches Some(i) ==> module_index(modules@, file@, modules@.len()) == Some(i as int),
        r is None <==> module_index(modules@, file@, modules@.len()) is None,
{
    match index.get(file.as_str()) {
        Some(i) => Some(*i),
        None => None,
    }
}

/// A run on the export `export_name` of `file`: the file must be a parsed
/// module and the export must pass `validate_export_name`; the walk starts
/// from the file with that export and every name exported from the same local.
pub fn plan_export(
    file: String,
    export_name: String,
    repo_root: &str,
    modules: &Vec<ModuleFacts>,
    module_states: &Vec<ModuleState>,
    index: &StrMap<usize>,
    warnings: &mut Vec<String>,
) -> (r: Result<Plan, String>)
    requires
        indexes_modules(*index, modules@),
        module_states@.len() == modules@.len(),
        forall|i: int| 0 <= i < module_states@.len() ==> (#[trigger] module_states@[i]).wf(),
    ensures
        match module_index(modules@, file@, modules@.len()) {
            None => r matches Err(e) && e@ == not_indexed_error(file@) && final(warnings)@ == old(warnings)@,
            Some(i) => {
                let st = module_states@[i];
                let m = modules@[i];
                let label = relative_label_spec(repo_root@, m.file@);
                if export_refused(st, m, export_name@) {
                    &&& r matches Err(e) && e@ == unknown_export_error(export_name@, label, st.public_exports@)
                    &&& final(warnings)@ == old(warnings)@
                } else {
                    &&& r matches Ok(p) && {
                        &&& p.mode == AnalysisMode::Export
                        &&& p.target == (AnalysisTarget::Export { file, export_name })
                        &&& p.skipped_inputs == 0
                        &&& p.roots@.len() == 1
                        &&& p.roots@[0].0 == i
                        &&& p.roots@[0].1.wf()
                        &&& p.roots@[0].1.set() == expanded_exports(st, seq![export_name@])
                    }
                    &&& if export_unsure(st, m, export_name@) {
                        &&& final(warnings)@.len() == old(warnings)@.len() + 1
                        &&& final(warnings)@.take(old(warnings)@.len() as int) == old(warnings)@
                        &&& final(warnings)@.last()@ == not_enumerable_warning(export_name@, label)
                    } else {
                        final(warnings)@ == old(warnings)@
                    }
                }
            },
        },
{
    proof {
        lemma_module_index_bound(modules@, file@, modules@.len());
    }
    let i = match find_module(&file, index, modules) {
        Some(i) => i,
        None => {
            return Err(concat("source file not found in repository index: ", file.as_str()));
        },
    };
    match validate_export_name(i, export_name.as_str(), modules, module_states, repo_root, warnings) {
        Ok(()) => {},
        Err(e) => {
            return Err(e);
        },
    }
    let names = vec![export_name.clone()];
    let exports = expanded_exports_for_root(i, &names, module_states);
    proof {
        assert(str_views(names@) =~= seq![export_name@]);
    }
    Ok(Plan {
        mode: AnalysisMode::Export,
        target: AnalysisTarget::Export { file, export_name },
        roots: vec![(i, exports)],
        skipped_inputs: 0,
    })
}

/// A run on the whole of `file`: the file must be a parsed module; the walk
/// starts from it with all its public exports.
pub fn plan_file(file: String, modules: &Vec<ModuleFacts>, module_states: &Vec<ModuleState>, index: &StrMap<usize>) -> (r: Result<
    Plan,
    String,
>)
    requires
        indexes_modules(*index, modules@),
        module_states@.len() == modules@.len(),
        forall|i: int| 0 <= i < module_states@.len() ==> (#[trigger] module_states@[i]).wf(),
    ensures
        match module_index(modules@, file@, modules@.len()) {
            None => r matches Err(e) && e@ == not_indexed_error(file@),
            Some(i) => r matches Ok(p) && {
                &&& p.mode == AnalysisMode::File
                &&& p.target == (AnalysisTarget::File { file })
                &&& p.skipped_inputs == 0
                &&& p.roots@.len() == 1
                &&& p.roots@[0].0 == i
                &&& p.roots@[0].1.wf()
                &&& p.roots@[0].1.set() == root_exports_spec(module_states@[i])
            },
        },
{
    proof {
        lemma_module_index_bound(modules@, file@, modules@.len());
    }
    let i = match find_module(&file, index, modules) {
        Some(i) => i,
        None => {
            return Err(concat("source file not found in repository index: ", file.as_str()));
        },
    };
    let exports = file_root_exports(i, module_states);
    Ok(Plan { mode: AnalysisMode::File, target: AnalysisTarget::File { file }, roots: vec![(i, exports)], skipped_inputs: 0 })
}

/// One path a multi-file run was given: as written, and as the filesystem
/// resolved it (`None` when it does not exist).
pub struct FileInput {
    pub input: String,
    pub resolved: Option<String>,
}

/// What the inputs so far select: the modules to start from, their paths,
/// the number skipped, the warnings, and every resolved path seen.
pub type Selection = (Seq<int>, Seq<Seq<char>>, nat, Seq<Seq<char>>, Set<Seq<char>>);

pub open spec fn missing_input_warning(input: Seq<char>) -> Seq<char> {
    "skipped input "@ + input + ": not found on disk"@
}

pub open spec fn unrecognized_input_warning(label: Seq<char>) -> Seq<char> {
    "skipped input "@ + label + ": not a recognized source file"@
}

/// The selection after one more input: a path that does not exist is
/// skipped with a warning, a path seen before is dropped, a path that is no
/// parsed module is skipped with a warning, and any other is selected.
pub open spec fn select_step(s: Selection, input: Seq<char>, resolved: Option<Seq<char>>, modules: Seq<ModuleFacts>, root: Seq<char>) -> Selection {
    match resolved {
        None => (s.0, s.1, s.2 + 1, s.3.push(missing_input_warning(input)), s.4),
        Some(f) => if s.4.contains(f) {
            s
        } else {
            match module_index(modules, f, modules.len()) {
                None => (s.0, s.1, s.2 + 1, s.3.push(unrecognized_input_warning(relative_label_spec(root, f))), s.4.insert(f)),
                Some(i) => (s.0.push(i), s.1.push(f), s.2, s.3, s.4.insert(f)),
            }
        },
    }
}

pub open spec fn input_view(f: FileInput) -> (Seq<char>, Option<Seq<char>>) {
    (f.input@, match f.resolved {
        Some(p) => Some(p@),
        None => None,
    })
}

/// The selection made by the inputs `inputs`, in order.
pub open spec fn selection(inputs: Seq<(Seq<char>, Option<Seq<char>>)>, modules: Seq<ModuleFacts>, root: Seq<char>) -> Selection
    decreases inputs.len(),
{
    if inputs.len() == 0 {
        (Seq::empty(), Seq::empty(), 0, Seq::empty(), Set::empty())
    } else {
        let last = inputs.last();
        select_step(selection(inputs.drop_last(), modules, root), last.0, last.1, modules, root)
    }
}

pub open spec fn no_sources_warning(n: nat) -> Seq<char> {
    "no recognized source files among "@ + decimal(n) + " input path"@ + (if n == 1 { ""@ } else { "s"@ })
}

pub proof fn lemma_selection_bounds(inputs: Seq<(Seq<char>, Option<Seq<char>>)>, modules: Seq<ModuleFacts>, root: Seq<char>)
    ensures
        selection(inputs, modules, root).2 <= inputs.len(),
        selection(inputs, modules, root).0.len() == selection(inputs, modules, root).1.len(),
        forall|j: int| 0 <= j < selection(inputs, modules, root).0.len() ==> 0 <= #[trigger] selection(inputs, modules, root).0[j] < modules.len(),
    decreases inputs.len(),
{
    if inputs.len() > 0 {
        lemma_selection_bounds(inputs.drop_last(), modules, root);
        let last = inputs.last();
        if let Some(f) = last.1 {
            lemma_module_index_bound(modules, f, modules.len());
        }
    }
}

/// A run on several changed files, as a hook manager hands them over:
/// missing paths and paths that are no parsed module are skipped with a
/// warning, repeated paths count once, and the walk starts from each
/// remaining file with all its public exports. When none remains, a warning
/// says so.
pub fn plan_files(
    inputs: &Vec<FileInput>,
    repo_root: &str,
    modules: &Vec<ModuleFacts>,
    module_states: &Vec<ModuleState>,
    index: &StrMap<usize>,
    warnings: &mut Vec<String>,
) -> (r: Plan)
    requires
        indexes_modules(*index, modules@),
        module_states@.len() == modules@.len(),
        forall|i: int| 0 <= i < module_states@.len() ==> (#[trigger] module_states@[i]).wf(),
    ensures
        ({
            let sel = selection(inputs@.map_values(|f: FileInput| input_view(f)), modules@, repo_root@);
            let extra = if sel.1.len() == 0 { seq![no_sources_warning(inputs@.len() as nat)] } else { Seq::empty() };
            &&& r.mode == AnalysisMode::Files
            &&& r.target matches AnalysisTarget::Files { files } && str_views(files@) == sel.1
            &&& r.skipped_inputs == sel.2
            &&& r.roots@.len() == sel.0.len()
            &&& forall|j: int|
                0 <= j < r.roots@.len() ==> (#[trigger] r.roots@[j]).0 == sel.0[j] && r.roots@[j].1.wf()
                    && r.roots@[j].1.set() == root_exports_spec(module_states@[sel.0[j]])
            &&& str_views(final(warnings)@) == str_views(old(warnings)@) + sel.3 + extra
        }),
{
    let ghost views = inputs@.map_values(|f: FileInput| input_view(f));
    let ghost w0 = str_views(warnings@);
    let mut roots: Vec<(usize, StrSet)> = Vec::new();
    let mut normalized: Vec<String> = Vec::new();
    let mut skipped: usize = 0;
    let mut seen = StrSet::new();
    let mut i: usize = 0;
    proof {
        assert(views.take(0) =~= Seq::<(Seq<char>, Option<Seq<char>>)>::empty());
        assert(str_views(warnings@) =~= w0 + Seq::<Seq<char>>::empty());
        assert(seen.set() =~= Set::<Seq<char>>::empty());
    }
    while i < inputs.len()
        invariant
            i <= inputs@.len(),
            views == inputs@.map_values(|f: FileInput| input_view(f)),
            indexes_modules(*index, modules@),
            module_states@.len() == modules@.len(),
            forall|k: int| 0 <= k < module_states@.len() ==> (#[trigger] module_states@[k]).wf(),
            seen.wf(),
            ({
                let sel = selection(views.take(i as int), modules@, repo_root@);
                &&& roots@.len() == sel.0.len()
                &&& forall|j: int|
                    0 <= j < roots@.len() ==> (#[trigger] roots@[j]).0 == sel.0[j] && roots@[j].1.wf()
                        && roots@[j].1.set() == root_exports_spec(module_states@[sel.0[j]])
                &&& str_views(normalized@) == sel.1
                &&& skipped == sel.2
                &&& str_views(warnings@) == w0 + sel.3
                &&& seen.set() == sel.4
            }),
        decreases inputs.len() - i,
    {
        let ghost prev = selection(views.take(i as int), modules@, repo_root@);
        proof {
            assert(views.take(i + 1).drop_last() =~= views.take(i as int));
            lemma_selection_bounds(views.take(i as int), modules@, repo_root@);
            assert(skipped <= i);
        }
        let item = &inputs[i];
        match &item.resolved {
            None => {
                skipped = skipped + 1;
                let ghost before = warnings@;
                warnings.push(concat(concat("skipped input ", item.input.as_str()).as_str(), ": not found on disk"));
                proof {
                    assert(str_views(warnings@) =~= str_views(before).push(missing_input_warning(item.input@)));
                }
            },
            Some(f) => {
                if !seen.contains(f.as_str()) {
                    seen.insert(f.clone());
                    proof {
                        lemma_module_index_bound(modules@, f@, modules@.len());
                    }
                    match index.get(f.as_str()) {
                        None => {
                            skipped = skipped + 1;
                            let label = relative_label(repo_root, f.as_str());
                            let ghost before = warnings@;
                            warnings.push(concat(concat("skipped input ", label.as_str()).as_str(), ": not a recognized source file"));
                            proof {
                                assert(str_views(warnings@) =~= str_views(before).push(unrecognized_input_warning(label@)));
                            }
                        },
                        Some(m) => {
                            let m = *m;
                            let exports = file_root_exports(m, module_states);
                            let ghost rb = roots@;
                            let ghost nb = normalized@;
                            roots.push((m, exports));
                            normalized.push(f.clone());
                            proof {
                                assert(str_views(normalized@) =~= str_views(nb).push(f@));
                            }
                        },
                    }
                }
            },
        }
        proof {
            let sel = selection(views.take(i + 1), modules@, repo_root@);
            assert(views[i as int] == input_view(inputs@[i as int]));
            assert(sel == select_step(prev, views[i as int].0, views[i as int].1, modules@, repo_root@));
        }
        i = i + 1;
    }
    proof {
        assert(views.take(inputs@.len() as int) =~= views);
    }
    if normalized.len() == 0 {
        let count = usize_to_string(inputs.len());
        let text = if inputs.len() == 1 {
            concat3("no recognized source files among ", count.as_str(), " input path")
        } else {
            concat3("no recognized source files among ", count.as_str(), " input paths")
        };
        proof {
            reveal_strlit(" input path");
            reveal_strlit(" input paths");
            reveal_strlit("");
            reveal_strlit("s");
            assert(text@ =~= no_sources_warning(inputs@.len() as nat));
        }
        let ghost before = warnings@;
        warnings.push(text);
        proof {
            assert(str_views(warnings@) =~= str_views(before).push(text@));
        }
    }
    proof {
        let sel = selection(views, modules@, repo_root@);
        let extra = if sel.1.len() == 0 { seq![no_sources_warning(inputs@.len() as nat)] } else { Seq::<Seq<char>>::empty() };
        assert(str_views(warnings@) =~= w0 + sel.3 + extra);
    }
    Plan { mode: AnalysisMode::Files, target: AnalysisTarget::Files { files: normalized }, roots, skipped_inputs: skipped }
}

// ---------------------------------------------------------------------------
// Workspace packages
// ---------------------------------------------------------------------------

/// The top-level `"name"` string of a package manifest, when its text is a
/// JSON document with one.
pub uninterp spec fn spec_manifest_name(contents: Seq<char>) -> Option<Seq<char>>;

/// Reads the top-level `"name"` string of a package manifest's text with
/// `serde_json::from_str` into a `serde_json::Value`, then `Value::get` and
/// `Value::as_str`. The contract only names the result: the same text always
/// gives the same name; what that name is (JSON syntax, escapes) is
/// serde_json's and is not stated.
#[verifier::external_body]
fn manifest_name(contents: &str) -> (r: Option<String>)
    ensures
        crate::collections::opt_str(r) == spec_manifest_name(contents@),
{
    serde_json::from_str::<serde_json::Value>(contents).ok().and_then(
        |value| value.get("name").and_then(|name| name.as_str()).map(|name| name.to_string()),
    )
}

/// The workspace a package manifest at `manifest` stands for, given its text
/// (`None` when it could not be read): its root is the manifest's directory
/// relative to the repository, its name the manifest's non-empty `"name"`,
/// else the root, else `.`. A manifest without a directory stands for none.
pub open spec fn workspace_of(root: Seq<char>, manifest: Seq<char>, contents: Option<Seq<char>>) -> Option<(Seq<char>, Seq<char>)> {
    match crate::paths::parent_spec(manifest) {
        None => None,
        Some(dir) => {
            let ws_root = relative_label_spec(root, dir);
            let declared = match contents {
                Some(c) => spec_manifest_name(c),
                None => None,
            };
            let name = match declared {
                Some(n) => if n.len() > 0 { n } else if ws_root.len() == 0 { "."@ } else { ws_root },
                None => if ws_root.len() == 0 { "."@ } else { ws_root },
            };
            Some((name, ws_root))
        },
    }
}

/// The workspaces of the first `n` manifests, in order.
pub open spec fn workspaces_of(root: Seq<char>, manifests: Seq<Seq<char>>, contents: Seq<Option<Seq<char>>>, n: nat) -> Seq<(Seq<char>, Seq<char>)>
    decreases n,
{
    if n == 0 {
        Seq::empty()
    } else {
        let rest = workspaces_of(root, manifests, contents, (n - 1) as nat);
        match workspace_of(root, manifests[n - 1], contents[n - 1]) {
            Some(w) => rest.push(w),
            None => rest,
        }
    }
}

pub open spec fn workspace_view(w: Workspace) -> (Seq<char>, Seq<char>) {
    (w.name@, w.root@)
}

/// `a` is looked up before `b`: its root is longer, or as long and smaller.
pub open spec fn workspace_before(a: Workspace, b: Workspace) -> bool {
    a.root@.len() > b.root@.len() || (a.root@.len() == b.root@.len() && str_lt(a.root@, b.root@))
}

pub open spec fn workspaces_ordered(s: Seq<Workspace>) -> bool {
    forall|i: int, j: int| 0 <= i < j < s.len() ==> !workspace_before(#[trigger] s[j], #[trigger] s[i])
}

proof fn lemma_workspace_before_transitive(a: Workspace, b: Workspace, c: Workspace)
    requires
        workspace_before(a, b),
        workspace_before(b, c),
    ensures
        workspace_before(a, c),
{
    if a.root@.len() == b.root@.len() && b.root@.len() == c.root@.len() {
        crate::collections::lemma_str_lt_transitive(a.root@, b.root@, c.root@);
    }
}

proof fn lemma_workspace_before_asymmetric(a: Workspace, b: Workspace)
    requires
        workspace_before(a, b),
    ensures
        !workspace_before(b, a),
{
    if a.root@.len() == b.root@.len() {
        crate::collections::lemma_str_lt_asymmetric(a.root@, b.root@);
    }
}

fn insert_workspace(out: &mut Vec<Workspace>, x: Workspace)
    requires
        workspaces_ordered(old(out)@),
    ensures
        workspaces_ordered(final(out)@),
        final(out)@.map_values(|w: Workspace| workspace_view(w)).to_multiset() == old(out)@.map_values(
            |w: Workspace| workspace_view(w),
        ).to_multiset().insert(workspace_view(x)),
{
    let xl = crate::text::char_count(x.root.as_str());
    let mut p: usize = 0;
    while p < out.len()
        invariant
            p <= out@.len(),
            xl == x.root@.len(),
            forall|k: int| 0 <= k < p ==> !workspace_before(x, #[trigger] out@[k]),
        ensures
            p <= out@.len(),
            forall|k: int| 0 <= k < p ==> !workspace_before(x, #[trigger] out@[k]),
            p < out@.len() ==> workspace_before(x, out@[p as int]),
        decreases out.len() - p,
    {
        let ol = crate::text::char_count(out[p].root.as_str());
        if xl > ol || (xl == ol && str_less(x.root.as_str(), out[p].root.as_str())) {
            break;
        }
        p = p + 1;
    }
    let ghost before = out@;
    proof {
        assert forall|k: int| p <= k < before.len() implies !workspace_before(#[trigger] before[k], x) by {
            if workspace_before(before[k], x) {
                if k == p {
                    lemma_workspace_before_asymmetric(x, before[k]);
                } else {
                    lemma_workspace_before_transitive(before[k], x, before[p as int]);
                }
            }
        }
    }
    let ghost xv = workspace_view(x);
    out.insert(p, x);
    proof {
        let bv = before.map_values(|w: Workspace| workspace_view(w));
        assert(out@.map_values(|w: Workspace| workspace_view(w)) =~= bv.insert(p as int, xv));
        vstd::seq_lib::to_multiset_insert(bv, p as int, xv);
        let s = out@;
        assert forall|i: int, j: int| 0 <= i < j < s.len() implies !workspace_before(#[trigger] s[j], #[trigger] s[i]) by {
            if j < p {
                assert(s[i] == before[i] && s[j] == before[j]);
            } else if j == p {
                assert(s[i] == before[i]);
            } else if i < p {
                assert(s[i] == before[i] && s[j] == before[j - 1]);
            } else if i == p {
                assert(s[j] == before[j - 1]);
            } else {
                assert(s[i] == before[i - 1] && s[j] == before[j - 1]);
            }
        }
    }
}

/// The workspace packages of the repository from its package manifests and
/// their texts (`None` where a text could not be read), longest root first
/// and then by root, so that the first owning root is the deepest.
pub fn collect_workspaces(repo_root: &str, package_jsons: &Vec<String>, contents: &Vec<Option<String>>) -> (r: Vec<Workspace>)
    requires
        contents@.len() == package_jsons@.len(),
    ensures
        workspaces_ordered(r@),
        r@.map_values(|w: Workspace| workspace_view(w)).to_multiset() == workspaces_of(
            repo_root@,
            str_views(package_jsons@),
            contents@.map_values(|c: Option<String>| crate::collections::opt_str(c)),
            package_jsons@.len() as nat,
        ).to_multiset(),
{
    let ghost manifests = str_views(package_jsons@);
    let ghost texts = contents@.map_values(|c: Option<String>| crate::collections::opt_str(c));
    let mut out: Vec<Workspace> = Vec::new();
    let mut i: usize = 0;
    proof {
        assert(out@.map_values(|w: Workspace| workspace_view(w)) =~= Seq::<(Seq<char>, Seq<char>)>::empty());
    }
    while i < package_jsons.len()
        invariant
            i <= package_jsons@.len(),
            contents@.len() == package_jsons@.len(),
            manifests == str_views(package_jsons@),
            texts == contents@.map_values(|c: Option<String>| crate::collections::opt_str(c)),
            workspaces_ordered(out@),
            out@.map_values(|w: Workspace| workspace_view(w)).to_multiset() == workspaces_of(repo_root@, manifests, texts, i as nat).to_multiset(),
        decreases package_jsons.len() - i,
    {
        let ghost prev = workspaces_of(repo_root@, manifests, texts, i as nat);
        match crate::paths::parent(package_jsons[i].as_str()) {
            None => {},
            Some(dir) => {
                let ws_root = relative_label(repo_root, dir.as_str());
                let declared = match &contents[i] {
                    Some(c) => manifest_name(c.as_str()),
                    None => None,
                };
                let fallback = if crate::text::char_count(ws_root.as_str()) == 0 {
                    owned(".")
                } else {
                    ws_root.clone()
                };
                let name = match declared {
                    Some(n) => if crate::text::char_count(n.as_str()) > 0 { n } else { fallback },
                    None => fallback,
                };
                let w = Workspace { name, root: ws_root };
                proof {
                    assert(texts[i as int] == crate::collections::opt_str(contents@[i as int]));
                    assert(workspace_of(repo_root@, manifests[i as int], texts[i as int]) == Some(workspace_view(w)));
                    vstd::seq_lib::to_multiset_build(prev, workspace_view(w));
                }
                insert_workspace(&mut out, w);
            },
        }
        i = i + 1;
    }
    out
}

} // verus!
