//! A whole analysis: from the parsed source files of a repository and the
//! command asked for, to the result the reports render.
use vstd::prelude::*;

use crate::analyze::{
    all_pairs, build_module_index, build_module_states, build_reverse_links, indexes_modules, lemma_module_index_bound, module_index,
    reverse_ok, state_of, ResolutionCache,
};
use crate::collections::{str_views, StrMap, StrSet};
use crate::config::RepoContext;
use crate::diagnostics::unresolved_import_diagnostics;
use crate::facts::ModuleFacts;
use crate::graph::{AnalysisMode, AnalysisResult, ModuleState};
use crate::language::Resolver;
use crate::manifest::PackageManifest;
use crate::paths::strip_prefix_path;
use crate::resolve::{ctx_indexes_repo, relative_to, ResolveCtx};
use crate::analyze::relative_label_spec;
use crate::diagnostics::{explain_lines, unresolved_hits};
use crate::graph::AnalysisTarget;
use crate::impacts::root_impacts_ok;
use crate::run::{
    export_unsure, no_sources_warning, not_enumerable_warning, run_warnings, total_ambiguous, Selection,
    analyze_from_roots, edges_explained, edges_from_walk, collect_workspaces, expanded_exports, export_refused, input_view, not_indexed_error, plan_export, plan_file,
    plan_files, lemma_selection_bounds, result_of_walk, root_exports_spec, roots_wf, selection, total_reexports, workspaces_of, FileInput, Plan,
    RunDiagnostics,
};
use crate::text::{concat, concat3, owned};
use crate::walk::{walk_ok, AffectedStates, ConsumerLink};

verus! {

// ---------------------------------------------------------------------------
// Loading
// ---------------------------------------------------------------------------

/// The parsed source files of a run, the warnings parsing raised, and how
/// many files could not be parsed.
pub struct LoadedModules {
    pub modules: Vec<ModuleFacts>,
    pub warnings: Vec<String>,
    pub parse_failures: usize,
}

/// What parsing one file gave: its facts, or why it could not be parsed.
pub struct ParsedFile {
    pub path: String,
    pub facts: Result<ModuleFacts, String>,
}

pub open spec fn file_warnings(root: Seq<char>, f: ParsedFile) -> Seq<Seq<char>> {
    let label = relative_to(f.path@, root);
    match f.facts {
        Ok(m) => str_views(m.warnings@).map_values(|w: Seq<char>| label + ": "@ + w),
        Err(e) => seq!["skipped "@ + label + ": "@ + e@],
    }
}

/// The warnings of the files in order: each parsed file's own, under its
/// path, and a line for each file that could not be parsed.
pub open spec fn load_warnings(root: Seq<char>, files: Seq<ParsedFile>) -> Seq<Seq<char>>
    decreases files.len(),
{
    if files.len() == 0 {
        Seq::empty()
    } else {
        load_warnings(root, files.drop_last()) + file_warnings(root, files.last())
    }
}

/// The facts of the files that parsed, in order.
pub open spec fn parsed_modules(files: Seq<ParsedFile>) -> Seq<ModuleFacts>
    decreases files.len(),
{
    if files.len() == 0 {
        Seq::empty()
    } else {
        parsed_modules(files.drop_last()) + match files.last().facts {
            Ok(m) => seq![m],
            Err(_) => Seq::empty(),
        }
    }
}

pub open spec fn failures(files: Seq<ParsedFile>) -> nat
    decreases files.len(),
{
    if files.len() == 0 {
        0
    } else {
        failures(files.drop_last()) + if files.last().facts is Err { 1nat } else { 0nat }
    }
}

proof fn lemma_failures_bound(files: Seq<ParsedFile>)
    ensures
        failures(files) <= files.len(),
    decreases files.len(),
{
    if files.len() > 0 {
        lemma_failures_bound(files.drop_last());
    }
}

fn label_of(repo_root: &str, path: &str) -> (r: String)
    ensures
        r@ == relative_to(path@, repo_root@),
{
    match strip_prefix_path(path, repo_root) {
        Some(r) => r,
        None => owned(path),
    }
}

/// Gathers what parsing the source files gave, in order.
pub fn load_modules(repo_root: &str, files: Vec<ParsedFile>) -> (r: LoadedModules)
    ensures
        r.modules@ == parsed_modules(files@),
        str_views(r.warnings@) == load_warnings(repo_root@, files@),
        r.parse_failures == failures(files@),
{
    let ghost fs = files@;
    let mut modules: Vec<ModuleFacts> = Vec::new();
    let mut warnings: Vec<String> = Vec::new();
    let mut parse_failures: usize = 0;
    let mut files = files;
    let mut rest: Vec<ParsedFile> = Vec::new();
    // Take the files from the back and keep them in order.
    while files.len() > 0
        invariant
            fs == files@ + rest@.reverse(),
        decreases files.len(),
    {
        let f = files.pop().unwrap();
        let ghost r0 = rest@;
        rest.push(f);
        proof {
            assert(rest@.reverse() =~= seq![f] + r0.reverse());
        }
    }
    proof {
        assert(fs =~= rest@.reverse());
    }
    let mut i: usize = 0;
    let n = rest.len();
    while rest.len() > 0
        invariant
            n == fs.len(),
            i + rest@.len() == n,
            fs =~= fs.take(i as int) + rest@.reverse(),
            modules@ == parsed_modules(fs.take(i as int)),
            str_views(warnings@) == load_warnings(repo_root@, fs.take(i as int)),
            parse_failures == failures(fs.take(i as int)),
        decreases rest.len(),
    {
        let f = rest.pop().unwrap();
        proof {
            assert(fs[i as int] == f);
            assert(fs.take(i + 1).drop_last() =~= fs.take(i as int));
            assert(fs.take(i + 1).last() == f);
            lemma_failures_bound(fs.take(i as int));
        }
        let label = label_of(repo_root, f.path.as_str());
        match f.facts {
            Ok(m) => {
                let ghost w0 = str_views(warnings@);
                let mut k: usize = 0;
                while k < m.warnings.len()
                    invariant
                        k <= m.warnings@.len(),
                        str_views(warnings@) == w0 + str_views(m.warnings@).take(k as int).map_values(
                            |w: Seq<char>| label@ + ": "@ + w,
                        ),
                    decreases m.warnings.len() - k,
                {
                    let line = concat3(label.as_str(), ": ", m.warnings[k].as_str());
                    let ghost before = str_views(warnings@);
                    warnings.push(line);
                    proof {
                        assert(str_views(warnings@) =~= before.push(line@));
                        assert(str_views(m.warnings@).take(k + 1) =~= str_views(m.warnings@).take(k as int).push(m.warnings@[k as int]@));
                        assert(str_views(warnings@) =~= w0 + str_views(m.warnings@).take(k + 1).map_values(
                            |w: Seq<char>| label@ + ": "@ + w,
                        ));
                    }
                    k = k + 1;
                }
                proof {
                    assert(str_views(m.warnings@).take(m.warnings@.len() as int) =~= str_views(m.warnings@));
                }
                let ghost m0 = modules@;
                modules.push(m);
                proof {
                    assert(modules@ =~= m0 + seq![m]);
                }
            },
            Err(e) => {
                let ghost before = str_views(warnings@);
                let line = concat(concat3("skipped ", label.as_str(), ": ").as_str(), e.as_str());
                warnings.push(line);
                parse_failures = parse_failures + 1;
                proof {
                    assert(str_views(warnings@) =~= before + seq![line@]);
                    assert(modules@ =~= modules@ + Seq::<ModuleFacts>::empty());
                }
            },
        }
        i = i + 1;
    }
    proof {
        assert(fs.take(i as int) =~= fs);
    }
    LoadedModules { modules, warnings, parse_failures }
}

// ---------------------------------------------------------------------------
// The run
// ---------------------------------------------------------------------------

/// What to analyze, with each path as the filesystem resolved it.
pub enum AnalysisCommand {
    /// Everything that depends on one export of a file.
    Export { file: String, export_name: String },
    /// Everything that depends on a file.
    File { file: String },
    /// Everything that depends on each of several files.
    Files { inputs: Vec<FileInput> },
}

/// The inputs are what the library's own constructors and parsers make.
pub open spec fn inputs_wf(context: RepoContext, cargo_manifests: StrMap<String>, modules: Seq<ModuleFacts>) -> bool {
    &&& cargo_manifests.wf()
    &&& forall|i: int| 0 <= i < context.tsconfigs@.len() ==> (#[trigger] context.tsconfigs@[i]).compiler_options.wf()
    &&& forall|i: int| 0 <= i < modules.len() ==> (#[trigger] modules[i]).wf()
    &&& total_reexports(modules, modules.len()) <= usize::MAX
}

pub open spec fn malformed_error() -> Seq<char> {
    "malformed input: index or module facts not well formed"@
}

/// The files the walk starts from, with the exports each changes, for a
/// command that names files the index knows.
pub open spec fn roots_for(
    command: AnalysisCommand,
    roots: Seq<(usize, StrSet)>,
    modules: Seq<ModuleFacts>,
    states: Seq<ModuleState>,
    root: Seq<char>,
) -> bool {
    &&& forall|j: int| 0 <= j < roots.len() ==> (#[trigger] roots[j]).1.wf()
    &&& match command {
        AnalysisCommand::Export { file, export_name } => match module_index(modules, file@, modules.len()) {
            Some(i) => roots.len() == 1 && roots[0].0 == i && roots[0].1.set() == expanded_exports(states[i], seq![export_name@]),
            None => false,
        },
        AnalysisCommand::File { file } => match module_index(modules, file@, modules.len()) {
            Some(i) => roots.len() == 1 && roots[0].0 == i && roots[0].1.set() == root_exports_spec(states[i]),
            None => false,
        },
        AnalysisCommand::Files { inputs } => {
            let sel = selection(inputs@.map_values(|f: FileInput| input_view(f)), modules, root);
            &&& roots.len() == sel.0.len()
            &&& forall|j: int|
                0 <= j < roots.len() ==> (#[trigger] roots[j]).0 == sel.0[j] && roots[j].1.set() == root_exports_spec(
                    states[sel.0[j]],
                )
        },
    }
}

pub open spec fn mode_of(command: AnalysisCommand) -> AnalysisMode {
    match command {
        AnalysisCommand::Export { .. } => AnalysisMode::Export,
        AnalysisCommand::File { .. } => AnalysisMode::File,
        AnalysisCommand::Files { .. } => AnalysisMode::Files,
    }
}

pub open spec fn files_selection(inputs: Vec<FileInput>, modules: Seq<ModuleFacts>, root: Seq<char>) -> Selection {
    selection(inputs@.map_values(|f: FileInput| input_view(f)), modules, root)
}

/// The warnings the command itself adds: an export that cannot be checked,
/// or the inputs of a multi-file run that were skipped (and a line when
/// none was left).
pub open spec fn command_warnings(
    command: AnalysisCommand,
    modules: Seq<ModuleFacts>,
    states: Seq<ModuleState>,
    root: Seq<char>,
) -> Seq<Seq<char>> {
    match command {
        AnalysisCommand::Export { file, export_name } => match module_index(modules, file@, modules.len()) {
            Some(i) => if export_unsure(states[i], modules[i], export_name@) {
                seq![not_enumerable_warning(export_name@, relative_label_spec(root, modules[i].file@))]
            } else {
                Seq::empty()
            },
            None => Seq::empty(),
        },
        AnalysisCommand::File { .. } => Seq::empty(),
        AnalysisCommand::Files { inputs } => {
            let sel = files_selection(inputs, modules, root);
            sel.3 + if sel.1.len() == 0 { seq![no_sources_warning(inputs@.len() as nat)] } else { Seq::empty() }
        },
    }
}

/// What the result says was analyzed, and how many inputs were skipped.
pub open spec fn target_ok(r: AnalysisTarget, skipped: usize, command: AnalysisCommand, modules: Seq<ModuleFacts>, root: Seq<char>) -> bool {
    match command {
        AnalysisCommand::Export { file, export_name } => r == (AnalysisTarget::Export { file, export_name }) && skipped == 0,
        AnalysisCommand::File { file } => r == (AnalysisTarget::File { file }) && skipped == 0,
        AnalysisCommand::Files { inputs } => {
            let sel = files_selection(inputs, modules, root);
            &&& r matches AnalysisTarget::Files { files } && str_views(files@) == sel.1
            &&& skipped == sel.2
        },
    }
}

/// The unresolved imports the index leaves, and their explanation when one
/// was asked for.
pub open spec fn unresolved_text(
    ctx: ResolveCtx,
    modules: Seq<ModuleFacts>,
    ignore: Seq<Seq<char>>,
    root: Seq<char>,
    explain: bool,
) -> Seq<Seq<char>> {
    let h = unresolved_hits(ctx, modules, ignore, modules.len());
    if explain && h.len() > 0 {
        explain_lines(h, root)
    } else {
        Seq::empty()
    }
}

/// The result is the walk from the command's files through the consumer
/// links the resolver finds between the modules.
pub open spec fn run_result_ok(
    r: AnalysisResult,
    command: AnalysisCommand,
    explain_unresolved: bool,
    context: RepoContext,
    manifests: Seq<PackageManifest>,
    cargo_manifests: StrMap<String>,
    loaded: LoadedModules,
    ws: Seq<Seq<char>>,
) -> bool {
    let modules = loaded.modules@;
    let n = modules.len();
    let root = context.repo_root@;
    exists|ctx: ResolveCtx, states: Seq<ModuleState>, reverse: Seq<Vec<ConsumerLink>>, roots: Seq<(usize, StrSet)>, a: AffectedStates|
        #![trigger walk_ok(a, roots, modules, states, reverse), ctx_indexes_repo(ctx, context, manifests, cargo_manifests)]
        {
            &&& ctx_indexes_repo(ctx, context, manifests, cargo_manifests)
            &&& states.len() == n
            &&& forall|i: int| 0 <= i < n ==> state_of(#[trigger] states[i], modules[i])
            &&& reverse_ok(reverse, all_pairs(ctx, modules, states, n), n as int)
            &&& roots_for(command, roots, modules, states, root)
            &&& walk_ok(a, roots, modules, states, reverse)
            &&& result_of_walk(r, a, root, modules, states, ws)
            &&& edges_explained(r, a, modules, reverse)
            &&& edges_from_walk(r, a, roots, modules, reverse)
            &&& roots.len() <= 1 ==> r.roots@.len() == 0
            &&& roots.len() > 1 ==> root_impacts_ok(r.roots@, roots, root, modules, states, reverse, ws)
            &&& r.summary.unresolved_imports == unresolved_hits(ctx, modules, str_views(context.ignore_unresolved@), n).len()
            &&& str_views(r.warnings@) == run_warnings(
                str_views(context.warnings@) + str_views(loaded.warnings@) + unresolved_text(
                    ctx,
                    modules,
                    str_views(context.ignore_unresolved@),
                    root,
                    explain_unresolved,
                ) + command_warnings(command, modules, states, root),
                loaded.parse_failures as nat,
            )
        }
}

fn check_inputs(context: &RepoContext, cargo_manifests: &StrMap<String>, modules: &Vec<ModuleFacts>) -> (r: bool)
    ensures
        r == inputs_wf(*context, *cargo_manifests, modules@),
{
    if !cargo_manifests.is_wf() {
        return false;
    }
    let mut i: usize = 0;
    while i < context.tsconfigs.len()
        invariant
            i <= context.tsconfigs@.len(),
            forall|j: int| 0 <= j < i ==> (#[trigger] context.tsconfigs@[j]).compiler_options.wf(),
        decreases context.tsconfigs.len() - i,
    {
        if !context.tsconfigs[i].compiler_options.paths.is_wf() {
            return false;
        }
        i = i + 1;
    }
    let mut k: usize = 0;
    let mut total: usize = 0;
    while k < modules.len()
        invariant
            k <= modules@.len(),
            forall|j: int| 0 <= j < k ==> (#[trigger] modules@[j]).wf(),
            total == total_reexports(modules@, k as nat),
        decreases modules.len() - k,
    {
        if !modules[k].is_wf() {
            return false;
        }
        let more = modules[k].reexports.len();
        if more > usize::MAX - total {
            proof {
                lemma_total_reexports_grows(modules@, (k + 1) as nat, modules@.len());
            }
            return false;
        }
        total = total + more;
        k = k + 1;
    }
    true
}

proof fn lemma_total_reexports_grows(ms: Seq<ModuleFacts>, a: nat, b: nat)
    requires
        a <= b <= ms.len(),
    ensures
        total_reexports(ms, a) <= total_reexports(ms, b),
    decreases b - a,
{
    if a < b {
        lemma_total_reexports_grows(ms, a, (b - 1) as nat);
    }
}

/// The plan of a command: where the walk starts, or why it cannot.
fn plan_command(
    command: AnalysisCommand,
    repo_root: &str,
    modules: &Vec<ModuleFacts>,
    module_states: &Vec<ModuleState>,
    index: &StrMap<usize>,
    warnings: &mut Vec<String>,
) -> (r: Result<Plan, String>)
    requires
        indexes_modules(*index, modules@),
        module_states@.len() == modules@.len(),
        forall|i: int| 0 <= i < modules@.len() ==> state_of(#[trigger] module_states@[i], modules@[i]),
    ensures
        match command {
            AnalysisCommand::File { file } => match module_index(modules@, file@, modules@.len()) {
                None => (r matches Err(e) && e@ == not_indexed_error(file@)),
                Some(_) => r is Ok,
            },
            AnalysisCommand::Export { file, export_name } => match module_index(modules@, file@, modules@.len()) {
                None => (r matches Err(e) && e@ == not_indexed_error(file@)),
                Some(i) => r is Err <==> export_refused(module_states@[i], modules@[i], export_name@),
            },
            AnalysisCommand::Files { .. } => r is Ok,
        },
        r matches Ok(p) ==> p.mode == mode_of(command) && roots_for(command, p.roots@, modules@, module_states@, repo_root@)
            && roots_wf(p.roots@, modules@.len()) && target_ok(p.target, p.skipped_inputs, command, modules@, repo_root@)
            && str_views(final(warnings)@) == str_views(old(warnings)@) + command_warnings(command, modules@, module_states@, repo_root@),
{
    proof {
        assert forall|i: int| 0 <= i < module_states@.len() implies (#[trigger] module_states@[i]).wf() by {
            assert(state_of(module_states@[i], modules@[i]));
        }
    }
    let ghost cmd = command;
    match command {
        AnalysisCommand::Export { file, export_name } => {
            let ghost f = file@;
            let ghost name = export_name@;
            proof {
                lemma_module_index_bound(modules@, f, modules@.len());
            }
            let ghost w0 = warnings@;
            let r = plan_export(file, export_name, repo_root, modules, module_states, index, warnings);
            proof {
                if r is Ok {
                    let i = module_index(modules@, f, modules@.len()).unwrap();
                    if export_unsure(module_states@[i], modules@[i], name) {
                        assert(warnings@ =~= w0.push(warnings@.last()));
                        assert(str_views(warnings@) =~= str_views(w0) + seq![warnings@.last()@]);
                    } else {
                        assert(str_views(warnings@) =~= str_views(w0) + Seq::<Seq<char>>::empty());
                    }
                }
            }
            r
        },
        AnalysisCommand::File { file } => {
            let ghost f = file@;
            proof {
                lemma_module_index_bound(modules@, f, modules@.len());
            }
            let r = plan_file(file, modules, module_states, index);
            proof {
                assert(str_views(warnings@) =~= str_views(warnings@) + Seq::<Seq<char>>::empty());
            }
            r
        },
        AnalysisCommand::Files { inputs } => {
            let p = plan_files(&inputs, repo_root, modules, module_states, index, warnings);
            proof {
                lemma_selection_bounds(inputs@.map_values(|x: FileInput| input_view(x)), modules@, repo_root@);
            }
            Ok(p)
        },
    }
}

/// Analyzes the repository: resolves every module's imports, walks from the
/// files the command names, and puts the result together. The warnings are
/// the repository's, then those parsing raised, then those of unresolved
/// imports, then the command's own.
///
/// It fails where the command names a file that is no parsed module, or
/// (for `export`) an export that provably does not exist, and where the
/// index or facts it was handed are not well formed, which the library's
/// own discovery and parsers never produce.
pub fn run(
    command: AnalysisCommand,
    explain_unresolved: bool,
    context: &RepoContext,
    manifests: &Vec<PackageManifest>,
    cargo_manifests: StrMap<String>,
    package_json_contents: &Vec<Option<String>>,
    loaded: LoadedModules,
) -> (r: Result<AnalysisResult, String>)
    requires
        package_json_contents@.len() == context.package_jsons@.len(),
    ensures
        !inputs_wf(*context, cargo_manifests, loaded.modules@) ==> (r matches Err(e) && e@ == malformed_error()),
        inputs_wf(*context, cargo_manifests, loaded.modules@) ==> {
            let modules = loaded.modules@;
            match command {
                AnalysisCommand::File { file } => match module_index(modules, file@, modules.len()) {
                    None => (r matches Err(e) && e@ == not_indexed_error(file@)),
                    Some(_) => r is Ok,
                },
                AnalysisCommand::Export { file, export_name } => match module_index(modules, file@, modules.len()) {
                    None => (r matches Err(e) && e@ == not_indexed_error(file@)),
                    Some(i) => r is Err <==> exists|st: ModuleState| #[trigger] state_of(st, modules[i]) && export_refused(st, modules[i], export_name@),
                },
                AnalysisCommand::Files { .. } => r is Ok,
            }
        },
        r matches Ok(res) ==> {
            &&& res.mode == mode_of(command)
            &&& res.repo_root == context.repo_root
            &&& res.source_file_count == context.source_files@.len()
            &&& res.summary.parse_failures == loaded.parse_failures
            &&& res.workspaces@.map_values(|w: crate::graph::Workspace| crate::run::workspace_view(w)).to_multiset()
                == workspaces_of(
                context.repo_root@,
                str_views(context.package_jsons@),
                package_json_contents@.map_values(|c: Option<String>| crate::collections::opt_str(c)),
                context.package_jsons@.len() as nat,
            ).to_multiset()
            &&& crate::run::workspaces_ordered(res.workspaces@)
            &&& res.summary.ambiguous_edges == total_ambiguous(loaded.modules@, loaded.modules@.len())
            &&& target_ok(res.target, res.summary.skipped_inputs, command, loaded.modules@, context.repo_root@)
            &&& run_result_ok(
                res,
                command,
                explain_unresolved,
                *context,
                manifests@,
                cargo_manifests,
                loaded,
                crate::graph::workspace_roots(res.workspaces@),
            )
        },
{
    let ghost lg = loaded;
    let LoadedModules { modules, warnings: parse_warnings, parse_failures } = loaded;
    if !check_inputs(context, &cargo_manifests, &modules) {
        return Err(owned("malformed input: index or module facts not well formed"));
    }
    let ghost cargo = cargo_manifests;
    let resolver = Resolver::new(context, manifests, cargo_manifests);
    let ghost ctx = resolver.ctx;
    let mut cache = ResolutionCache::new(resolver);
    let mut warnings = gather_warnings(context, parse_warnings);
    let ghost w1 = str_views(warnings@);
    let module_states = build_module_states(&modules);
    let reverse = build_reverse_links(&modules, &module_states, &mut cache);
    let unresolved = unresolved_import_diagnostics(
        &modules,
        &mut cache,
        &context.ignore_unresolved,
        context.repo_root.as_str(),
        explain_unresolved,
    );
    let ghost uw = str_views(unresolved.warnings@);
    let unresolved_count = unresolved.count;
    let mut unresolved_warnings = unresolved.warnings;
    warnings.append(&mut unresolved_warnings);
    proof {
        assert(str_views(warnings@) =~= w1 + uw);
    }
    let ghost w2 = str_views(warnings@);
    let index = build_module_index(&modules);
    let ghost cmd = command;
    let plan = match plan_command(command, context.repo_root.as_str(), &modules, &module_states, &index, &mut warnings) {
        Ok(p) => p,
        Err(e) => {
            proof {
                lemma_refusal_any_state(cmd, modules@, module_states@);
            }
            return Err(e);
        },
    };
    proof {
        lemma_refusal_any_state(cmd, modules@, module_states@);
    }
    let workspaces = collect_workspaces(context.repo_root.as_str(), &context.package_jsons, package_json_contents);
    let ghost wv = str_views(warnings@);
    let diagnostics = RunDiagnostics {
        warnings,
        parse_failures,
        unresolved_imports: unresolved_count,
        skipped_inputs: plan.skipped_inputs,
    };
    let Plan { mode, target, roots, skipped_inputs: _ } = plan;
    let ghost rv = roots@;
    proof {
        assert forall|i: int| 0 <= i < module_states@.len() implies (#[trigger] module_states@[i]).wf() by {
            assert(state_of(module_states@[i], modules@[i]));
        }
    }
    let r = analyze_from_roots(
        mode,
        target,
        &context.repo_root,
        context.source_files.len(),
        &modules,
        &module_states,
        &reverse,
        workspaces,
        diagnostics,
        roots,
    );
    proof {
        lemma_run_ok(r, cmd, explain_unresolved, *context, manifests@, cargo, lg, ctx, module_states@, reverse@, rv);
    }
    Ok(r)
}

/// The repository's warnings, then those parsing raised.
fn gather_warnings(context: &RepoContext, parse_warnings: Vec<String>) -> (r: Vec<String>)
    ensures
        str_views(r@) == str_views(context.warnings@) + str_views(parse_warnings@),
{
    let mut warnings: Vec<String> = Vec::new();
    let mut j: usize = 0;
    while j < context.warnings.len()
        invariant
            j <= context.warnings@.len(),
            str_views(warnings@) == str_views(context.warnings@).take(j as int),
        decreases context.warnings.len() - j,
    {
        let w = context.warnings[j].clone();
        let ghost before = str_views(warnings@);
        warnings.push(w);
        proof {
            assert(str_views(warnings@) =~= before.push(context.warnings@[j as int]@));
            assert(str_views(context.warnings@).take(j + 1) =~= str_views(context.warnings@).take(j as int).push(
                context.warnings@[j as int]@,
            ));
        }
        j = j + 1;
    }
    proof {
        assert(str_views(context.warnings@).take(context.warnings@.len() as int) =~= str_views(context.warnings@));
    }
    let ghost a = str_views(warnings@);
    let ghost b = str_views(parse_warnings@);
    let mut parse_warnings = parse_warnings;
    warnings.append(&mut parse_warnings);
    proof {
        assert(str_views(warnings@) =~= a + b);
    }
    warnings
}

proof fn lemma_run_ok(
    r: AnalysisResult,
    command: AnalysisCommand,
    explain_unresolved: bool,
    context: RepoContext,
    manifests: Seq<PackageManifest>,
    cargo_manifests: StrMap<String>,
    loaded: LoadedModules,
    ctx: ResolveCtx,
    states: Seq<ModuleState>,
    reverse: Seq<Vec<ConsumerLink>>,
    roots: Seq<(usize, StrSet)>,
)
    requires
        ({
            let modules = loaded.modules@;
            let n = modules.len();
            let root = context.repo_root@;
            let ws = crate::graph::workspace_roots(r.workspaces@);
            &&& ctx_indexes_repo(ctx, context, manifests, cargo_manifests)
            &&& states.len() == n
            &&& forall|i: int| 0 <= i < n ==> state_of(#[trigger] states[i], modules[i])
            &&& reverse_ok(reverse, all_pairs(ctx, modules, states, n), n as int)
            &&& roots_for(command, roots, modules, states, root)
            &&& exists|a: AffectedStates|
                #[trigger] walk_ok(a, roots, modules, states, reverse) && result_of_walk(r, a, root, modules, states, ws)
                    && edges_explained(r, a, modules, reverse) && edges_from_walk(r, a, roots, modules, reverse)
            &&& roots.len() <= 1 ==> r.roots@.len() == 0
            &&& roots.len() > 1 ==> root_impacts_ok(r.roots@, roots, root, modules, states, reverse, ws)
            &&& r.summary.unresolved_imports == unresolved_hits(ctx, modules, str_views(context.ignore_unresolved@), n).len()
            &&& str_views(r.warnings@) == run_warnings(
                str_views(context.warnings@) + str_views(loaded.warnings@) + unresolved_text(
                    ctx,
                    modules,
                    str_views(context.ignore_unresolved@),
                    root,
                    explain_unresolved,
                ) + command_warnings(command, modules, states, root),
                loaded.parse_failures as nat,
            )
        }),
    ensures
        run_result_ok(
            r,
            command,
            explain_unresolved,
            context,
            manifests,
            cargo_manifests,
            loaded,
            crate::graph::workspace_roots(r.workspaces@),
        ),
{
    let modules = loaded.modules@;
    let root = context.repo_root@;
    let ws = crate::graph::workspace_roots(r.workspaces@);
    let a = choose|a: AffectedStates|
        #[trigger] walk_ok(a, roots, modules, states, reverse) && result_of_walk(r, a, root, modules, states, ws)
            && edges_explained(r, a, modules, reverse) && edges_from_walk(r, a, roots, modules, reverse);
    assert(walk_ok(a, roots, modules, states, reverse));
    assert(ctx_indexes_repo(ctx, context, manifests, cargo_manifests));
}

/// Whether an export is refused does not depend on which well-formed state
/// of the module is asked.
proof fn lemma_refusal_any_state(command: AnalysisCommand, modules: Seq<ModuleFacts>, states: Seq<ModuleState>)
    requires
        states.len() == modules.len(),
        forall|i: int| 0 <= i < modules.len() ==> state_of(#[trigger] states[i], modules[i]),
    ensures
        command matches AnalysisCommand::Export { file, export_name } ==> (module_index(modules, file@, modules.len()) matches Some(i)
            ==> (export_refused(states[i], modules[i], export_name@) <==> exists|st: ModuleState|
            #[trigger] state_of(st, modules[i]) && export_refused(st, modules[i], export_name@))),
{
    if let AnalysisCommand::Export { file, export_name } = command {
        lemma_module_index_bound(modules, file@, modules.len());
        if let Some(i) = module_index(modules, file@, modules.len()) {
            assert(state_of(states[i], modules[i]));
            assert forall|st: ModuleState| #[trigger] state_of(st, modules[i]) implies (export_refused(st, modules[i], export_name@)
                == export_refused(states[i], modules[i], export_name@)) by {
                crate::collections::lemma_sorted_unique(st.public_exports@, states[i].public_exports@);
            }
        }
    }
}

} // verus!
