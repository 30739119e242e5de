//! The analysis result model, the risk verdict and per-module export state.
use vstd::prelude::*;

use crate::collections::{add_to_set_map, set_at, set_map_view, set_map_wf, StrMap, StrSet};
use crate::text::{chars_of, find_char, first_pos, owned, replace_all_char, replace_char, starts_with, str_eq, sub_string, concat};

verus! {

/// The result of one analysis run.
#[derive(Debug)]
pub struct AnalysisResult {
    pub mode: AnalysisMode,
    pub target: AnalysisTarget,
    pub repo_root: String,
    pub source_file_count: usize,
    pub summary: Summary,
    pub workspaces: Vec<Workspace>,
    /// Per-input-file impact, populated only for multi-file runs.
    pub roots: Vec<RootImpact>,
    pub nodes: Vec<GraphNode>,
    pub edges: Vec<GraphEdge>,
    pub warnings: Vec<String>,
}

/// A workspace package discovered in the repo, used to group impacted files by
/// the package they live in.
#[derive(Debug)]
pub struct Workspace {
    pub name: String,
    /// Package root, relative to the repo root (empty string == repo root).
    pub root: String,
}

/// The blast radius of a single input file, so a multi-file run can show each
/// file's impact individually alongside the combined total.
#[derive(Debug)]
pub struct RootImpact {
    pub file: String,
    pub affected: usize,
    pub direct: usize,
    pub indirect: usize,
    pub max_depth: usize,
    pub packages: usize,
    pub files: Vec<RootImpactFile>,
}

/// A single file impacted by a particular input file.
#[derive(Debug)]
pub struct RootImpactFile {
    pub path: String,
    pub endpoint: bool,
    /// Hops from the changed file (1 == direct consumer).
    pub depth: usize,
}

#[derive(Debug, Clone, Copy, PartialEq, Eq, Structural)]
pub enum AnalysisMode {
    Export,
    File,
    Files,
}

#[derive(Debug)]
pub enum AnalysisTarget {
    Export { file: String, export_name: String },
    File { file: String },
    Files { files: Vec<String> },
}

#[derive(Debug, Clone, Copy)]
pub struct Summary {
    pub directly_affected_files: usize,
    pub transitively_affected_files: usize,
    pub total_affected_files: usize,
    pub unresolved_imports: usize,
    pub ambiguous_edges: usize,
    pub parse_failures: usize,
    /// Input paths passed to `files` mode that were skipped because they were
    /// missing on disk or not recognized source files.
    pub skipped_inputs: usize,
    /// The headline risk verdict for this run, derived from reach and spread.
    pub risk_tier: RiskTier,
}

impl Default for Summary {
    fn default() -> (r: Summary)
        ensures
            r.directly_affected_files == 0,
            r.transitively_affected_files == 0,
            r.total_affected_files == 0,
            r.unresolved_imports == 0,
            r.ambiguous_edges == 0,
            r.parse_failures == 0,
            r.skipped_inputs == 0,
            r.risk_tier == RiskTier::Minor,
    {
        Summary {
            directly_affected_files: 0,
            transitively_affected_files: 0,
            total_affected_files: 0,
            unresolved_imports: 0,
            ambiguous_edges: 0,
            parse_failures: 0,
            skipped_inputs: 0,
            risk_tier: RiskTier::Minor,
        }
    }
}

/// The headline blast-radius verdict. Ordered least-to-most severe so callers
/// can gate on `tier >= threshold` (see `--fail-on-risk`).
#[derive(Debug, Clone, Copy, PartialEq, Eq, PartialOrd, Ord, Structural)]
pub enum RiskTier {
    Minor,
    Moderate,
    Risky,
    High,
}

impl Default for RiskTier {
    fn default() -> (r: RiskTier)
        ensures
            r == RiskTier::Minor,
    {
        RiskTier::Minor
    }
}

impl RiskTier {
    /// The severity rank: 0 for minor up to 3 for high.
    pub open spec fn severity(self) -> nat {
        match self {
            RiskTier::Minor => 0,
            RiskTier::Moderate => 1,
            RiskTier::Risky => 2,
            RiskTier::High => 3,
        }
    }

    pub fn rank(&self) -> (r: u8)
        ensures
            r as nat == self.severity(),
    {
        match self {
            RiskTier::Minor => 0,
            RiskTier::Moderate => 1,
            RiskTier::Risky => 2,
            RiskTier::High => 3,
        }
    }

    /// Whether this verdict is at or above `threshold` (the `--fail-on-risk`
    /// gate).
    pub fn at_least(&self, threshold: &RiskTier) -> (r: bool)
        ensures
            r == (self.severity() >= threshold.severity()),
    {
        self.rank() >= threshold.rank()
    }
}

/// The verdict for `affected` downstream files spread over `packages`
/// packages.
pub open spec fn tier_for(affected: nat, packages: nat) -> RiskTier {
    if affected == 0 {
        RiskTier::Minor
    } else if affected > 25 || packages >= 3 {
        RiskTier::High
    } else if affected <= 3 && packages <= 1 {
        RiskTier::Minor
    } else if affected <= 10 && packages <= 2 {
        RiskTier::Moderate
    } else {
        RiskTier::Risky
    }
}

/// Reach and spread drive the tier; ambiguity is surfaced as a confidence
/// caveat elsewhere rather than inflating the score, so the headline stays
/// trustworthy. `affected` counts downstream files (excludes the target);
/// `packages` is the number of distinct packages they span.
pub fn compute_tier(affected: usize, packages: usize) -> (r: RiskTier)
    ensures
        r == tier_for(affected as nat, packages as nat),
{
    if affected == 0 {
        RiskTier::Minor
    } else if affected > 25 || packages >= 3 {
        RiskTier::High
    } else if affected <= 3 && packages <= 1 {
        RiskTier::Minor
    } else if affected <= 10 && packages <= 2 {
        RiskTier::Moderate
    } else {
        RiskTier::Risky
    }
}

/// Reaching more files, or spreading over more packages, never lowers the
/// verdict.
pub proof fn lemma_tier_monotonic(a1: nat, p1: nat, a2: nat, p2: nat)
    requires
        a1 <= a2,
        p1 <= p2,
    ensures
        tier_for(a1, p1).severity() <= tier_for(a2, p2).severity(),
{
}

/// A change nothing depends on is always minor.
pub proof fn lemma_tier_of_nothing(p: nat)
    ensures
        tier_for(0, p) == RiskTier::Minor,
{
}

#[derive(Debug)]
pub struct GraphNode {
    pub id: String,
    pub label: String,
    pub file: String,
    pub symbol: Option<String>,
    pub kind: NodeKind,
    pub depth: usize,
}

#[derive(Debug, Clone, Copy, PartialEq, Eq, Structural)]
pub enum NodeKind {
    File,
    Export,
}

#[derive(Debug)]
pub struct GraphEdge {
    pub from: String,
    pub to: String,
    pub kind: EdgeKind,
    pub is_ambiguous: bool,
}

#[derive(Debug, Clone, Copy, PartialEq, Eq, Structural)]
pub enum EdgeKind {
    ImportsNamed,
    ImportsDefault,
    ImportsNamespace,
    ImportsDynamic,
    /// An import made only for the module's side effects.
    ImportsSideEffect,
    /// A test runner's mock of the module.
    MocksModule,
    ReexportsNamed,
    ReexportsStar,
    UsesJsxComponent,
    RequiresModule,
    CommonJsExport,
}

// ---------------------------------------------------------------------------
// Packages
// ---------------------------------------------------------------------------

/// Whether a workspace rooted at `root` owns the repo-relative `rel`.
pub open spec fn workspace_owns(rel: Seq<char>, root: Seq<char>) -> bool {
    root.len() == 0 || rel == root || starts_with(rel, root.push('/'))
}

/// The top-level directory of `rel`, or `.` for a top-level file.
pub open spec fn top_dir(rel: Seq<char>) -> Seq<char> {
    if rel.contains('/') {
        rel.take(first_pos(rel, '/'))
    } else {
        seq!['.']
    }
}

/// The package key of `rel` given workspace roots in priority order.
pub open spec fn package_key_spec(rel: Seq<char>, roots: Seq<Seq<char>>) -> Seq<char>
    decreases roots.len(),
{
    if roots.len() == 0 {
        top_dir(rel)
    } else if workspace_owns(rel, roots[0]) {
        if roots[0].len() == 0 { seq!['.'] } else { roots[0] }
    } else {
        package_key_spec(rel, roots.skip(1))
    }
}

/// The roots of a workspace list.
pub open spec fn workspace_roots(workspaces: Seq<Workspace>) -> Seq<Seq<char>> {
    workspaces.map_values(|w: Workspace| w.root@)
}

fn workspace_owns_exec(rel: &str, root: &str) -> (r: bool)
    ensures
        r == workspace_owns(rel@, root@),
{
    let with_slash = concat(root, "/");
    proof {
        reveal_strlit("/");
        assert(root@ + "/"@ =~= root@.push('/'));
    }
    let root_empty = chars_of(root).len() == 0;
    root_empty || str_eq(rel, root) || crate::text::str_starts_with(rel, with_slash.as_str())
}

/// Map a repo-relative path to the package that owns it: the longest matching
/// workspace root, falling back to the top-level directory. `workspaces` is
/// expected to be sorted longest-root-first.
pub fn package_key(rel_path: &str, workspaces: &[Workspace]) -> (r: String)
    ensures
        r@ == package_key_spec(rel_path@, workspace_roots(workspaces@)),
{
    let ghost roots = workspace_roots(workspaces@);
    let mut i: usize = 0;
    proof {
        assert(roots.skip(0) =~= roots);
    }
    while i < workspaces.len()
        invariant
            i <= workspaces.len(),
            roots == workspace_roots(workspaces@),
            package_key_spec(rel_path@, roots) == package_key_spec(rel_path@, roots.skip(i as int)),
        decreases workspaces.len() - i,
    {
        let root = &workspaces[i].root;
        proof {
            assert(roots.skip(i as int)[0] == root@);
            assert(roots.skip(i as int).skip(1) =~= roots.skip(i + 1));
        }
        if workspace_owns_exec(rel_path, root.as_str()) {
            if chars_of(root.as_str()).len() == 0 {
                proof {
                    reveal_strlit(".");
                    assert("."@ =~= seq!['.']);
                }
                return owned(".");
            } else {
                return root.clone();
            }
        }
        i = i + 1;
    }
    proof {
        assert(roots.skip(i as int).len() == 0);
    }
    let v = chars_of(rel_path);
    match find_char(v.as_slice(), '/') {
        Some(k) => {
            proof {
                assert(v@.subrange(0, k as int) =~= v@.take(k as int));
            }
            sub_string(v.as_slice(), 0, k)
        },
        None => {
            proof {
                reveal_strlit(".");
                assert("."@ =~= seq!['.']);
            }
            owned(".")
        },
    }
}

/// `s` with Windows separators turned into `/`.
pub fn normalize_separators(s: &str) -> (r: String)
    ensures
        r@ == replace_char(s@, '\\', seq!['/']),
{
    proof {
        reveal_strlit("/");
        assert("/"@ =~= seq!['/']);
    }
    replace_all_char(s, '\\', "/")
}

// ---------------------------------------------------------------------------
// Module export state
// ---------------------------------------------------------------------------

/// What a module exposes: its public export names, and which local bindings
/// each export name stands for (and back).
#[derive(Debug)]
pub struct ModuleState {
    pub file: String,
    pub public_exports: StrSet,
    pub export_to_locals: StrMap<StrSet>,
    pub local_to_exports: StrMap<StrSet>,
}

impl ModuleState {
    pub open spec fn wf(&self) -> bool {
        &&& self.public_exports.wf()
        &&& set_map_wf(&self.export_to_locals)
        &&& set_map_wf(&self.local_to_exports)
    }

    /// The two maps are each other's inverse, every export with locals is
    /// public, and no stored set is empty.
    pub open spec fn consistent(&self) -> bool {
        let el = set_map_view(&self.export_to_locals);
        let le = set_map_view(&self.local_to_exports);
        &&& forall|e: Seq<char>, l: Seq<char>|
            #![trigger set_at(el, e).contains(l)]
            #![trigger set_at(le, l).contains(e)]
            set_at(el, e).contains(l) == set_at(le, l).contains(e)
        &&& forall|e: Seq<char>| #[trigger] el.contains_key(e) ==> self.public_exports.set().contains(e)
        &&& forall|e: Seq<char>| #[trigger] el.contains_key(e) ==> exists|x: Seq<char>| el[e].contains(x)
        &&& forall|l: Seq<char>| #[trigger] le.contains_key(l) ==> exists|x: Seq<char>| le[l].contains(x)
    }

    pub fn new(file: String) -> (r: ModuleState)
        ensures
            r.wf(),
            r.file == file,
            r.public_exports@ == Seq::<Seq<char>>::empty(),
            set_map_view(&r.export_to_locals) == Map::<Seq<char>, Set<Seq<char>>>::empty(),
            set_map_view(&r.local_to_exports) == Map::<Seq<char>, Set<Seq<char>>>::empty(),
            r.consistent(),
    {
        let r = ModuleState {
            file,
            public_exports: StrSet::new(),
            export_to_locals: StrMap::new(),
            local_to_exports: StrMap::new(),
        };
        proof {
            assert(set_map_view(&r.export_to_locals) =~= Map::<Seq<char>, Set<Seq<char>>>::empty());
            assert(set_map_view(&r.local_to_exports) =~= Map::<Seq<char>, Set<Seq<char>>>::empty());
        }
        r
    }

    /// Adding an export keeps the maps consistent.
    pub proof fn lemma_add_export_consistent(s0: ModuleState, s1: ModuleState, exported: Seq<char>, local: Option<Seq<char>>)
        requires
            s0.consistent(),
            s1.public_exports.set() == s0.public_exports.set().insert(exported),
            match local {
                Some(l) => {
                    &&& set_map_view(&s1.export_to_locals) == set_map_view(&s0.export_to_locals).insert(
                        exported, set_at(set_map_view(&s0.export_to_locals), exported).insert(l))
                    &&& set_map_view(&s1.local_to_exports) == set_map_view(&s0.local_to_exports).insert(
                        l, set_at(set_map_view(&s0.local_to_exports), l).insert(exported))
                },
                None => {
                    &&& set_map_view(&s1.export_to_locals) == set_map_view(&s0.export_to_locals)
                    &&& set_map_view(&s1.local_to_exports) == set_map_view(&s0.local_to_exports)
                },
            },
        ensures
            s1.consistent(),
    {
        let el0 = set_map_view(&s0.export_to_locals);
        let le0 = set_map_view(&s0.local_to_exports);
        let el = set_map_view(&s1.export_to_locals);
        let le = set_map_view(&s1.local_to_exports);
        match local {
            Some(lv) => {
                assert forall|e: Seq<char>, l: Seq<char>| set_at(el, e).contains(l) == set_at(le, l).contains(e) by {
                    assert(set_at(el0, e).contains(l) == set_at(le0, l).contains(e));
                }
                assert forall|e: Seq<char>| #[trigger] el.contains_key(e) implies s1.public_exports.set().contains(e) by {
                    if e != exported {
                        assert(el0.contains_key(e));
                    }
                }
                assert forall|e: Seq<char>| #[trigger] el.contains_key(e) implies exists|x: Seq<char>| el[e].contains(x) by {
                    if e == exported {
                        assert(el[e].contains(lv));
                    } else {
                        assert(el0.contains_key(e));
                        let x = choose|x: Seq<char>| el0[e].contains(x);
                        assert(el[e].contains(x));
                    }
                }
                assert forall|l: Seq<char>| #[trigger] le.contains_key(l) implies exists|x: Seq<char>| le[l].contains(x) by {
                    if l == lv {
                        assert(le[l].contains(exported));
                    } else {
                        assert(le0.contains_key(l));
                        let x = choose|x: Seq<char>| le0[l].contains(x);
                        assert(le[l].contains(x));
                    }
                }
            },
            None => {
                assert forall|e: Seq<char>| #[trigger] el.contains_key(e) implies s1.public_exports.set().contains(e) by {
                    assert(el0.contains_key(e));
                }
            },
        }
    }

    /// Record that `exported` is public, standing for the local binding
    /// `local` when one is given.
    pub fn add_export(&mut self, exported: String, local: Option<String>)
        requires
            old(self).wf(),
        ensures
            final(self).wf(),
            final(self).file == old(self).file,
            final(self).public_exports.set() == old(self).public_exports.set().insert(exported@),
            match local {
                Some(l) => {
                    &&& set_map_view(&final(self).export_to_locals) == set_map_view(&old(self).export_to_locals).insert(
                        exported@, set_at(set_map_view(&old(self).export_to_locals), exported@).insert(l@))
                    &&& set_map_view(&final(self).local_to_exports) == set_map_view(&old(self).local_to_exports).insert(
                        l@, set_at(set_map_view(&old(self).local_to_exports), l@).insert(exported@))
                },
                None => {
                    &&& set_map_view(&final(self).export_to_locals) == set_map_view(&old(self).export_to_locals)
                    &&& set_map_view(&final(self).local_to_exports) == set_map_view(&old(self).local_to_exports)
                },
            },
            old(self).consistent() ==> final(self).consistent(),
    {
        let ghost s0 = *self;
        let ghost ev = exported@;
        let ghost lv: Option<Seq<char>> = match &local {
            Some(l) => Some(l@),
            None => None,
        };
        self.public_exports.insert(exported.clone());
        if let Some(local) = local {
            add_to_set_map(&mut self.export_to_locals, exported.clone(), local.clone());
            add_to_set_map(&mut self.local_to_exports, local, exported);
        }
        proof {
            if s0.consistent() {
                Self::lemma_add_export_consistent(s0, *self, ev, lv);
            }
        }
    }
}

/// The verdict is minor exactly when nothing is reached, or at most three
/// files are reached inside at most one package; reaching one to three
/// files over two packages is moderate.
pub proof fn lemma_minor_means_small_and_local(affected: nat, packages: nat)
    ensures
        (tier_for(affected, packages) == RiskTier::Minor) <==> (affected == 0 || (affected <= 3 && packages <= 1)),
        (1 <= affected <= 3 && packages == 2) ==> tier_for(affected, packages) == RiskTier::Moderate,
        (affected > 25 || (affected > 0 && packages >= 3)) <==> tier_for(affected, packages) == RiskTier::High,
        (4 <= affected <= 10 && packages <= 2) ==> tier_for(affected, packages) == RiskTier::Moderate,
        (11 <= affected <= 25 && packages <= 2) ==> tier_for(affected, packages) == RiskTier::Risky,
{
}

} // verus!
