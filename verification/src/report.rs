//! The tree report as a whole: assessment of the result, the verdict, the
//! lists and the footer.
use vstd::prelude::*;

use crate::analyze::relative_label_spec;
use crate::cascade::{cascade_lines, format_mode, is_leaf, is_leaf_spec, mode_name, render_cascade};
use crate::collections::{str_views, StrSet};
use crate::diagnostics::{concat_lines, plural, plural_of};
use crate::graph::{
    compute_tier, package_key, package_key_spec, tier_for, workspace_roots, AnalysisResult, AnalysisTarget, GraphNode, NodeKind,
    RiskTier, RootImpact, RootImpactFile, Workspace,
};
use crate::groups::{
    caveat_lines, file_views, group_files, groups_spec, package_lines, push_list_caveats, render_package_groups, FileView,
    ImpactedFile,
};
use crate::text::{concat, concat3, decimal, join, join_strings, owned, usize_to_string};
use crate::theme::{banner_spec, meter_cells, paint_spec, palette_spec, rule_spec, spec_slant_render, spec_to_uppercase, tier_glyph, Theme};
use crate::tree::{hotspot_dirs, hotspot_lines, hotspots_spec, hot_views, is_affected, render_hotspots};

verus! {

// ---------------------------------------------------------------------------
// Assessing a result
// ---------------------------------------------------------------------------

/// The downstream file nodes among the first `n`, in order.
pub open spec fn affected_nodes(nodes: Seq<GraphNode>, n: nat) -> Seq<GraphNode>
    decreases n,
{
    if n == 0 {
        Seq::empty()
    } else {
        let rest = affected_nodes(nodes, (n - 1) as nat);
        if is_affected(nodes[n - 1]) { rest.push(nodes[n - 1]) } else { rest }
    }
}

pub open spec fn deepest(ns: Seq<GraphNode>) -> usize
    decreases ns.len(),
{
    if ns.len() == 0 {
        0
    } else {
        let m = deepest(ns.drop_last());
        if ns.last().depth > m { ns.last().depth } else { m }
    }
}

pub open spec fn count_leaves(ns: Seq<GraphNode>, edges: Seq<crate::graph::GraphEdge>) -> nat
    decreases ns.len(),
{
    if ns.len() == 0 {
        0
    } else {
        count_leaves(ns.drop_last(), edges) + if is_leaf_spec(edges, ns.last().id@) { 1nat } else { 0nat }
    }
}

pub open spec fn count_ambiguous(edges: Seq<crate::graph::GraphEdge>) -> nat
    decreases edges.len(),
{
    if edges.len() == 0 {
        0
    } else {
        count_ambiguous(edges.drop_last()) + if edges.last().is_ambiguous { 1nat } else { 0nat }
    }
}

/// The packages of the downstream files.
pub open spec fn node_packages(ns: Seq<GraphNode>, ws: Seq<Seq<char>>) -> Set<Seq<char>> {
    Set::new(|k: Seq<char>| exists|j: int| 0 <= j < ns.len() && package_key_spec((#[trigger] ns[j]).label@, ws) == k)
}

/// What the report says of a result.
pub struct Assessment {
    pub tier: RiskTier,
    /// Downstream files (the changed files themselves excluded).
    pub affected: usize,
    /// Distinct packages those files live in.
    pub packages: usize,
    /// Downstream files nothing depends on in turn.
    pub leaves: usize,
    pub max_depth: usize,
    /// Ambiguous edges on the impacted paths.
    pub ambiguous: usize,
    pub unresolved: usize,
    pub parse_failures: usize,
}

/// The assessment of a result, field by field.
pub open spec fn assessment_spec(r: AnalysisResult) -> Assessment {
    let ns = affected_nodes(r.nodes@, r.nodes@.len());
    Assessment {
        tier: r.summary.risk_tier,
        affected: ns.len() as usize,
        packages: node_packages(ns, workspace_roots(r.workspaces@)).len() as usize,
        leaves: count_leaves(ns, r.edges@) as usize,
        max_depth: deepest(ns),
        ambiguous: count_ambiguous(r.edges@) as usize,
        unresolved: r.summary.unresolved_imports,
        parse_failures: r.summary.parse_failures,
    }
}

pub open spec fn assessment_of(a: Assessment, r: AnalysisResult) -> bool {
    let ns = affected_nodes(r.nodes@, r.nodes@.len());
    &&& a.tier == r.summary.risk_tier
    &&& a.affected == ns.len()
    &&& a.packages == node_packages(ns, workspace_roots(r.workspaces@)).len()
    &&& a.leaves == count_leaves(ns, r.edges@)
    &&& a.max_depth == deepest(ns)
    &&& a.ambiguous == count_ambiguous(r.edges@)
    &&& a.unresolved == r.summary.unresolved_imports
    &&& a.parse_failures == r.summary.parse_failures
}

proof fn lemma_affected_len(nodes: Seq<GraphNode>, n: nat)
    requires
        n <= nodes.len(),
    ensures
        affected_nodes(nodes, n).len() <= n,
        forall|j: int| 0 <= j < affected_nodes(nodes, n).len() ==> is_affected(#[trigger] affected_nodes(nodes, n)[j]),
    decreases n,
{
    if n > 0 {
        lemma_affected_len(nodes, (n - 1) as nat);
    }
}

/// The assessment of `result`.
pub fn assess(result: &AnalysisResult) -> (a: Assessment)
    ensures
        assessment_of(a, *result),
        a == assessment_spec(*result),
{
    let nodes = &result.nodes;
    let ghost ws = workspace_roots(result.workspaces@);
    let mut affected: Vec<usize> = Vec::new();
    let mut count: usize = 0;
    let mut max_depth: usize = 0;
    let mut leaves: usize = 0;
    let mut keys = StrSet::new();
    let mut i: usize = 0;
    proof {
        assert(keys.set() =~= node_packages(affected_nodes(nodes@, 0), ws));
    }
    while i < nodes.len()
        invariant
            i <= nodes@.len(),
            ws == workspace_roots(result.workspaces@),
            count == affected_nodes(nodes@, i as nat).len(),
            max_depth == deepest(affected_nodes(nodes@, i as nat)),
            leaves == count_leaves(affected_nodes(nodes@, i as nat), result.edges@),
            leaves <= count,
            count <= i,
            keys.wf(),
            keys.set() == node_packages(affected_nodes(nodes@, i as nat), ws),
        decreases nodes.len() - i,
    {
        proof {
            lemma_affected_len(nodes@, i as nat);
        }
        let ghost before = affected_nodes(nodes@, i as nat);
        let node = &nodes[i];
        if node.kind == NodeKind::File && node.depth >= 1 {
            let ghost now = before.push(*node);
            proof {
                assert(affected_nodes(nodes@, (i + 1) as nat) == now);
                assert(now.drop_last() =~= before);
            }
            count = count + 1;
            if node.depth > max_depth {
                max_depth = node.depth;
            }
            if is_leaf(node.id.as_str(), result) {
                leaves = leaves + 1;
            }
            let ghost kb = keys.set();
            keys.insert(package_key(node.label.as_str(), result.workspaces.as_slice()));
            proof {
                assert(keys.set() =~= node_packages(now, ws)) by {
                    assert forall|k: Seq<char>| #[trigger] keys.set().contains(k) implies node_packages(now, ws).contains(k) by {
                        if kb.contains(k) {
                            let j = choose|j: int| 0 <= j < before.len() && package_key_spec((#[trigger] before[j]).label@, ws) == k;
                            assert(now[j] == before[j]);
                        } else {
                            assert(now[now.len() - 1] == *node);
                        }
                    }
                    assert forall|k: Seq<char>| #[trigger] node_packages(now, ws).contains(k) implies keys.set().contains(k) by {
                        let j = choose|j: int| 0 <= j < now.len() && package_key_spec((#[trigger] now[j]).label@, ws) == k;
                        if j < before.len() {
                            assert(now[j] == before[j]);
                            assert(kb.contains(k));
                        }
                    }
                }
            }
        }
        i = i + 1;
    }
    let mut ambiguous: usize = 0;
    let mut k: usize = 0;
    while k < result.edges.len()
        invariant
            k <= result.edges@.len(),
            ambiguous == count_ambiguous(result.edges@.take(k as int)),
            ambiguous <= k,
        decreases result.edges.len() - k,
    {
        proof {
            assert(result.edges@.take(k + 1).drop_last() =~= result.edges@.take(k as int));
        }
        if result.edges[k].is_ambiguous {
            ambiguous = ambiguous + 1;
        }
        k = k + 1;
    }
    proof {
        assert(result.edges@.take(result.edges@.len() as int) =~= result.edges@);
        crate::analyze::lemma_strset_len(keys);
    }
    Assessment {
        tier: result.summary.risk_tier,
        affected: count,
        packages: keys.len(),
        leaves,
        max_depth,
        ambiguous,
        unresolved: result.summary.unresolved_imports,
        parse_failures: result.summary.parse_failures,
    }
}

// ---------------------------------------------------------------------------
// The subject of a run
// ---------------------------------------------------------------------------

/// The first changed file of the target.
pub open spec fn target_file(target: AnalysisTarget) -> Option<Seq<char>> {
    match target {
        AnalysisTarget::Export { file, .. } => Some(file@),
        AnalysisTarget::File { file } => Some(file@),
        AnalysisTarget::Files { files } => if files@.len() > 0 { Some(files@[0]@) } else { None },
    }
}

/// The target's path relative to the repository, `/`-separated.
pub open spec fn relative_target_spec(result: AnalysisResult) -> Seq<char> {
    match target_file(result.target) {
        Some(f) => relative_label_spec(result.repo_root@, f),
        None => ""@,
    }
}

pub fn relative_target(result: &AnalysisResult) -> (r: String)
    ensures
        r@ == relative_target_spec(*result),
{
    proof {
        reveal_strlit("");
    }
    match &result.target {
        AnalysisTarget::Export { file, .. } => crate::analyze::relative_label(result.repo_root.as_str(), file.as_str()),
        AnalysisTarget::File { file } => crate::analyze::relative_label(result.repo_root.as_str(), file.as_str()),
        AnalysisTarget::Files { files } => if files.len() > 0 {
            crate::analyze::relative_label(result.repo_root.as_str(), files[0].as_str())
        } else {
            owned("")
        },
    }
}

pub open spec fn name_or_this(path: Seq<char>) -> Seq<char> {
    match crate::paths::file_name_spec(path) {
        Some(n) => n,
        None => "this file"@,
    }
}

/// What the run is about: the export's name, the changed file's name, or
/// how many files changed.
pub open spec fn subject_spec(target: AnalysisTarget) -> Seq<char> {
    match target {
        AnalysisTarget::Export { export_name, .. } => export_name@,
        AnalysisTarget::File { file } => name_or_this(file@),
        AnalysisTarget::Files { files } => if files@.len() == 1 {
            name_or_this(files@[0]@)
        } else {
            decimal(files@.len()) + " files"@
        },
    }
}

fn name_or_this_exec(path: &str) -> (r: String)
    ensures
        r@ == name_or_this(path@),
{
    match crate::paths::file_name(path) {
        Some(n) => n,
        None => owned("this file"),
    }
}

pub fn format_subject(target: &AnalysisTarget) -> (r: String)
    ensures
        r@ == subject_spec(*target),
{
    match target {
        AnalysisTarget::Export { export_name, .. } => export_name.clone(),
        AnalysisTarget::File { file } => name_or_this_exec(file.as_str()),
        AnalysisTarget::Files { files } => if files.len() == 1 {
            name_or_this_exec(files[0].as_str())
        } else {
            concat(usize_to_string(files.len()).as_str(), " files")
        },
    }
}

// ---------------------------------------------------------------------------
// The footer
// ---------------------------------------------------------------------------

/// The footer's confidence tag: high when no ambiguous edge lies on the
/// impacted paths, else partial with their count; and the repository-wide
/// blind spots (unresolved imports, parse failures) that may hide consumers.
pub open spec fn confidence_base(color: bool, a: Assessment) -> Seq<char> {
    if a.affected == 0 || a.ambiguous == 0 {
        paint_spec(color, "\u{25cf}"@, "1;32"@) + " "@ + paint_spec(color, "confidence: high"@, "2;37"@)
    } else {
        paint_spec(color, "\u{25cf}"@, "33"@) + " "@ + paint_spec(
            color,
            "confidence: partial \u{b7} "@ + decimal(a.ambiguous as nat) + " ambiguous edge"@ + plural(a.ambiguous as nat) + " on these paths"@,
            "33"@,
        )
    }
}

pub open spec fn unresolved_note(color: bool, a: Assessment) -> Seq<char> {
    if a.affected > 0 && a.unresolved > 0 {
        paint_spec(
            color,
            " \u{b7} "@ + decimal(a.unresolved as nat) + " unresolved import"@ + plural(a.unresolved as nat) + " repo-wide may hide consumers"@,
            "2;37"@,
        )
    } else {
        ""@
    }
}

pub open spec fn failures_note(color: bool, a: Assessment) -> Seq<char> {
    if a.parse_failures > 0 {
        paint_spec(
            color,
            " \u{b7} "@ + decimal(a.parse_failures as nat) + " parse failure"@ + plural(a.parse_failures as nat) + " caused skipped file"@ + plural(
                a.parse_failures as nat,
            ) + " repo-wide and may hide consumers"@,
            "2;37"@,
        )
    } else {
        ""@
    }
}

/// The footer's confidence tag: high when no ambiguous edge lies on the
/// impacted paths, else partial with their count; then the repository-wide
/// blind spots (unresolved imports, parse failures) that may hide consumers.
pub open spec fn confidence_spec(color: bool, a: Assessment) -> Seq<char> {
    confidence_base(color, a) + unresolved_note(color, a) + failures_note(color, a)
}

fn confidence_base_exec(a: &Assessment, theme: &Theme) -> (r: String)
    ensures
        r@ == confidence_base(theme.color, *a),
{
    if a.affected == 0 || a.ambiguous == 0 {
        concat3(theme.ok("\u{25cf}").as_str(), " ", theme.muted("confidence: high").as_str())
    } else {
        let text = concat(
            concat3("confidence: partial \u{b7} ", usize_to_string(a.ambiguous).as_str(), " ambiguous edge").as_str(),
            concat(plural_of(a.ambiguous), " on these paths").as_str(),
        );
        proof {
            assert(text@ =~= "confidence: partial \u{b7} "@ + decimal(a.ambiguous as nat) + " ambiguous edge"@ + plural(a.ambiguous as nat) + " on these paths"@);
        }
        concat3(theme.warn("\u{25cf}").as_str(), " ", theme.warn(text.as_str()).as_str())
    }
}

fn unresolved_note_exec(a: &Assessment, theme: &Theme) -> (r: String)
    ensures
        r@ == unresolved_note(theme.color, *a),
{
    proof {
        reveal_strlit("");
    }
    if a.affected > 0 && a.unresolved > 0 {
        let text = concat(
            concat3(" \u{b7} ", usize_to_string(a.unresolved).as_str(), " unresolved import").as_str(),
            concat(plural_of(a.unresolved), " repo-wide may hide consumers").as_str(),
        );
        proof {
            assert(text@ =~= " \u{b7} "@ + decimal(a.unresolved as nat) + " unresolved import"@ + plural(a.unresolved as nat) + " repo-wide may hide consumers"@);
        }
        theme.muted(text.as_str())
    } else {
        owned("")
    }
}

fn failures_note_exec(a: &Assessment, theme: &Theme) -> (r: String)
    ensures
        r@ == failures_note(theme.color, *a),
{
    proof {
        reveal_strlit("");
    }
    if a.parse_failures > 0 {
        let p = plural_of(a.parse_failures);
        let text = concat(
            concat3(" \u{b7} ", usize_to_string(a.parse_failures).as_str(), " parse failure").as_str(),
            concat(concat3(p, " caused skipped file", p).as_str(), " repo-wide and may hide consumers").as_str(),
        );
        proof {
            assert(text@ =~= " \u{b7} "@ + decimal(a.parse_failures as nat) + " parse failure"@ + plural(a.parse_failures as nat) + " caused skipped file"@
                + plural(a.parse_failures as nat) + " repo-wide and may hide consumers"@);
        }
        theme.muted(text.as_str())
    } else {
        owned("")
    }
}

pub fn confidence_tag(a: &Assessment, theme: &Theme) -> (r: String)
    ensures
        r@ == confidence_spec(theme.color, *a),
{
    let r = concat3(
        confidence_base_exec(a, theme).as_str(),
        unresolved_note_exec(a, theme).as_str(),
        failures_note_exec(a, theme).as_str(),
    );
    proof {
        assert(r@ =~= confidence_spec(theme.color, *a));
    }
    r
}

// ---------------------------------------------------------------------------
// One changed file's block
// ---------------------------------------------------------------------------

pub open spec fn impact_file_views(fs: Seq<RootImpactFile>) -> Seq<FileView> {
    fs.map_values(|f: RootImpactFile| (f.path@, f.endpoint))
}

pub open spec fn reach_text(root: RootImpact) -> Seq<char> {
    if root.affected == 0 {
        "no dependents \u{2014} safe to change"@
    } else {
        decimal(root.affected as nat) + " file"@ + plural(root.affected as nat) + " impacted \u{b7} depth "@ + decimal(root.max_depth as nat)
    }
}

/// A changed file's block: its severity dot, the file and its reach, then
/// the files it impacts by package.
pub open spec fn root_block_lines(color: bool, root: RootImpact, ws: Seq<Seq<char>>, list_files: bool) -> Seq<Seq<char>> {
    let tier = tier_for(root.affected as nat, root.packages as nat);
    seq![
        "  "@ + paint_spec(color, tier_glyph(tier), palette_spec(tier).1) + " "@ + paint_spec(color, root.file@, "1;37"@) + "  "@
            + paint_spec(color, "\u{2014} "@ + reach_text(root), "2;37"@),
    ] + package_lines(color, groups_spec(impact_file_views(root.files@), ws), 4, list_files)
}

pub fn render_root_block(root: &RootImpact, workspaces: &Vec<Workspace>, list_files: bool, theme: &Theme, lines: &mut Vec<String>)
    ensures
        str_views(final(lines)@) == str_views(old(lines)@) + root_block_lines(
            theme.color,
            *root,
            workspace_roots(workspaces@),
            list_files,
        ),
{
    let ghost l0 = str_views(lines@);
    let tier = compute_tier(root.affected, root.packages);
    let reach = if root.affected == 0 {
        owned("no dependents \u{2014} safe to change")
    } else {
        concat(
            concat3(usize_to_string(root.affected).as_str(), " file", plural_of(root.affected)).as_str(),
            concat(" impacted \u{b7} depth ", usize_to_string(root.max_depth).as_str()).as_str(),
        )
    };
    let head = concat(
        concat3("  ", theme.tier_dot(tier).as_str(), " ").as_str(),
        concat3(theme.subject(root.file.as_str()).as_str(), "  ", theme.muted(concat("\u{2014} ", reach.as_str()).as_str()).as_str()).as_str(),
    );
    proof {
        assert(reach@ =~= reach_text(*root));
        assert(head@ =~= root_block_lines(theme.color, *root, workspace_roots(workspaces@), list_files)[0]);
    }
    let ghost h = head@;
    lines.push(head);
    let mut files: Vec<ImpactedFile> = Vec::new();
    let mut k: usize = 0;
    while k < root.files.len()
        invariant
            k <= root.files@.len(),
            file_views(files@) == impact_file_views(root.files@).take(k as int),
        decreases root.files.len() - k,
    {
        let f = &root.files[k];
        let ghost before = file_views(files@);
        files.push(ImpactedFile { path: f.path.clone(), endpoint: f.endpoint });
        proof {
            assert(file_views(files@) =~= before.push((f.path@, f.endpoint)));
            assert(impact_file_views(root.files@).take(k + 1) =~= impact_file_views(root.files@).take(k as int).push((f.path@, f.endpoint)));
        }
        k = k + 1;
    }
    proof {
        assert(impact_file_views(root.files@).take(root.files@.len() as int) =~= impact_file_views(root.files@));
    }
    let groups = group_files(&files, workspaces);
    proof {
        assert(str_views(lines@) =~= l0 + seq![h]);
    }
    render_package_groups(&groups, 4, list_files, theme, lines);
    proof {
        assert(str_views(lines@) =~= l0 + root_block_lines(theme.color, *root, workspace_roots(workspaces@), list_files));
    }
}

// ---------------------------------------------------------------------------
// The whole report
// ---------------------------------------------------------------------------

pub open spec fn target_line(color: bool, result: AnalysisResult) -> Seq<char> {
    if result.roots@.len() > 1 {
        "  "@ + paint_spec(color, decimal(result.roots@.len()) + " input files"@, "1;37"@)
    } else {
        "  "@ + paint_spec(color, subject_spec(result.target), "1;37"@) + "   "@ + paint_spec(color, relative_target_spec(result), "36"@)
    }
}

/// The banner, the mode, and what the run is about.
pub open spec fn head_lines(color: bool, result: AnalysisResult) -> Seq<Seq<char>> {
    banner_spec(color, spec_slant_render("BLAST RADIUS"@)) + seq![
        "  "@ + paint_spec(color, "impact analysis \u{b7} "@ + mode_name(result.mode) + " mode"@, "2;37"@),
        ""@,
        target_line(color, result),
        ""@,
    ]
}

pub open spec fn pill_spec(color: bool, tier: RiskTier) -> Seq<char> {
    paint_spec(color, " "@ + palette_spec(tier).0 + " "@, palette_spec(tier).2)
}

pub open spec fn meter_spec(color: bool, tier: RiskTier) -> Seq<char> {
    paint_spec(color, crate::text::repeat_char('\u{2588}', meter_cells(tier)), palette_spec(tier).1) + paint_spec(
        color,
        crate::text::repeat_char('\u{2591}', (20 - meter_cells(tier)) as nat),
        "2;37"@,
    )
}

pub open spec fn verdict_aggregate(result: AnalysisResult) -> Seq<char> {
    if result.roots@.len() > 1 {
        "  (across all "@ + decimal(result.roots@.len()) + " inputs)"@
    } else {
        ""@
    }
}

pub open spec fn verdict_reach(a: Assessment) -> Seq<char> {
    decimal(a.affected as nat) + " impacted file"@ + plural(a.affected as nat) + " \u{b7} "@ + decimal(a.packages as nat) + " package"@ + plural(
        a.packages as nat,
    )
}

pub open spec fn verdict_main(color: bool, result: AnalysisResult, a: Assessment) -> Seq<char> {
    "  "@ + pill_spec(color, a.tier) + "  "@ + meter_spec(color, a.tier) + "  "@ + paint_spec(color, verdict_reach(a), "1;37"@) + paint_spec(
        color,
        verdict_aggregate(result),
        "2;37"@,
    )
}

pub open spec fn verdict_detail(color: bool, result: AnalysisResult, a: Assessment) -> Seq<char> {
    "  "@ + paint_spec(
        color,
        decimal(result.summary.directly_affected_files as nat) + " direct, "@ + decimal(result.summary.transitively_affected_files as nat)
            + " indirect \u{b7} depth "@ + decimal(a.max_depth as nat) + " \u{b7} "@ + decimal(a.leaves as nat) + " endpoint"@ + plural(
            a.leaves as nat,
        ),
        "2;37"@,
    )
}

/// The risk line: safe to change when no file is affected; otherwise the
/// tier pill and bar, how many files and packages are reached, and the
/// direct/indirect split with depth and endpoint count.
pub open spec fn verdict_lines(color: bool, result: AnalysisResult, a: Assessment) -> Seq<Seq<char>> {
    if a.affected == 0 {
        seq!["  "@ + pill_spec(color, RiskTier::Minor) + "  "@ + paint_spec(color, "nothing depends on this \u{2014} safe to change"@, "1;37"@)]
    } else {
        seq![verdict_main(color, result, a), verdict_detail(color, result, a)]
    }
}

pub open spec fn rule_of(color: bool, label: Seq<char>) -> Seq<char> {
    rule_spec(color, spec_to_uppercase(label))
}

/// The hotspot chart, when enough files are affected across two or more
/// directories.
pub open spec fn hotspot_section(color: bool, result: AnalysisResult, a: Assessment) -> Seq<Seq<char>> {
    let hs = hotspots_spec(result.nodes@);
    if a.affected >= 8 && hs.len() >= 2 {
        seq![""@, rule_of(color, "hotspots"@)] + hotspot_lines(color, a.tier, hs)
    } else {
        Seq::empty()
    }
}

/// The downstream files of the result as (path, endpoint).
pub open spec fn affected_file_views(result: AnalysisResult) -> Seq<FileView> {
    affected_nodes(result.nodes@, result.nodes@.len()).map_values(|n: GraphNode| (n.label@, is_leaf_spec(result.edges@, n.id@)))
}

/// The impacted files: by changed file for a multi-file run, else by
/// package; collapsed to directories past the listing limit unless verbose.
pub open spec fn list_section(color: bool, result: AnalysisResult, a: Assessment, list_files: bool) -> Seq<Seq<char>> {
    let ws = workspace_roots(result.workspaces@);
    let n = result.roots@.len();
    if n > 1 {
        seq![""@, rule_of(color, "impact by input file \u{b7} "@ + decimal(n))] + concat_lines(root_blocks(color, result.roots@, ws, list_files))
            + caveat_lines(color, a.affected > 0, list_files)
    } else {
        let groups = groups_spec(affected_file_views(result), ws);
        if groups.len() > 0 {
            seq![
                ""@,
                rule_of(
                    color,
                    "impacted files \u{b7} "@ + decimal(a.affected as nat) + " in "@ + decimal(a.packages as nat) + " package"@ + plural(a.packages as nat),
                ),
            ] + package_lines(color, groups, 2, list_files) + caveat_lines(color, true, list_files)
        } else {
            Seq::empty()
        }
    }
}

pub open spec fn warnings_section(color: bool, warnings: Seq<Seq<char>>) -> Seq<Seq<char>> {
    if warnings.len() > 0 {
        seq![""@, rule_of(color, "warnings"@)] + warnings.map_values(|w: Seq<char>| "  "@ + paint_spec(color, "!"@, "33"@) + " "@ + paint_spec(color, w, "33"@))
    } else {
        Seq::empty()
    }
}

pub open spec fn footer_lines(color: bool, result: AnalysisResult, a: Assessment, verbose: bool) -> Seq<Seq<char>> {
    seq![
        ""@,
        "  "@ + confidence_spec(color, a) + " \u{b7} "@ + paint_spec(color, decimal(result.source_file_count as nat) + " files"@, "2;37"@) + " scanned"@
            + if !verbose && a.affected > 0 { " \u{b7} "@ + paint_spec(color, "-v for full cascade"@, "2;37"@) } else { ""@ },
    ]
}

/// The lines of the tree report.
pub open spec fn tree_lines(result: AnalysisResult, verbose: bool, color: bool) -> Seq<Seq<char>> {
    let a = assessment_spec(result);
    let list_files = verbose || a.affected <= 200;
    head_lines(color, result) + verdict_lines(color, result, a) + hotspot_section(color, result, a) + list_section(color, result, a, list_files)
        + warnings_section(color, str_views(result.warnings@)) + (if verbose { cascade_lines(color, result) } else { Seq::empty() })
        + footer_lines(color, result, a, verbose)
}

fn push_line(lines: &mut Vec<String>, line: String)
    ensures
        str_views(final(lines)@) == str_views(old(lines)@).push(line@),
{
    lines.push(line);
    proof {
        assert(str_views(lines@) =~= str_views(old(lines)@).push(line@));
    }
}

fn push_head(result: &AnalysisResult, theme: &Theme, lines: &mut Vec<String>)
    ensures
        str_views(final(lines)@) == str_views(old(lines)@) + head_lines(theme.color, *result),
{
    let ghost l0 = str_views(lines@);
    let mut banner = theme.banner();
    let ghost b = str_views(banner@);
    lines.append(&mut banner);
    proof {
        assert(str_views(lines@) =~= l0 + b);
        reveal_strlit("");
    }
    let mode = concat3("impact analysis \u{b7} ", format_mode(result.mode), " mode");
    let l1 = concat("  ", theme.muted(mode.as_str()).as_str());
    let e1 = owned("");
    let target = if result.roots.len() > 1 {
        concat("  ", theme.subject(concat(usize_to_string(result.roots.len()).as_str(), " input files").as_str()).as_str())
    } else {
        concat3("  ", theme.subject(format_subject(&result.target).as_str()).as_str(), concat("   ", theme.path(relative_target(result).as_str()).as_str()).as_str())
    };
    let e2 = owned("");
    proof {
        assert(l1@ =~= head_lines(theme.color, *result)[b.len() as int]);
        assert(target@ =~= target_line(theme.color, *result));
    }
    push_line(lines, l1);
    push_line(lines, e1);
    push_line(lines, target);
    push_line(lines, e2);
    proof {
        assert(str_views(lines@) =~= l0 + head_lines(theme.color, *result));
    }
}

fn verdict_main_exec(result: &AnalysisResult, a: &Assessment, theme: &Theme) -> (r: String)
    ensures
        r@ == verdict_main(theme.color, *result, *a),
{
    let aggregate = if result.roots.len() > 1 {
        concat3("  (across all ", usize_to_string(result.roots.len()).as_str(), " inputs)")
    } else {
        owned("")
    };
    proof {
        reveal_strlit("");
        assert(aggregate@ =~= verdict_aggregate(*result));
    }
    let reach = reach_exec(a);
    let pill = theme.risk_pill(a.tier);
    let meter = theme.meter(a.tier);
    let r = concat(
        concat3("  ", pill.as_str(), "  ").as_str(),
        concat(concat3(meter.as_str(), "  ", theme.subject(reach.as_str()).as_str()).as_str(), theme.muted(aggregate.as_str()).as_str()).as_str(),
    );
    proof {
        assert(pill@ == pill_spec(theme.color, a.tier));
        assert(meter@ == meter_spec(theme.color, a.tier));
        assert(r@ =~= verdict_main(theme.color, *result, *a));
    }
    r
}

fn reach_exec(a: &Assessment) -> (r: String)
    ensures
        r@ == verdict_reach(*a),
{
    let r = concat(
        concat(concat3(usize_to_string(a.affected).as_str(), " impacted file", plural_of(a.affected)).as_str(), " \u{b7} ").as_str(),
        concat3(usize_to_string(a.packages).as_str(), " package", plural_of(a.packages)).as_str(),
    );
    proof {
        assert(r@ =~= verdict_reach(*a));
    }
    r
}

fn verdict_detail_exec(result: &AnalysisResult, a: &Assessment, theme: &Theme) -> (r: String)
    ensures
        r@ == verdict_detail(theme.color, *result, *a),
{
    let detail = concat(
        concat(
            concat3(usize_to_string(result.summary.directly_affected_files).as_str(), " direct, ", usize_to_string(result.summary.transitively_affected_files).as_str()).as_str(),
            concat3(" indirect \u{b7} depth ", usize_to_string(a.max_depth).as_str(), " \u{b7} ").as_str(),
        ).as_str(),
        concat3(usize_to_string(a.leaves).as_str(), " endpoint", plural_of(a.leaves)).as_str(),
    );
    let r = concat("  ", theme.muted(detail.as_str()).as_str());
    proof {
        assert(r@ =~= verdict_detail(theme.color, *result, *a));
    }
    r
}

fn push_verdict(result: &AnalysisResult, a: &Assessment, theme: &Theme, lines: &mut Vec<String>)
    ensures
        str_views(final(lines)@) == str_views(old(lines)@) + verdict_lines(theme.color, *result, *a),
{
    let ghost l0 = str_views(lines@);
    if a.affected == 0 {
        let line = concat3("  ", theme.risk_pill(RiskTier::Minor).as_str(), concat("  ", theme.subject("nothing depends on this \u{2014} safe to change").as_str()).as_str());
        proof {
            assert(line@ =~= verdict_lines(theme.color, *result, *a)[0]);
        }
        push_line(lines, line);
        proof {
            assert(str_views(lines@) =~= l0 + verdict_lines(theme.color, *result, *a));
        }
        return;
    }
    let line1 = verdict_main_exec(result, a, theme);
    let line2 = verdict_detail_exec(result, a, theme);
    push_line(lines, line1);
    push_line(lines, line2);
    proof {
        assert(str_views(lines@) =~= l0 + verdict_lines(theme.color, *result, *a));
    }
}

fn push_hotspots(result: &AnalysisResult, a: &Assessment, theme: &Theme, lines: &mut Vec<String>)
    ensures
        str_views(final(lines)@) == str_views(old(lines)@) + hotspot_section(theme.color, *result, *a),
{
    let ghost l0 = str_views(lines@);
    if a.affected >= 8 {
        let hotspots = hotspot_dirs(result);
        if hotspots.len() >= 2 {
            push_line(lines, owned(""));
            push_line(lines, theme.rule("hotspots"));
            proof {
                reveal_strlit("");
                let shown = hot_views(hotspots@).take(if hotspots@.len() < 6 { hotspots@.len() as int } else { 6 });
                assert(shown[0].1 == hotspots@[0].1);
                crate::tree::lemma_max_count_pos(shown);
            }
            render_hotspots(&hotspots, a.tier, theme, lines);
            proof {
                assert(str_views(lines@) =~= l0 + hotspot_section(theme.color, *result, *a));
            }
            return;
        }
    }
    proof {
        assert(str_views(lines@) =~= l0 + hotspot_section(theme.color, *result, *a));
    }
}

fn affected_files(result: &AnalysisResult) -> (r: Vec<ImpactedFile>)
    ensures
        file_views(r@) == affected_file_views(*result),
{
    let nodes = &result.nodes;
    let mut out: Vec<ImpactedFile> = Vec::new();
    let mut i: usize = 0;
    proof {
        assert(file_views(out@) =~= affected_nodes(nodes@, 0).map_values(|n: GraphNode| (n.label@, is_leaf_spec(result.edges@, n.id@))));
    }
    while i < nodes.len()
        invariant
            i <= nodes@.len(),
            file_views(out@) == affected_nodes(nodes@, i as nat).map_values(|n: GraphNode| (n.label@, is_leaf_spec(result.edges@, n.id@))),
        decreases nodes.len() - i,
    {
        let node = &nodes[i];
        if node.kind == NodeKind::File && node.depth >= 1 {
            let endpoint = is_leaf(node.id.as_str(), result);
            let ghost before = file_views(out@);
            out.push(ImpactedFile { path: node.label.clone(), endpoint });
            proof {
                let prev = affected_nodes(nodes@, i as nat);
                assert(affected_nodes(nodes@, (i + 1) as nat) == prev.push(*node));
                assert(file_views(out@) =~= before.push((node.label@, endpoint)));
                assert(prev.push(*node).map_values(|n: GraphNode| (n.label@, is_leaf_spec(result.edges@, n.id@))) =~= prev.map_values(
                    |n: GraphNode| (n.label@, is_leaf_spec(result.edges@, n.id@)),
                ).push((node.label@, endpoint)));
            }
        }
        i = i + 1;
    }
    out
}

pub open spec fn root_blocks(color: bool, roots: Seq<RootImpact>, ws: Seq<Seq<char>>, list_files: bool) -> Seq<Seq<Seq<char>>> {
    Seq::new(roots.len(), |i: int| (if i > 0 { seq![""@] } else { Seq::<Seq<char>>::empty() }) + root_block_lines(color, roots[i], ws, list_files))
}

fn push_root_blocks(result: &AnalysisResult, list_files: bool, theme: &Theme, lines: &mut Vec<String>)
    ensures
        str_views(final(lines)@) == str_views(old(lines)@) + concat_lines(
            root_blocks(theme.color, result.roots@, workspace_roots(result.workspaces@), list_files),
        ),
{
    let ghost l1 = str_views(lines@);
    let ghost ws = workspace_roots(result.workspaces@);
    let ghost blocks = root_blocks(theme.color, result.roots@, ws, list_files);
    let n = result.roots.len();
    let mut i: usize = 0;
    proof {
        assert(str_views(lines@) =~= l1 + concat_lines(blocks.take(0)));
    }
    while i < n
        invariant
            i <= n,
            n == result.roots@.len(),
            ws == workspace_roots(result.workspaces@),
            blocks == root_blocks(theme.color, result.roots@, ws, list_files),
            str_views(lines@) == l1 + concat_lines(blocks.take(i as int)),
        decreases n - i,
    {
        let ghost before = str_views(lines@);
        if i > 0 {
            push_line(lines, owned(""));
        }
        render_root_block(&result.roots[i], &result.workspaces, list_files, theme, lines);
        proof {
            reveal_strlit("");
            assert(blocks.take(i + 1).drop_last() =~= blocks.take(i as int));
            assert(str_views(lines@) =~= before + blocks[i as int]);
            assert(str_views(lines@) =~= l1 + concat_lines(blocks.take(i + 1)));
        }
        i = i + 1;
    }
    proof {
        assert(blocks.take(n as int) =~= blocks);
    }
}

fn push_multi_lists(result: &AnalysisResult, a: &Assessment, list_files: bool, theme: &Theme, lines: &mut Vec<String>)
    requires
        result.roots@.len() > 1,
    ensures
        str_views(final(lines)@) == str_views(old(lines)@) + list_section(theme.color, *result, *a, list_files),
{
    let ghost l0 = str_views(lines@);
    let n = result.roots.len();
    push_line(lines, owned(""));
    push_line(lines, theme.rule(concat("impact by input file \u{b7} ", usize_to_string(n).as_str()).as_str()));
    let ghost l1 = str_views(lines@);
    push_root_blocks(result, list_files, theme, lines);
    let ghost l2 = str_views(lines@);
    push_list_caveats(a.affected > 0, list_files, theme, lines);
    proof {
        reveal_strlit("");
        assert(l1 =~= l0 + seq![""@, rule_of(theme.color, "impact by input file \u{b7} "@ + decimal(n as nat))]);
        assert(root_blocks(theme.color, result.roots@, workspace_roots(result.workspaces@), list_files) =~= Seq::new(
            n as nat,
            |i: int| (if i > 0 { seq![""@] } else { Seq::<Seq<char>>::empty() }) + root_block_lines(
                theme.color,
                result.roots@[i],
                workspace_roots(result.workspaces@),
                list_files,
            ),
        ));
        assert(str_views(lines@) =~= l0 + list_section(theme.color, *result, *a, list_files));
    }
}

fn push_single_lists(result: &AnalysisResult, a: &Assessment, list_files: bool, theme: &Theme, lines: &mut Vec<String>)
    requires
        result.roots@.len() <= 1,
    ensures
        str_views(final(lines)@) == str_views(old(lines)@) + list_section(theme.color, *result, *a, list_files),
{
    let ghost l0 = str_views(lines@);
    let files = affected_files(result);
    let groups = group_files(&files, &result.workspaces);
    if groups.len() > 0 {
        push_line(lines, owned(""));
        let label = concat(
            concat3("impacted files \u{b7} ", usize_to_string(a.affected).as_str(), " in ").as_str(),
            concat3(usize_to_string(a.packages).as_str(), " package", plural_of(a.packages)).as_str(),
        );
        proof {
            assert(label@ =~= "impacted files \u{b7} "@ + decimal(a.affected as nat) + " in "@ + decimal(a.packages as nat) + " package"@ + plural(a.packages as nat));
        }
        push_line(lines, theme.rule(label.as_str()));
        let ghost l1 = str_views(lines@);
        render_package_groups(&groups, 2, list_files, theme, lines);
        push_list_caveats(true, list_files, theme, lines);
        proof {
            reveal_strlit("");
            assert(str_views(lines@) =~= l0 + list_section(theme.color, *result, *a, list_files));
        }
    } else {
        proof {
            assert(str_views(lines@) =~= l0 + list_section(theme.color, *result, *a, list_files));
        }
    }
}

fn push_lists(result: &AnalysisResult, a: &Assessment, list_files: bool, theme: &Theme, lines: &mut Vec<String>)
    ensures
        str_views(final(lines)@) == str_views(old(lines)@) + list_section(theme.color, *result, *a, list_files),
{
    if result.roots.len() > 1 {
        push_multi_lists(result, a, list_files, theme, lines);
    } else {
        push_single_lists(result, a, list_files, theme, lines);
    }
}

fn push_warnings(result: &AnalysisResult, theme: &Theme, lines: &mut Vec<String>)
    ensures
        str_views(final(lines)@) == str_views(old(lines)@) + warnings_section(theme.color, str_views(result.warnings@)),
{
    let ghost l0 = str_views(lines@);
    let ghost wv = str_views(result.warnings@);
    if result.warnings.len() == 0 {
        proof {
            assert(str_views(lines@) =~= l0 + warnings_section(theme.color, wv));
        }
        return;
    }
    push_line(lines, owned(""));
    push_line(lines, theme.rule("warnings"));
    let ghost l1 = str_views(lines@);
    let ghost rows = wv.map_values(|w: Seq<char>| "  "@ + paint_spec(theme.color, "!"@, "33"@) + " "@ + paint_spec(theme.color, w, "33"@));
    let mut k: usize = 0;
    proof {
        reveal_strlit("");
        assert(str_views(lines@) =~= l1 + rows.take(0));
    }
    while k < result.warnings.len()
        invariant
            k <= result.warnings@.len(),
            wv == str_views(result.warnings@),
            rows == wv.map_values(|w: Seq<char>| "  "@ + paint_spec(theme.color, "!"@, "33"@) + " "@ + paint_spec(theme.color, w, "33"@)),
            str_views(lines@) == l1 + rows.take(k as int),
        decreases result.warnings.len() - k,
    {
        let line = concat3("  ", theme.warn("!").as_str(), concat(" ", theme.warn(result.warnings[k].as_str()).as_str()).as_str());
        proof {
            assert(line@ =~= rows[k as int]);
            assert(rows.take(k + 1) =~= rows.take(k as int).push(rows[k as int]));
        }
        push_line(lines, line);
        k = k + 1;
    }
    proof {
        reveal_strlit("");
        assert(rows.take(wv.len() as int) =~= rows);
        assert(str_views(lines@) =~= l0 + warnings_section(theme.color, wv));
    }
}

fn push_footer(result: &AnalysisResult, a: &Assessment, verbose: bool, theme: &Theme, lines: &mut Vec<String>)
    ensures
        str_views(final(lines)@) == str_views(old(lines)@) + footer_lines(theme.color, *result, *a, verbose),
{
    let ghost l0 = str_views(lines@);
    let scanned = concat(usize_to_string(result.source_file_count).as_str(), " files");
    let tail = if !verbose && a.affected > 0 {
        concat(" \u{b7} ", theme.muted("-v for full cascade").as_str())
    } else {
        owned("")
    };
    let footer = concat(
        concat3("  ", confidence_tag(a, theme).as_str(), " \u{b7} ").as_str(),
        concat3(theme.muted(scanned.as_str()).as_str(), " scanned", tail.as_str()).as_str(),
    );
    proof {
        reveal_strlit("");
        assert(footer@ =~= footer_lines(theme.color, *result, *a, verbose)[1]);
    }
    push_line(lines, owned(""));
    push_line(lines, footer);
    proof {
        assert(str_views(lines@) =~= l0 + footer_lines(theme.color, *result, *a, verbose));
    }
}

/// The tree report of `result`.
pub fn render_tree(result: &AnalysisResult, verbose: bool, color: bool) -> (r: String)
    ensures
        r@ == join(tree_lines(*result, verbose, color), "\n"@),
{
    let theme = Theme::new(color);
    let a = assess(result);
    let mut lines: Vec<String> = Vec::new();
    let list_files = verbose || a.affected <= 200;
    push_head(result, &theme, &mut lines);
    let ghost s1 = str_views(lines@);
    push_verdict(result, &a, &theme, &mut lines);
    let ghost s2 = str_views(lines@);
    push_hotspots(result, &a, &theme, &mut lines);
    let ghost s3 = str_views(lines@);
    push_lists(result, &a, list_files, &theme, &mut lines);
    let ghost s4 = str_views(lines@);
    push_warnings(result, &theme, &mut lines);
    let ghost s5 = str_views(lines@);
    if verbose {
        render_cascade(result, &theme, &mut lines);
    }
    let ghost s6 = str_views(lines@);
    push_footer(result, &a, verbose, &theme, &mut lines);
    proof {
        let e: Seq<Seq<char>> = Seq::empty();
        assert(s6 =~= s5 + (if verbose { cascade_lines(color, *result) } else { e }));
        assert(str_views(lines@) =~= tree_lines(*result, verbose, color));
    }
    join_strings(&lines, "\n")
}

/// The formats a result can be written in.
#[derive(Clone, Copy, Debug, PartialEq, Eq, Structural)]
pub enum OutputFormat {
    Tree,
    Json,
    Mermaid,
    Dot,
}

/// The result in a text format: the verdict tree, a Mermaid or a DOT graph.
/// JSON is the serialized result itself, which the caller writes (`None`).
pub fn render(format: &OutputFormat, result: &AnalysisResult, verbose: bool, color: bool) -> (r: Option<String>)
    ensures
        match *format {
            OutputFormat::Tree => r matches Some(t) && t@ == join(tree_lines(*result, verbose, color), "\n"@),
            OutputFormat::Mermaid => r matches Some(t) && t@ == join(
                crate::graph_formats::mermaid_lines(result.nodes@, result.edges@),
                "\n"@,
            ),
            OutputFormat::Dot => r matches Some(t) && t@ == join(crate::graph_formats::dot_lines(result.nodes@, result.edges@), "\n"@),
            OutputFormat::Json => r is None,
        },
{
    match format {
        OutputFormat::Tree => Some(render_tree(result, verbose, color)),
        OutputFormat::Mermaid => Some(crate::graph_formats::render_mermaid(result)),
        OutputFormat::Dot => Some(crate::graph_formats::render_dot(result)),
        OutputFormat::Json => None,
    }
}

} // verus!
