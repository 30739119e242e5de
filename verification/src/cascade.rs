//! The detailed cascade of the verbose report: the root, its direct
//! dependents, and every path from them down the dependency graph.
use vstd::prelude::*;

use crate::analyze::edge_kind_name;
use crate::collections::{str_lt, str_views, StrSet};
use crate::graph::{AnalysisMode, AnalysisResult, AnalysisTarget, EdgeKind, GraphEdge, GraphNode, NodeKind};
use crate::text::{concat, concat3, decimal, join, join_strings, last_index, owned, rfind_char, str_eq, sub_string};
use crate::theme::{paint_spec, Theme};
use crate::walk::{file_id, file_id_spec};

verus! {

// ---------------------------------------------------------------------------
// Looking up nodes and edges
// ---------------------------------------------------------------------------

/// The first node with id `id` among the first `n`.
pub open spec fn first_node(nodes: Seq<GraphNode>, id: Seq<char>, n: nat) -> Option<int>
    decreases n,
{
    if n == 0 {
        None
    } else {
        match first_node(nodes, id, (n - 1) as nat) {
            Some(i) => Some(i),
            None => if nodes[n - 1].id@ == id { Some(n - 1) } else { None },
        }
    }
}

pub open spec fn node_of(nodes: Seq<GraphNode>, id: Seq<char>) -> Option<int> {
    first_node(nodes, id, nodes.len())
}

pub proof fn lemma_first_node(nodes: Seq<GraphNode>, id: Seq<char>, n: nat)
    requires
        n <= nodes.len(),
    ensures
        first_node(nodes, id, n) matches Some(i) ==> 0 <= i < n && nodes[i].id@ == id,
        first_node(nodes, id, n) is None ==> forall|k: int| 0 <= k < n ==> (#[trigger] nodes[k]).id@ != id,
    decreases n,
{
    if n > 0 {
        lemma_first_node(nodes, id, (n - 1) as nat);
    }
}

fn find_node(nodes: &Vec<GraphNode>, id: &str) -> (r: Option<usize>)
    ensures
        r matches Some(i) ==> node_of(nodes@, id@) == Some(i as int) && i < nodes@.len() && nodes@[i as int].id@ == id@,
        r is None ==> node_of(nodes@, id@) is None,
{
    proof {
        lemma_first_node(nodes@, id@, nodes@.len());
    }
    let mut i: usize = 0;
    while i < nodes.len()
        invariant
            i <= nodes@.len(),
            first_node(nodes@, id@, i as nat) is None,
        decreases nodes.len() - i,
    {
        if str_eq(nodes[i].id.as_str(), id) {
            proof {
                lemma_node_prefix(nodes@, id@, (i + 1) as nat, nodes@.len());
            }
            return Some(i);
        }
        i = i + 1;
    }
    None
}

/// The first match does not change as more nodes are considered.
proof fn lemma_node_prefix(nodes: Seq<GraphNode>, id: Seq<char>, m: nat, n: nat)
    requires
        m <= n,
        first_node(nodes, id, m) is Some,
    ensures
        first_node(nodes, id, n) == first_node(nodes, id, m),
    decreases n - m,
{
    if m < n {
        lemma_node_prefix(nodes, id, m, (n - 1) as nat);
    }
}

/// Nothing depends on the node `id`: no edge leaves it.
pub open spec fn is_leaf_spec(edges: Seq<GraphEdge>, id: Seq<char>) -> bool {
    forall|k: int| 0 <= k < edges.len() ==> (#[trigger] edges[k]).from@ != id
}

pub fn is_leaf(node_id: &str, result: &AnalysisResult) -> (r: bool)
    ensures
        r == is_leaf_spec(result.edges@, node_id@),
{
    let mut k: usize = 0;
    while k < result.edges.len()
        invariant
            k <= result.edges@.len(),
            forall|j: int| 0 <= j < k ==> (#[trigger] result.edges@[j]).from@ != node_id@,
        decreases result.edges.len() - k,
    {
        if str_eq(result.edges[k].from.as_str(), node_id) {
            return false;
        }
        k = k + 1;
    }
    true
}

pub open spec fn mode_name(mode: AnalysisMode) -> Seq<char> {
    match mode {
        AnalysisMode::Export => "export"@,
        AnalysisMode::File => "file"@,
        AnalysisMode::Files => "files"@,
    }
}

pub fn format_mode(mode: AnalysisMode) -> (r: &'static str)
    ensures
        r@ == mode_name(mode),
{
    match mode {
        AnalysisMode::Export => "export",
        AnalysisMode::File => "file",
        AnalysisMode::Files => "files",
    }
}

// ---------------------------------------------------------------------------
// The children of a node, in order
// ---------------------------------------------------------------------------

/// An edge as the cascade shows it: (child id, kind, ambiguity).
pub type VisView = (Seq<char>, EdgeKind, bool);

/// `a` sorts before `b`: by child id, then by the kind's name.
pub open spec fn vis_lt(a: VisView, b: VisView) -> bool {
    str_lt(a.0, b.0) || (a.0 == b.0 && str_lt(edge_kind_name(a.1), edge_kind_name(b.1)))
}

/// Where a stable sort puts `x` into the sorted `s`: after everything that
/// does not sort after it.
pub open spec fn insert_pos(s: Seq<VisView>, x: VisView) -> int
    decreases s.len(),
{
    if s.len() == 0 {
        0
    } else if vis_lt(x, s[0]) {
        0
    } else {
        1 + insert_pos(s.drop_first(), x)
    }
}

/// `s` sorted stably by child id and kind name.
pub open spec fn stable_sort(s: Seq<VisView>) -> Seq<VisView>
    decreases s.len(),
{
    if s.len() == 0 {
        Seq::empty()
    } else {
        let sorted = stable_sort(s.drop_last());
        sorted.insert(insert_pos(sorted, s.last()), s.last())
    }
}

proof fn lemma_insert_pos(s: Seq<VisView>, x: VisView, p: int)
    requires
        0 <= p <= s.len(),
        forall|k: int| 0 <= k < p ==> !vis_lt(x, #[trigger] s[k]),
        p == s.len() || vis_lt(x, s[p]),
    ensures
        insert_pos(s, x) == p,
    decreases s.len(),
{
    if s.len() > 0 && p > 0 {
        assert forall|k: int| 0 <= k < p - 1 implies !vis_lt(x, #[trigger] s.drop_first()[k]) by {
            assert(s.drop_first()[k] == s[k + 1]);
        }
        if p < s.len() {
            assert(s.drop_first()[p - 1] == s[p]);
        }
        lemma_insert_pos(s.drop_first(), x, p - 1);
    }
}

pub open spec fn kind_lt(a: EdgeKind, b: EdgeKind) -> bool {
    str_lt(edge_kind_name(a), edge_kind_name(b))
}

fn kind_less(a: EdgeKind, b: EdgeKind) -> (r: bool)
    ensures
        r == kind_lt(a, b),
{
    let x = crate::analyze::edge_kind_name_exec(a);
    let y = crate::analyze::edge_kind_name_exec(b);
    crate::collections::str_less(x.as_str(), y.as_str())
}

/// An edge the cascade shows.
pub struct VisibleEdge {
    pub to: String,
    pub kind: EdgeKind,
    pub is_ambiguous: bool,
}

pub open spec fn vis_view(e: VisibleEdge) -> VisView {
    (e.to@, e.kind, e.is_ambiguous)
}

pub open spec fn vis_views(s: Seq<VisibleEdge>) -> Seq<VisView> {
    s.map_values(|e: VisibleEdge| vis_view(e))
}

/// Inserts `x` into `out` where a stable sort puts it.
fn stable_insert(out: &mut Vec<VisibleEdge>, x: VisibleEdge)
    ensures
        vis_views(final(out)@) == vis_views(old(out)@).insert(insert_pos(vis_views(old(out)@), vis_view(x)), vis_view(x)),
{
    let ghost s = vis_views(out@);
    let mut p: usize = 0;
    while p < out.len()
        invariant
            p <= out@.len(),
            s == vis_views(out@),
            forall|k: int| 0 <= k < p ==> !vis_lt(vis_view(x), #[trigger] s[k]),
        ensures
            p <= out@.len(),
            forall|k: int| 0 <= k < p ==> !vis_lt(vis_view(x), #[trigger] s[k]),
            p == out@.len() || vis_lt(vis_view(x), s[p as int]),
        decreases out.len() - p,
    {
        let y = &out[p];
        let lt = crate::collections::str_less(x.to.as_str(), y.to.as_str())
            || (str_eq(x.to.as_str(), y.to.as_str()) && kind_less(x.kind, y.kind));
        if lt {
            break;
        }
        p = p + 1;
    }
    proof {
        lemma_insert_pos(s, vis_view(x), p as int);
    }
    let ghost xv = vis_view(x);
    let ghost before = out@;
    out.insert(p, x);
    proof {
        assert(vis_views(out@) =~= s.insert(p as int, xv));
    }
}

/// The edges leaving `id` among the first `n`, in order.
pub open spec fn edges_from(edges: Seq<GraphEdge>, id: Seq<char>, n: nat) -> Seq<VisView>
    decreases n,
{
    if n == 0 {
        Seq::empty()
    } else {
        let rest = edges_from(edges, id, (n - 1) as nat);
        let e = edges[n - 1];
        if e.from@ == id { rest.push((e.to@, e.kind, e.is_ambiguous)) } else { rest }
    }
}

/// The edges leaving `id`, by child and kind.
pub open spec fn child_edges_spec(edges: Seq<GraphEdge>, id: Seq<char>) -> Seq<VisView> {
    stable_sort(edges_from(edges, id, edges.len()))
}

fn child_edges(id: &str, edges: &Vec<GraphEdge>) -> (r: Vec<VisibleEdge>)
    ensures
        vis_views(r@) == child_edges_spec(edges@, id@),
{
    let mut out: Vec<VisibleEdge> = Vec::new();
    let mut k: usize = 0;
    proof {
        assert(vis_views(out@) =~= Seq::<VisView>::empty());
    }
    while k < edges.len()
        invariant
            k <= edges@.len(),
            vis_views(out@) == stable_sort(edges_from(edges@, id@, k as nat)),
        decreases edges.len() - k,
    {
        let e = &edges[k];
        if str_eq(e.from.as_str(), id) {
            let ghost prev = edges_from(edges@, id@, k as nat);
            stable_insert(&mut out, VisibleEdge { to: e.to.clone(), kind: e.kind, is_ambiguous: e.is_ambiguous });
            proof {
                let now = edges_from(edges@, id@, (k + 1) as nat);
                assert(now == prev.push((e.to@, e.kind, e.is_ambiguous)));
                assert(now.drop_last() =~= prev);
            }
        }
        k = k + 1;
    }
    out
}

// ---------------------------------------------------------------------------
// The visible children of a node
// ---------------------------------------------------------------------------

/// The ids whose out-edges count as a node's own: the node, and, for a
/// file node, each export node of the same file, in node order.
pub open spec fn seed_ids(nodes: Seq<GraphNode>, id: Seq<char>) -> Seq<Seq<char>> {
    match node_of(nodes, id) {
        Some(i) => if nodes[i].kind == NodeKind::File {
            seq![id] + export_ids_of(nodes, nodes[i].file@, nodes.len())
        } else {
            seq![id]
        },
        None => seq![id],
    }
}

/// The ids of the export nodes of file `file` among the first `n` nodes.
pub open spec fn export_ids_of(nodes: Seq<GraphNode>, file: Seq<char>, n: nat) -> Seq<Seq<char>>
    decreases n,
{
    if n == 0 {
        Seq::empty()
    } else {
        let rest = export_ids_of(nodes, file, (n - 1) as nat);
        let m = nodes[n - 1];
        if m.kind == NodeKind::Export && m.file@ == file { rest.push(m.id@) } else { rest }
    }
}

pub open spec fn concat_views(groups: Seq<Seq<VisView>>) -> Seq<VisView>
    decreases groups.len(),
{
    if groups.len() == 0 {
        Seq::empty()
    } else {
        concat_views(groups.drop_last()) + groups.last()
    }
}

/// The out-edges of the node and of its export nodes.
pub open spec fn seeds_spec(nodes: Seq<GraphNode>, edges: Seq<GraphEdge>, id: Seq<char>) -> Seq<VisView> {
    concat_views(seed_ids(nodes, id).map_values(|s: Seq<char>| child_edges_spec(edges, s)))
}

/// Where an out-edge of `id` lands in the cascade: at its child when that is
/// a node other than an export, at the file of an export child (unless that
/// file is `id` or the child itself), nowhere when the node is missing.
pub open spec fn resolve_seed(nodes: Seq<GraphNode>, id: Seq<char>, seed: VisView) -> Option<VisView> {
    match node_of(nodes, seed.0) {
        None => None,
        Some(i) => if nodes[i].kind == NodeKind::Export {
            let owner = file_id_spec(nodes[i].file@);
            if owner != id && owner != seed.0 {
                match node_of(nodes, owner) {
                    Some(j) => Some((owner, seed.1, seed.2)),
                    None => None,
                }
            } else {
                None
            }
        } else {
            Some(seed)
        },
    }
}

/// The landings of the seeds, last seed first, each once.
pub open spec fn landings(nodes: Seq<GraphNode>, id: Seq<char>, seeds: Seq<VisView>) -> Seq<VisView>
    decreases seeds.len(),
{
    if seeds.len() == 0 {
        Seq::empty()
    } else {
        let before = landings(nodes, id, seeds.drop_first());
        match resolve_seed(nodes, id, seeds[0]) {
            Some(v) => if before.contains(v) { before } else { before.push(v) },
            None => before,
        }
    }
}

/// The children the cascade shows under the node `id`, by child and kind.
pub open spec fn visible_children(nodes: Seq<GraphNode>, edges: Seq<GraphEdge>, id: Seq<char>) -> Seq<VisView> {
    if node_of(nodes, id) is None {
        Seq::empty()
    } else {
        stable_sort(landings(nodes, id, seeds_spec(nodes, edges, id)))
    }
}

fn same_view(a: &VisibleEdge, b: &VisibleEdge) -> (r: bool)
    ensures
        r == (vis_view(*a) == vis_view(*b)),
{
    str_eq(a.to.as_str(), b.to.as_str()) && a.kind == b.kind && a.is_ambiguous == b.is_ambiguous
}

fn contains_view(list: &Vec<VisibleEdge>, x: &VisibleEdge) -> (r: bool)
    ensures
        r == vis_views(list@).contains(vis_view(*x)),
{
    let mut k: usize = 0;
    while k < list.len()
        invariant
            k <= list@.len(),
            forall|j: int| 0 <= j < k ==> vis_view(#[trigger] list@[j]) != vis_view(*x),
        decreases list.len() - k,
    {
        if same_view(&list[k], x) {
            assert(vis_views(list@)[k as int] == vis_view(*x));
            return true;
        }
        k = k + 1;
    }
    proof {
        if vis_views(list@).contains(vis_view(*x)) {
            let j = choose|j: int| 0 <= j < list@.len() && vis_views(list@)[j] == vis_view(*x);
            assert(vis_view(list@[j]) != vis_view(*x));
        }
    }
    false
}

/// The children the cascade shows under the node `node_id`.
pub fn visible_child_edges(node_id: &str, result: &AnalysisResult) -> (r: Vec<VisibleEdge>)
    ensures
        vis_views(r@) == visible_children(result.nodes@, result.edges@, node_id@),
{
    let nodes = &result.nodes;
    let edges = &result.edges;
    let found = find_node(nodes, node_id);
    let i = match found {
        None => {
            let empty: Vec<VisibleEdge> = Vec::new();
            proof {
                assert(vis_views(empty@) =~= Seq::<VisView>::empty());
            }
            return empty;
        },
        Some(i) => i,
    };
    proof {
        lemma_first_node(nodes@, node_id@, nodes@.len());
    }
    // the ids whose out-edges seed the walk
    let mut ids: Vec<String> = vec![owned(node_id)];
    if nodes[i].kind == NodeKind::File {
        let file = &nodes[i].file;
        let mut j: usize = 0;
        proof {
            assert(str_views(ids@) =~= seq![node_id@] + export_ids_of(nodes@, file@, 0));
        }
        while j < nodes.len()
            invariant
                j <= nodes@.len(),
                str_views(ids@) == seq![node_id@] + export_ids_of(nodes@, file@, j as nat),
            decreases nodes.len() - j,
        {
            if nodes[j].kind == NodeKind::Export && str_eq(nodes[j].file.as_str(), file.as_str()) {
                let ghost before = str_views(ids@);
                ids.push(nodes[j].id.clone());
                proof {
                    assert(str_views(ids@) =~= before.push(nodes@[j as int].id@));
                }
            }
            j = j + 1;
        }
    }
    proof {
        assert(str_views(ids@) == seed_ids(nodes@, node_id@));
    }
    let ghost groups = seed_ids(nodes@, node_id@).map_values(|s: Seq<char>| child_edges_spec(edges@, s));
    let mut seeds: Vec<VisibleEdge> = Vec::new();
    let mut t: usize = 0;
    proof {
        assert(vis_views(seeds@) =~= concat_views(groups.take(0)));
    }
    while t < ids.len()
        invariant
            t <= ids@.len(),
            str_views(ids@) == seed_ids(nodes@, node_id@),
            groups == seed_ids(nodes@, node_id@).map_values(|s: Seq<char>| child_edges_spec(edges@, s)),
            vis_views(seeds@) == concat_views(groups.take(t as int)),
        decreases ids.len() - t,
    {
        let mut more = child_edges(ids[t].as_str(), edges);
        let ghost before = vis_views(seeds@);
        let ghost extra = vis_views(more@);
        seeds.append(&mut more);
        proof {
            assert(vis_views(seeds@) =~= before + extra);
            assert(groups[t as int] == child_edges_spec(edges@, ids@[t as int]@));
            assert(groups.take(t + 1).drop_last() =~= groups.take(t as int));
        }
        t = t + 1;
    }
    proof {
        assert(groups.take(ids@.len() as int) =~= groups);
    }
    let ghost sv = vis_views(seeds@);
    // where each seed lands, last seed first, each landing once
    let mut list: Vec<VisibleEdge> = Vec::new();
    let mut k = seeds.len();
    proof {
        assert(sv.skip(k as int) =~= Seq::<VisView>::empty());
        assert(vis_views(list@) =~= landings(nodes@, node_id@, sv.skip(k as int)));
    }
    while k > 0
        invariant
            k <= seeds@.len(),
            sv == vis_views(seeds@),
            vis_views(list@) == landings(nodes@, node_id@, sv.skip(k as int)),
        decreases k,
    {
        k = k - 1;
        proof {
            assert(sv.skip(k as int).drop_first() =~= sv.skip(k + 1));
            assert(sv.skip(k as int)[0] == sv[k as int]);
        }
        let seed = &seeds[k];
        let landing: Option<VisibleEdge> = match find_node(nodes, seed.to.as_str()) {
            None => None,
            Some(c) => {
                if nodes[c].kind == NodeKind::Export {
                    let owner = file_id(nodes[c].file.as_str());
                    if !str_eq(owner.as_str(), node_id) && !str_eq(owner.as_str(), seed.to.as_str()) {
                        match find_node(nodes, owner.as_str()) {
                            Some(_) => Some(VisibleEdge { to: owner, kind: seed.kind, is_ambiguous: seed.is_ambiguous }),
                            None => None,
                        }
                    } else {
                        None
                    }
                } else {
                    Some(VisibleEdge { to: seed.to.clone(), kind: seed.kind, is_ambiguous: seed.is_ambiguous })
                }
            },
        };
        match landing {
            Some(v) => {
                if !contains_view(&list, &v) {
                    let ghost before = vis_views(list@);
                    let ghost vv = vis_view(v);
                    list.push(v);
                    proof {
                        assert(vis_views(list@) =~= before.push(vv));
                    }
                }
            },
            None => {},
        }
    }
    proof {
        assert(sv.skip(0) =~= sv);
    }
    let ghost lv = vis_views(list@);
    let mut out: Vec<VisibleEdge> = Vec::new();
    proof {
        assert(vis_views(out@) =~= stable_sort(lv.take(0)));
    }
    let n = list.len();
    let mut q: usize = 0;
    while q < n
        invariant
            q <= n,
            n == lv.len(),
            lv == vis_views(list@),
            vis_views(out@) == stable_sort(lv.take(q as int)),
        decreases n - q,
    {
        let x = VisibleEdge { to: list[q].to.clone(), kind: list[q].kind, is_ambiguous: list[q].is_ambiguous };
        proof {
            assert(vis_view(x) == lv[q as int]);
            assert(lv.take(q + 1).drop_last() =~= lv.take(q as int));
            assert(lv.take(q + 1).last() == lv[q as int]);
        }
        stable_insert(&mut out, x);
        q = q + 1;
    }
    proof {
        assert(lv.take(n as int) =~= lv);
    }
    out
}

// ---------------------------------------------------------------------------
// Lines of the cascade
// ---------------------------------------------------------------------------

/// A label split at its last `#` into file and symbol.
pub open spec fn split_export_label_spec(label: Seq<char>) -> (Seq<char>, Option<Seq<char>>) {
    if label.contains('#') {
        let i = crate::text::last_pos(label, '#');
        (label.take(i), Some(label.skip(i + 1)))
    } else {
        (label, None)
    }
}

pub fn split_export_label(label: &str) -> (r: (String, Option<String>))
    ensures
        r.0@ == split_export_label_spec(label@).0,
        crate::collections::opt_str(r.1) == split_export_label_spec(label@).1,
{
    let cs = crate::text::chars_of(label);
    match rfind_char(cs.as_slice(), '#') {
        Some(i) => {
            proof {
                crate::text::lemma_last_pos(label@, '#', i as int);
            }
            (sub_string(cs.as_slice(), 0, i), Some(sub_string(cs.as_slice(), i + 1, cs.len())))
        },
        None => (owned(label), None),
    }
}

/// How the cascade shows a node.
pub open spec fn node_text(color: bool, n: GraphNode) -> Seq<char> {
    match n.kind {
        NodeKind::File => {
            let depth = if n.depth == 0 {
                paint_spec(color, "root"@, "2;32"@)
            } else {
                paint_spec(color, "d"@ + decimal(n.depth as nat), "2;32"@)
            };
            paint_spec(color, "\u{192}"@, "34"@) + " "@ + paint_spec(color, n.label@, "36"@) + " "@ + depth
        },
        NodeKind::Export => {
            let parts = split_export_label_spec(n.label@);
            let symbol = match parts.1 {
                Some(s) => s,
                None => ""@,
            };
            paint_spec(color, "\u{21e2}"@, "33"@) + " "@ + paint_spec(color, parts.0, "36"@) + " "@ + paint_spec(color, "#"@ + symbol, "1;33"@)
        },
    }
}

pub fn format_node(node: &GraphNode, theme: &Theme) -> (r: String)
    ensures
        r@ == node_text(theme.color, *node),
{
    match node.kind {
        NodeKind::File => {
            let depth = if node.depth == 0 {
                theme.depth_root("root")
            } else {
                theme.depth(node.depth)
            };
            let r = concat(concat3(theme.file("\u{192}").as_str(), " ", theme.path(node.label.as_str()).as_str()).as_str(), concat(" ", depth.as_str()).as_str());
            proof {
                assert(r@ =~= node_text(theme.color, *node));
            }
            r
        },
        NodeKind::Export => {
            let (file, symbol) = split_export_label(node.label.as_str());
            let sym = match symbol {
                Some(s) => s,
                None => owned(""),
            };
            let r = concat(
                concat3(theme.export("\u{21e2}").as_str(), " ", theme.path(file.as_str()).as_str()).as_str(),
                concat(" ", theme.symbol(sym.as_str()).as_str()).as_str(),
            );
            proof {
                assert(r@ =~= node_text(theme.color, *node));
            }
            r
        },
    }
}

/// What an edge kind is called in the report.
pub open spec fn kind_label(kind: EdgeKind) -> Seq<char> {
    match kind {
        EdgeKind::ImportsNamed => "named import"@,
        EdgeKind::ImportsDefault => "default import"@,
        EdgeKind::ImportsNamespace => "namespace import"@,
        EdgeKind::ImportsDynamic => "dynamic import"@,
        EdgeKind::ImportsSideEffect => "side-effect import"@,
        EdgeKind::MocksModule => "mock"@,
        EdgeKind::ReexportsNamed => "re-export"@,
        EdgeKind::ReexportsStar => "export *"@,
        EdgeKind::UsesJsxComponent => "component use"@,
        EdgeKind::RequiresModule => "require"@,
        EdgeKind::CommonJsExport => "re-exported local"@,
    }
}

/// An edge's tag: the kind's name, flagged with `?` when ambiguous.
pub open spec fn edge_label_spec(color: bool, kind: EdgeKind, ambiguous: bool) -> Seq<char> {
    if ambiguous {
        paint_spec(color, "["@ + kind_label(kind) + "?"@ + "]"@, "1;33"@)
    } else {
        paint_spec(color, "["@ + kind_label(kind) + "]"@, "2;34"@)
    }
}

pub fn edge_label(kind: EdgeKind, is_ambiguous: bool, theme: &Theme) -> (r: String)
    ensures
        r@ == edge_label_spec(theme.color, kind, is_ambiguous),
{
    let base = match kind {
        EdgeKind::ImportsNamed => "named import",
        EdgeKind::ImportsDefault => "default import",
        EdgeKind::ImportsNamespace => "namespace import",
        EdgeKind::ImportsDynamic => "dynamic import",
        EdgeKind::ImportsSideEffect => "side-effect import",
        EdgeKind::MocksModule => "mock",
        EdgeKind::ReexportsNamed => "re-export",
        EdgeKind::ReexportsStar => "export *",
        EdgeKind::UsesJsxComponent => "component use",
        EdgeKind::RequiresModule => "require",
        EdgeKind::CommonJsExport => "re-exported local",
    };
    proof {
        assert(base@ == kind_label(kind));
    }
    if is_ambiguous {
        let r = theme.warn_tag(concat(base, "?").as_str());
        proof {
            assert(r@ =~= edge_label_spec(theme.color, kind, is_ambiguous));
        }
        r
    } else {
        theme.edge_tag(base)
    }
}

/// The tags of the edges into `id`, each once, in order.
pub open spec fn summary_labels(color: bool, edges: Seq<GraphEdge>, id: Seq<char>) -> Set<Seq<char>> {
    Set::new(|l: Seq<char>| exists|k: int| 0 <= k < edges.len() && (#[trigger] edges[k]).to@ == id && edge_label_spec(color, edges[k].kind, edges[k].is_ambiguous) == l)
}

pub open spec fn edge_summary_spec(color: bool, edges: Seq<GraphEdge>, id: Seq<char>) -> Seq<char> {
    let labels = crate::diagnostics::ascending(summary_labels(color, edges, id));
    if labels.len() == 0 { ""@ } else { "  "@ + join(labels, " "@) }
}

pub fn edge_summary(node_id: &str, result: &AnalysisResult, theme: &Theme) -> (r: String)
    ensures
        r@ == edge_summary_spec(theme.color, result.edges@, node_id@),
{
    let edges = &result.edges;
    let mut labels = StrSet::new();
    let mut k: usize = 0;
    proof {
        assert(labels.set() =~= Set::new(|l: Seq<char>| exists|x: int| 0 <= x < 0 && (#[trigger] edges@[x]).to@ == node_id@ && edge_label_spec(theme.color, edges@[x].kind, edges@[x].is_ambiguous) == l));
    }
    while k < edges.len()
        invariant
            k <= edges@.len(),
            labels.wf(),
            labels.set() == Set::new(|l: Seq<char>| exists|x: int| 0 <= x < k && (#[trigger] edges@[x]).to@ == node_id@ && edge_label_spec(theme.color, edges@[x].kind, edges@[x].is_ambiguous) == l),
        decreases edges.len() - k,
    {
        let ghost before = labels.set();
        if str_eq(edges[k].to.as_str(), node_id) {
            labels.insert(edge_label(edges[k].kind, edges[k].is_ambiguous, theme));
        }
        proof {
            assert(labels.set() =~= Set::new(|l: Seq<char>| exists|x: int| 0 <= x < k + 1 && (#[trigger] edges@[x]).to@ == node_id@ && edge_label_spec(theme.color, edges@[x].kind, edges@[x].is_ambiguous) == l)) by {
                assert forall|l: Seq<char>| #[trigger] labels.set().contains(l) implies exists|x: int| 0 <= x < k + 1 && (#[trigger] edges@[x]).to@ == node_id@ && edge_label_spec(theme.color, edges@[x].kind, edges@[x].is_ambiguous) == l by {
                    if !before.contains(l) {
                        assert(edges@[k as int].to@ == node_id@);
                    }
                }
                assert forall|l: Seq<char>| (exists|x: int| 0 <= x < k + 1 && (#[trigger] edges@[x]).to@ == node_id@ && edge_label_spec(theme.color, edges@[x].kind, edges@[x].is_ambiguous) == l) implies #[trigger] labels.set().contains(l) by {
                    let x = choose|x: int| 0 <= x < k + 1 && (#[trigger] edges@[x]).to@ == node_id@ && edge_label_spec(theme.color, edges@[x].kind, edges@[x].is_ambiguous) == l;
                    if x < k {
                        assert(before.contains(l));
                    }
                }
            }
        }
        k = k + 1;
    }
    proof {
        assert(labels.set() =~= summary_labels(theme.color, edges@, node_id@));
        crate::diagnostics::lemma_ascending(labels@, summary_labels(theme.color, edges@, node_id@));
    }
    if labels.len() == 0 {
        owned("")
    } else {
        let list = labels.to_vec();
        concat("  ", crate::text::join_strings(&list, " ").as_str())
    }
}

// ---------------------------------------------------------------------------
// The paths below the direct dependents
// ---------------------------------------------------------------------------

pub open spec fn branch_glyph(is_last: bool) -> Seq<char> {
    if is_last { "\u{2514}\u{2500}\u{2500} "@ } else { "\u{251c}\u{2500}\u{2500} "@ }
}

pub open spec fn next_prefix(prefix: Seq<char>, is_last: bool) -> Seq<char> {
    prefix + if is_last { "    "@ } else { "\u{2502}   "@ }
}

/// One node of a path: the tree glyph, the node, the tags of the edges into
/// it, and a back-reference when its subtree was already shown.
pub open spec fn branch_line(
    color: bool,
    edges: Seq<GraphEdge>,
    node: GraphNode,
    id: Seq<char>,
    prefix: Seq<char>,
    is_last: bool,
    shown_above: bool,
) -> Seq<char> {
    prefix + paint_spec(color, branch_glyph(is_last), "2;37"@) + node_text(color, node) + edge_summary_spec(color, edges, id) + if shown_above {
        "  "@ + paint_spec(color, "(paths shown above)"@, "2;37"@)
    } else {
        ""@
    }
}

/// The lines of the path branch at node `id`, and the nodes expanded after
/// it: the node's line, then, the first time the node is expanded and while
/// it is not already on the current path, each visible child that is not on
/// the path, the last one drawn as the branch's end. `fuel` bounds the depth.
pub open spec fn branch_spec(
    color: bool,
    nodes: Seq<GraphNode>,
    edges: Seq<GraphEdge>,
    id: Seq<char>,
    prefix: Seq<char>,
    is_last: bool,
    path: Set<Seq<char>>,
    expanded: Set<Seq<char>>,
    fuel: nat,
) -> (Seq<Seq<char>>, Set<Seq<char>>)
    decreases fuel, 0int,
{
    if fuel == 0 {
        (Seq::empty(), expanded)
    } else {
        match node_of(nodes, id) {
            None => (Seq::empty(), expanded),
            Some(i) => {
                let kids = visible_children(nodes, edges, id);
                let already = expanded.contains(id);
                let line = branch_line(color, edges, nodes[i], id, prefix, is_last, already && kids.len() > 0);
                if already {
                    (seq![line], expanded)
                } else if path.contains(id) {
                    (seq![line], expanded.insert(id))
                } else {
                    let rest = children_spec(
                        color,
                        nodes,
                        edges,
                        kids,
                        0,
                        next_prefix(prefix, is_last),
                        path.insert(id),
                        expanded.insert(id),
                        (fuel - 1) as nat,
                    );
                    (seq![line] + rest.0, rest.1)
                }
            },
        }
    }
}

/// The branches of the children `kids` from the `k`-th on.
pub open spec fn children_spec(
    color: bool,
    nodes: Seq<GraphNode>,
    edges: Seq<GraphEdge>,
    kids: Seq<VisView>,
    k: int,
    prefix: Seq<char>,
    path: Set<Seq<char>>,
    expanded: Set<Seq<char>>,
    fuel: nat,
) -> (Seq<Seq<char>>, Set<Seq<char>>)
    decreases fuel, kids.len() - k,
{
    if k < 0 || k >= kids.len() {
        (Seq::empty(), expanded)
    } else if path.contains(kids[k].0) {
        children_spec(color, nodes, edges, kids, k + 1, prefix, path, expanded, fuel)
    } else {
        let a = branch_spec(color, nodes, edges, kids[k].0, prefix, k + 1 == kids.len(), path, expanded, fuel);
        let b = children_spec(color, nodes, edges, kids, k + 1, prefix, path, a.1, fuel);
        (a.0 + b.0, b.1)
    }
}

fn render_path_branch(
    node_id: &str,
    result: &AnalysisResult,
    prefix: &str,
    is_last: bool,
    path: &mut Vec<String>,
    expanded: &mut StrSet,
    lines: &mut Vec<String>,
    theme: &Theme,
    fuel: usize,
)
    requires
        old(expanded).wf(),
    ensures
        final(expanded).wf(),
        final(path)@ == old(path)@,
        ({
            let r = branch_spec(
                theme.color,
                result.nodes@,
                result.edges@,
                node_id@,
                prefix@,
                is_last,
                str_views(old(path)@).to_set(),
                old(expanded).set(),
                fuel as nat,
            );
            &&& str_views(final(lines)@) == str_views(old(lines)@) + r.0
            &&& final(expanded).set() == r.1
        }),
    decreases fuel,
{
    let ghost lines0 = str_views(lines@);
    let ghost path0 = path@;
    let ghost exp0 = expanded.set();
    if fuel == 0 {
        proof {
            assert(str_views(lines@) =~= lines0 + Seq::<Seq<char>>::empty());
        }
        return;
    }
    let i = match find_node(&result.nodes, node_id) {
        None => {
            proof {
                assert(str_views(lines@) =~= lines0 + Seq::<Seq<char>>::empty());
            }
            return;
        },
        Some(i) => i,
    };
    let kids = visible_child_edges(node_id, result);
    let ghost kv = vis_views(kids@);
    let already = expanded.contains(node_id);
    let shown_above = already && kids.len() > 0;
    let glyph = if is_last { "\u{2514}\u{2500}\u{2500} " } else { "\u{251c}\u{2500}\u{2500} " };
    let suffix = if shown_above {
        concat("  ", theme.muted("(paths shown above)").as_str())
    } else {
        owned("")
    };
    let line = concat(
        concat3(prefix, theme.muted(glyph).as_str(), format_node(&result.nodes[i], theme).as_str()).as_str(),
        concat(edge_summary(node_id, result, theme).as_str(), suffix.as_str()).as_str(),
    );
    proof {
        assert(line@ =~= branch_line(theme.color, result.edges@, result.nodes@[i as int], node_id@, prefix@, is_last, shown_above));
    }
    lines.push(line);
    proof {
        assert(str_views(lines@) =~= lines0 + seq![line@]);
    }
    if already {
        return;
    }
    expanded.insert(owned(node_id));
    if crate::collections::contains_str(path, node_id) {
        proof {
            assert(str_views(path@).to_set().contains(node_id@)) by {
                let j = choose|j: int| 0 <= j < str_views(path@).len() && str_views(path@)[j] == node_id@;
                assert(str_views(path@).contains(node_id@));
            }
        }
        return;
    }
    path.push(owned(node_id));
    let ghost pset = str_views(path@).to_set();
    proof {
        assert(str_views(path@) =~= str_views(path0).push(node_id@));
        assert forall|x: Seq<char>| #[trigger] pset.contains(x) == str_views(path0).to_set().insert(node_id@).contains(x) by {
            if pset.contains(x) {
                assert(str_views(path@).contains(x));
                let j = choose|j: int| 0 <= j < str_views(path@).len() && str_views(path@)[j] == x;
                if j < path0.len() {
                    assert(str_views(path0)[j] == x);
                    assert(str_views(path0).contains(x));
                }
            }
            if str_views(path0).to_set().contains(x) {
                assert(str_views(path0).contains(x));
                let j = choose|j: int| 0 <= j < str_views(path0).len() && str_views(path0)[j] == x;
                assert(str_views(path@)[j] == x);
                assert(str_views(path@).contains(x));
            }
            if x == node_id@ {
                assert(str_views(path@)[path0.len() as int] == x);
                assert(str_views(path@).contains(x));
            }
        }
        assert(pset =~= str_views(path0).to_set().insert(node_id@));
    }
    let np = concat(prefix, if is_last { "    " } else { "\u{2502}   " });
    let ghost start = str_views(lines@);
    let ghost e1 = expanded.set();
    let ghost total = children_spec(theme.color, result.nodes@, result.edges@, kv, 0, np@, pset, e1, (fuel - 1) as nat);
    let mut k: usize = 0;
    while k < kids.len()
        invariant
            k <= kids@.len(),
            kv == vis_views(kids@),
            fuel >= 1,
            expanded.wf(),
            str_views(path@).to_set() == pset,
            path@.len() == path0.len() + 1,
            path@.take(path0.len() as int) == path0,
            start + total.0 == str_views(lines@) + children_spec(
                theme.color,
                result.nodes@,
                result.edges@,
                kv,
                k as int,
                np@,
                pset,
                expanded.set(),
                (fuel - 1) as nat,
            ).0,
            total.1 == children_spec(theme.color, result.nodes@, result.edges@, kv, k as int, np@, pset, expanded.set(), (fuel - 1) as nat).1,
        decreases kids.len() - k,
    {
        let ghost ek = expanded.set();
        let ghost lk = str_views(lines@);
        let child = &kids[k];
        proof {
            assert(kv[k as int].0 == child.to@);
        }
        if !crate::collections::contains_str(path, child.to.as_str()) {
            proof {
                if pset.contains(child.to@) {
                    let j = choose|j: int| 0 <= j < str_views(path@).len() && str_views(path@)[j] == child.to@;
                    assert(path@[j]@ == child.to@);
                }
            }
            let ghost pb = path@;
            render_path_branch(child.to.as_str(), result, np.as_str(), k + 1 == kids.len(), path, expanded, lines, theme, fuel - 1);
            proof {
                let a = branch_spec(theme.color, result.nodes@, result.edges@, child.to@, np@, k + 1 == kids@.len(), pset, ek, (fuel - 1) as nat);
                assert(str_views(pb).to_set() == pset);
                assert(str_views(lines@) == lk + a.0);
                assert(start + total.0 =~= str_views(lines@) + children_spec(
                    theme.color,
                    result.nodes@,
                    result.edges@,
                    kv,
                    k + 1,
                    np@,
                    pset,
                    expanded.set(),
                    (fuel - 1) as nat,
                ).0);
            }
        } else {
            proof {
                let j = choose|j: int| 0 <= j < path@.len() && path@[j]@ == child.to@;
                assert(str_views(path@)[j] == child.to@);
                assert(pset.contains(child.to@));
            }
        }
        k = k + 1;
    }
    proof {
        assert(str_views(lines@) =~= start + total.0);
    }
    path.pop();
    proof {
        assert(path@ =~= path0);
    }
}

// ---------------------------------------------------------------------------
// The whole cascade
// ---------------------------------------------------------------------------

/// The first of `files` (from the `k`-th on) whose file node exists, by id.
pub open spec fn first_present(nodes: Seq<GraphNode>, files: Seq<Seq<char>>, k: int) -> Option<Seq<char>>
    decreases files.len() - k,
{
    if k < 0 || k >= files.len() {
        None
    } else if node_of(nodes, file_id_spec(files[k])) is Some {
        Some(file_id_spec(files[k]))
    } else {
        first_present(nodes, files, k + 1)
    }
}

/// The node the cascade starts from: the changed file's node, or the first
/// changed file with a node.
pub open spec fn preferred_root_spec(nodes: Seq<GraphNode>, target: AnalysisTarget) -> Option<Seq<char>> {
    match target {
        AnalysisTarget::Export { file, .. } => first_present(nodes, seq![file@], 0),
        AnalysisTarget::File { file } => first_present(nodes, seq![file@], 0),
        AnalysisTarget::Files { files } => first_present(nodes, str_views(files@), 0),
    }
}

fn preferred_root(result: &AnalysisResult) -> (r: Option<String>)
    ensures
        crate::collections::opt_str(r) == preferred_root_spec(result.nodes@, result.target),
{
    let files: Vec<String> = match &result.target {
        AnalysisTarget::Export { file, .. } => vec![file.clone()],
        AnalysisTarget::File { file } => vec![file.clone()],
        AnalysisTarget::Files { files } => crate::collections::copy_strings(files),
    };
    let ghost fv = str_views(files@);
    proof {
        match &result.target {
            AnalysisTarget::Export { file, .. } => {
                assert(fv =~= seq![file@]);
            },
            AnalysisTarget::File { file } => {
                assert(fv =~= seq![file@]);
            },
            AnalysisTarget::Files { files: fs } => {
                assert(fv =~= str_views(fs@));
            },
        }
    }
    let mut k: usize = 0;
    while k < files.len()
        invariant
            k <= files@.len(),
            fv == str_views(files@),
            preferred_root_spec(result.nodes@, result.target) == first_present(result.nodes@, fv, 0),
            first_present(result.nodes@, fv, 0) == first_present(result.nodes@, fv, k as int),
        decreases files.len() - k,
    {
        let id = file_id(files[k].as_str());
        proof {
            assert(fv[k as int] == files@[k as int]@);
        }
        if find_node(&result.nodes, id.as_str()).is_some() {
            proof {
                assert(first_present(result.nodes@, fv, k as int) == Some(id@));
            }
            return Some(id);
        }
        proof {
            assert(first_present(result.nodes@, fv, k as int) == first_present(result.nodes@, fv, k + 1));
        }
        k = k + 1;
    }
    None
}

pub open spec fn bullet_line(color: bool, text: Seq<char>) -> Seq<char> {
    paint_spec(color, "\u{2022}"@, "2;37"@) + " "@ + paint_spec(color, text, "2;37"@)
}

/// A direct dependent: the node (or its id, muted, when missing) and the tag
/// of the edge to it.
pub open spec fn direct_line(color: bool, nodes: Seq<GraphNode>, v: VisView) -> Seq<char> {
    let child = match node_of(nodes, v.0) {
        Some(i) => node_text(color, nodes[i]),
        None => paint_spec(color, v.0, "2;37"@),
    };
    paint_spec(color, "[direct]"@, "1;30;44"@) + " "@ + child + " "@ + edge_label_spec(color, v.1, v.2)
}

/// The direct dependents (from the `k`-th on) that have children of their own.
pub open spec fn with_children(nodes: Seq<GraphNode>, edges: Seq<GraphEdge>, vs: Seq<VisView>, n: nat) -> Seq<Seq<char>>
    decreases n,
{
    if n == 0 {
        Seq::empty()
    } else {
        let rest = with_children(nodes, edges, vs, (n - 1) as nat);
        if visible_children(nodes, edges, vs[n - 1].0).len() > 0 { rest.push(vs[n - 1].0) } else { rest }
    }
}

/// The path branches of the cascading children from the `k`-th on, each
/// walked with only the root on its path and with the nodes expanded so far.
pub open spec fn paths_spec(
    color: bool,
    nodes: Seq<GraphNode>,
    edges: Seq<GraphEdge>,
    root_id: Seq<char>,
    children: Seq<Seq<char>>,
    k: int,
    expanded: Set<Seq<char>>,
    fuel: nat,
) -> Seq<Seq<char>>
    decreases children.len() - k,
{
    if k < 0 || k >= children.len() {
        Seq::empty()
    } else {
        let a = branch_spec(color, nodes, edges, children[k], ""@, k + 1 == children.len(), set![root_id], expanded, fuel);
        a.0 + paths_spec(color, nodes, edges, root_id, children, k + 1, a.1, fuel)
    }
}

pub open spec fn count_kind(nodes: Seq<GraphNode>, kind: NodeKind, n: nat) -> nat
    decreases n,
{
    if n == 0 {
        0
    } else {
        count_kind(nodes, kind, (n - 1) as nat) + if nodes[n - 1].kind == kind { 1nat } else { 0nat }
    }
}

/// The lines from the root on: the root node, its direct dependents, and
/// the paths below them.
pub open spec fn root_lines(color: bool, nodes: Seq<GraphNode>, edges: Seq<GraphEdge>, root_id: Seq<char>) -> Seq<Seq<char>> {
    let direct = visible_children(nodes, edges, root_id);
    let head = match node_of(nodes, root_id) {
        Some(i) => seq![paint_spec(color, "[root]"@, "1;30;42"@) + " "@ + node_text(color, nodes[i])],
        None => Seq::empty(),
    };
    let direct_lines = if direct.len() == 0 {
        seq![bullet_line(color, "No downstream dependents found"@)]
    } else {
        direct.map_values(|v: VisView| direct_line(color, nodes, v))
    };
    let cascading = with_children(nodes, edges, direct, direct.len());
    let path_lines = if cascading.len() == 0 {
        seq![bullet_line(color, "No transitive paths beyond the direct dependents"@)]
    } else {
        paths_spec(color, nodes, edges, root_id, cascading, 0, Set::empty(), nodes.len())
    };
    head + direct_lines + seq![""@, crate::theme::rule_spec(color, crate::theme::spec_to_uppercase("cascade \u{b7} paths"@))]
        + path_lines
}

/// The overview of the cascade: a rule and the node counts by kind.
pub open spec fn overview_lines(color: bool, nodes: Seq<GraphNode>) -> Seq<Seq<char>> {
    seq![
        ""@,
        crate::theme::rule_spec(color, crate::theme::spec_to_uppercase("cascade \u{b7} overview"@)),
        paint_spec(color, crate::theme::pad_left_spec("nodes"@, 12), "2;37"@) + " "@ + paint_spec(
            color,
            decimal(count_kind(nodes, NodeKind::File, nodes.len())),
            "1;32"@,
        ) + " files  "@ + paint_spec(color, decimal(count_kind(nodes, NodeKind::Export, nodes.len())), "1;32"@) + " exports"@,
    ]
}

/// The verbose cascade: an overview of the node counts, then the tree from
/// the root.
pub open spec fn cascade_lines(color: bool, result: AnalysisResult) -> Seq<Seq<char>> {
    let nodes = result.nodes@;
    let overview = overview_lines(color, nodes);
    if nodes.len() == 0 {
        overview + seq![bullet_line(color, "No affected files found"@)]
    } else {
        match preferred_root_spec(nodes, result.target) {
            None => overview,
            Some(root_id) => overview + root_lines(color, nodes, result.edges@, root_id),
        }
    }
}

fn direct_child_line(edge: &VisibleEdge, result: &AnalysisResult, theme: &Theme) -> (r: String)
    ensures
        r@ == direct_line(theme.color, result.nodes@, vis_view(*edge)),
{
    let child = match find_node(&result.nodes, edge.to.as_str()) {
        Some(i) => format_node(&result.nodes[i], theme),
        None => theme.muted(edge.to.as_str()),
    };
    proof {
        reveal_strlit("[direct]");
        reveal_strlit("[");
        reveal_strlit("]");
        reveal_strlit("direct");
    }
    let r = concat(
        concat3(theme.direct("direct").as_str(), " ", child.as_str()).as_str(),
        concat(" ", edge_label(edge.kind, edge.is_ambiguous, theme).as_str()).as_str(),
    );
    proof {
        assert(r@ =~= direct_line(theme.color, result.nodes@, vis_view(*edge)));
    }
    r
}

fn push_line(lines: &mut Vec<String>, line: String)
    ensures
        str_views(final(lines)@) == str_views(old(lines)@).push(line@),
{
    lines.push(line);
    proof {
        assert(str_views(lines@) =~= str_views(old(lines)@).push(line@));
    }
}

fn count_nodes(nodes: &Vec<GraphNode>, kind: NodeKind) -> (r: usize)
    ensures
        r == count_kind(nodes@, kind, nodes@.len()),
{
    let mut c: usize = 0;
    let mut i: usize = 0;
    while i < nodes.len()
        invariant
            i <= nodes@.len(),
            c == count_kind(nodes@, kind, i as nat),
            c <= i,
        decreases nodes.len() - i,
    {
        if nodes[i].kind == kind {
            c = c + 1;
        }
        i = i + 1;
    }
    c
}

/// Appends the verbose cascade of `result` to `lines`.
pub fn render_cascade(result: &AnalysisResult, theme: &Theme, lines: &mut Vec<String>)
    ensures
        str_views(final(lines)@) == str_views(old(lines)@) + cascade_lines(theme.color, *result),
{
    let ghost l0 = str_views(lines@);
    let ghost color = theme.color;
    let ghost nodes = result.nodes@;
    let ghost edges = result.edges@;
    let files = count_nodes(&result.nodes, NodeKind::File);
    let exports = count_nodes(&result.nodes, NodeKind::Export);
    let e0 = owned("");
    push_line(lines, e0);
    let r1 = theme.rule("cascade \u{b7} overview");
    push_line(lines, r1);
    let counts = concat(
        concat3(theme.key("nodes").as_str(), " ", theme.number(files).as_str()).as_str(),
        concat3(" files  ", theme.number(exports).as_str(), " exports").as_str(),
    );
    push_line(lines, counts);
    proof {
        reveal_strlit("");
        let ov = overview_lines(color, nodes);
        assert(counts@ =~= ov[2]);
        assert(e0@ =~= ov[0]);
        assert(r1@ == ov[1]);
        assert(str_views(lines@) =~= l0 + ov);
    }
    if result.nodes.len() == 0 {
        push_line(lines, concat3(theme.muted("\u{2022}").as_str(), " ", theme.muted("No affected files found").as_str()));
        proof {
            assert(str_views(lines@) =~= l0 + cascade_lines(color, *result));
        }
        return;
    }
    let root_id = match preferred_root(result) {
        None => {
            proof {
                assert(str_views(lines@) =~= l0 + cascade_lines(color, *result));
            }
            return;
        },
        Some(id) => id,
    };
    proof {
        assert(str_views(lines@) =~= l0 + overview_lines(color, nodes));
    }
    render_root_part(result, root_id.as_str(), theme, lines);
    proof {
        assert(str_views(lines@) =~= l0 + cascade_lines(color, *result));
    }
}

pub open spec fn root_head(color: bool, nodes: Seq<GraphNode>, root_id: Seq<char>) -> Seq<Seq<char>> {
    match node_of(nodes, root_id) {
        Some(i) => seq![paint_spec(color, "[root]"@, "1;30;42"@) + " "@ + node_text(color, nodes[i])],
        None => Seq::empty(),
    }
}

pub open spec fn direct_lines_spec(color: bool, nodes: Seq<GraphNode>, direct: Seq<VisView>) -> Seq<Seq<char>> {
    if direct.len() == 0 {
        seq![bullet_line(color, "No downstream dependents found"@)]
    } else {
        direct.map_values(|v: VisView| direct_line(color, nodes, v))
    }
}

pub open spec fn path_lines_spec(color: bool, nodes: Seq<GraphNode>, edges: Seq<GraphEdge>, root_id: Seq<char>, cascading: Seq<Seq<char>>) -> Seq<Seq<char>> {
    if cascading.len() == 0 {
        seq![bullet_line(color, "No transitive paths beyond the direct dependents"@)]
    } else {
        paths_spec(color, nodes, edges, root_id, cascading, 0, Set::empty(), nodes.len())
    }
}

proof fn lemma_root_lines(color: bool, nodes: Seq<GraphNode>, edges: Seq<GraphEdge>, root_id: Seq<char>)
    ensures
        root_lines(color, nodes, edges, root_id) == root_head(color, nodes, root_id) + direct_lines_spec(
            color,
            nodes,
            visible_children(nodes, edges, root_id),
        ) + seq![""@, crate::theme::rule_spec(color, crate::theme::spec_to_uppercase("cascade \u{b7} paths"@))] + path_lines_spec(
            color,
            nodes,
            edges,
            root_id,
            with_children(nodes, edges, visible_children(nodes, edges, root_id), visible_children(nodes, edges, root_id).len()),
        ),
{
}

fn push_root_head(result: &AnalysisResult, root_id: &str, theme: &Theme, lines: &mut Vec<String>)
    ensures
        str_views(final(lines)@) == str_views(old(lines)@) + root_head(theme.color, result.nodes@, root_id@),
{
    proof {
        reveal_strlit("[root]");
        reveal_strlit("[");
        reveal_strlit("]");
        reveal_strlit("root");
    }
    match find_node(&result.nodes, root_id) {
        Some(i) => {
            let head = concat3(theme.root("root").as_str(), " ", format_node(&result.nodes[i], theme).as_str());
            proof {
                assert(head@ =~= root_head(theme.color, result.nodes@, root_id@)[0]);
            }
            push_line(lines, head);
            proof {
                assert(str_views(lines@) =~= str_views(old(lines)@) + root_head(theme.color, result.nodes@, root_id@));
            }
        },
        None => {
            proof {
                assert(str_views(lines@) =~= str_views(old(lines)@) + root_head(theme.color, result.nodes@, root_id@));
            }
        },
    }
}

fn push_direct_lines(result: &AnalysisResult, direct: &Vec<VisibleEdge>, theme: &Theme, lines: &mut Vec<String>)
    ensures
        str_views(final(lines)@) == str_views(old(lines)@) + direct_lines_spec(theme.color, result.nodes@, vis_views(direct@)),
{
    let ghost l2 = str_views(lines@);
    let ghost dv = vis_views(direct@);
    let ghost color = theme.color;
    let ghost nodes = result.nodes@;
    if direct.len() == 0 {
        push_line(lines, concat3(theme.muted("\u{2022}").as_str(), " ", theme.muted("No downstream dependents found").as_str()));
        proof {
            assert(str_views(lines@) =~= l2 + direct_lines_spec(color, nodes, dv));
        }
    } else {
        let mut k: usize = 0;
        proof {
            assert(str_views(lines@) =~= l2 + dv.take(0).map_values(|v: VisView| direct_line(color, nodes, v)));
        }
        while k < direct.len()
            invariant
                k <= direct@.len(),
                dv == vis_views(direct@),
                nodes == result.nodes@,
                color == theme.color,
                str_views(lines@) == l2 + dv.take(k as int).map_values(|v: VisView| direct_line(color, nodes, v)),
            decreases direct.len() - k,
        {
            let line = direct_child_line(&direct[k], result, theme);
            push_line(lines, line);
            proof {
                assert(dv.take(k + 1) =~= dv.take(k as int).push(dv[k as int]));
                assert(str_views(lines@) =~= l2 + dv.take(k + 1).map_values(|v: VisView| direct_line(color, nodes, v)));
            }
            k = k + 1;
        }
        proof {
            assert(dv.take(direct@.len() as int) =~= dv);
        }
    }
}

fn push_path_lines(result: &AnalysisResult, root_id: &str, cascading: &Vec<String>, theme: &Theme, lines: &mut Vec<String>)
    ensures
        str_views(final(lines)@) == str_views(old(lines)@) + path_lines_spec(
            theme.color,
            result.nodes@,
            result.edges@,
            root_id@,
            str_views(cascading@),
        ),
{
    let ghost l4 = str_views(lines@);
    let ghost cv = str_views(cascading@);
    let ghost color = theme.color;
    let ghost nodes = result.nodes@;
    let ghost edges = result.edges@;
    let fuel = result.nodes.len();
    if cascading.len() == 0 {
        push_line(lines, concat3(theme.muted("\u{2022}").as_str(), " ", theme.muted("No transitive paths beyond the direct dependents").as_str()));
        proof {
            assert(str_views(lines@) =~= l4 + path_lines_spec(color, nodes, edges, root_id@, cv));
        }
    } else {
        let mut expanded = StrSet::new();
        let mut path: Vec<String> = Vec::new();
        let mut t: usize = 0;
        let ghost total = paths_spec(color, nodes, edges, root_id@, cv, 0, Set::empty(), fuel as nat);
        proof {
            assert(expanded.set() =~= Set::<Seq<char>>::empty());
            assert(l4 + total =~= str_views(lines@) + paths_spec(color, nodes, edges, root_id@, cv, 0, expanded.set(), fuel as nat));
        }
        while t < cascading.len()
            invariant
                t <= cascading@.len(),
                cv == str_views(cascading@),
                expanded.wf(),
                nodes == result.nodes@,
                edges == result.edges@,
                color == theme.color,
                l4 + total == str_views(lines@) + paths_spec(color, nodes, edges, root_id@, cv, t as int, expanded.set(), fuel as nat),
            decreases cascading.len() - t,
        {
            let ghost et = expanded.set();
            let ghost lt = str_views(lines@);
            path = vec![owned(root_id)];
            proof {
                assert(str_views(path@).to_set() =~= set![root_id@]) by {
                    assert(str_views(path@) =~= seq![root_id@]);
                    assert(seq![root_id@].to_set() =~= set![root_id@]) by {
                        assert(seq![root_id@].contains(root_id@)) by {
                            assert(seq![root_id@][0] == root_id@);
                        }
                    }
                }
                assert(cv[t as int] == cascading@[t as int]@);
            }
            render_path_branch(cascading[t].as_str(), result, "", t + 1 == cascading.len(), &mut path, &mut expanded, lines, theme, fuel);
            proof {
                reveal_strlit("");
                let a = branch_spec(color, nodes, edges, cv[t as int], ""@, t + 1 == cv.len(), set![root_id@], et, fuel as nat);
                assert(str_views(lines@) == lt + a.0);
                assert(l4 + total =~= str_views(lines@) + paths_spec(color, nodes, edges, root_id@, cv, t + 1, expanded.set(), fuel as nat));
            }
            t = t + 1;
        }
        proof {
            assert(str_views(lines@) =~= l4 + total);
        }
    }
}

/// Appends the tree from the root `root_id` to `lines`.
fn render_root_part(result: &AnalysisResult, root_id: &str, theme: &Theme, lines: &mut Vec<String>)
    ensures
        str_views(final(lines)@) == str_views(old(lines)@) + root_lines(theme.color, result.nodes@, result.edges@, root_id@),
{
    let ghost l1 = str_views(lines@);
    let ghost color = theme.color;
    let ghost nodes = result.nodes@;
    let ghost edges = result.edges@;
    let direct = visible_child_edges(root_id, result);
    let ghost dv = vis_views(direct@);
    push_root_head(result, root_id, theme, lines);
    let ghost l2 = str_views(lines@);
    push_direct_lines(result, &direct, theme, lines);
    let ghost l3 = str_views(lines@);
    // the direct dependents with children of their own
    let mut cascading: Vec<String> = Vec::new();
    let mut k: usize = 0;
    while k < direct.len()
        invariant
            k <= direct@.len(),
            dv == vis_views(direct@),
            str_views(cascading@) == with_children(nodes, edges, dv, k as nat),
            nodes == result.nodes@,
            edges == result.edges@,
        decreases direct.len() - k,
    {
        let grand = visible_child_edges(direct[k].to.as_str(), result);
        if grand.len() > 0 {
            let ghost before = str_views(cascading@);
            cascading.push(direct[k].to.clone());
            proof {
                assert(str_views(cascading@) =~= before.push(dv[k as int].0));
            }
        }
        k = k + 1;
    }
    let e = owned("");
    push_line(lines, e);
    let r = theme.rule("cascade \u{b7} paths");
    push_line(lines, r);
    let ghost l4 = str_views(lines@);
    proof {
        reveal_strlit("");
        assert(l4 =~= l3 + seq![""@, crate::theme::rule_spec(color, crate::theme::spec_to_uppercase("cascade \u{b7} paths"@))]);
    }
    push_path_lines(result, root_id, &cascading, theme, lines);
    proof {
        lemma_root_lines(color, nodes, edges, root_id@);
        assert(str_views(lines@) =~= l1 + root_lines(color, nodes, edges, root_id@));
    }
}

} // verus!
