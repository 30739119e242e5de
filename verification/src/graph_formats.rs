//! The result graph as Mermaid and Graphviz DOT text.
use vstd::prelude::*;

use crate::graph::{AnalysisResult, EdgeKind, GraphEdge, GraphNode};
use crate::collections::{str_less, str_lt, str_views};
use crate::order::{ins_pos, isort, lemma_ins_pos, lemma_isort_step};
use crate::text::{
    chars_of, concat, concat3, decimal, hex_char, hex_fixed, join, join_strings, owned, replace_all_char, replace_char, str_eq,
    string_of, usize_to_string,
};

verus! {

// ---------------------------------------------------------------------------
// Identifiers
// ---------------------------------------------------------------------------

/// The 32-bit FNV-1a offset basis and one step of the hash.
pub open spec fn fnv_step(h: u32, b: u8) -> u32 {
    vstd::wrapping::u32_specs::wrapping_mul(h ^ (b as u32), 0x0100_0193)
}

/// The 32-bit FNV-1a hash of `bytes`.
pub open spec fn fnv1a_spec(bytes: Seq<u8>) -> u32
    decreases bytes.len(),
{
    if bytes.len() == 0 {
        0x811c_9dc5
    } else {
        fnv_step(fnv1a_spec(bytes.drop_last()), bytes.last())
    }
}

/// FNV-1a, 32-bit, of the UTF-8 bytes of `value`: small and stable across
/// runs and platforms.
pub fn fnv1a(value: &str) -> (r: u32)
    ensures
        r == fnv1a_spec(vstd::utf8::encode_utf8(value@)),
{
    let bytes = value.as_bytes();
    let mut hash: u32 = 0x811c_9dc5;
    let mut i: usize = 0;
    while i < bytes.len()
        invariant
            i <= bytes@.len(),
            bytes@ == vstd::utf8::encode_utf8(value@),
            hash == fnv1a_spec(bytes@.take(i as int)),
        decreases bytes.len() - i,
    {
        proof {
            assert(bytes@.take(i + 1).drop_last() =~= bytes@.take(i as int));
        }
        hash = (hash ^ (bytes[i] as u32)).wrapping_mul(0x0100_0193);
        i = i + 1;
    }
    proof {
        assert(bytes@.take(bytes@.len() as int) =~= bytes@);
    }
    hash
}

fn hex_digit(d: u32) -> (c: char)
    requires
        d < 16,
    ensures
        c == hex_char(d as nat),
{
    if d == 0 { '0' }
    else if d == 1 { '1' }
    else if d == 2 { '2' }
    else if d == 3 { '3' }
    else if d == 4 { '4' }
    else if d == 5 { '5' }
    else if d == 6 { '6' }
    else if d == 7 { '7' }
    else if d == 8 { '8' }
    else if d == 9 { '9' }
    else if d == 10 { 'a' }
    else if d == 11 { 'b' }
    else if d == 12 { 'c' }
    else if d == 13 { 'd' }
    else if d == 14 { 'e' }
    else { 'f' }
}

/// `n` as exactly `width` lowercase hexadecimal digits.
fn hex_digits(n: u32, width: usize) -> (r: Vec<char>)
    ensures
        r@ == hex_fixed(n as nat, width as nat),
    decreases width,
{
    if width == 0 {
        Vec::new()
    } else {
        let mut r = hex_digits(n / 16, width - 1);
        r.push(hex_digit(n % 16));
        r
    }
}

pub open spec fn is_word_char(c: char) -> bool {
    ('a' <= c && c <= 'z') || ('A' <= c && c <= 'Z') || ('0' <= c && c <= '9')
}

pub open spec fn word_char(c: char) -> char {
    if is_word_char(c) { c } else { '_' }
}

/// A node identifier Mermaid and DOT accept: every character that is not an
/// ASCII letter or digit becomes `_`, and when that changed anything, the
/// FNV-1a hash of the unsanitized id follows, so distinct ids stay distinct.
pub open spec fn sanitize_spec(v: Seq<char>) -> Seq<char> {
    let cleaned = v.map_values(|c: char| word_char(c));
    if cleaned == v {
        v
    } else {
        cleaned + "_"@ + hex_fixed(fnv1a_spec(vstd::utf8::encode_utf8(v)) as nat, 8)
    }
}

pub fn sanitize_id(value: &str) -> (r: String)
    ensures
        r@ == sanitize_spec(value@),
{
    let cs = chars_of(value);
    let mut cleaned: Vec<char> = Vec::new();
    let mut i: usize = 0;
    while i < cs.len()
        invariant
            i <= cs@.len(),
            cs@ == value@,
            cleaned@ == value@.take(i as int).map_values(|c: char| word_char(c)),
        decreases cs.len() - i,
    {
        let c = cs[i];
        let w = if ('a' <= c && c <= 'z') || ('A' <= c && c <= 'Z') || ('0' <= c && c <= '9') { c } else { '_' };
        cleaned.push(w);
        proof {
            assert(value@.take(i + 1) =~= value@.take(i as int).push(c));
            assert(cleaned@ =~= value@.take(i + 1).map_values(|c: char| word_char(c)));
        }
        i = i + 1;
    }
    proof {
        assert(value@.take(value@.len() as int) =~= value@);
    }
    let cleaned_text = string_of(cleaned.as_slice());
    if str_eq(cleaned_text.as_str(), value) {
        cleaned_text
    } else {
        let hash = hex_digits(fnv1a(value), 8);
        concat3(cleaned_text.as_str(), "_", string_of(hash.as_slice()).as_str())
    }
}

pub open spec fn escape_quotes_spec(v: Seq<char>) -> Seq<char> {
    replace_char(v, '"', seq!['\\', '"'])
}

/// `value` with each `"` escaped as `\"`.
pub fn escape_quotes(value: &str) -> (r: String)
    ensures
        r@ == escape_quotes_spec(value@),
{
    proof {
        reveal_strlit("\\\"");
        assert("\\\""@ =~= seq!['\\', '"']);
    }
    replace_all_char(value, '"', "\\\"")
}

/// An edge kind's name in lower case.
pub open spec fn kind_lower(k: EdgeKind) -> Seq<char> {
    match k {
        EdgeKind::ImportsNamed => "importsnamed"@,
        EdgeKind::ImportsDefault => "importsdefault"@,
        EdgeKind::ImportsNamespace => "importsnamespace"@,
        EdgeKind::ImportsDynamic => "importsdynamic"@,
        EdgeKind::ImportsSideEffect => "importssideeffect"@,
        EdgeKind::MocksModule => "mocksmodule"@,
        EdgeKind::ReexportsNamed => "reexportsnamed"@,
        EdgeKind::ReexportsStar => "reexportsstar"@,
        EdgeKind::UsesJsxComponent => "usesjsxcomponent"@,
        EdgeKind::RequiresModule => "requiresmodule"@,
        EdgeKind::CommonJsExport => "commonjsexport"@,
    }
}

pub fn kind_lower_exec(k: EdgeKind) -> (r: &'static str)
    ensures
        r@ == kind_lower(k),
{
    match k {
        EdgeKind::ImportsNamed => "importsnamed",
        EdgeKind::ImportsDefault => "importsdefault",
        EdgeKind::ImportsNamespace => "importsnamespace",
        EdgeKind::ImportsDynamic => "importsdynamic",
        EdgeKind::ImportsSideEffect => "importssideeffect",
        EdgeKind::MocksModule => "mocksmodule",
        EdgeKind::ReexportsNamed => "reexportsnamed",
        EdgeKind::ReexportsStar => "reexportsstar",
        EdgeKind::UsesJsxComponent => "usesjsxcomponent",
        EdgeKind::RequiresModule => "requiresmodule",
        EdgeKind::CommonJsExport => "commonjsexport",
    }
}

// ---------------------------------------------------------------------------
// Mermaid
// ---------------------------------------------------------------------------

pub open spec fn mermaid_node(n: GraphNode) -> Seq<char> {
    "    "@ + sanitize_spec(n.id@) + "[\""@ + escape_quotes_spec(n.label@) + "\"]"@
}

pub open spec fn mermaid_edge(e: GraphEdge) -> Seq<char> {
    "    "@ + sanitize_spec(e.from@) + " -->|"@ + kind_lower(e.kind) + "| "@ + sanitize_spec(e.to@)
}

/// The Mermaid lines: the header, then each node, then each edge; a
/// placeholder node when nothing was affected.
pub open spec fn mermaid_lines(nodes: Seq<GraphNode>, edges: Seq<GraphEdge>) -> Seq<Seq<char>> {
    if nodes.len() == 0 {
        seq!["graph TD"@, "    empty[\"No affected files found\"]"@]
    } else {
        seq!["graph TD"@] + nodes.map_values(|n: GraphNode| mermaid_node(n)) + edges.map_values(|e: GraphEdge| mermaid_edge(e))
    }
}

pub fn render_mermaid(result: &AnalysisResult) -> (r: String)
    ensures
        r@ == join(mermaid_lines(result.nodes@, result.edges@), "\n"@),
{
    let mut lines: Vec<String> = vec![owned("graph TD")];
    if result.nodes.len() == 0 {
        lines.push(owned("    empty[\"No affected files found\"]"));
        proof {
            assert(crate::collections::str_views(lines@) =~= mermaid_lines(result.nodes@, result.edges@));
        }
        return join_strings(&lines, "\n");
    }
    let mut i: usize = 0;
    proof {
        assert(crate::collections::str_views(lines@) =~= seq!["graph TD"@] + result.nodes@.take(0).map_values(|n: GraphNode| mermaid_node(n)));
    }
    while i < result.nodes.len()
        invariant
            i <= result.nodes@.len(),
            crate::collections::str_views(lines@) == seq!["graph TD"@] + result.nodes@.take(i as int).map_values(|n: GraphNode| mermaid_node(n)),
        decreases result.nodes.len() - i,
    {
        let node = &result.nodes[i];
        let line = concat(
            concat3("    ", sanitize_id(node.id.as_str()).as_str(), "[\"").as_str(),
            concat(escape_quotes(node.label.as_str()).as_str(), "\"]").as_str(),
        );
        let ghost before = crate::collections::str_views(lines@);
        lines.push(line);
        proof {
            assert(line@ =~= mermaid_node(*node));
            assert(result.nodes@.take(i + 1) =~= result.nodes@.take(i as int).push(*node));
            assert(crate::collections::str_views(lines@) =~= before.push(line@));
        }
        i = i + 1;
    }
    let ghost with_nodes = crate::collections::str_views(lines@);
    let mut k: usize = 0;
    proof {
        assert(result.nodes@.take(result.nodes@.len() as int) =~= result.nodes@);
        assert(with_nodes =~= with_nodes + result.edges@.take(0).map_values(|e: GraphEdge| mermaid_edge(e)));
    }
    while k < result.edges.len()
        invariant
            k <= result.edges@.len(),
            crate::collections::str_views(lines@) == with_nodes + result.edges@.take(k as int).map_values(|e: GraphEdge| mermaid_edge(e)),
        decreases result.edges.len() - k,
    {
        let edge = &result.edges[k];
        let line = concat(
            concat3("    ", sanitize_id(edge.from.as_str()).as_str(), " -->|").as_str(),
            concat3(kind_lower_exec(edge.kind), "| ", sanitize_id(edge.to.as_str()).as_str()).as_str(),
        );
        let ghost before = crate::collections::str_views(lines@);
        lines.push(line);
        proof {
            assert(line@ =~= mermaid_edge(*edge));
            assert(result.edges@.take(k + 1) =~= result.edges@.take(k as int).push(*edge));
            assert(crate::collections::str_views(lines@) =~= before.push(line@));
        }
        k = k + 1;
    }
    proof {
        assert(result.edges@.take(result.edges@.len() as int) =~= result.edges@);
        assert(crate::collections::str_views(lines@) =~= mermaid_lines(result.nodes@, result.edges@));
    }
    join_strings(&lines, "\n")
}

// ---------------------------------------------------------------------------
// DOT
// ---------------------------------------------------------------------------

pub open spec fn dot_node(n: GraphNode) -> Seq<char> {
    "  "@ + sanitize_spec(n.id@) + " [label=\""@ + escape_quotes_spec(n.label@) + "\"];"@
}

pub open spec fn dot_edge(e: GraphEdge) -> Seq<char> {
    "  "@ + sanitize_spec(e.from@) + " -> "@ + sanitize_spec(e.to@) + " [label=\""@ + kind_lower(e.kind) + "\"];"@
}

/// The DOT lines: the digraph header, each node, each edge and the closing
/// brace; a placeholder node when nothing was affected.
pub open spec fn dot_lines(nodes: Seq<GraphNode>, edges: Seq<GraphEdge>) -> Seq<Seq<char>> {
    if nodes.len() == 0 {
        seq!["digraph blast_radius {"@, "  empty [label=\"No affected files found\"];"@, "}"@]
    } else {
        seq!["digraph blast_radius {"@] + nodes.map_values(|n: GraphNode| dot_node(n)) + edges.map_values(|e: GraphEdge| dot_edge(e))
            + seq!["}"@]
    }
}

pub fn render_dot(result: &AnalysisResult) -> (r: String)
    ensures
        r@ == join(dot_lines(result.nodes@, result.edges@), "\n"@),
{
    let mut lines: Vec<String> = vec![owned("digraph blast_radius {")];
    if result.nodes.len() == 0 {
        lines.push(owned("  empty [label=\"No affected files found\"];"));
        lines.push(owned("}"));
        proof {
            assert(crate::collections::str_views(lines@) =~= dot_lines(result.nodes@, result.edges@));
        }
        return join_strings(&lines, "\n");
    }
    let mut i: usize = 0;
    proof {
        assert(crate::collections::str_views(lines@) =~= seq!["digraph blast_radius {"@] + result.nodes@.take(0).map_values(
            |n: GraphNode| dot_node(n),
        ));
    }
    while i < result.nodes.len()
        invariant
            i <= result.nodes@.len(),
            crate::collections::str_views(lines@) == seq!["digraph blast_radius {"@] + result.nodes@.take(i as int).map_values(
                |n: GraphNode| dot_node(n),
            ),
        decreases result.nodes.len() - i,
    {
        let node = &result.nodes[i];
        let line = concat(
            concat3("  ", sanitize_id(node.id.as_str()).as_str(), " [label=\"").as_str(),
            concat(escape_quotes(node.label.as_str()).as_str(), "\"];").as_str(),
        );
        let ghost before = crate::collections::str_views(lines@);
        lines.push(line);
        proof {
            assert(line@ =~= dot_node(*node));
            assert(result.nodes@.take(i + 1) =~= result.nodes@.take(i as int).push(*node));
            assert(crate::collections::str_views(lines@) =~= before.push(line@));
        }
        i = i + 1;
    }
    let ghost with_nodes = crate::collections::str_views(lines@);
    let mut k: usize = 0;
    proof {
        assert(result.nodes@.take(result.nodes@.len() as int) =~= result.nodes@);
        assert(with_nodes =~= with_nodes + result.edges@.take(0).map_values(|e: GraphEdge| dot_edge(e)));
    }
    while k < result.edges.len()
        invariant
            k <= result.edges@.len(),
            crate::collections::str_views(lines@) == with_nodes + result.edges@.take(k as int).map_values(|e: GraphEdge| dot_edge(e)),
        decreases result.edges.len() - k,
    {
        let edge = &result.edges[k];
        let line = concat(
            concat(concat3("  ", sanitize_id(edge.from.as_str()).as_str(), " -> ").as_str(), sanitize_id(edge.to.as_str()).as_str()).as_str(),
            concat3(" [label=\"", kind_lower_exec(edge.kind), "\"];").as_str(),
        );
        let ghost before = crate::collections::str_views(lines@);
        lines.push(line);
        proof {
            assert(line@ =~= dot_edge(*edge));
            assert(result.edges@.take(k + 1) =~= result.edges@.take(k as int).push(*edge));
            assert(crate::collections::str_views(lines@) =~= before.push(line@));
        }
        k = k + 1;
    }
    let ghost before = crate::collections::str_views(lines@);
    lines.push(owned("}"));
    proof {
        assert(result.edges@.take(result.edges@.len() as int) =~= result.edges@);
        assert(crate::collections::str_views(lines@) =~= before.push("}"@));
        assert(crate::collections::str_views(lines@) =~= dot_lines(result.nodes@, result.edges@));
    }
    join_strings(&lines, "\n")
}

// ---------------------------------------------------------------------------
// Plain edge listing
// ---------------------------------------------------------------------------

/// The label of the last of the first `n` nodes with this id, or the id
/// itself where none has it.
pub open spec fn label_for(nodes: Seq<GraphNode>, id: Seq<char>, n: nat) -> Seq<char>
    decreases n,
{
    if n == 0 || n > nodes.len() {
        id
    } else if nodes[n - 1].id@ == id {
        nodes[n - 1].label@
    } else {
        label_for(nodes, id, (n - 1) as nat)
    }
}

/// One edge as `importer -> importee`: edges run from the file depended upon
/// to its consumer, so the listing flips them.
pub open spec fn edge_line(nodes: Seq<GraphNode>, e: GraphEdge) -> Seq<char> {
    label_for(nodes, e.to@, nodes.len()) + " -> "@ + label_for(nodes, e.from@, nodes.len())
}

pub open spec fn str_order() -> spec_fn(Seq<char>, Seq<char>) -> bool {
    |a: Seq<char>, b: Seq<char>| str_lt(a, b)
}

pub open spec fn edge_lines(nodes: Seq<GraphNode>, edges: Seq<GraphEdge>) -> Seq<Seq<char>> {
    isort(edges.map_values(|e: GraphEdge| edge_line(nodes, e)), str_order())
}

pub open spec fn graph_edge_list_spec(r: AnalysisResult) -> Seq<char> {
    if r.edges@.len() == 0 {
        decimal(r.source_file_count as nat) + " files, no import edges"@
    } else {
        join(edge_lines(r.nodes@, r.edges@), "\n"@)
    }
}

fn label_of(nodes: &Vec<GraphNode>, id: &str) -> (r: String)
    ensures
        r@ == label_for(nodes@, id@, nodes@.len()),
{
    let mut n: usize = nodes.len();
    while n > 0
        invariant
            n <= nodes@.len(),
            label_for(nodes@, id@, nodes@.len()) == label_for(nodes@, id@, n as nat),
        decreases n,
    {
        if str_eq(nodes[n - 1].id.as_str(), id) {
            return nodes[n - 1].label.clone();
        }
        n = n - 1;
    }
    owned(id)
}

fn insert_sorted_str(out: &mut Vec<String>, x: String)
    ensures
        str_views(final(out)@) == str_views(old(out)@).insert(ins_pos(str_views(old(out)@), x@, str_order()), x@),
{
    let ghost s = str_views(out@);
    let ghost lt = str_order();
    let mut p: usize = 0;
    while p < out.len()
        invariant
            p <= out@.len(),
            s == str_views(out@),
            lt == str_order(),
            forall|k: int| 0 <= k < p ==> !str_lt(x@, #[trigger] s[k]),
        ensures
            p <= out@.len(),
            forall|k: int| 0 <= k < p ==> !str_lt(x@, #[trigger] s[k]),
            p == out@.len() || str_lt(x@, s[p as int]),
        decreases out.len() - p,
    {
        if str_less(x.as_str(), out[p].as_str()) {
            break;
        }
        p = p + 1;
    }
    proof {
        assert forall|k: int| 0 <= k < p implies !lt(x@, #[trigger] s[k]) by {
            assert(!str_lt(x@, s[k]));
        }
        if p < s.len() {
            assert(lt(x@, s[p as int]));
        }
        lemma_ins_pos(s, x@, lt, p as int);
    }
    let ghost xv = x@;
    out.insert(p, x);
    proof {
        assert(str_views(out@) =~= s.insert(p as int, xv));
    }
}

/// The graph as sorted `importer -> importee` lines, for a whole-repository
/// dump where a verdict tree means nothing.
pub fn render_graph_edge_list(result: &AnalysisResult) -> (r: String)
    ensures
        r@ == graph_edge_list_spec(*result),
{
    if result.edges.len() == 0 {
        return concat(usize_to_string(result.source_file_count).as_str(), " files, no import edges");
    }
    let ghost unsorted = result.edges@.map_values(|e: GraphEdge| edge_line(result.nodes@, e));
    let mut lines: Vec<String> = Vec::new();
    let mut t: usize = 0;
    proof {
        assert(str_views(lines@) =~= isort(unsorted.take(0), str_order()));
    }
    while t < result.edges.len()
        invariant
            t <= result.edges@.len(),
            unsorted == result.edges@.map_values(|e: GraphEdge| edge_line(result.nodes@, e)),
            str_views(lines@) == isort(unsorted.take(t as int), str_order()),
        decreases result.edges.len() - t,
    {
        let e = &result.edges[t];
        let importer = label_of(&result.nodes, e.to.as_str());
        let importee = label_of(&result.nodes, e.from.as_str());
        let line = concat3(importer.as_str(), " -> ", importee.as_str());
        proof {
            lemma_isort_step(unsorted, t as int, str_order());
            assert(unsorted[t as int] == line@);
        }
        insert_sorted_str(&mut lines, line);
        t = t + 1;
    }
    proof {
        assert(unsorted.take(result.edges@.len() as int) =~= unsorted);
    }
    join_strings(&lines, "\n")
}

/// Each Mermaid edge line starts at the edge's `from` node and ends at its
/// `to` node: four spaces and the sanitised `from` id come first, the
/// sanitised `to` id last, with the arrow between.
pub proof fn lemma_mermaid_edge_direction(e: GraphEdge)
    ensures
        ({
            let line = mermaid_edge(e);
            let from = sanitize_spec(e.from@);
            let to = sanitize_spec(e.to@);
            &&& line.len() >= 4 + from.len() + 5 + to.len()
            &&& line.take(4 + from.len() as int) == "    "@ + from
            &&& line.subrange(4 + from.len() as int, 4 + from.len() as int + 5) == " -->|"@
            &&& line.skip(line.len() - to.len()) == to
        }),
{
    let from = sanitize_spec(e.from@);
    let to = sanitize_spec(e.to@);
    let line = mermaid_edge(e);
    let head = "    "@ + from;
    let mid = " -->|"@ + kind_lower(e.kind) + "| "@;
    assert(line =~= head + mid + to);
    reveal_strlit("    ");
    reveal_strlit(" -->|");
    reveal_strlit("| ");
    assert(line.take(head.len() as int) =~= head);
    assert(line.subrange(head.len() as int, head.len() as int + 5) =~= " -->|"@);
    assert(line.skip(line.len() - to.len()) =~= to);
}

/// In a rendered Mermaid graph with nodes, the line of the `j`-th edge
/// starts at that edge's `from` node and ends at its `to` node.
pub proof fn lemma_mermaid_lines_edge_direction(nodes: Seq<GraphNode>, edges: Seq<GraphEdge>, j: int)
    requires
        nodes.len() > 0,
        0 <= j < edges.len(),
    ensures
        ({
            let line = mermaid_lines(nodes, edges)[1 + nodes.len() + j];
            let from = sanitize_spec(edges[j].from@);
            let to = sanitize_spec(edges[j].to@);
            &&& line.take(4 + from.len() as int) == "    "@ + from
            &&& line.skip(line.len() - to.len()) == to
        }),
{
    lemma_mermaid_edge_direction(edges[j]);
    let ls = mermaid_lines(nodes, edges);
    assert(ls[1 + nodes.len() + j] == mermaid_edge(edges[j]));
}

} // verus!
