//! The default report: the risk verdict, where the impact lands, the
//! impacted files grouped by package and directory, and the footer.
use vstd::prelude::*;

use crate::collections::{str_less, str_lt, str_views, StrMap, StrSet};
use crate::diagnostics::{ascending, lemma_ascending, plural, plural_of};
use crate::graph::{package_key, package_key_spec, workspace_roots, AnalysisResult, GraphNode, NodeKind, RiskTier, Workspace};
use crate::order::{ins_pos, isort, lemma_ins_pos, lemma_isort_step};
use crate::text::{char_count, chars_of, concat, concat3, decimal, owned, repeat, repeat_char, str_eq, string_of, sub_string, usize_to_string};
use crate::theme::{pad_left, pad_left_spec, paint_spec, palette_spec, Theme};

verus! {

// ---------------------------------------------------------------------------
// Paths and labels
// ---------------------------------------------------------------------------

pub open spec fn is_sep(c: char) -> bool {
    c == '/' || c == '\\'
}

/// The position of the last separator of `s`.
pub open spec fn last_sep(s: Seq<char>) -> Option<int>
    decreases s.len(),
{
    if s.len() == 0 {
        None
    } else if is_sep(s.last()) {
        Some(s.len() - 1)
    } else {
        last_sep(s.drop_last())
    }
}

/// A path split at its last `/` or `\\` into directory and file name; a
/// path without one is a bare name in no directory.
pub open spec fn split_dir_spec(s: Seq<char>) -> (Seq<char>, Seq<char>) {
    match last_sep(s) {
        Some(i) => (s.take(i), s.skip(i + 1)),
        None => (Seq::empty(), s),
    }
}

pub fn split_dir(path: &str) -> (r: (String, String))
    ensures
        (r.0@, r.1@) == split_dir_spec(path@),
{
    let cs = chars_of(path);
    let mut i = cs.len();
    proof {
        assert(path@.take(i as int) =~= path@);
    }
    while i > 0 && !(cs[i - 1] == '/' || cs[i - 1] == '\\')
        invariant
            i <= cs@.len(),
            cs@ == path@,
            last_sep(path@) == last_sep(path@.take(i as int)),
        decreases i,
    {
        proof {
            assert(path@.take(i as int).drop_last() =~= path@.take(i - 1));
        }
        i = i - 1;
    }
    if i == 0 {
        proof {
            reveal_strlit("");
            assert(path@.take(0) =~= Seq::<char>::empty());
        }
        (owned(""), owned(path))
    } else {
        proof {
            assert(path@.take(i as int).last() == path@[i - 1]);
            assert(last_sep(path@.take(i as int)) == Some(i - 1));
        }
        let a = sub_string(cs.as_slice(), 0, i - 1);
        let b = sub_string(cs.as_slice(), i, cs.len());
        proof {
            assert(a@ =~= path@.take(i - 1));
            assert(b@ =~= path@.skip(i as int));
        }
        (a, b)
    }
}

pub open spec fn dir_label_spec(dir: Seq<char>) -> Seq<char> {
    if dir.len() == 0 { "./"@ } else { dir + "/"@ }
}

pub fn dir_label(dir: &str) -> (r: String)
    ensures
        r@ == dir_label_spec(dir@),
{
    if char_count(dir) == 0 {
        owned("./")
    } else {
        concat(dir, "/")
    }
}

/// `text` cut from the left to at most `max` characters, marked with `\u{2026}`.
pub open spec fn clip_left_spec(text: Seq<char>, max: nat) -> Seq<char> {
    if text.len() <= max {
        text
    } else {
        "\u{2026}"@ + text.skip(text.len() + 1 - max)
    }
}

pub fn clip_left(text: &str, max: usize) -> (r: String)
    requires
        max >= 1,
    ensures
        r@ == clip_left_spec(text@, max as nat),
{
    let cs = chars_of(text);
    let count = cs.len();
    if count <= max {
        owned(text)
    } else {
        concat("\u{2026}", sub_string(cs.as_slice(), count - (max - 1), count).as_str())
    }
}

// ---------------------------------------------------------------------------
// Hotspots: where the impact lands
// ---------------------------------------------------------------------------

/// A downstream file node: a file at depth one or more.
pub open spec fn is_affected(n: GraphNode) -> bool {
    n.kind == NodeKind::File && n.depth >= 1
}

/// The directories of the downstream files.
pub open spec fn affected_dirs(nodes: Seq<GraphNode>) -> Set<Seq<char>> {
    Set::new(|d: Seq<char>| exists|j: int| 0 <= j < nodes.len() && is_affected(#[trigger] nodes[j]) && split_dir_spec(nodes[j].label@).0 == d)
}

/// The downstream files among the first `n` nodes in directory `d`.
pub open spec fn dir_count(nodes: Seq<GraphNode>, d: Seq<char>, n: nat) -> nat
    decreases n,
{
    if n == 0 {
        0
    } else {
        dir_count(nodes, d, (n - 1) as nat) + if is_affected(nodes[n - 1]) && split_dir_spec(nodes[n - 1].label@).0 == d {
            1nat
        } else {
            0nat
        }
    }
}

/// Busiest first, then by directory.
pub open spec fn hot_lt(a: (Seq<char>, usize), b: (Seq<char>, usize)) -> bool {
    a.1 > b.1 || (a.1 == b.1 && str_lt(a.0, b.0))
}

/// Downstream file counts by directory, busiest first.
pub open spec fn hotspots_spec(nodes: Seq<GraphNode>) -> Seq<(Seq<char>, usize)> {
    isort(ascending(affected_dirs(nodes)).map_values(|d: Seq<char>| (d, dir_count(nodes, d, nodes.len()) as usize)), |a: (Seq<char>, usize), b: (Seq<char>, usize)| hot_lt(a, b))
}

pub open spec fn hot_views(s: Seq<(String, usize)>) -> Seq<(Seq<char>, usize)> {
    s.map_values(|p: (String, usize)| (p.0@, p.1))
}

proof fn lemma_dir_count_bound(nodes: Seq<GraphNode>, d: Seq<char>, n: nat)
    ensures
        dir_count(nodes, d, n) <= n,
    decreases n,
{
    if n > 0 {
        lemma_dir_count_bound(nodes, d, (n - 1) as nat);
    }
}

proof fn lemma_dir_count_pos(nodes: Seq<GraphNode>, d: Seq<char>, n: nat, x: int)
    requires
        0 <= x < n <= nodes.len(),
        is_affected(nodes[x]),
        split_dir_spec(nodes[x].label@).0 == d,
    ensures
        dir_count(nodes, d, n) >= 1,
    decreases n,
{
    if x < n - 1 {
        lemma_dir_count_pos(nodes, d, (n - 1) as nat, x);
    }
}

fn insert_hotspot(out: &mut Vec<(String, usize)>, x: (String, usize))
    ensures
        hot_views(final(out)@) == hot_views(old(out)@).insert(
            ins_pos(hot_views(old(out)@), (x.0@, x.1), |a: (Seq<char>, usize), b: (Seq<char>, usize)| hot_lt(a, b)),
            (x.0@, x.1),
        ),
{
    let ghost lt = |a: (Seq<char>, usize), b: (Seq<char>, usize)| hot_lt(a, b);
    let ghost s = hot_views(out@);
    let ghost xv = (x.0@, x.1);
    let mut p: usize = 0;
    while p < out.len()
        invariant
            p <= out@.len(),
            s == hot_views(out@),
            xv == (x.0@, x.1),
            forall|k: int| 0 <= k < p ==> !hot_lt(xv, #[trigger] s[k]),
        ensures
            p <= out@.len(),
            forall|k: int| 0 <= k < p ==> !hot_lt(xv, #[trigger] s[k]),
            p == out@.len() || hot_lt(xv, s[p as int]),
        decreases out.len() - p,
    {
        let y = &out[p];
        if x.1 > y.1 || (x.1 == y.1 && str_less(x.0.as_str(), y.0.as_str())) {
            break;
        }
        p = p + 1;
    }
    proof {
        assert forall|k: int| 0 <= k < p implies !lt(xv, #[trigger] s[k]) by {
            assert(!hot_lt(xv, s[k]));
        }
        if p < s.len() {
            assert(lt(xv, s[p as int]));
        }
        lemma_ins_pos(s, xv, lt, p as int);
    }
    out.insert(p, x);
    proof {
        assert(hot_views(out@) =~= s.insert(p as int, xv));
    }
}

/// How many downstream files each directory holds, busiest first.
pub fn hotspot_dirs(result: &AnalysisResult) -> (r: Vec<(String, usize)>)
    ensures
        hot_views(r@) == hotspots_spec(result.nodes@),
        forall|k: int| 0 <= k < r@.len() ==> (#[trigger] r@[k]).1 >= 1,
{
    let nodes = &result.nodes;
    let mut dirs = StrSet::new();
    let mut j: usize = 0;
    proof {
        assert(dirs.set() =~= Set::new(|d: Seq<char>| exists|x: int| 0 <= x < 0 && is_affected(#[trigger] nodes@[x]) && split_dir_spec(nodes@[x].label@).0 == d));
    }
    while j < nodes.len()
        invariant
            j <= nodes@.len(),
            dirs.wf(),
            dirs.set() == Set::new(|d: Seq<char>| exists|x: int| 0 <= x < j && is_affected(#[trigger] nodes@[x]) && split_dir_spec(nodes@[x].label@).0 == d),
        decreases nodes.len() - j,
    {
        let ghost before = dirs.set();
        if nodes[j].kind == NodeKind::File && nodes[j].depth >= 1 {
            let (dir, _) = split_dir(nodes[j].label.as_str());
            dirs.insert(dir);
        }
        proof {
            assert(dirs.set() =~= Set::new(|d: Seq<char>| exists|x: int| 0 <= x < j + 1 && is_affected(#[trigger] nodes@[x]) && split_dir_spec(nodes@[x].label@).0 == d)) by {
                assert forall|d: Seq<char>| #[trigger] dirs.set().contains(d) implies exists|x: int| 0 <= x < j + 1 && is_affected(#[trigger] nodes@[x]) && split_dir_spec(nodes@[x].label@).0 == d by {
                    if !before.contains(d) {
                        assert(is_affected(nodes@[j as int]));
                    }
                }
                assert forall|d: Seq<char>| (exists|x: int| 0 <= x < j + 1 && is_affected(#[trigger] nodes@[x]) && split_dir_spec(nodes@[x].label@).0 == d) implies #[trigger] dirs.set().contains(d) by {
                    let x = choose|x: int| 0 <= x < j + 1 && is_affected(#[trigger] nodes@[x]) && split_dir_spec(nodes@[x].label@).0 == d;
                    if x < j {
                        assert(before.contains(d));
                    }
                }
            }
        }
        j = j + 1;
    }
    proof {
        assert(dirs.set() =~= affected_dirs(nodes@));
        lemma_ascending(dirs@, affected_dirs(nodes@));
    }
    let ghost unsorted = ascending(affected_dirs(nodes@)).map_values(|d: Seq<char>| (d, dir_count(nodes@, d, nodes@.len()) as usize));
    let ghost lt = |a: (Seq<char>, usize), b: (Seq<char>, usize)| hot_lt(a, b);
    let mut out: Vec<(String, usize)> = Vec::new();
    let mut t: usize = 0;
    proof {
        assert(hot_views(out@) =~= isort(unsorted.take(0), lt));
    }
    while t < dirs.len()
        invariant
            t <= dirs@.len(),
            dirs.wf(),
            dirs@ == ascending(affected_dirs(nodes@)),
            unsorted == ascending(affected_dirs(nodes@)).map_values(|d: Seq<char>| (d, dir_count(nodes@, d, nodes@.len()) as usize)),
            lt == (|a: (Seq<char>, usize), b: (Seq<char>, usize)| hot_lt(a, b)),
            hot_views(out@) == isort(unsorted.take(t as int), lt),
            forall|k: int| 0 <= k < out@.len() ==> (#[trigger] out@[k]).1 >= 1,
            dirs.set() == affected_dirs(nodes@),
        decreases dirs@.len() - t,
    {
        let d = dirs.get(t);
        let mut c: usize = 0;
        let mut q: usize = 0;
        while q < nodes.len()
            invariant
                q <= nodes@.len(),
                c == dir_count(nodes@, d@, q as nat),
                c <= q,
            decreases nodes.len() - q,
        {
            if nodes[q].kind == NodeKind::File && nodes[q].depth >= 1 {
                let (dir, _) = split_dir(nodes[q].label.as_str());
                if str_eq(dir.as_str(), d.as_str()) {
                    c = c + 1;
                }
            }
            q = q + 1;
        }
        proof {
            lemma_isort_step(unsorted, t as int, lt);
            assert(unsorted[t as int] == (d@, c));
            assert(dirs@.to_set().contains(d@)) by {
                assert(dirs@[t as int] == d@);
            }
            let x = choose|x: int| 0 <= x < nodes@.len() && is_affected(#[trigger] nodes@[x]) && split_dir_spec(nodes@[x].label@).0 == d@;
            lemma_dir_count_pos(nodes@, d@, nodes@.len(), x);
        }
        let ghost ob = out@;
        insert_hotspot(&mut out, (d.clone(), c));
        proof {
            let p = ins_pos(hot_views(ob), (d@, c), lt);
            crate::order::lemma_ins_pos_bound(hot_views(ob), (d@, c), lt);
            assert(hot_views(out@) == hot_views(ob).insert(p, (d@, c)));
            assert(out@.len() == ob.len() + 1);
            assert forall|k: int| 0 <= k < out@.len() implies (#[trigger] out@[k]).1 >= 1 by {
                assert(hot_views(out@)[k].1 == out@[k].1);
                if k < p {
                    assert(hot_views(ob)[k].1 == ob[k].1);
                } else if k > p {
                    assert(hot_views(ob)[k - 1].1 == ob[k - 1].1);
                }
            }
        }
        t = t + 1;
    }
    proof {
        assert(unsorted.take(dirs@.len() as int) =~= unsorted);
    }
    out
}

/// How many cells of a hotspot bar `count` fills, out of 14, relative to the
/// busiest shown directory.
pub open spec fn bar_fill(count: nat, max: nat) -> nat {
    let f = (count * 14 + max - 1) / (max as int);
    if f < 14 { f as nat } else { 14 }
}

pub open spec fn max_count(dirs: Seq<(Seq<char>, usize)>) -> nat
    decreases dirs.len(),
{
    if dirs.len() == 0 {
        0
    } else {
        let m = max_count(dirs.drop_last());
        if dirs.last().1 > m { dirs.last().1 as nat } else { m }
    }
}

pub open spec fn max_width(labels: Seq<Seq<char>>) -> nat
    decreases labels.len(),
{
    if labels.len() == 0 {
        0
    } else {
        let m = max_width(labels.drop_last());
        if labels.last().len() > m { labels.last().len() } else { m }
    }
}

pub open spec fn hot_label(dir: Seq<char>) -> Seq<char> {
    clip_left_spec(dir_label_spec(dir), 36)
}

pub open spec fn hotspot_line(color: bool, tier: RiskTier, label: Seq<char>, count: usize, width: nat, max: nat) -> Seq<char> {
    let filled = bar_fill(count as nat, max);
    "  "@ + paint_spec(color, label, "36"@) + repeat_char(' ', (width - label.len()) as nat) + "  "@ + paint_spec(
        color,
        repeat_char('\u{2588}', filled),
        palette_spec(tier).1,
    ) + paint_spec(color, repeat_char('\u{2591}', (14 - filled) as nat), "2;37"@) + " "@ + paint_spec(
        color,
        pad_left_spec(decimal(count as nat), 3),
        "1;32"@,
    )
}

/// The hotspot chart: the six busiest directories, each with a bar scaled to
/// the busiest, and how many more there are.
pub open spec fn hotspot_lines(color: bool, tier: RiskTier, dirs: Seq<(Seq<char>, usize)>) -> Seq<Seq<char>> {
    let shown = dirs.take(if dirs.len() < 6 { dirs.len() as int } else { 6 });
    let max = if shown.len() == 0 { 1 } else { max_count(shown) };
    let labels = shown.map_values(|d: (Seq<char>, usize)| hot_label(d.0));
    let width = max_width(labels);
    let rows = Seq::new(shown.len(), |i: int| hotspot_line(color, tier, labels[i], shown[i].1, width, max));
    if dirs.len() > shown.len() {
        rows.push("  "@ + paint_spec(color, "+"@ + decimal((dirs.len() - shown.len()) as nat) + " more directories"@, "2;37"@))
    } else {
        rows
    }
}

proof fn lemma_max_count(dirs: Seq<(Seq<char>, usize)>)
    ensures
        forall|i: int| 0 <= i < dirs.len() ==> (#[trigger] dirs[i]).1 <= max_count(dirs),
        max_count(dirs) <= usize::MAX,
    decreases dirs.len(),
{
    if dirs.len() > 0 {
        lemma_max_count(dirs.drop_last());
        assert forall|i: int| 0 <= i < dirs.len() implies (#[trigger] dirs[i]).1 <= max_count(dirs) by {
            if i < dirs.len() - 1 {
                assert(dirs[i] == dirs.drop_last()[i]);
            }
        }
    }
}

pub proof fn lemma_max_count_pos(dirs: Seq<(Seq<char>, usize)>)
    requires
        dirs.len() > 0,
        dirs[0].1 >= 1,
    ensures
        max_count(dirs) >= 1,
{
    lemma_max_count(dirs);
}

proof fn lemma_max_width(labels: Seq<Seq<char>>)
    ensures
        forall|i: int| 0 <= i < labels.len() ==> (#[trigger] labels[i]).len() <= max_width(labels),
        labels.len() > 0 ==> exists|i: int| 0 <= i < labels.len() && labels[i].len() == max_width(labels),
    decreases labels.len(),
{
    if labels.len() > 0 {
        lemma_max_width(labels.drop_last());
        assert forall|i: int| 0 <= i < labels.len() implies (#[trigger] labels[i]).len() <= max_width(labels) by {
            if i < labels.len() - 1 {
                assert(labels[i] == labels.drop_last()[i]);
            }
        }
        if labels.last().len() > max_width(labels.drop_last()) || labels.len() == 1 {
            assert(labels[labels.len() - 1].len() == max_width(labels));
        } else {
            let i = choose|i: int| 0 <= i < labels.drop_last().len() && labels.drop_last()[i].len() == max_width(labels.drop_last());
            assert(labels[i] == labels.drop_last()[i]);
        }
    }
}

fn hotspot_row(label: &str, count: usize, width: usize, max: usize, tier: RiskTier, theme: &Theme) -> (r: String)
    requires
        label@.len() <= width,
        count <= max,
        max > 0,
    ensures
        r@ == hotspot_line(theme.color, tier, label@, count, width as nat, max as nat),
{
    let w = char_count(label);
    let filled = fill_cells(count, max);
    let line = concat(
        concat3("  ", theme.path(label).as_str(), repeat(' ', width - w).as_str()).as_str(),
        concat(
            concat("  ", theme.hotspot_bar(tier, filled, 14).as_str()).as_str(),
            concat(" ", theme.count(pad_left(usize_to_string(count).as_str(), 3).as_str()).as_str()).as_str(),
        ).as_str(),
    );
    proof {
        assert(line@ =~= hotspot_line(theme.color, tier, label@, count, width as nat, max as nat));
    }
    line
}

fn fill_cells(count: usize, max: usize) -> (r: usize)
    requires
        max > 0,
    ensures
        r as nat == bar_fill(count as nat, max as nat),
        r <= 14,
{
    let a: u128 = count as u128 * 14 + max as u128 - 1;
    let f: u128 = a / max as u128;
    proof {
        assert(a as int == count as int * 14 + max as int - 1);
        assert(f as int == (count as int * 14 + max as int - 1) / (max as int));
    }
    if f < 14 { f as usize } else { 14 }
}

/// Appends the hotspot chart of `dirs` to `lines`.
pub fn render_hotspots(dirs: &Vec<(String, usize)>, tier: RiskTier, theme: &Theme, lines: &mut Vec<String>)
    requires
        dirs@.len() == 0 || max_count(hot_views(dirs@).take(if dirs@.len() < 6 { dirs@.len() as int } else { 6 })) > 0,
    ensures
        str_views(final(lines)@) == str_views(old(lines)@) + hotspot_lines(theme.color, tier, hot_views(dirs@)),
{
    let ghost l0 = str_views(lines@);
    let ghost dv = hot_views(dirs@);
    let n: usize = if dirs.len() < 6 { dirs.len() } else { 6 };
    let ghost shown = dv.take(n as int);
    let mut max: usize = 0;
    let mut i: usize = 0;
    while i < n
        invariant
            i <= n,
            n <= dirs@.len(),
            dv == hot_views(dirs@),
            shown == dv.take(n as int),
            max == max_count(shown.take(i as int)),
        decreases n - i,
    {
        proof {
            assert(shown.take(i + 1).drop_last() =~= shown.take(i as int));
            assert(shown.take(i + 1).last() == dv[i as int]);
        }
        if dirs[i].1 > max {
            max = dirs[i].1;
        }
        i = i + 1;
    }
    proof {
        assert(shown.take(n as int) =~= shown);
    }
    if n == 0 {
        max = 1;
    }
    let ghost labels = shown.map_values(|d: (Seq<char>, usize)| hot_label(d.0));
    let mut label_list: Vec<String> = Vec::new();
    let mut width: usize = 0;
    let mut i: usize = 0;
    while i < n
        invariant
            i <= n,
            n <= dirs@.len(),
            dv == hot_views(dirs@),
            shown == dv.take(n as int),
            labels == shown.map_values(|d: (Seq<char>, usize)| hot_label(d.0)),
            str_views(label_list@) == labels.take(i as int),
            width == max_width(labels.take(i as int)),
        decreases n - i,
    {
        let label = clip_left(dir_label(dirs[i].0.as_str()).as_str(), 36);
        let w = char_count(label.as_str());
        let ghost before = str_views(label_list@);
        proof {
            assert(labels[i as int] == label@);
            assert(labels.take(i + 1).drop_last() =~= labels.take(i as int));
        }
        if w > width {
            width = w;
        }
        label_list.push(label);
        proof {
            assert(str_views(label_list@) =~= labels.take(i + 1));
        }
        i = i + 1;
    }
    proof {
        assert(labels.take(n as int) =~= labels);
        lemma_max_width(labels);
        lemma_max_count(shown);
    }
    let ghost rows = Seq::new(shown.len(), |k: int| hotspot_line(theme.color, tier, labels[k], shown[k].1, width as nat, max as nat));
    let mut i: usize = 0;
    proof {
        assert(str_views(lines@) =~= l0 + rows.take(0));
    }
    while i < n
        invariant
            i <= n,
            n <= dirs@.len(),
            n == shown.len(),
            dv == hot_views(dirs@),
            shown == dv.take(n as int),
            labels == shown.map_values(|d: (Seq<char>, usize)| hot_label(d.0)),
            str_views(label_list@) == labels,
            width == max_width(labels),
            forall|k: int| 0 <= k < labels.len() ==> (#[trigger] labels[k]).len() <= width,
            forall|k: int| 0 <= k < shown.len() ==> (#[trigger] shown[k]).1 <= max,
            max > 0,
            rows == Seq::new(shown.len(), |k: int| hotspot_line(theme.color, tier, labels[k], shown[k].1, width as nat, max as nat)),
            str_views(lines@) == l0 + rows.take(i as int),
        decreases n - i,
    {
        let count = dirs[i].1;
        let label = &label_list[i];
        proof {
            assert(labels[i as int] == label@);
            assert(shown[i as int].1 == count);
        }
        let line = hotspot_row(label.as_str(), count, width, max, tier, theme);
        proof {
            assert(line@ == rows[i as int]);
            assert(rows.take(i + 1) =~= rows.take(i as int).push(rows[i as int]));
        }
        let ghost before = str_views(lines@);
        lines.push(line);
        proof {
            assert(str_views(lines@) =~= before.push(line@));
        }
        i = i + 1;
    }
    proof {
        assert(rows.take(n as int) =~= rows);
    }
    if dirs.len() > n {
        let more = concat3("+", usize_to_string(dirs.len() - n).as_str(), " more directories");
        let line = concat("  ", theme.muted(more.as_str()).as_str());
        let ghost before = str_views(lines@);
        lines.push(line);
        proof {
            assert(str_views(lines@) =~= before.push(line@));
            assert(str_views(lines@) =~= l0 + hotspot_lines(theme.color, tier, dv));
        }
    } else {
        proof {
            assert(str_views(lines@) =~= l0 + hotspot_lines(theme.color, tier, dv));
        }
    }
}

} // verus!
