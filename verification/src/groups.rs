//! Impacted files grouped by the package that owns them, widest package
//! first, and within a package by directory, busiest first.
use vstd::prelude::*;

use crate::collections::{str_less, str_lt, str_views, StrSet};
use crate::diagnostics::{ascending, concat_lines, lemma_ascending};
use crate::graph::{package_key, package_key_spec, workspace_roots, Workspace};
use crate::order::{ins_pos, isort, lemma_ins_pos, lemma_isort_step};
use crate::text::{concat, concat3, decimal, owned, repeat, repeat_char, starts_with, str_eq, str_starts_with, sub_string, usize_to_string};
use crate::theme::{paint_spec, Theme};
use crate::tree::{dir_label, dir_label_spec, split_dir, split_dir_spec};

verus! {

/// A downstream file: its path and whether nothing depends on it in turn.
pub struct ImpactedFile {
    pub path: String,
    pub endpoint: bool,
}

pub type FileView = (Seq<char>, bool);

pub open spec fn file_view(f: ImpactedFile) -> FileView {
    (f.path@, f.endpoint)
}

pub open spec fn file_views(fs: Seq<ImpactedFile>) -> Seq<FileView> {
    fs.map_values(|f: ImpactedFile| file_view(f))
}

/// A package's impacted files, each path once, in path order.
pub struct PackageGroup {
    pub label: String,
    pub files: Vec<ImpactedFile>,
}

pub type GroupView = (Seq<char>, Seq<FileView>);

pub open spec fn group_view(g: PackageGroup) -> GroupView {
    (g.label@, file_views(g.files@))
}

pub open spec fn group_views(gs: Seq<PackageGroup>) -> Seq<GroupView> {
    gs.map_values(|g: PackageGroup| group_view(g))
}

/// The packages owning the files.
pub open spec fn file_keys(fs: Seq<FileView>, ws: Seq<Seq<char>>) -> Set<Seq<char>> {
    Set::new(|k: Seq<char>| exists|j: int| 0 <= j < fs.len() && package_key_spec((#[trigger] fs[j]).0, ws) == k)
}

/// The paths of the files package `k` owns.
pub open spec fn key_paths(fs: Seq<FileView>, ws: Seq<Seq<char>>, k: Seq<char>) -> Set<Seq<char>> {
    Set::new(|p: Seq<char>| exists|j: int| 0 <= j < fs.len() && (#[trigger] fs[j]).0 == p && package_key_spec(p, ws) == k)
}

/// Whether the first file with path `p` is an endpoint.
pub open spec fn first_endpoint(fs: Seq<FileView>, p: Seq<char>) -> bool {
    let j = choose|j: int| 0 <= j < fs.len() && fs[j].0 == p && forall|k: int| 0 <= k < j ==> (#[trigger] fs[k]).0 != p;
    fs[j].1
}

/// Larger group first, then by label.
pub open spec fn group_lt(a: GroupView, b: GroupView) -> bool {
    a.1.len() > b.1.len() || (a.1.len() == b.1.len() && str_lt(a.0, b.0))
}

/// The files grouped by package: each package's paths in order, each once
/// with the endpoint mark of its first occurrence; the largest group first,
/// then by label.
pub open spec fn groups_spec(fs: Seq<FileView>, ws: Seq<Seq<char>>) -> Seq<GroupView> {
    isort(
        ascending(file_keys(fs, ws)).map_values(
            |k: Seq<char>| (k, ascending(key_paths(fs, ws, k)).map_values(|p: Seq<char>| (p, first_endpoint(fs, p)))),
        ),
        |a: GroupView, b: GroupView| group_lt(a, b),
    )
}

pub open spec fn path_in(files: Seq<ImpactedFile>, p: Seq<char>) -> bool {
    exists|j: int| 0 <= j < files.len() && (#[trigger] files[j]).path@ == p
}

fn first_endpoint_of(files: &Vec<ImpactedFile>, p: &String) -> (r: bool)
    requires
        path_in(files@, p@),
    ensures
        r == first_endpoint(file_views(files@), p@),
{
    let ghost fv = file_views(files@);
    let mut j: usize = 0;
    while j < files.len()
        invariant
            j <= files@.len(),
            fv == file_views(files@),
            forall|k: int| 0 <= k < j ==> (#[trigger] fv[k]).0 != p@,
        decreases files.len() - j,
    {
        if str_eq(files[j].path.as_str(), p.as_str()) {
            proof {
                let c = choose|c: int| 0 <= c < fv.len() && fv[c].0 == p@ && forall|k: int| 0 <= k < c ==> (#[trigger] fv[k]).0 != p@;
                assert(fv[j as int].0 == p@);
                if c < j {
                    assert(fv[c].0 != p@);
                } else if j < c {
                    assert(fv[j as int].0 != p@);
                }
            }
            return files[j].endpoint;
        }
        j = j + 1;
    }
    proof {
        let w = choose|w: int| 0 <= w < files@.len() && (#[trigger] files@[w]).path@ == p@;
        assert(fv[w].0 == p@);
    }
    false
}

fn insert_group(out: &mut Vec<PackageGroup>, x: PackageGroup)
    ensures
        group_views(final(out)@) == group_views(old(out)@).insert(
            ins_pos(group_views(old(out)@), group_view(x), |a: GroupView, b: GroupView| group_lt(a, b)),
            group_view(x),
        ),
{
    let ghost lt = |a: GroupView, b: GroupView| group_lt(a, b);
    let ghost s = group_views(out@);
    let ghost xv = group_view(x);
    let mut p: usize = 0;
    while p < out.len()
        invariant
            p <= out@.len(),
            s == group_views(out@),
            xv == group_view(x),
            forall|k: int| 0 <= k < p ==> !group_lt(xv, #[trigger] s[k]),
        ensures
            p <= out@.len(),
            forall|k: int| 0 <= k < p ==> !group_lt(xv, #[trigger] s[k]),
            p == out@.len() || group_lt(xv, s[p as int]),
        decreases out.len() - p,
    {
        let y = &out[p];
        let xl = x.files.len();
        let yl = y.files.len();
        if xl > yl || (xl == yl && str_less(x.label.as_str(), y.label.as_str())) {
            break;
        }
        p = p + 1;
    }
    proof {
        assert forall|k: int| 0 <= k < p implies !lt(xv, #[trigger] s[k]) by {
            assert(!group_lt(xv, s[k]));
        }
        if p < s.len() {
            assert(lt(xv, s[p as int]));
        }
        lemma_ins_pos(s, xv, lt, p as int);
    }
    out.insert(p, x);
    proof {
        assert(group_views(out@) =~= s.insert(p as int, xv));
    }
}

/// The group of package `key`: its paths in order, each with the endpoint
/// mark of its first occurrence.
fn build_group(files: &Vec<ImpactedFile>, workspaces: &Vec<Workspace>, key: &String) -> (r: PackageGroup)
    ensures
        group_view(r) == (key@, ascending(key_paths(file_views(files@), workspace_roots(workspaces@), key@)).map_values(
            |p: Seq<char>| (p, first_endpoint(file_views(files@), p)),
        )),
{
    let ghost fv = file_views(files@);
    let ghost ws = workspace_roots(workspaces@);
    let mut paths = StrSet::new();
    let mut j: usize = 0;
    proof {
        assert(paths.set() =~= Set::new(|p: Seq<char>| exists|x: int| 0 <= x < 0 && (#[trigger] fv[x]).0 == p && package_key_spec(p, ws) == key@));
    }
    while j < files.len()
        invariant
            j <= files@.len(),
            fv == file_views(files@),
            ws == workspace_roots(workspaces@),
            paths.wf(),
            paths.set() == Set::new(|p: Seq<char>| exists|x: int| 0 <= x < j && (#[trigger] fv[x]).0 == p && package_key_spec(p, ws) == key@),
        decreases files.len() - j,
    {
        let ghost before = paths.set();
        let k = package_key(files[j].path.as_str(), workspaces.as_slice());
        if str_eq(k.as_str(), key.as_str()) {
            paths.insert(files[j].path.clone());
        }
        proof {
            assert(fv[j as int] == file_view(files@[j as int]));
            assert(paths.set() =~= Set::new(|p: Seq<char>| exists|x: int| 0 <= x < j + 1 && (#[trigger] fv[x]).0 == p && package_key_spec(p, ws) == key@)) by {
                assert forall|p: Seq<char>| #[trigger] paths.set().contains(p) implies exists|x: int| 0 <= x < j + 1 && (#[trigger] fv[x]).0 == p && package_key_spec(p, ws) == key@ by {
                    if !before.contains(p) {
                        assert(fv[j as int].0 == p);
                    }
                }
                assert forall|p: Seq<char>| (exists|x: int| 0 <= x < j + 1 && (#[trigger] fv[x]).0 == p && package_key_spec(p, ws) == key@) implies #[trigger] paths.set().contains(p) by {
                    let x = choose|x: int| 0 <= x < j + 1 && (#[trigger] fv[x]).0 == p && package_key_spec(p, ws) == key@;
                    if x < j {
                        assert(before.contains(p));
                    }
                }
            }
        }
        j = j + 1;
    }
    proof {
        assert(paths.set() =~= key_paths(fv, ws, key@));
        lemma_ascending(paths@, key_paths(fv, ws, key@));
        assert forall|t: int| 0 <= t < paths@.len() implies #[trigger] path_in(files@, paths@[t]) by {
            assert(paths@.to_set().contains(paths@[t]));
            let x = choose|x: int| 0 <= x < fv.len() && (#[trigger] fv[x]).0 == paths@[t] && package_key_spec(paths@[t], ws) == key@;
            assert(files@[x].path@ == paths@[t]);
        }
    }
    let ghost want = ascending(key_paths(fv, ws, key@)).map_values(|p: Seq<char>| (p, first_endpoint(fv, p)));
    let mut list: Vec<ImpactedFile> = Vec::new();
    let mut t: usize = 0;
    while t < paths.len()
        invariant
            t <= paths@.len(),
            paths.wf(),
            paths@ == ascending(key_paths(fv, ws, key@)),
            forall|t: int| 0 <= t < paths@.len() ==> #[trigger] path_in(files@, paths@[t]),
            fv == file_views(files@),
            want == ascending(key_paths(fv, ws, key@)).map_values(|p: Seq<char>| (p, first_endpoint(fv, p))),
            file_views(list@) == want.take(t as int),
        decreases paths@.len() - t,
    {
        let p = paths.get(t);
        proof {
            assert(paths@[t as int] == p@);
            assert(path_in(files@, paths@[t as int]));
        }
        let e = first_endpoint_of(files, p);
        let ghost before = file_views(list@);
        list.push(ImpactedFile { path: p.clone(), endpoint: e });
        proof {
            assert(file_views(list@) =~= before.push((p@, e)));
            assert(want.take(t + 1) =~= want.take(t as int).push(want[t as int]));
        }
        t = t + 1;
    }
    proof {
        assert(want.take(paths@.len() as int) =~= want);
    }
    PackageGroup { label: key.clone(), files: list }
}

/// The impacted files grouped by the package that owns them.
pub fn group_files(files: &Vec<ImpactedFile>, workspaces: &Vec<Workspace>) -> (r: Vec<PackageGroup>)
    ensures
        group_views(r@) == groups_spec(file_views(files@), workspace_roots(workspaces@)),
{
    let ghost fv = file_views(files@);
    let ghost ws = workspace_roots(workspaces@);
    let mut keys = StrSet::new();
    let mut j: usize = 0;
    proof {
        assert(keys.set() =~= Set::new(|k: Seq<char>| exists|x: int| 0 <= x < 0 && package_key_spec((#[trigger] fv[x]).0, ws) == k));
    }
    while j < files.len()
        invariant
            j <= files@.len(),
            fv == file_views(files@),
            ws == workspace_roots(workspaces@),
            keys.wf(),
            keys.set() == Set::new(|k: Seq<char>| exists|x: int| 0 <= x < j && package_key_spec((#[trigger] fv[x]).0, ws) == k),
        decreases files.len() - j,
    {
        let ghost before = keys.set();
        keys.insert(package_key(files[j].path.as_str(), workspaces.as_slice()));
        proof {
            assert(fv[j as int] == file_view(files@[j as int]));
            assert(keys.set() =~= Set::new(|k: Seq<char>| exists|x: int| 0 <= x < j + 1 && package_key_spec((#[trigger] fv[x]).0, ws) == k)) by {
                assert forall|k: Seq<char>| #[trigger] keys.set().contains(k) implies exists|x: int| 0 <= x < j + 1 && package_key_spec((#[trigger] fv[x]).0, ws) == k by {
                    if !before.contains(k) {
                        assert(package_key_spec(fv[j as int].0, ws) == k);
                    }
                }
                assert forall|k: Seq<char>| (exists|x: int| 0 <= x < j + 1 && package_key_spec((#[trigger] fv[x]).0, ws) == k) implies #[trigger] keys.set().contains(k) by {
                    let x = choose|x: int| 0 <= x < j + 1 && package_key_spec((#[trigger] fv[x]).0, ws) == k;
                    if x < j {
                        assert(before.contains(k));
                    }
                }
            }
        }
        j = j + 1;
    }
    proof {
        assert(keys.set() =~= file_keys(fv, ws));
        lemma_ascending(keys@, file_keys(fv, ws));
    }
    let ghost unsorted = ascending(file_keys(fv, ws)).map_values(
        |k: Seq<char>| (k, ascending(key_paths(fv, ws, k)).map_values(|p: Seq<char>| (p, first_endpoint(fv, p)))),
    );
    let ghost lt = |a: GroupView, b: GroupView| group_lt(a, b);
    let mut out: Vec<PackageGroup> = Vec::new();
    let mut t: usize = 0;
    proof {
        assert(group_views(out@) =~= isort(unsorted.take(0), lt));
    }
    while t < keys.len()
        invariant
            t <= keys@.len(),
            keys.wf(),
            keys@ == ascending(file_keys(fv, ws)),
            fv == file_views(files@),
            ws == workspace_roots(workspaces@),
            unsorted == ascending(file_keys(fv, ws)).map_values(
                |k: Seq<char>| (k, ascending(key_paths(fv, ws, k)).map_values(|p: Seq<char>| (p, first_endpoint(fv, p)))),
            ),
            lt == (|a: GroupView, b: GroupView| group_lt(a, b)),
            group_views(out@) == isort(unsorted.take(t as int), lt),
        decreases keys@.len() - t,
    {
        let g = build_group(files, workspaces, keys.get(t));
        proof {
            lemma_isort_step(unsorted, t as int, lt);
            assert(unsorted[t as int] == group_view(g));
        }
        insert_group(&mut out, g);
        t = t + 1;
    }
    proof {
        assert(unsorted.take(keys@.len() as int) =~= unsorted);
    }
    out
}

// ---------------------------------------------------------------------------
// Directories within a package
// ---------------------------------------------------------------------------

/// The text a package's paths start with: none for the repository root.
pub open spec fn group_prefix(label: Seq<char>) -> Seq<char> {
    if label == "."@ { ""@ } else { label + "/"@ }
}

/// A path relative to its package.
pub open spec fn local_path(p: Seq<char>, label: Seq<char>) -> Seq<char> {
    let pre = group_prefix(label);
    if starts_with(p, pre) { p.skip(pre.len() as int) } else { p }
}

pub open spec fn file_dir(p: Seq<char>, label: Seq<char>) -> Seq<char> {
    split_dir_spec(local_path(p, label)).0
}

pub open spec fn file_name_in(p: Seq<char>, label: Seq<char>) -> Seq<char> {
    split_dir_spec(local_path(p, label)).1
}

/// The directories of a group's files.
pub open spec fn group_dirs(g: GroupView) -> Set<Seq<char>> {
    Set::new(|d: Seq<char>| exists|j: int| 0 <= j < g.1.len() && file_dir((#[trigger] g.1[j]).0, g.0) == d)
}

/// The files (bare name, endpoint) of the first `n` of the group in directory `d`.
pub open spec fn dir_files(g: GroupView, d: Seq<char>, n: nat) -> Seq<(Seq<char>, bool)>
    decreases n,
{
    if n == 0 {
        Seq::empty()
    } else {
        let rest = dir_files(g, d, (n - 1) as nat);
        let f = g.1[n - 1];
        if file_dir(f.0, g.0) == d { rest.push((file_name_in(f.0, g.0), f.1)) } else { rest }
    }
}

/// A directory of a package: (directory, label, files).
pub type DirView = (Seq<char>, Seq<char>, Seq<(Seq<char>, bool)>);

/// More files first, then by label, then by directory.
pub open spec fn dir_lt(a: DirView, b: DirView) -> bool {
    a.2.len() > b.2.len() || (a.2.len() == b.2.len() && (str_lt(a.1, b.1) || (a.1 == b.1 && str_lt(a.0, b.0))))
}

/// A group's files by directory, busiest directory first.
pub open spec fn dir_groups_spec(g: GroupView) -> Seq<DirView> {
    isort(
        ascending(group_dirs(g)).map_values(|d: Seq<char>| (d, dir_label_spec(d), dir_files(g, d, g.1.len()))),
        |a: DirView, b: DirView| dir_lt(a, b),
    )
}

pub struct DirFile {
    pub name: String,
    pub endpoint: bool,
}

pub struct DirGroup {
    pub dir: String,
    pub label: String,
    pub files: Vec<DirFile>,
}

pub open spec fn dir_view(d: DirGroup) -> DirView {
    (d.dir@, d.label@, d.files@.map_values(|f: DirFile| (f.name@, f.endpoint)))
}

pub open spec fn dir_views(ds: Seq<DirGroup>) -> Seq<DirView> {
    ds.map_values(|d: DirGroup| dir_view(d))
}

fn local_parts(path: &str, label: &str) -> (r: (String, String))
    ensures
        r.0@ == file_dir(path@, label@),
        r.1@ == file_name_in(path@, label@),
{
    let prefix = if str_eq(label, ".") { owned("") } else { concat(label, "/") };
    proof {
        reveal_strlit("");
    }
    let local = if str_starts_with(path, prefix.as_str()) {
        let cs = crate::text::chars_of(path);
        let n = crate::text::char_count(prefix.as_str());
        sub_string(cs.as_slice(), n, cs.len())
    } else {
        owned(path)
    };
    proof {
        assert(local@ =~= local_path(path@, label@));
    }
    split_dir(local.as_str())
}

fn insert_dir(out: &mut Vec<DirGroup>, x: DirGroup)
    ensures
        dir_views(final(out)@) == dir_views(old(out)@).insert(
            ins_pos(dir_views(old(out)@), dir_view(x), |a: DirView, b: DirView| dir_lt(a, b)),
            dir_view(x),
        ),
{
    let ghost lt = |a: DirView, b: DirView| dir_lt(a, b);
    let ghost s = dir_views(out@);
    let ghost xv = dir_view(x);
    let mut p: usize = 0;
    while p < out.len()
        invariant
            p <= out@.len(),
            s == dir_views(out@),
            xv == dir_view(x),
            forall|k: int| 0 <= k < p ==> !dir_lt(xv, #[trigger] s[k]),
        ensures
            p <= out@.len(),
            forall|k: int| 0 <= k < p ==> !dir_lt(xv, #[trigger] s[k]),
            p == out@.len() || dir_lt(xv, s[p as int]),
        decreases out.len() - p,
    {
        let y = &out[p];
        let xl = x.files.len();
        let yl = y.files.len();
        let before = xl > yl || (xl == yl && (str_less(x.label.as_str(), y.label.as_str()) || (str_eq(x.label.as_str(), y.label.as_str())
            && str_less(x.dir.as_str(), y.dir.as_str()))));
        proof {
            assert(s[p as int] == dir_view(*y));
        }
        if before {
            break;
        }
        p = p + 1;
    }
    proof {
        assert forall|k: int| 0 <= k < p implies !lt(xv, #[trigger] s[k]) by {
            assert(!dir_lt(xv, s[k]));
        }
        if p < s.len() {
            assert(lt(xv, s[p as int]));
        }
        lemma_ins_pos(s, xv, lt, p as int);
    }
    out.insert(p, x);
    proof {
        assert(dir_views(out@) =~= s.insert(p as int, xv));
    }
}

/// A package group's files bucketed by directory, busiest first.
pub fn dir_groups(group: &PackageGroup) -> (r: Vec<DirGroup>)
    ensures
        dir_views(r@) == dir_groups_spec(group_view(*group)),
{
    let ghost g = group_view(*group);
    let files = &group.files;
    let label = group.label.as_str();
    let ghost fv = file_views(files@);
    proof {
        assert(g.1 == fv);
        assert(g.0 == label@);
        assert(fv.len() == files@.len());
    }
    let mut dirs = StrSet::new();
    let mut j: usize = 0;
    proof {
        assert(dirs.set() =~= Set::new(|d: Seq<char>| exists|x: int| 0 <= x < 0 && file_dir((#[trigger] g.1[x]).0, g.0) == d));
    }
    while j < files.len()
        invariant
            j <= files@.len(),
            g == group_view(*group),
            g.1 == fv,
            g.0 == label@,
            fv == file_views(files@),
            fv.len() == files@.len(),
            dirs.wf(),
            dirs.set() == Set::new(|d: Seq<char>| exists|x: int| 0 <= x < j && file_dir((#[trigger] g.1[x]).0, g.0) == d),
        decreases files.len() - j,
    {
        let ghost before = dirs.set();
        let (dir, _) = local_parts(files[j].path.as_str(), label);
        dirs.insert(dir);
        proof {
            assert(g.1[j as int] == file_view(files@[j as int]));
            assert(dirs.set() =~= Set::new(|d: Seq<char>| exists|x: int| 0 <= x < j + 1 && file_dir((#[trigger] g.1[x]).0, g.0) == d)) by {
                assert forall|d: Seq<char>| #[trigger] dirs.set().contains(d) implies exists|x: int| 0 <= x < j + 1 && file_dir((#[trigger] g.1[x]).0, g.0) == d by {
                    if !before.contains(d) {
                        assert(file_dir(g.1[j as int].0, g.0) == d);
                    }
                }
                assert forall|d: Seq<char>| (exists|x: int| 0 <= x < j + 1 && file_dir((#[trigger] g.1[x]).0, g.0) == d) implies #[trigger] dirs.set().contains(d) by {
                    let x = choose|x: int| 0 <= x < j + 1 && file_dir((#[trigger] g.1[x]).0, g.0) == d;
                    if x < j {
                        assert(before.contains(d));
                    }
                }
            }
        }
        j = j + 1;
    }
    proof {
        assert(dirs.set() =~= group_dirs(g));
        lemma_ascending(dirs@, group_dirs(g));
    }
    let ghost unsorted = ascending(group_dirs(g)).map_values(|d: Seq<char>| (d, dir_label_spec(d), dir_files(g, d, g.1.len())));
    let ghost lt = |a: DirView, b: DirView| dir_lt(a, b);
    let mut out: Vec<DirGroup> = Vec::new();
    let mut t: usize = 0;
    proof {
        assert(dir_views(out@) =~= isort(unsorted.take(0), lt));
    }
    while t < dirs.len()
        invariant
            t <= dirs@.len(),
            dirs.wf(),
            dirs@ == ascending(group_dirs(g)),
            g == group_view(*group),
            g.1 == fv,
            g.0 == label@,
            fv == file_views(files@),
            fv.len() == files@.len(),
            unsorted == ascending(group_dirs(g)).map_values(|d: Seq<char>| (d, dir_label_spec(d), dir_files(g, d, g.1.len()))),
            lt == (|a: DirView, b: DirView| dir_lt(a, b)),
            dir_views(out@) == isort(unsorted.take(t as int), lt),
        decreases dirs@.len() - t,
    {
        let d = dirs.get(t);
        let mut list: Vec<DirFile> = Vec::new();
        let mut q: usize = 0;
        proof {
            assert(list@.map_values(|f: DirFile| (f.name@, f.endpoint)) =~= dir_files(g, d@, 0));
        }
        while q < files.len()
            invariant
                q <= files@.len(),
                g == group_view(*group),
                g.1 == fv,
                g.0 == label@,
                fv == file_views(files@),
                fv.len() == files@.len(),
                list@.map_values(|f: DirFile| (f.name@, f.endpoint)) == dir_files(g, d@, q as nat),
            decreases files.len() - q,
        {
            let (dir, name) = local_parts(files[q].path.as_str(), label);
            proof {
                assert(g.1[q as int] == file_view(files@[q as int]));
            }
            if str_eq(dir.as_str(), d.as_str()) {
                let ghost before = list@.map_values(|f: DirFile| (f.name@, f.endpoint));
                list.push(DirFile { name, endpoint: files[q].endpoint });
                proof {
                    assert(list@.map_values(|f: DirFile| (f.name@, f.endpoint)) =~= before.push(
                        (file_name_in(g.1[q as int].0, g.0), g.1[q as int].1),
                    ));
                }
            }
            q = q + 1;
        }
        let dg = DirGroup { dir: d.clone(), label: dir_label(d.as_str()), files: list };
        proof {
            lemma_isort_step(unsorted, t as int, lt);
            assert(unsorted[t as int] == dir_view(dg));
        }
        insert_dir(&mut out, dg);
        t = t + 1;
    }
    proof {
        assert(unsorted.take(dirs@.len() as int) =~= unsorted);
    }
    out
}

// ---------------------------------------------------------------------------
// Rendering groups
// ---------------------------------------------------------------------------

pub open spec fn paren_count(n: nat) -> Seq<char> {
    "("@ + decimal(n) + ")"@
}

pub open spec fn dir_file_line(color: bool, pad: Seq<char>, f: (Seq<char>, bool)) -> Seq<char> {
    pad + "    "@ + paint_spec(color, f.0, "36"@) + if f.1 { "  "@ + paint_spec(color, "\u{25ce} endpoint"@, "38;5;42"@) } else { ""@ }
}

/// A directory's header, then, when files are listed, each file by name,
/// endpoints marked.
pub open spec fn dir_lines(color: bool, pad: Seq<char>, d: DirView, list_files: bool) -> Seq<Seq<char>> {
    seq![pad + "  "@ + paint_spec(color, d.1, "36"@) + " "@ + paint_spec(color, paren_count(d.2.len()), "2;37"@)] + if list_files {
        d.2.map_values(|f: (Seq<char>, bool)| dir_file_line(color, pad, f))
    } else {
        Seq::empty()
    }
}

/// A package's header with its file count, then its directories.
pub open spec fn group_lines(color: bool, pad: Seq<char>, g: GroupView, list_files: bool) -> Seq<Seq<char>> {
    seq![pad + paint_spec(color, g.0, "1;36"@) + " "@ + paint_spec(color, paren_count(g.1.len()), "1;32"@)] + concat_lines(
        dir_groups_spec(g).map_values(|d: DirView| dir_lines(color, pad, d, list_files)),
    )
}

pub open spec fn package_lines(color: bool, groups: Seq<GroupView>, indent: nat, list_files: bool) -> Seq<Seq<char>> {
    concat_lines(groups.map_values(|g: GroupView| group_lines(color, repeat_char(' ', indent), g, list_files)))
}

fn push_dir_lines(d: &DirGroup, pad: &str, list_files: bool, theme: &Theme, lines: &mut Vec<String>)
    ensures
        str_views(final(lines)@) == str_views(old(lines)@) + dir_lines(theme.color, pad@, dir_view(*d), list_files),
{
    let ghost l0 = str_views(lines@);
    let ghost dv = dir_view(*d);
    let head = concat(
        concat3(pad, "  ", theme.path(d.label.as_str()).as_str()).as_str(),
        concat(" ", theme.muted(concat3("(", usize_to_string(d.files.len()).as_str(), ")").as_str()).as_str()).as_str(),
    );
    let ghost h = head@;
    lines.push(head);
    proof {
        assert(h =~= dir_lines(theme.color, pad@, dv, list_files)[0]);
        assert(str_views(lines@) =~= l0 + seq![h]);
    }
    if !list_files {
        proof {
            assert(dir_lines(theme.color, pad@, dv, list_files) =~= seq![h]);
        }
        return;
    }
    let ghost rows = dv.2.map_values(|f: (Seq<char>, bool)| dir_file_line(theme.color, pad@, f));
    let mut k: usize = 0;
    proof {
        assert(str_views(lines@) =~= l0 + seq![h] + rows.take(0));
    }
    while k < d.files.len()
        invariant
            k <= d.files@.len(),
            dv == dir_view(*d),
            rows == dv.2.map_values(|f: (Seq<char>, bool)| dir_file_line(theme.color, pad@, f)),
            str_views(lines@) == l0 + seq![h] + rows.take(k as int),
        decreases d.files.len() - k,
    {
        let f = &d.files[k];
        let marker = if f.endpoint {
            concat("  ", theme.endpoint("\u{25ce} endpoint").as_str())
        } else {
            owned("")
        };
        let line = concat(concat3(pad, "    ", theme.path(f.name.as_str()).as_str()).as_str(), marker.as_str());
        proof {
            reveal_strlit("");
            assert(dv.2[k as int] == (f.name@, f.endpoint));
            assert(line@ =~= rows[k as int]);
        }
        let ghost before = str_views(lines@);
        lines.push(line);
        proof {
            assert(str_views(lines@) =~= before.push(rows[k as int]));
            assert(rows.take(k + 1) =~= rows.take(k as int).push(rows[k as int]));
        }
        k = k + 1;
    }
    proof {
        assert(rows.take(d.files@.len() as int) =~= rows);
    }
}

fn push_group_lines(g: &PackageGroup, pad: &str, list_files: bool, theme: &Theme, lines: &mut Vec<String>)
    ensures
        str_views(final(lines)@) == str_views(old(lines)@) + group_lines(theme.color, pad@, group_view(*g), list_files),
{
    let ghost l0 = str_views(lines@);
    let ghost gv = group_view(*g);
    let head = concat(
        concat(pad, theme.pkg(g.label.as_str()).as_str()).as_str(),
        concat(" ", theme.count(concat3("(", usize_to_string(g.files.len()).as_str(), ")").as_str()).as_str()).as_str(),
    );
    let ghost h = head@;
    lines.push(head);
    proof {
        assert(h =~= group_lines(theme.color, pad@, gv, list_files)[0]);
    }
    let dirs = dir_groups(g);
    let ghost parts = dir_groups_spec(gv).map_values(|d: DirView| dir_lines(theme.color, pad@, d, list_files));
    let mut k: usize = 0;
    proof {
        assert(str_views(lines@) =~= l0 + seq![h] + concat_lines(parts.take(0)));
    }
    while k < dirs.len()
        invariant
            k <= dirs@.len(),
            dir_views(dirs@) == dir_groups_spec(gv),
            parts == dir_groups_spec(gv).map_values(|d: DirView| dir_lines(theme.color, pad@, d, list_files)),
            str_views(lines@) == l0 + seq![h] + concat_lines(parts.take(k as int)),
        decreases dirs.len() - k,
    {
        let ghost before = str_views(lines@);
        push_dir_lines(&dirs[k], pad, list_files, theme, lines);
        proof {
            assert(dir_views(dirs@)[k as int] == dir_view(dirs@[k as int]));
            assert(parts.take(k + 1).drop_last() =~= parts.take(k as int));
            assert(str_views(lines@) =~= l0 + seq![h] + concat_lines(parts.take(k + 1)));
        }
        k = k + 1;
    }
    proof {
        assert(parts.take(dirs@.len() as int) =~= parts);
        assert(str_views(lines@) =~= l0 + group_lines(theme.color, pad@, gv, list_files));
    }
}

/// Appends the package groups, indented by `indent` spaces.
pub fn render_package_groups(groups: &Vec<PackageGroup>, indent: usize, list_files: bool, theme: &Theme, lines: &mut Vec<String>)
    ensures
        str_views(final(lines)@) == str_views(old(lines)@) + package_lines(theme.color, group_views(groups@), indent as nat, list_files),
{
    let ghost l0 = str_views(lines@);
    let pad = repeat(' ', indent);
    let ghost parts = group_views(groups@).map_values(|g: GroupView| group_lines(theme.color, repeat_char(' ', indent as nat), g, list_files));
    let mut k: usize = 0;
    proof {
        assert(str_views(lines@) =~= l0 + concat_lines(parts.take(0)));
    }
    while k < groups.len()
        invariant
            k <= groups@.len(),
            pad@ == repeat_char(' ', indent as nat),
            parts == group_views(groups@).map_values(|g: GroupView| group_lines(theme.color, repeat_char(' ', indent as nat), g, list_files)),
            str_views(lines@) == l0 + concat_lines(parts.take(k as int)),
        decreases groups.len() - k,
    {
        push_group_lines(&groups[k], pad.as_str(), list_files, theme, lines);
        proof {
            assert(parts.take(k + 1).drop_last() =~= parts.take(k as int));
            assert(str_views(lines@) =~= l0 + concat_lines(parts.take(k + 1)));
        }
        k = k + 1;
    }
    proof {
        assert(parts.take(groups@.len() as int) =~= parts);
    }
}

/// Impacted-file lists longer than this collapse to their directories.
pub const MAX_LISTED_FILES: usize = 200;

pub open spec fn caveat_lines(color: bool, any_files: bool, list_files: bool) -> Seq<Seq<char>> {
    if !any_files || list_files {
        Seq::empty()
    } else {
        seq![""@, "  "@ + paint_spec(color, "file lists collapsed past 200 impacted files \u{b7} -v to list every file"@, "2;37"@)]
    }
}

/// The note under a collapsed file list on how to expand it.
pub fn push_list_caveats(any_files: bool, list_files: bool, theme: &Theme, lines: &mut Vec<String>)
    ensures
        str_views(final(lines)@) == str_views(old(lines)@) + caveat_lines(theme.color, any_files, list_files),
{
    let ghost l0 = str_views(lines@);
    if !any_files || list_files {
        proof {
            assert(str_views(lines@) =~= l0 + caveat_lines(theme.color, any_files, list_files));
        }
        return;
    }
    lines.push(owned(""));
    lines.push(concat("  ", theme.muted("file lists collapsed past 200 impacted files \u{b7} -v to list every file").as_str()));
    proof {
        reveal_strlit("");
        assert(str_views(lines@) =~= l0 + caveat_lines(theme.color, any_files, list_files));
    }
}

} // verus!
