//! Resolving import specifiers to the repository's source files: the shared
//! index and the probing of file candidates.
use vstd::prelude::*;

use crate::collections::{contains_str, opt_str, str_views, StrMap, StrSet};
use crate::paths::{
    clean, clean_path, components, extension, extension_spec, from_components, join_clean, join_clean_spec, path_components,
    parent, parent_spec, render_components, strip_prefix_path, strip_prefix_spec, with_extension, with_extension_spec,
};
use crate::config::{same_config, RepoContext, TsConfigPath};
use crate::manifest::{load_package_info, mappings_spec, entry_candidates_spec, package_root_spec, mapping_views, PackageInfo, PackageManifest};
use crate::text::{concat, concat3, owned, str_starts_with_char};

verus! {

/// The result of resolving one import specifier.
#[derive(Debug)]
pub enum Resolution {
    Resolved(String),
    Unresolved,
}

impl Resolution {
    /// The resolved path, if any.
    pub open spec fn path(self) -> Option<Seq<char>> {
        match self {
            Resolution::Resolved(p) => Some(p@),
            Resolution::Unresolved => None,
        }
    }
}

/// The first candidate that is one of `files`.
pub open spec fn first_in(files: Set<Seq<char>>, cands: Seq<Seq<char>>) -> Option<Seq<char>>
    decreases cands.len(),
{
    if cands.len() == 0 {
        None
    } else if files.contains(cands[0]) {
        Some(cands[0])
    } else {
        first_in(files, cands.subrange(1, cands.len() as int))
    }
}

pub open spec fn ts_ext() -> Seq<char> {
    seq!['t', 's']
}

/// The TypeScript source extensions a JavaScript-emitted extension maps back
/// to, in order.
pub open spec fn ts_counterparts_spec(ext: Seq<char>) -> Seq<Seq<char>> {
    if ext == seq!['j', 's'] {
        seq![seq!['t', 's'], seq!['t', 's', 'x'], seq!['d', '.', 't', 's']]
    } else if ext == seq!['j', 's', 'x'] {
        seq![seq!['t', 's', 'x']]
    } else if ext == seq!['m', 'j', 's'] {
        seq![seq!['m', 't', 's'], seq!['d', '.', 'm', 't', 's']]
    } else if ext == seq!['c', 'j', 's'] {
        seq![seq!['c', 't', 's'], seq!['d', '.', 'c', 't', 's']]
    } else {
        Seq::empty()
    }
}

/// `c` with its extension replaced by each of `exts`, in order.
pub open spec fn with_each_ext(c: Seq<char>, exts: Seq<Seq<char>>) -> Seq<Seq<char>> {
    exts.map_values(|e: Seq<char>| with_extension_spec(c, e))
}

/// `c` with `.e` appended after its extension `x`, for each `e` of `exts`.
pub open spec fn with_each_ext_after(c: Seq<char>, x: Seq<char>, exts: Seq<Seq<char>>) -> Seq<Seq<char>> {
    exts.map_values(|e: Seq<char>| with_extension_spec(c, x + seq!['.'] + e))
}

/// `index.e` inside the directory `c`, for each `e` of `exts`.
pub open spec fn index_files(c: Seq<char>, exts: Seq<Seq<char>>) -> Seq<Seq<char>> {
    exts.map_values(|e: Seq<char>| join_clean_spec(c, seq!['i', 'n', 'd', 'e', 'x', '.'] + e))
}

/// The files tried, in order, for a normalised candidate `c` that is not
/// itself an acceptable source file: extension probing for a bare path,
/// multi-dot names and TypeScript counterparts of emitted extensions,
/// declaration files, then `index.*` directory entry points.
pub open spec fn probes(c: Seq<char>, exts: Seq<Seq<char>>) -> Seq<Seq<char>> {
    let has_ts = exts.contains(ts_ext());
    let by_ext = match extension_spec(c) {
        None => with_each_ext(c, exts),
        Some(x) => (if !exts.contains(x) {
            with_each_ext_after(c, x, exts)
        } else {
            Seq::empty()
        }) + (if has_ts {
            with_each_ext(c, ts_counterparts_spec(x))
        } else {
            Seq::empty()
        }),
    };
    let declaration = if has_ts {
        seq![c + seq!['.', 'd', '.', 't', 's']]
    } else {
        Seq::empty()
    };
    let entry_points = if extension_spec(c) is None {
        index_files(c, exts) + if has_ts {
            seq![join_clean_spec(c, seq!['i', 'n', 'd', 'e', 'x', '.', 'd', '.', 't', 's'])]
        } else {
            Seq::empty()
        }
    } else {
        Seq::empty()
    };
    by_ext + declaration + entry_points
}

/// `c` is itself a source file of the caller's language family.
pub open spec fn exact_hit(files: Set<Seq<char>>, c: Seq<char>, exts: Seq<Seq<char>>) -> bool {
    files.contains(c) && match extension_spec(c) {
        Some(x) => exts.contains(x),
        None => true,
    }
}

/// The source file a path candidate stands for, probing only the
/// extensions `exts` of the caller's language family.
pub open spec fn try_candidate_spec(files: Set<Seq<char>>, cand: Seq<char>, exts: Seq<Seq<char>>) -> Option<Seq<char>> {
    let c = clean(cand);
    if exact_hit(files, c, exts) {
        Some(c)
    } else {
        first_in(files, probes(c, exts))
    }
}

/// The first of `cands` that some source file stands for.
pub open spec fn first_resolved(files: Set<Seq<char>>, cands: Seq<Seq<char>>, exts: Seq<Seq<char>>) -> Option<Seq<char>>
    decreases cands.len(),
{
    if cands.len() == 0 {
        None
    } else if try_candidate_spec(files, cands[0], exts) is Some {
        try_candidate_spec(files, cands[0], exts)
    } else {
        first_resolved(files, cands.subrange(1, cands.len() as int), exts)
    }
}

/// The first of `cands` in `files`.
pub fn first_existing(files: &StrSet, cands: &Vec<String>) -> (r: Option<String>)
    requires
        files.wf(),
    ensures
        r matches Some(p) ==> first_in(files.set(), str_views(cands@)) == Some(p@),
        r is None ==> first_in(files.set(), str_views(cands@)) is None,
{
    let ghost cs = str_views(cands@);
    let mut i: usize = 0;
    proof {
        assert(cs.subrange(0, cs.len() as int) =~= cs);
    }
    while i < cands.len()
        invariant
            files.wf(),
            i <= cands.len(),
            cs == str_views(cands@),
            first_in(files.set(), cs) == first_in(files.set(), cs.subrange(i as int, cs.len() as int)),
        decreases cands.len() - i,
    {
        let ghost rest = cs.subrange(i as int, cs.len() as int);
        proof {
            assert(rest[0] == cands@[i as int]@);
            assert(rest.subrange(1, rest.len() as int) =~= cs.subrange(i + 1, cs.len() as int));
        }
        if files.contains(cands[i].as_str()) {
            return Some(cands[i].clone());
        }
        i = i + 1;
    }
    None
}

fn push_with_extension(out: &mut Vec<String>, c: &str, ext: &str)
    ensures
        str_views(final(out)@) == str_views(old(out)@).push(with_extension_spec(c@, ext@)),
{
    let p = with_extension(c, ext);
    out.push(p);
    proof {
        assert(str_views(out@) =~= str_views(old(out)@).push(with_extension_spec(c@, ext@)));
    }
}

/// The TypeScript counterparts of a JavaScript-emitted extension.
pub fn ts_counterparts(ext: &str) -> (r: Vec<String>)
    ensures
        str_views(r@) == ts_counterparts_spec(ext@),
{
    proof {
        reveal_strlit("js");
        reveal_strlit("jsx");
        reveal_strlit("mjs");
        reveal_strlit("cjs");
        reveal_strlit("ts");
        reveal_strlit("tsx");
        reveal_strlit("d.ts");
        reveal_strlit("mts");
        reveal_strlit("d.mts");
        reveal_strlit("cts");
        reveal_strlit("d.cts");
        assert("js"@ =~= seq!['j', 's']);
        assert("jsx"@ =~= seq!['j', 's', 'x']);
        assert("mjs"@ =~= seq!['m', 'j', 's']);
        assert("cjs"@ =~= seq!['c', 'j', 's']);
        assert("ts"@ =~= seq!['t', 's']);
        assert("tsx"@ =~= seq!['t', 's', 'x']);
        assert("d.ts"@ =~= seq!['d', '.', 't', 's']);
        assert("mts"@ =~= seq!['m', 't', 's']);
        assert("d.mts"@ =~= seq!['d', '.', 'm', 't', 's']);
        assert("cts"@ =~= seq!['c', 't', 's']);
        assert("d.cts"@ =~= seq!['d', '.', 'c', 't', 's']);
    }
    let mut r: Vec<String> = Vec::new();
    if crate::text::str_eq(ext, "js") {
        r.push(owned("ts"));
        r.push(owned("tsx"));
        r.push(owned("d.ts"));
    } else if crate::text::str_eq(ext, "jsx") {
        r.push(owned("tsx"));
    } else if crate::text::str_eq(ext, "mjs") {
        r.push(owned("mts"));
        r.push(owned("d.mts"));
    } else if crate::text::str_eq(ext, "cjs") {
        r.push(owned("cts"));
        r.push(owned("d.cts"));
    }
    proof {
        assert(str_views(r@) =~= ts_counterparts_spec(ext@));
    }
    r
}

/// The candidates `probes(c, exts)`, in order.
pub fn probe_list(c: &str, exts: &Vec<String>) -> (r: Vec<String>)
    ensures
        str_views(r@) == probes(c@, str_views(exts@)),
{
    let ghost es = str_views(exts@);
    proof {
        reveal_strlit("ts");
        reveal_strlit(".d.ts");
        reveal_strlit("index.");
        reveal_strlit("index.d.ts");
        reveal_strlit(".");
        assert("ts"@ =~= ts_ext());
        assert(".d.ts"@ =~= seq!['.', 'd', '.', 't', 's']);
        assert("index."@ =~= seq!['i', 'n', 'd', 'e', 'x', '.']);
        assert("index.d.ts"@ =~= seq!['i', 'n', 'd', 'e', 'x', '.', 'd', '.', 't', 's']);
        assert("."@ =~= seq!['.']);
    }
    let has_ts = contains_str(exts, "ts");
    let x = extension(c);
    let mut out: Vec<String> = Vec::new();
    match &x {
        None => {
            let mut i: usize = 0;
            while i < exts.len()
                invariant
                    i <= exts.len(),
                    es == str_views(exts@),
                    str_views(out@) == with_each_ext(c@, es.take(i as int)),
                decreases exts.len() - i,
            {
                push_with_extension(&mut out, c, exts[i].as_str());
                proof {
                    assert(with_each_ext(c@, es.take(i + 1)) =~= with_each_ext(c@, es.take(i as int)).push(
                        with_extension_spec(c@, es[i as int])));
                }
                i = i + 1;
            }
            proof {
                assert(es.take(exts.len() as int) =~= es);
            }
        },
        Some(xv) => {
            if !contains_str(exts, xv.as_str()) {
                let mut i: usize = 0;
                while i < exts.len()
                    invariant
                        i <= exts.len(),
                        es == str_views(exts@),
                        str_views(out@) == with_each_ext_after(c@, xv@, es.take(i as int)),
                        "."@ == seq!['.'],
                    decreases exts.len() - i,
                {
                    let ext = concat3(xv.as_str(), ".", exts[i].as_str());
                    push_with_extension(&mut out, c, ext.as_str());
                    proof {
                        assert(with_each_ext_after(c@, xv@, es.take(i + 1)) =~= with_each_ext_after(
                            c@, xv@, es.take(i as int)).push(with_extension_spec(c@, xv@ + seq!['.'] + es[i as int])));
                    }
                    i = i + 1;
                }
                proof {
                    assert(es.take(exts.len() as int) =~= es);
                }
            }
            let ghost first = str_views(out@);
            if has_ts {
                let reps = ts_counterparts(xv.as_str());
                let ghost rs = str_views(reps@);
                let mut i: usize = 0;
                while i < reps.len()
                    invariant
                        i <= reps.len(),
                        rs == str_views(reps@),
                        str_views(out@) == first + with_each_ext(c@, rs.take(i as int)),
                    decreases reps.len() - i,
                {
                    push_with_extension(&mut out, c, reps[i].as_str());
                    proof {
                        assert(with_each_ext(c@, rs.take(i + 1)) =~= with_each_ext(c@, rs.take(i as int)).push(
                            with_extension_spec(c@, rs[i as int])));
                    }
                    i = i + 1;
                }
                proof {
                    assert(rs.take(reps.len() as int) =~= rs);
                }
            } else {
                proof {
                    assert(first =~= first + Seq::<Seq<char>>::empty());
                }
            }
        },
    }
    let ghost by_ext = str_views(out@);
    if has_ts {
        out.push(concat(c, ".d.ts"));
    }
    let ghost with_decl = str_views(out@);
    proof {
        if has_ts {
            assert(with_decl =~= by_ext + seq![c@ + seq!['.', 'd', '.', 't', 's']]);
        } else {
            assert(with_decl =~= by_ext + Seq::<Seq<char>>::empty());
        }
    }
    if x.is_none() {
        let mut i: usize = 0;
        while i < exts.len()
            invariant
                i <= exts.len(),
                es == str_views(exts@),
                str_views(out@) == with_decl + index_files(c@, es.take(i as int)),
                "index."@ == seq!['i', 'n', 'd', 'e', 'x', '.'],
            decreases exts.len() - i,
        {
            let name = concat("index.", exts[i].as_str());
            let ghost before = str_views(out@);
            out.push(join_clean(c, name.as_str()));
            proof {
                assert(str_views(out@) =~= before.push(join_clean_spec(c@, seq!['i', 'n', 'd', 'e', 'x', '.'] + es[i as int])));
                assert(index_files(c@, es.take(i + 1)) =~= index_files(c@, es.take(i as int)).push(
                    join_clean_spec(c@, seq!['i', 'n', 'd', 'e', 'x', '.'] + es[i as int])));
            }
            i = i + 1;
        }
        proof {
            assert(es.take(exts.len() as int) =~= es);
        }
        let ghost with_index = str_views(out@);
        if has_ts {
            out.push(join_clean(c, "index.d.ts"));
        }
        proof {
            if has_ts {
                assert(str_views(out@) =~= with_index + seq![join_clean_spec(c@, seq!['i', 'n', 'd', 'e', 'x', '.', 'd', '.', 't', 's'])]);
            } else {
                assert(str_views(out@) =~= with_index + Seq::<Seq<char>>::empty());
            }
        }
    } else {
        proof {
            assert(str_views(out@) =~= with_decl + Seq::<Seq<char>>::empty());
        }
    }
    proof {
        assert(str_views(out@) =~= probes(c@, es));
    }
    out
}


// ---------------------------------------------------------------------------
// Suffix indexes
// ---------------------------------------------------------------------------

/// The trailing component runs of `path`, longest first.
pub open spec fn suffixes(path: Seq<char>) -> Seq<Seq<char>> {
    let cs = components(path);
    Seq::new(cs.len(), |s: int| from_components(cs.skip(s)))
}

/// `file` relative to `root`, or `file` itself outside `root`.
pub open spec fn relative_to(file: Seq<char>, root: Seq<char>) -> Seq<char> {
    match strip_prefix_spec(file, root) {
        Some(r) => r,
        None => file,
    }
}

/// The owner of `key` among (key, owner) pairs: the first pair's.
pub open spec fn first_owner(pairs: Seq<(Seq<char>, Seq<char>)>, key: Seq<char>) -> Option<Seq<char>>
    decreases pairs.len(),
{
    if pairs.len() == 0 {
        None
    } else {
        match first_owner(pairs.drop_last(), key) {
            Some(x) => Some(x),
            None => if pairs.last().0 == key {
                Some(pairs.last().1)
            } else {
                None
            },
        }
    }
}

/// An index map holds exactly the first owner of each key.
pub open spec fn indexes(m: StrMap<String>, pairs: Seq<(Seq<char>, Seq<char>)>) -> bool {
    &&& m.wf()
    &&& forall|k: Seq<char>| #[trigger] m.as_map().contains_key(k) <==> first_owner(pairs, k) is Some
    &&& forall|k: Seq<char>| #[trigger] m.as_map().contains_key(k) ==> Some(m.as_map()[k]@) == first_owner(pairs, k)
}

fn tail_components(cs: &Vec<String>, start: usize) -> (r: Vec<String>)
    requires
        start <= cs@.len(),
    ensures
        str_views(r@) == str_views(cs@).skip(start as int),
{
    let mut out: Vec<String> = Vec::new();
    let mut i: usize = start;
    while i < cs.len()
        invariant
            start <= i <= cs@.len(),
            str_views(out@) == str_views(cs@).subrange(start as int, i as int),
        decreases cs.len() - i,
    {
        let ghost before = str_views(out@);
        out.push(cs[i].clone());
        proof {
            assert(str_views(out@) =~= before.push(cs@[i as int]@));
            assert(str_views(cs@).subrange(start as int, i + 1) =~= str_views(cs@).subrange(start as int, i as int).push(cs@[i as int]@));
        }
        i = i + 1;
    }
    proof {
        assert(str_views(cs@).subrange(start as int, cs@.len() as int) =~= str_views(cs@).skip(start as int));
    }
    out
}

/// The trailing component runs of a path, longest first.
pub fn path_suffixes(path: &str) -> (r: Vec<String>)
    ensures
        str_views(r@) == suffixes(path@),
{
    let cs = path_components(path);
    let ghost cv = components(path@);
    let mut out: Vec<String> = Vec::new();
    let mut start: usize = 0;
    while start < cs.len()
        invariant
            start <= cs@.len(),
            str_views(cs@) == cv,
            cv == components(path@),
            str_views(out@) == suffixes(path@).take(start as int),
        decreases cs.len() - start,
    {
        let tail = tail_components(&cs, start);
        let ghost before = str_views(out@);
        out.push(render_components(&tail));
        proof {
            assert(str_views(out@) =~= before.push(from_components(cv.skip(start as int))));
            assert(suffixes(path@).take(start + 1) =~= suffixes(path@).take(start as int).push(from_components(cv.skip(start as int))));
        }
        start = start + 1;
    }
    proof {
        assert(suffixes(path@).take(cs@.len() as int) =~= suffixes(path@));
    }
    out
}

/// Index each suffix of `entry_of` onto `owner` unless already owned.
fn index_suffixes(index: &mut StrMap<String>, keys: &Vec<String>, owner: &String, Ghost(pairs): Ghost<Seq<(Seq<char>, Seq<char>)>>)
    requires
        indexes(*old(index), pairs),
    ensures
        indexes(*final(index), pairs + str_views(keys@).map_values(|k: Seq<char>| (k, owner@))),
{
    let ghost kv = str_views(keys@);
    let mut i: usize = 0;
    proof {
        assert(pairs + kv.take(0).map_values(|k: Seq<char>| (k, owner@)) =~= pairs);
    }
    while i < keys.len()
        invariant
            i <= keys@.len(),
            kv == str_views(keys@),
            indexes(*index, pairs + kv.take(i as int).map_values(|k: Seq<char>| (k, owner@))),
        decreases keys.len() - i,
    {
        let ghost ps = pairs + kv.take(i as int).map_values(|k: Seq<char>| (k, owner@));
        let ghost ps2 = pairs + kv.take(i + 1).map_values(|k: Seq<char>| (k, owner@));
        proof {
            assert(ps2 =~= ps.push((kv[i as int], owner@)));
            assert(ps2.drop_last() =~= ps);
        }
        let key = &keys[i];
        if index.find(key.as_str()).is_none() {
            let ghost old_map = index.as_map();
            let v = owner.clone();
            let k0 = key.clone();
            proof {
                assert(v@ == owner@);
                assert(k0@ == key@);
                assert(!old_map.contains_key(key@));
                assert(first_owner(ps, key@) is None);
            }
            index.set(k0, v);
            proof {
                assert forall|k: Seq<char>| #[trigger] index.as_map().contains_key(k) <==> first_owner(ps2, k) is Some by {
                    assert(old_map.contains_key(k) <==> first_owner(ps, k) is Some);
                }
                assert forall|k: Seq<char>| #[trigger] index.as_map().contains_key(k) implies Some(index.as_map()[k]@) == first_owner(ps2, k) by {
                    if k != key@ {
                        assert(old_map.contains_key(k));
                        assert(index.as_map()[k] == old_map[k]);
                    } else {
                        assert(index.as_map()[k] == v);
                    }
                }
            }
        } else {
            proof {
                assert(index.as_map().contains_key(key@));
                assert forall|k: Seq<char>| #[trigger] index.as_map().contains_key(k) <==> first_owner(ps2, k) is Some by {
                    assert(index.as_map().contains_key(k) <==> first_owner(ps, k) is Some);
                }
                assert forall|k: Seq<char>| #[trigger] index.as_map().contains_key(k) implies Some(index.as_map()[k]@) == first_owner(ps2, k) by {
                    assert(Some(index.as_map()[k]@) == first_owner(ps, k));
                }
            }
        }
        i = i + 1;
    }
    proof {
        assert(kv.take(keys@.len() as int) =~= kv);
    }
}


pub open spec fn ext_is(path: Seq<char>, ext: Seq<char>) -> bool {
    extension_spec(path) == Some(ext)
}

pub open spec fn rb_ext() -> Seq<char> {
    seq!['r', 'b']
}

pub open spec fn java_ext() -> Seq<char> {
    seq!['j', 'a', 'v', 'a']
}

/// Each suffix of `path`, owned by `file`.
pub open spec fn owned_by(path: Seq<char>, file: Seq<char>) -> Seq<(Seq<char>, Seq<char>)> {
    suffixes(path).map_values(|k: Seq<char>| (k, file))
}

/// The (suffix, file) pairs of the Ruby and Java sources, in order: every
/// trailing run of components of each file's repo-relative path.
pub open spec fn suffix_pairs(root: Seq<char>, files: Seq<Seq<char>>) -> Seq<(Seq<char>, Seq<char>)>
    decreases files.len(),
{
    if files.len() == 0 {
        Seq::empty()
    } else {
        let f = files.last();
        suffix_pairs(root, files.drop_last()) + if ext_is(f, rb_ext()) || ext_is(f, java_ext()) {
            owned_by(relative_to(f, root), f)
        } else {
            Seq::empty()
        }
    }
}

/// The (package directory suffix, file) pairs of the Java sources, in
/// order.
pub open spec fn java_package_pairs(root: Seq<char>, files: Seq<Seq<char>>) -> Seq<(Seq<char>, Seq<char>)>
    decreases files.len(),
{
    if files.len() == 0 {
        Seq::empty()
    } else {
        let f = files.last();
        java_package_pairs(root, files.drop_last()) + if ext_is(f, java_ext()) {
            match parent_spec(relative_to(f, root)) {
                Some(dir) => owned_by(dir, f),
                None => Seq::empty(),
            }
        } else {
            Seq::empty()
        }
    }
}

fn ext_matches(path: &str, ext: &str) -> (r: bool)
    ensures
        r == ext_is(path@, ext@),
{
    match extension(path) {
        Some(e) => crate::text::str_eq(e.as_str(), ext),
        None => false,
    }
}

fn relative_path(file: &str, root: &str) -> (r: String)
    ensures
        r@ == relative_to(file@, root@),
{
    match strip_prefix_path(file, root) {
        Some(r) => r,
        None => owned(file),
    }
}

/// Every trailing component run of each Ruby and Java file's
/// repo-relative path, mapped to the first file (in order) that has it.
pub fn build_suffix_index(repo_root: &str, source_files: &Vec<String>) -> (r: StrMap<String>)
    ensures
        indexes(r, suffix_pairs(repo_root@, str_views(source_files@))),
{
    proof {
        reveal_strlit("rb");
        reveal_strlit("java");
        assert("rb"@ =~= rb_ext());
        assert("java"@ =~= java_ext());
    }
    let ghost fs = str_views(source_files@);
    let mut index: StrMap<String> = StrMap::new();
    let mut i: usize = 0;
    while i < source_files.len()
        invariant
            i <= source_files@.len(),
            fs == str_views(source_files@),
            "rb"@ == rb_ext(),
            "java"@ == java_ext(),
            indexes(index, suffix_pairs(repo_root@, fs.take(i as int))),
        decreases source_files.len() - i,
    {
        let file = &source_files[i];
        proof {
            assert(fs.take(i + 1).drop_last() =~= fs.take(i as int));
            assert(fs.take(i + 1).last() == file@);
        }
        if ext_matches(file.as_str(), "rb") || ext_matches(file.as_str(), "java") {
            let relative = relative_path(file.as_str(), repo_root);
            let keys = path_suffixes(relative.as_str());
            index_suffixes(&mut index, &keys, file, Ghost(suffix_pairs(repo_root@, fs.take(i as int))));
        } else {
            proof {
                assert(suffix_pairs(repo_root@, fs.take(i + 1)) =~= suffix_pairs(repo_root@, fs.take(i as int)) + Seq::empty());
            }
        }
        i = i + 1;
    }
    proof {
        assert(fs.take(source_files@.len() as int) =~= fs);
    }
    index
}

/// Every trailing component run of each Java file's package directory,
/// mapped to the first Java file (in order) in such a directory.
pub fn build_java_package_index(repo_root: &str, source_files: &Vec<String>) -> (r: StrMap<String>)
    ensures
        indexes(r, java_package_pairs(repo_root@, str_views(source_files@))),
{
    proof {
        reveal_strlit("java");
        assert("java"@ =~= java_ext());
    }
    let ghost fs = str_views(source_files@);
    let mut index: StrMap<String> = StrMap::new();
    let mut i: usize = 0;
    while i < source_files.len()
        invariant
            i <= source_files@.len(),
            fs == str_views(source_files@),
            "java"@ == java_ext(),
            indexes(index, java_package_pairs(repo_root@, fs.take(i as int))),
        decreases source_files.len() - i,
    {
        let file = &source_files[i];
        proof {
            assert(fs.take(i + 1).drop_last() =~= fs.take(i as int));
            assert(fs.take(i + 1).last() == file@);
        }
        let mut handled = false;
        if ext_matches(file.as_str(), "java") {
            let relative = relative_path(file.as_str(), repo_root);
            match parent(relative.as_str()) {
                Some(dir) => {
                    let keys = path_suffixes(dir.as_str());
                    index_suffixes(&mut index, &keys, file, Ghost(java_package_pairs(repo_root@, fs.take(i as int))));
                    handled = true;
                },
                None => {},
            }
        }
        if !handled {
            proof {
                assert(java_package_pairs(repo_root@, fs.take(i + 1)) =~= java_package_pairs(repo_root@, fs.take(i as int)) + Seq::empty());
            }
        }
        i = i + 1;
    }
    proof {
        assert(fs.take(source_files@.len() as int) =~= fs);
    }
    index
}


// ---------------------------------------------------------------------------
// The resolution context
// ---------------------------------------------------------------------------

/// What resolution reads: the indexed source files, the suffix indexes of
/// Ruby and Java files, the workspace packages, the TypeScript configs, and
/// the Cargo manifests of crate directories.
#[derive(Debug)]
pub struct ResolveCtx {
    pub repo_root: String,
    pub source_files: StrSet,
    pub suffix_index: StrMap<String>,
    pub java_package_index: StrMap<String>,
    pub packages: Vec<PackageInfo>,
    pub package_by_name: StrMap<usize>,
    pub tsconfigs: Vec<TsConfigPath>,
    /// The `Cargo.toml` text of each crate directory that has one.
    pub cargo_manifests: StrMap<String>,
}

/// `p` is the package `m` describes.
pub open spec fn package_of(p: PackageInfo, m: PackageManifest) -> bool {
    let root = package_root_spec(m.path@);
    &&& m.name@.len() > 0
    &&& p.name@ == m.name@
    &&& p.root@ == root
    &&& str_views(p.entry_candidates@) == entry_candidates_spec(root, m)
    &&& mapping_views(p.export_mappings@) == mappings_spec(m.exports, seq!['.'])
    &&& mapping_views(p.import_mappings@) == mappings_spec(m.imports, seq!['#'])
}

/// The positions of the manifests that name a package, in order.
pub open spec fn named_manifests(ms: Seq<PackageManifest>) -> Seq<int>
    decreases ms.len(),
{
    if ms.len() == 0 {
        Seq::empty()
    } else {
        let rest = named_manifests(ms.drop_last());
        if ms.last().name@.len() > 0 {
            rest.push(ms.len() - 1)
        } else {
            rest
        }
    }
}

/// The first package named `name`.
pub open spec fn first_named(packages: Seq<PackageInfo>, name: Seq<char>, n: nat) -> Option<int>
    decreases n,
{
    if n == 0 {
        None
    } else {
        match first_named(packages, name, (n - 1) as nat) {
            Some(i) => Some(i),
            None => if packages[n - 1].name@ == name {
                Some(n - 1)
            } else {
                None
            },
        }
    }
}

/// `ctx` indexes the repository `context` with its package manifests and
/// Cargo manifests, as `ResolveCtx::new` builds it.
pub open spec fn ctx_indexes_repo(r: ResolveCtx, context: RepoContext, manifests: Seq<PackageManifest>, cargo_manifests: StrMap<String>) -> bool {
    &&& r.wf()
    &&& r.repo_root@ == context.repo_root@
    &&& r.files() == str_views(context.source_files@).map_values(|f: Seq<char>| clean(f)).to_set()
    &&& indexes(r.suffix_index, suffix_pairs(context.repo_root@, str_views(context.source_files@)))
    &&& indexes(r.java_package_index, java_package_pairs(context.repo_root@, str_views(context.source_files@)))
    &&& r.packages@.len() == named_manifests(manifests).len()
    &&& forall|i: int| 0 <= i < r.packages@.len() ==> package_of(#[trigger] r.packages@[i], manifests[named_manifests(manifests)[i]])
    &&& r.tsconfigs@.len() == context.tsconfigs@.len()
    &&& forall|i: int| 0 <= i < r.tsconfigs@.len() ==> same_config(#[trigger] r.tsconfigs@[i], context.tsconfigs@[i])
    &&& r.cargo_manifests == cargo_manifests
}

impl ResolveCtx {
    pub open spec fn wf(&self) -> bool {
        &&& self.source_files.wf()
        &&& self.suffix_index.wf()
        &&& self.java_package_index.wf()
        &&& self.cargo_manifests.wf()
        &&& self.package_by_name.wf()
        &&& forall|k: Seq<char>| #[trigger] self.package_by_name.as_map().contains_key(k) <==> first_named(
            self.packages@,
            k,
            self.packages@.len(),
        ) is Some
        &&& forall|k: Seq<char>| #[trigger] self.package_by_name.as_map().contains_key(k) ==> Some(
            self.package_by_name.as_map()[k] as int,
        ) == first_named(self.packages@, k, self.packages@.len())
        &&& forall|i: int| 0 <= i < self.tsconfigs@.len() ==> (#[trigger] self.tsconfigs@[i]).compiler_options.wf()
    }

    /// The indexed source files.
    pub open spec fn files(&self) -> Set<Seq<char>> {
        self.source_files.set()
    }

    /// Index a repository for resolution: its source files (normalised),
    /// the packages of its named manifests (first of a name wins a lookup by
    /// name), its TypeScript configs, and the Cargo manifests found by
    /// crate directory.
    pub fn new(context: &RepoContext, manifests: &Vec<PackageManifest>, cargo_manifests: StrMap<String>) -> (r: ResolveCtx)
        requires
            cargo_manifests.wf(),
            forall|i: int| 0 <= i < context.tsconfigs@.len() ==> (#[trigger] context.tsconfigs@[i]).compiler_options.wf(),
        ensures
            r.wf(),
            r.repo_root@ == context.repo_root@,
            r.files() == str_views(context.source_files@).map_values(|f: Seq<char>| clean(f)).to_set(),
            indexes(r.suffix_index, suffix_pairs(context.repo_root@, str_views(context.source_files@))),
            indexes(r.java_package_index, java_package_pairs(context.repo_root@, str_views(context.source_files@))),
            r.packages@.len() == named_manifests(manifests@).len(),
            forall|i: int| 0 <= i < r.packages@.len() ==> package_of(#[trigger] r.packages@[i], manifests@[named_manifests(manifests@)[i]]),
            r.tsconfigs@.len() == context.tsconfigs@.len(),
            forall|i: int| 0 <= i < r.tsconfigs@.len() ==> same_config(#[trigger] r.tsconfigs@[i], context.tsconfigs@[i]),
            r.cargo_manifests == cargo_manifests,
    {
        let ghost ms = manifests@;
        let mut packages: Vec<PackageInfo> = Vec::new();
        let mut i: usize = 0;
        while i < manifests.len()
            invariant
                i <= manifests@.len(),
                ms == manifests@,
                packages@.len() == named_manifests(ms.take(i as int)).len(),
                forall|j: int| 0 <= j < packages@.len() ==> named_manifests(ms.take(i as int))[j] < i,
                forall|j: int| 0 <= j < packages@.len() ==> package_of(#[trigger] packages@[j], ms[named_manifests(ms.take(i as int))[j]]),
            decreases manifests.len() - i,
        {
            proof {
                assert(ms.take(i + 1).drop_last() =~= ms.take(i as int));
                assert(ms.take(i + 1).last() == ms[i as int]);
                lemma_named_manifests_bound(ms.take(i as int));
            }
            match load_package_info(&manifests[i]) {
                Some(package) => {
                    packages.push(package);
                },
                None => {},
            }
            proof {
                lemma_named_manifests_bound(ms.take(i + 1));
            }
            i = i + 1;
        }
        proof {
            assert(ms.take(manifests@.len() as int) =~= ms);
        }
        let mut package_by_name: StrMap<usize> = StrMap::new();
        let mut j: usize = 0;
        while j < packages.len()
            invariant
                j <= packages@.len(),
                package_by_name.wf(),
                forall|k: Seq<char>| #[trigger] package_by_name.as_map().contains_key(k) <==> first_named(packages@, k, j as nat) is Some,
                forall|k: Seq<char>| #[trigger] package_by_name.as_map().contains_key(k) ==> Some(package_by_name.as_map()[k] as int)
                    == first_named(packages@, k, j as nat),
            decreases packages.len() - j,
        {
            let name = &packages[j].name;
            if package_by_name.find(name.as_str()).is_none() {
                let ghost old_map = package_by_name.as_map();
                proof {
                    assert(!old_map.contains_key(name@));
                }
                package_by_name.set(name.clone(), j);
                proof {
                    assert forall|k: Seq<char>| #[trigger] package_by_name.as_map().contains_key(k) <==> first_named(packages@, k, (j + 1) as nat) is Some by {
                        assert(old_map.contains_key(k) <==> first_named(packages@, k, j as nat) is Some);
                    }
                    assert forall|k: Seq<char>| #[trigger] package_by_name.as_map().contains_key(k) implies Some(package_by_name.as_map()[k] as int)
                        == first_named(packages@, k, (j + 1) as nat) by {
                        if k != name@ {
                            assert(old_map.contains_key(k));
                        }
                    }
                }
            } else {
                proof {
                    assert(package_by_name.as_map().contains_key(name@));
                    assert forall|k: Seq<char>| #[trigger] package_by_name.as_map().contains_key(k) <==> first_named(packages@, k, (j + 1) as nat) is Some by {
                        assert(package_by_name.as_map().contains_key(k) <==> first_named(packages@, k, j as nat) is Some);
                    }
                    assert forall|k: Seq<char>| #[trigger] package_by_name.as_map().contains_key(k) implies Some(package_by_name.as_map()[k] as int)
                        == first_named(packages@, k, (j + 1) as nat) by {
                        assert(Some(package_by_name.as_map()[k] as int) == first_named(packages@, k, j as nat));
                    }
                }
            }
            j = j + 1;
        }
        let mut source_files = StrSet::new();
        let ghost fs = str_views(context.source_files@);
        let mut f: usize = 0;
        while f < context.source_files.len()
            invariant
                f <= context.source_files@.len(),
                fs == str_views(context.source_files@),
                source_files.wf(),
                source_files.set() == fs.take(f as int).map_values(|x: Seq<char>| clean(x)).to_set(),
            decreases context.source_files.len() - f,
        {
            source_files.insert(clean_path(context.source_files[f].as_str()));
            proof {
                let m = fs.take(f as int).map_values(|x: Seq<char>| clean(x));
                assert(fs.take(f + 1).map_values(|x: Seq<char>| clean(x)) =~= m.push(clean(fs[f as int])));
                m.lemma_push_to_set_commute(clean(fs[f as int]));
            }
            f = f + 1;
        }
        proof {
            assert(fs.take(context.source_files@.len() as int) =~= fs);
            assert(Seq::<Seq<char>>::empty().to_set() =~= Set::<Seq<char>>::empty());
        }
        let mut tsconfigs: Vec<TsConfigPath> = Vec::new();
        let mut t: usize = 0;
        while t < context.tsconfigs.len()
            invariant
                t <= context.tsconfigs@.len(),
                tsconfigs@.len() == t,
                forall|x: int| 0 <= x < context.tsconfigs@.len() ==> (#[trigger] context.tsconfigs@[x]).compiler_options.wf(),
                forall|x: int| 0 <= x < t ==> same_config(#[trigger] tsconfigs@[x], context.tsconfigs@[x]),
                forall|x: int| 0 <= x < t ==> (#[trigger] tsconfigs@[x]).compiler_options.wf(),
            decreases context.tsconfigs.len() - t,
        {
            tsconfigs.push(context.tsconfigs[t].copy());
            t = t + 1;
        }
        let suffix_index = build_suffix_index(context.repo_root.as_str(), &context.source_files);
        let java_package_index = build_java_package_index(context.repo_root.as_str(), &context.source_files);
        ResolveCtx {
            repo_root: context.repo_root.clone(),
            source_files,
            suffix_index,
            java_package_index,
            packages,
            package_by_name,
            tsconfigs,
            cargo_manifests,
        }
    }
}

pub proof fn lemma_named_manifests_bound(ms: Seq<PackageManifest>)
    ensures
        forall|j: int| 0 <= j < named_manifests(ms).len() ==> 0 <= #[trigger] named_manifests(ms)[j] < ms.len(),
    decreases ms.len(),
{
    if ms.len() > 0 {
        lemma_named_manifests_bound(ms.drop_last());
        let rest = named_manifests(ms.drop_last());
        assert forall|j: int| 0 <= j < named_manifests(ms).len() implies 0 <= #[trigger] named_manifests(ms)[j] < ms.len() by {
            if j < rest.len() {
                assert(named_manifests(ms)[j] == rest[j]);
            }
        }
    }
}


/// `s` without its leading `c`s.
pub open spec fn trim_leading(s: Seq<char>, c: char) -> Seq<char>
    decreases s.len(),
{
    if s.len() > 0 && s[0] == c {
        trim_leading(s.skip(1), c)
    } else {
        s
    }
}

/// The path a relative or absolute specifier names: absolute ones are
/// rooted at the repository, relative ones at `base`.
pub open spec fn specifier_path(root: Seq<char>, base: Seq<char>, specifier: Seq<char>) -> Seq<char> {
    if specifier.len() > 0 && specifier[0] == '/' {
        join_clean_spec(root, trim_leading(specifier, '/'))
    } else {
        join_clean_spec(base, specifier)
    }
}

pub open spec fn resolve_path_spec(files: Set<Seq<char>>, root: Seq<char>, base: Seq<char>, specifier: Seq<char>, exts: Seq<Seq<char>>) -> Option<Seq<char>> {
    try_candidate_spec(files, specifier_path(root, base, specifier), exts)
}

pub fn trim_leading_char(s: &str, c: char) -> (r: String)
    ensures
        r@ == trim_leading(s@, c),
{
    let v = crate::text::chars_of(s);
    let mut i: usize = 0;
    proof {
        assert(v@.skip(0) =~= v@);
    }
    while i < v.len() && v[i] == c
        invariant
            i <= v@.len(),
            v@ == s@,
            trim_leading(s@, c) == trim_leading(v@.skip(i as int), c),
        decreases v.len() - i,
    {
        proof {
            assert(v@.skip(i as int).skip(1) =~= v@.skip(i + 1));
        }
        i = i + 1;
    }
    proof {
        assert(v@.subrange(i as int, v@.len() as int) =~= v@.skip(i as int));
    }
    crate::text::sub_string(v.as_slice(), i, v.len())
}

impl Resolution {
    /// An independent copy.
    pub fn copy(&self) -> (r: Resolution)
        ensures
            r.path() == self.path(),
    {
        match self {
            Resolution::Resolved(p) => Resolution::Resolved(p.clone()),
            Resolution::Unresolved => Resolution::Unresolved,
        }
    }

    pub fn from_option(p: Option<String>) -> (r: Resolution)
        ensures
            r.path() == opt_str(p),
    {
        match p {
            Some(p) => Resolution::Resolved(p),
            None => Resolution::Unresolved,
        }
    }
}

impl ResolveCtx {
    /// Map a path candidate to a concrete source file: the candidate itself
    /// when it is a source file of the caller's language family, else the
    /// first of its probes that exists.
    pub fn try_resolve_candidate(&self, candidate: &str, extensions: &Vec<String>) -> (r: Option<String>)
        requires
            self.wf(),
        ensures
            opt_str(r) == try_candidate_spec(self.files(), candidate@, str_views(extensions@)),
    {
        let c = clean_path(candidate);
        if self.source_files.contains(c.as_str()) {
            // An exact hit still has to be in the caller's language family.
            let cross_language = match extension(c.as_str()) {
                Some(ext) => !contains_str(extensions, ext.as_str()),
                None => false,
            };
            if !cross_language {
                return Some(c);
            }
        }
        let probes = probe_list(c.as_str(), extensions);
        first_existing(&self.source_files, &probes)
    }

    /// Resolve a relative or absolute path specifier against `base`.
    pub fn resolve_path(&self, base: &str, specifier: &str, extensions: &Vec<String>) -> (r: Resolution)
        requires
            self.wf(),
        ensures
            r.path() == resolve_path_spec(self.files(), self.repo_root@, base@, specifier@, str_views(extensions@)),
    {
        let path = if str_starts_with_char(specifier, '/') {
            let trimmed = trim_leading_char(specifier, '/');
            join_clean(self.repo_root.as_str(), trimmed.as_str())
        } else {
            join_clean(base, specifier)
        };
        Resolution::from_option(self.try_resolve_candidate(path.as_str(), extensions))
    }

    /// The path an importer is known by: its normalised form when that is
    /// indexed, else its canonical form when it has one.
    pub fn normalize_importer(&self, importer: &str, canonical: Option<String>) -> (r: String)
        requires
            self.wf(),
        ensures
            r@ == if self.files().contains(clean(importer@)) {
                clean(importer@)
            } else {
                match canonical {
                    Some(c) => c@,
                    None => clean(importer@),
                }
            },
    {
        let cleaned = clean_path(importer);
        if self.source_files.contains(cleaned.as_str()) {
            return cleaned;
        }
        match canonical {
            Some(c) => c,
            None => cleaned,
        }
    }

    /// The first of `candidates` that some source file stands for.
    pub fn first_resolved_exec(&self, candidates: &Vec<String>, extensions: &Vec<String>) -> (r: Option<String>)
        requires
            self.wf(),
        ensures
            opt_str(r) == first_resolved(self.files(), str_views(candidates@), str_views(extensions@)),
    {
        let ghost cs = str_views(candidates@);
        let mut i: usize = 0;
        proof {
            assert(cs.subrange(0, cs.len() as int) =~= cs);
        }
        while i < candidates.len()
            invariant
                self.wf(),
                i <= candidates@.len(),
                cs == str_views(candidates@),
                first_resolved(self.files(), cs, str_views(extensions@)) == first_resolved(
                    self.files(),
                    cs.subrange(i as int, cs.len() as int),
                    str_views(extensions@),
                ),
            decreases candidates.len() - i,
        {
            let ghost rest = cs.subrange(i as int, cs.len() as int);
            proof {
                assert(rest[0] == candidates@[i as int]@);
                assert(rest.subrange(1, rest.len() as int) =~= cs.subrange(i + 1, cs.len() as int));
            }
            match self.try_resolve_candidate(candidates[i].as_str(), extensions) {
                Some(p) => {
                    return Some(p);
                },
                None => {},
            }
            i = i + 1;
        }
        None
    }
}

} // verus!
