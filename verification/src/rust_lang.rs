//! Rust `use`/`mod` resolution: module files under crate roots, `self` and
//! `super` paths relative to the importing module, and sibling workspace
//! crates by their Cargo package name.
use vstd::prelude::*;

use crate::collections::{opt_str, str_views, StrSet};
use crate::paths::{
    components, file_name, file_name_spec, file_stem, join_clean, join_clean_spec, parent, parent_spec, path_starts_with,
    starts_with_path, component_count, stem_spec,
};
use crate::resolve::{try_candidate_spec, ResolveCtx};
use crate::text::{
    chars_of, contains_seq, first_occurrence, join, join_strings, owned, replace_all_char, replace_char, starts_with, str_eq,
    str_starts_with, string_of, sub_chars, sub_string, find_chars,
};

verus! {

// ---------------------------------------------------------------------------
// Cargo manifests
// ---------------------------------------------------------------------------

/// The `[package] name` of a Cargo manifest, as the `toml` crate reads it
/// (`None` when the text is not a TOML document or has no string name).
pub uninterp spec fn spec_cargo_package_name(manifest: Seq<char>) -> Option<Seq<char>>;

/// Calls `toml`'s document parser (`str::parse::<toml::Table>`) and reads
/// `package.name` as a string. The contract only names the result: it is a
/// function of the manifest text.
#[verifier::external_body]
fn cargo_package_name(manifest: &str) -> (r: Option<String>)
    ensures
        opt_str(r) == spec_cargo_package_name(manifest@),
{
    let table: toml::Table = manifest.parse().ok()?;
    Some(table.get("package")?.get("name")?.as_str()?.to_string())
}

// ---------------------------------------------------------------------------
// Paths of modules
// ---------------------------------------------------------------------------

pub open spec fn rs_extensions() -> Seq<Seq<char>> {
    seq![seq!['r', 's']]
}

pub open spec fn mod_rs() -> Seq<char> {
    seq!['m', 'o', 'd', '.', 'r', 's']
}

pub open spec fn lib_rs() -> Seq<char> {
    seq!['l', 'i', 'b', '.', 'r', 's']
}

pub open spec fn main_rs() -> Seq<char> {
    seq!['m', 'a', 'i', 'n', '.', 'r', 's']
}

/// A module path candidate: the module file, else its `mod.rs`.
pub open spec fn rust_module_spec(files: Set<Seq<char>>, cand: Seq<char>) -> Option<Seq<char>> {
    match try_candidate_spec(files, cand, rs_extensions()) {
        Some(p) => Some(p),
        None => {
            let m = join_clean_spec(cand, mod_rs());
            if files.contains(m) {
                Some(m)
            } else {
                None
            }
        },
    }
}

/// The directory a module's child modules live in: a crate root or
/// `mod.rs` owns its directory, any other file the directory named after it.
pub open spec fn child_module_base(importer: Seq<char>) -> Seq<char> {
    let dir = match parent_spec(importer) {
        Some(p) => p,
        None => Seq::empty(),
    };
    match file_name_spec(importer) {
        Some(n) => if n == lib_rs() || n == main_rs() || n == mod_rs() {
            dir
        } else {
            join_clean_spec(
                dir,
                match stem_spec(importer) {
                    Some(s) => s,
                    None => Seq::empty(),
                },
            )
        },
        None => join_clean_spec(dir, Seq::empty()),
    }
}

/// The directory of the module's parent.
pub open spec fn parent_module_base(importer: Seq<char>) -> Seq<char> {
    let c = child_module_base(importer);
    match parent_spec(c) {
        Some(p) => p,
        None => c,
    }
}

fn rs_extension_list() -> (r: Vec<String>)
    ensures
        str_views(r@) == rs_extensions(),
{
    proof {
        reveal_strlit("rs");
        assert("rs"@ =~= seq!['r', 's']);
    }
    let r = vec![owned("rs")];
    proof {
        assert(str_views(r@) =~= rs_extensions());
    }
    r
}

fn try_resolve_rust_module_candidate(ctx: &ResolveCtx, candidate: &str) -> (r: Option<String>)
    requires
        ctx.wf(),
    ensures
        opt_str(r) == rust_module_spec(ctx.files(), candidate@),
{
    let exts = rs_extension_list();
    if let Some(path) = ctx.try_resolve_candidate(candidate, &exts) {
        return Some(path);
    }
    proof {
        reveal_strlit("mod.rs");
        assert("mod.rs"@ =~= mod_rs());
    }
    let mod_file = join_clean(candidate, "mod.rs");
    if ctx.source_files.contains(mod_file.as_str()) {
        return Some(mod_file);
    }
    None
}

pub fn rust_child_module_base(importer: &str) -> (r: String)
    ensures
        r@ == child_module_base(importer@),
{
    proof {
        reveal_strlit("lib.rs");
        reveal_strlit("main.rs");
        reveal_strlit("mod.rs");
        reveal_strlit("");
        assert("lib.rs"@ =~= lib_rs());
        assert("main.rs"@ =~= main_rs());
        assert("mod.rs"@ =~= mod_rs());
        assert(""@ =~= Seq::<char>::empty());
    }
    let dir = match parent(importer) {
        Some(p) => p,
        None => owned(""),
    };
    match file_name(importer) {
        Some(n) => {
            if str_eq(n.as_str(), "lib.rs") || str_eq(n.as_str(), "main.rs") || str_eq(n.as_str(), "mod.rs") {
                dir
            } else {
                let stem = match file_stem(importer) {
                    Some(s) => s,
                    None => owned(""),
                };
                join_clean(dir.as_str(), stem.as_str())
            }
        },
        None => join_clean(dir.as_str(), ""),
    }
}

pub fn rust_parent_module_base(importer: &str) -> (r: String)
    ensures
        r@ == parent_module_base(importer@),
{
    let c = rust_child_module_base(importer);
    match parent(c.as_str()) {
        Some(p) => p,
        None => c,
    }
}

// ---------------------------------------------------------------------------
// Crate roots
// ---------------------------------------------------------------------------

/// The directories holding a `lib.rs` or `main.rs` among `files`.
pub open spec fn crate_root_set(files: Set<Seq<char>>) -> Set<Seq<char>> {
    Set::new(
        |d: Seq<char>|
            exists|f: Seq<char>|
                #[trigger] files.contains(f) && (file_name_spec(f) == Some(lib_rs()) || file_name_spec(f) == Some(main_rs()))
                    && parent_spec(f) == Some(d),
    )
}

/// The crate roots, in ascending order: the directories of the `lib.rs`
/// and `main.rs` files, or the repository root when there are none.
pub open spec fn crate_roots_ok(ctx: ResolveCtx, roots: Seq<Seq<char>>) -> bool {
    if crate_root_set(ctx.files()).is_empty() {
        roots == seq![ctx.repo_root@]
    } else {
        crate::collections::sorted(roots) && roots.to_set() == crate_root_set(ctx.files())
    }
}

/// The crate roots, in ascending order.
pub open spec fn crate_roots_spec(ctx: ResolveCtx) -> Seq<Seq<char>> {
    choose|roots: Seq<Seq<char>>| crate_roots_ok(ctx, roots)
}

pub proof fn lemma_crate_roots(ctx: ResolveCtx, roots: Seq<Seq<char>>)
    requires
        crate_roots_ok(ctx, roots),
    ensures
        crate_roots_spec(ctx) == roots,
{
    let c = crate_roots_spec(ctx);
    assert(crate_roots_ok(ctx, c));
    if !crate_root_set(ctx.files()).is_empty() {
        crate::collections::lemma_sorted_unique(c, roots);
    }
}

pub fn rust_crate_roots(ctx: &ResolveCtx) -> (r: Vec<String>)
    requires
        ctx.wf(),
    ensures
        str_views(r@) == crate_roots_spec(*ctx),
{
    let r = rust_crate_roots_listed(ctx);
    proof {
        lemma_crate_roots(*ctx, str_views(r@));
    }
    r
}

fn rust_crate_roots_listed(ctx: &ResolveCtx) -> (r: Vec<String>)
    requires
        ctx.wf(),
    ensures
        crate_roots_ok(*ctx, str_views(r@)),
{
    proof {
        reveal_strlit("lib.rs");
        reveal_strlit("main.rs");
        assert("lib.rs"@ =~= lib_rs());
        assert("main.rs"@ =~= main_rs());
    }
    let ghost files = ctx.files();
    let mut roots = StrSet::new();
    let mut i: usize = 0;
    while i < ctx.source_files.len()
        invariant
            ctx.wf(),
            files == ctx.files(),
            i <= ctx.source_files@.len(),
            roots.wf(),
            "lib.rs"@ == lib_rs(),
            "main.rs"@ == main_rs(),
            forall|d: Seq<char>| #[trigger] roots.set().contains(d) ==> crate_root_set(files).contains(d),
            forall|j: int|
                0 <= j < i ==> {
                    let f = #[trigger] ctx.source_files@[j];
                    (file_name_spec(f) == Some(lib_rs()) || file_name_spec(f) == Some(main_rs())) ==> match parent_spec(f) {
                        Some(d) => roots.set().contains(d),
                        None => true,
                    }
                },
        decreases ctx.source_files@.len() - i,
    {
        let file = ctx.source_files.get(i);
        proof {
            assert(files.contains(ctx.source_files@[i as int]));
        }
        match file_name(file.as_str()) {
            Some(name) => {
                if str_eq(name.as_str(), "lib.rs") || str_eq(name.as_str(), "main.rs") {
                    match parent(file.as_str()) {
                        Some(p) => {
                            roots.insert(p);
                        },
                        None => {},
                    }
                }
            },
            None => {},
        }
        i = i + 1;
    }
    proof {
        assert forall|d: Seq<char>| crate_root_set(files).contains(d) implies #[trigger] roots.set().contains(d) by {
            let f = choose|f: Seq<char>|
                #[trigger] files.contains(f) && (file_name_spec(f) == Some(lib_rs()) || file_name_spec(f) == Some(main_rs()))
                    && parent_spec(f) == Some(d);
            let j = choose|j: int| 0 <= j < ctx.source_files@.len() && ctx.source_files@[j] == f;
            assert(ctx.source_files@[j] == f);
        }
        assert(roots.set() =~= crate_root_set(files));
    }
    if roots.is_empty() {
        proof {
            lemma_empty_view(roots@);
            assert(crate_root_set(files) =~= Set::<Seq<char>>::empty());
        }
        let r = vec![ctx.repo_root.clone()];
        proof {
            assert(str_views(r@) =~= seq![ctx.repo_root@]);
        }
        return r;
    }
    let r = roots.to_vec();
    proof {
        assert(str_views(r@) == roots@);
        if crate_root_set(files).is_empty() {
            assert(roots@.to_set().contains(roots@[0]));
        }
    }
    r
}

proof fn lemma_empty_view(s: Seq<Seq<char>>)
    requires
        s.len() == 0,
    ensures
        s.to_set().is_empty(),
{
    assert(s.to_set() =~= Set::<Seq<char>>::empty());
}

/// Among the first `n` roots, the deepest (most components, last of
/// equals) enclosing `importer`.
pub open spec fn deepest_root(roots: Seq<Seq<char>>, importer: Seq<char>, n: nat) -> Option<int>
    decreases n,
{
    if n == 0 {
        None
    } else {
        let prev = deepest_root(roots, importer, (n - 1) as nat);
        let i = n - 1;
        if path_starts_with(importer, roots[i]) {
            match prev {
                None => Some(i),
                Some(j) => if components(roots[i]).len() >= components(roots[j]).len() {
                    Some(i)
                } else {
                    Some(j)
                },
            }
        } else {
            prev
        }
    }
}

/// The crate roots an import in `importer` resolves against: its own
/// crate's root when one encloses it, else every root.
pub open spec fn roots_for(roots: Seq<Seq<char>>, importer: Seq<char>) -> Seq<Seq<char>> {
    match deepest_root(roots, importer, roots.len()) {
        Some(i) => seq![roots[i]],
        None => roots,
    }
}

pub fn crate_roots_for(ctx: &ResolveCtx, importer: &str) -> (r: Vec<String>)
    requires
        ctx.wf(),
    ensures
        str_views(r@) == roots_for(crate_roots_spec(*ctx), importer@),
{
    let roots = rust_crate_roots(ctx);
    let ghost rs = str_views(roots@);
    let mut best: Option<usize> = None;
    let mut best_count: usize = 0;
    let mut i: usize = 0;
    while i < roots.len()
        invariant
            i <= roots@.len(),
            rs == str_views(roots@),
            match best {
                Some(j) => j < i && deepest_root(rs, importer@, i as nat) == Some(j as int) && best_count == components(rs[j as int]).len(),
                None => deepest_root(rs, importer@, i as nat) is None,
            },
        decreases roots.len() - i,
    {
        if starts_with_path(importer, roots[i].as_str()) {
            let count = component_count(roots[i].as_str());
            match best {
                None => {
                    best = Some(i);
                    best_count = count;
                },
                Some(_) => {
                    if count >= best_count {
                        best = Some(i);
                        best_count = count;
                    }
                },
            }
        }
        i = i + 1;
    }
    match best {
        Some(j) => {
            let r = vec![roots[j].clone()];
            proof {
                assert(str_views(r@) =~= roots_for(rs, importer@));
            }
            r
        },
        None => roots,
    }
}


// ---------------------------------------------------------------------------
// `::` paths
// ---------------------------------------------------------------------------

/// The pieces of `s` between `::` separators, matched left to right.
pub open spec fn split_path(s: Seq<char>) -> Seq<Seq<char>>
    decreases s.len(),
{
    if s.len() < 2 {
        seq![s]
    } else if s[0] == ':' && s[1] == ':' {
        seq![Seq::<char>::empty()] + split_path(s.skip(2))
    } else {
        let rest = split_path(s.skip(1));
        rest.update(0, seq![s[0]] + rest[0])
    }
}

pub proof fn lemma_split_path_nonempty(s: Seq<char>)
    ensures
        split_path(s).len() >= 1,
    decreases s.len(),
{
    if s.len() >= 2 {
        if s[0] == ':' && s[1] == ':' {
            lemma_split_path_nonempty(s.skip(2));
        } else {
            lemma_split_path_nonempty(s.skip(1));
        }
    }
}

/// `cur` glued onto the first of `ps`.
pub open spec fn glue(cur: Seq<char>, ps: Seq<Seq<char>>) -> Seq<Seq<char>> {
    seq![cur + ps[0]] + ps.skip(1)
}

/// The non-empty pieces, in order.
pub open spec fn nonempty_pieces(ps: Seq<Seq<char>>) -> Seq<Seq<char>>
    decreases ps.len(),
{
    if ps.len() == 0 {
        Seq::empty()
    } else {
        let rest = nonempty_pieces(ps.drop_last());
        if ps.last().len() > 0 { rest.push(ps.last()) } else { rest }
    }
}

/// The segments of a Rust path (`a::b::c`).
pub open spec fn path_parts(s: Seq<char>) -> Seq<Seq<char>> {
    nonempty_pieces(split_path(s))
}

pub fn split_path_exec(s: &str) -> (r: Vec<String>)
    ensures
        str_views(r@) == split_path(s@),
{
    let v = chars_of(s);
    let mut done: Vec<String> = Vec::new();
    let mut cur: Vec<char> = Vec::new();
    let mut i: usize = 0;
    proof {
        lemma_split_path_nonempty(s@);
        assert(v@.skip(0) =~= v@);
        assert(glue(cur@, split_path(s@)) =~= split_path(s@));
        assert(str_views(done@) + glue(cur@, split_path(v@.skip(0))) =~= split_path(s@));
    }
    while i < v.len()
        invariant
            i <= v@.len(),
            v@ == s@,
            str_views(done@) + glue(cur@, split_path(v@.skip(i as int))) == split_path(s@),
        decreases v.len() - i,
    {
        let ghost t = v@.skip(i as int);
        proof {
            lemma_split_path_nonempty(t);
        }
        if i + 1 < v.len() && v[i] == ':' && v[i + 1] == ':' {
            let ghost before = str_views(done@);
            let ghost c0 = cur@;
            proof {
                assert(t.skip(2) =~= v@.skip(i + 2));
                lemma_split_path_nonempty(t.skip(2));
                let x = split_path(t.skip(2));
                assert(split_path(t) == seq![Seq::<char>::empty()] + x);
                assert(glue(c0, split_path(t)) =~= seq![c0] + glue(Seq::<char>::empty(), x));
                assert(glue(Seq::<char>::empty(), x) =~= x);
            }
            done.push(string_of(cur.as_slice()));
            cur = Vec::new();
            proof {
                assert(str_views(done@) =~= before.push(c0));
                assert(glue(cur@, split_path(v@.skip(i + 2))) =~= split_path(v@.skip(i + 2)));
            }
            i = i + 2;
        } else {
            let ghost c0 = cur@;
            proof {
                assert(t.skip(1) =~= v@.skip(i + 1));
                lemma_split_path_nonempty(t.skip(1));
                let rest = split_path(t.skip(1));
                if t.len() >= 2 {
                    assert(split_path(t) == rest.update(0, seq![t[0]] + rest[0]));
                } else {
                    assert(t.skip(1) =~= Seq::<char>::empty());
                    assert(rest =~= seq![Seq::<char>::empty()]);
                    assert(t =~= seq![t[0]]);
                    assert(seq![t[0]] + rest[0] =~= seq![t[0]]);
                    assert(split_path(t) =~= rest.update(0, seq![t[0]] + rest[0]));
                }
                let u = rest.update(0, seq![t[0]] + rest[0]);
                assert(u[0] == seq![t[0]] + rest[0]);
                assert(u.skip(1) =~= rest.skip(1));
                assert(c0 + (seq![t[0]] + rest[0]) =~= c0.push(t[0]) + rest[0]);
                assert(glue(c0, split_path(t)) =~= glue(c0.push(t[0]), rest));
            }
            cur.push(v[i]);
            i = i + 1;
        }
    }
    proof {
        assert(v@.skip(i as int) =~= Seq::<char>::empty());
        assert(glue(cur@, split_path(Seq::<char>::empty())) =~= seq![cur@]);
    }
    let ghost before = str_views(done@);
    done.push(string_of(cur.as_slice()));
    proof {
        assert(str_views(done@) =~= before + seq![cur@]);
    }
    done
}

/// The segments of a Rust path, empty pieces dropped.
pub fn path_parts_exec(s: &str) -> (r: Vec<String>)
    ensures
        str_views(r@) == path_parts(s@),
{
    let pieces = split_path_exec(s);
    let ghost ps = str_views(pieces@);
    let mut out: Vec<String> = Vec::new();
    let mut i: usize = 0;
    while i < pieces.len()
        invariant
            i <= pieces@.len(),
            ps == str_views(pieces@),
            str_views(out@) == nonempty_pieces(ps.take(i as int)),
        decreases pieces.len() - i,
    {
        proof {
            assert(ps.take(i + 1).drop_last() =~= ps.take(i as int));
            assert(ps.take(i + 1).last() == pieces@[i as int]@);
        }
        if chars_of(pieces[i].as_str()).len() > 0 {
            let ghost before = str_views(out@);
            out.push(pieces[i].clone());
            proof {
                assert(str_views(out@) =~= before.push(pieces@[i as int]@));
            }
        }
        i = i + 1;
    }
    proof {
        assert(ps.take(pieces@.len() as int) =~= ps);
    }
    out
}


// ---------------------------------------------------------------------------
// Resolution
// ---------------------------------------------------------------------------

pub open spec fn slash() -> Seq<char> {
    seq!['/']
}

/// The first candidate that is a module.
pub open spec fn first_module(files: Set<Seq<char>>, cands: Seq<Seq<char>>) -> Option<Seq<char>>
    decreases cands.len(),
{
    if cands.len() == 0 {
        None
    } else {
        match rust_module_spec(files, cands[0]) {
            Some(p) => Some(p),
            None => first_module(files, cands.subrange(1, cands.len() as int)),
        }
    }
}

/// The module the path `parts` names under each root, in order.
pub open spec fn under_roots(roots: Seq<Seq<char>>, parts: Seq<Seq<char>>) -> Seq<Seq<char>> {
    roots.map_values(|r: Seq<char>| join_clean_spec(r, join(parts, slash())))
}

/// A path resolved from the importer's crate root (or, outside any crate,
/// from every crate root in turn).
pub open spec fn from_crate_roots_spec(ctx: ResolveCtx, importer: Seq<char>, parts: Seq<Seq<char>>) -> Option<Seq<char>> {
    if parts.len() == 0 {
        None
    } else {
        first_module(ctx.files(), under_roots(roots_for(crate_roots_spec(ctx), importer), parts))
    }
}

pub open spec fn super_word() -> Seq<char> {
    seq!['s', 'u', 'p', 'e', 'r']
}

/// `base` walked along `parts`: `super` climbs, anything else descends.
pub open spec fn walk_parts(base: Seq<char>, parts: Seq<Seq<char>>) -> Seq<char>
    decreases parts.len(),
{
    if parts.len() == 0 {
        base
    } else {
        let next = if parts[0] == super_word() {
            match parent_spec(base) {
                Some(p) => p,
                None => base,
            }
        } else {
            join_clean_spec(base, parts[0])
        };
        walk_parts(next, parts.skip(1))
    }
}

/// The crate root of the workspace crate whose Cargo package is `name`
/// (hyphens read as underscores): the first root, in order, whose package
/// directory lies in the repository and has a manifest naming it.
pub open spec fn workspace_root_spec(ctx: ResolveCtx, name: Seq<char>) -> Option<Seq<char>> {
    workspace_root_among(ctx, crate_roots_spec(ctx), name)
}

pub open spec fn names_crate(ctx: ResolveCtx, root: Seq<char>, name: Seq<char>) -> bool {
    match parent_spec(root) {
        None => false,
        Some(dir) => path_starts_with(dir, ctx.repo_root@) && ctx.cargo_manifests.as_map().contains_key(dir) && match spec_cargo_package_name(
            ctx.cargo_manifests.as_map()[dir]@,
        ) {
            Some(n) => replace_char(n, '-', seq!['_']) == name,
            None => false,
        },
    }
}

pub open spec fn workspace_root_among(ctx: ResolveCtx, roots: Seq<Seq<char>>, name: Seq<char>) -> Option<Seq<char>>
    decreases roots.len(),
{
    if roots.len() == 0 {
        None
    } else if names_crate(ctx, roots[0], name) {
        Some(roots[0])
    } else {
        workspace_root_among(ctx, roots.subrange(1, roots.len() as int), name)
    }
}

/// `use other_crate::...` resolved into a sibling workspace crate: the bare
/// crate to its entry point, a path to its module.
pub open spec fn workspace_import_spec(ctx: ResolveCtx, head: Seq<char>, rest: Seq<Seq<char>>) -> Option<Seq<char>> {
    match workspace_root_spec(ctx, head) {
        None => None,
        Some(root) => if rest.len() == 0 {
            let l = join_clean_spec(root, lib_rs());
            let m = join_clean_spec(root, main_rs());
            if ctx.files().contains(l) {
                Some(l)
            } else if ctx.files().contains(m) {
                Some(m)
            } else {
                None
            }
        } else {
            rust_module_spec(ctx.files(), join_clean_spec(root, join(rest, slash())))
        },
    }
}

pub open spec fn mod_prefix() -> Seq<char> {
    seq!['m', 'o', 'd', ':']
}

/// Where a Rust `use` or `mod` resolves: `mod:` declarations to the child
/// module file; `crate::` from the crate root; `self::` and `super::` from
/// the module's own and parent directories; other paths from the crate
/// root, then as a child module, then as a sibling workspace crate.
pub open spec fn rust_import_spec(ctx: ResolveCtx, importer: Seq<char>, specifier: Seq<char>) -> Option<Seq<char>> {
    let files = ctx.files();
    if starts_with(specifier, mod_prefix()) {
        rust_module_spec(files, join_clean_spec(child_module_base(importer), specifier.skip(4)))
    } else {
        let parts = path_parts(specifier);
        if parts.len() == 0 {
            None
        } else {
            let head = parts[0];
            let rest = parts.skip(1);
            if head == seq!['c', 'r', 'a', 't', 'e'] {
                from_crate_roots_spec(ctx, importer, rest)
            } else if head == seq!['s', 'e', 'l', 'f'] {
                rust_module_spec(files, join_clean_spec(child_module_base(importer), join(rest, slash())))
            } else if head == super_word() {
                rust_module_spec(files, walk_parts(parent_module_base(importer), rest))
            } else {
                match from_crate_roots_spec(ctx, importer, parts) {
                    Some(p) => Some(p),
                    None => match rust_module_spec(files, join_clean_spec(child_module_base(importer), join(parts, slash()))) {
                        Some(p) => Some(p),
                        None => workspace_import_spec(ctx, head, rest),
                    },
                }
            }
        }
    }
}

fn tail_strings(v: &Vec<String>, start: usize) -> (r: Vec<String>)
    requires
        start <= v@.len(),
    ensures
        str_views(r@) == str_views(v@).skip(start as int),
{
    let mut out: Vec<String> = Vec::new();
    let mut i: usize = start;
    while i < v.len()
        invariant
            start <= i <= v@.len(),
            str_views(out@) == str_views(v@).subrange(start as int, i as int),
        decreases v.len() - i,
    {
        let ghost before = str_views(out@);
        out.push(v[i].clone());
        proof {
            assert(str_views(out@) =~= before.push(v@[i as int]@));
            assert(str_views(v@).subrange(start as int, i + 1) =~= str_views(v@).subrange(start as int, i as int).push(v@[i as int]@));
        }
        i = i + 1;
    }
    proof {
        assert(str_views(v@).subrange(start as int, v@.len() as int) =~= str_views(v@).skip(start as int));
    }
    out
}

fn joined(parts: &Vec<String>) -> (r: String)
    ensures
        r@ == join(str_views(parts@), slash()),
{
    proof {
        reveal_strlit("/");
        assert("/"@ =~= slash());
    }
    join_strings(parts, "/")
}

pub fn resolve_rust_from_crate_roots(ctx: &ResolveCtx, importer: &str, parts: &Vec<String>) -> (r: Option<String>)
    requires
        ctx.wf(),
    ensures
        opt_str(r) == from_crate_roots_spec(*ctx, importer@, str_views(parts@)),
{
    if parts.len() == 0 {
        return None;
    }
    let roots = crate_roots_for(ctx, importer);
    let ghost rs = str_views(roots@);
    let path = joined(parts);
    let ghost cands = under_roots(rs, str_views(parts@));
    let mut i: usize = 0;
    proof {
        assert(cands.subrange(0, cands.len() as int) =~= cands);
    }
    while i < roots.len()
        invariant
            ctx.wf(),
            i <= roots@.len(),
            rs == str_views(roots@),
            rs == roots_for(crate_roots_spec(*ctx), importer@),
            parts@.len() > 0,
            path@ == join(str_views(parts@), slash()),
            cands == under_roots(rs, str_views(parts@)),
            first_module(ctx.files(), cands) == first_module(ctx.files(), cands.subrange(i as int, cands.len() as int)),
        decreases roots.len() - i,
    {
        let ghost rest = cands.subrange(i as int, cands.len() as int);
        proof {
            assert(rest[0] == join_clean_spec(roots@[i as int]@, path@));
            assert(rest.subrange(1, rest.len() as int) =~= cands.subrange(i + 1, cands.len() as int));
        }
        let candidate = join_clean(roots[i].as_str(), path.as_str());
        if let Some(found) = try_resolve_rust_module_candidate(ctx, candidate.as_str()) {
            return Some(found);
        }
        i = i + 1;
    }
    None
}

fn names_crate_exec(ctx: &ResolveCtx, root: &str, name: &str) -> (r: bool)
    requires
        ctx.wf(),
    ensures
        r == names_crate(*ctx, root@, name@),
{
    let dir = match parent(root) {
        Some(d) => d,
        None => return false,
    };
    if !starts_with_path(dir.as_str(), ctx.repo_root.as_str()) {
        return false;
    }
    let manifest = match ctx.cargo_manifests.get(dir.as_str()) {
        Some(m) => m,
        None => return false,
    };
    proof {
        reveal_strlit("_");
        assert("_"@ =~= seq!['_']);
    }
    match cargo_package_name(manifest.as_str()) {
        Some(package) => {
            let normalized = replace_all_char(package.as_str(), '-', "_");
            str_eq(normalized.as_str(), name)
        },
        None => false,
    }
}

/// The crate root of the workspace crate named `name`.
pub fn rust_workspace_crate_root(ctx: &ResolveCtx, name: &str) -> (r: Option<String>)
    requires
        ctx.wf(),
    ensures
        opt_str(r) == workspace_root_spec(*ctx, name@),
{
    let roots = rust_crate_roots(ctx);
    let ghost rs = str_views(roots@);
    let mut i: usize = 0;
    proof {
        assert(rs.subrange(0, rs.len() as int) =~= rs);
    }
    while i < roots.len()
        invariant
            ctx.wf(),
            i <= roots@.len(),
            rs == str_views(roots@),
            rs == crate_roots_spec(*ctx),
            workspace_root_among(*ctx, rs, name@) == workspace_root_among(*ctx, rs.subrange(i as int, rs.len() as int), name@),
        decreases roots.len() - i,
    {
        let ghost rest = rs.subrange(i as int, rs.len() as int);
        proof {
            assert(rest[0] == roots@[i as int]@);
            assert(rest.subrange(1, rest.len() as int) =~= rs.subrange(i + 1, rs.len() as int));
        }
        if names_crate_exec(ctx, roots[i].as_str(), name) {
            return Some(roots[i].clone());
        }
        i = i + 1;
    }
    None
}

fn resolve_rust_workspace_import(ctx: &ResolveCtx, head: &str, rest: &Vec<String>) -> (r: Option<String>)
    requires
        ctx.wf(),
    ensures
        opt_str(r) == workspace_import_spec(*ctx, head@, str_views(rest@)),
{
    let root = match rust_workspace_crate_root(ctx, head) {
        Some(r) => r,
        None => return None,
    };
    if rest.len() == 0 {
        proof {
            reveal_strlit("lib.rs");
            reveal_strlit("main.rs");
            assert("lib.rs"@ =~= lib_rs());
            assert("main.rs"@ =~= main_rs());
        }
        let l = join_clean(root.as_str(), "lib.rs");
        if ctx.source_files.contains(l.as_str()) {
            return Some(l);
        }
        let m = join_clean(root.as_str(), "main.rs");
        if ctx.source_files.contains(m.as_str()) {
            return Some(m);
        }
        return None;
    }
    let path = joined(rest);
    let candidate = join_clean(root.as_str(), path.as_str());
    try_resolve_rust_module_candidate(ctx, candidate.as_str())
}

/// Resolve a `use` path or `mod` declaration of a Rust file.
pub fn resolve_rust_import(ctx: &ResolveCtx, importer: &str, specifier: &str) -> (r: Option<String>)
    requires
        ctx.wf(),
    ensures
        opt_str(r) == rust_import_spec(*ctx, importer@, specifier@),
{
    proof {
        reveal_strlit("mod:");
        reveal_strlit("crate");
        reveal_strlit("self");
        reveal_strlit("super");
        assert("mod:"@ =~= mod_prefix());
        assert("crate"@ =~= seq!['c', 'r', 'a', 't', 'e']);
        assert("self"@ =~= seq!['s', 'e', 'l', 'f']);
        assert("super"@ =~= super_word());
    }
    if str_starts_with(specifier, "mod:") {
        let v = chars_of(specifier);
        let module = sub_string(v.as_slice(), 4, v.len());
        proof {
            assert(v@.subrange(4, v@.len() as int) =~= specifier@.skip(4));
        }
        let base = rust_child_module_base(importer);
        let candidate = join_clean(base.as_str(), module.as_str());
        return try_resolve_rust_module_candidate(ctx, candidate.as_str());
    }
    let parts = path_parts_exec(specifier);
    if parts.len() == 0 {
        return None;
    }
    let head = &parts[0];
    let rest = tail_strings(&parts, 1);
    if str_eq(head.as_str(), "crate") {
        return resolve_rust_from_crate_roots(ctx, importer, &rest);
    }
    if str_eq(head.as_str(), "self") {
        let base = rust_child_module_base(importer);
        let path = joined(&rest);
        let candidate = join_clean(base.as_str(), path.as_str());
        return try_resolve_rust_module_candidate(ctx, candidate.as_str());
    }
    if str_eq(head.as_str(), "super") {
        let mut base = rust_parent_module_base(importer);
        let ghost rv = str_views(rest@);
        let mut i: usize = 0;
        proof {
            assert(rv.skip(0) =~= rv);
        }
        while i < rest.len()
            invariant
                i <= rest@.len(),
                rv == str_views(rest@),
                "super"@ == super_word(),
                walk_parts(parent_module_base(importer@), rv) == walk_parts(base@, rv.skip(i as int)),
            decreases rest.len() - i,
        {
            proof {
                assert(rv.skip(i as int)[0] == rest@[i as int]@);
                assert(rv.skip(i as int).skip(1) =~= rv.skip(i + 1));
            }
            if str_eq(rest[i].as_str(), "super") {
                match parent(base.as_str()) {
                    Some(p) => {
                        base = p;
                    },
                    None => {},
                }
            } else {
                base = join_clean(base.as_str(), rest[i].as_str());
            }
            i = i + 1;
        }
        proof {
            assert(rv.skip(rest@.len() as int) =~= Seq::<Seq<char>>::empty());
        }
        return try_resolve_rust_module_candidate(ctx, base.as_str());
    }
    if let Some(path) = resolve_rust_from_crate_roots(ctx, importer, &parts) {
        return Some(path);
    }
    let base = rust_child_module_base(importer);
    let path = joined(&parts);
    let candidate = join_clean(base.as_str(), path.as_str());
    if let Some(found) = try_resolve_rust_module_candidate(ctx, candidate.as_str()) {
        return Some(found);
    }
    resolve_rust_workspace_import(ctx, head.as_str(), &rest)
}

/// Whether the first segment of a Rust path names a module of the
/// importer's crate roots or a workspace crate.
pub open spec fn rust_top_level_spec(ctx: ResolveCtx, importer: Seq<char>, specifier: Seq<char>) -> bool {
    let first = split_path(specifier)[0];
    first.len() > 0 && ((exists|i: int|
        0 <= i < roots_for(crate_roots_spec(ctx), importer).len() && #[trigger] rust_module_spec(
            ctx.files(),
            join_clean_spec(roots_for(crate_roots_spec(ctx), importer)[i], first),
        ) is Some) || workspace_root_spec(ctx, first) is Some)
}

/// Whether a Rust path refers into the repository.
pub open spec fn rust_internal_spec(ctx: ResolveCtx, importer: Seq<char>, specifier: Seq<char>) -> bool {
    starts_with(specifier, mod_prefix()) || starts_with(specifier, seq!['c', 'r', 'a', 't', 'e', ':', ':']) || starts_with(
        specifier,
        seq!['s', 'e', 'l', 'f', ':', ':'],
    ) || starts_with(specifier, seq!['s', 'u', 'p', 'e', 'r', ':', ':']) || rust_top_level_spec(ctx, importer, specifier)
}

pub fn rust_top_level_exists(ctx: &ResolveCtx, importer: &str, specifier: &str) -> (r: bool)
    requires
        ctx.wf(),
    ensures
        r == rust_top_level_spec(*ctx, importer@, specifier@),
{
    let pieces = split_path_exec(specifier);
    proof {
        lemma_split_path_nonempty(specifier@);
    }
    let first = &pieces[0];
    if chars_of(first.as_str()).len() == 0 {
        return false;
    }
    let roots = crate_roots_for(ctx, importer);
    let ghost rs = str_views(roots@);
    let mut i: usize = 0;
    while i < roots.len()
        invariant
            ctx.wf(),
            i <= roots@.len(),
            rs == str_views(roots@),
            rs == roots_for(crate_roots_spec(*ctx), importer@),
            first@ == split_path(specifier@)[0],
            first@.len() > 0,
            forall|j: int| 0 <= j < i ==> #[trigger] rust_module_spec(ctx.files(), join_clean_spec(rs[j], first@)) is None,
        decreases roots.len() - i,
    {
        let candidate = join_clean(roots[i].as_str(), first.as_str());
        if try_resolve_rust_module_candidate(ctx, candidate.as_str()).is_some() {
            proof {
                assert(rust_module_spec(ctx.files(), join_clean_spec(rs[i as int], first@)) is Some);
            }
            return true;
        }
        i = i + 1;
    }
    rust_workspace_crate_root(ctx, first.as_str()).is_some()
}

pub fn is_internal_rust_specifier(ctx: &ResolveCtx, importer: &str, specifier: &str) -> (r: bool)
    requires
        ctx.wf(),
    ensures
        r == rust_internal_spec(*ctx, importer@, specifier@),
{
    proof {
        reveal_strlit("mod:");
        reveal_strlit("crate::");
        reveal_strlit("self::");
        reveal_strlit("super::");
        assert("mod:"@ =~= mod_prefix());
        assert("crate::"@ =~= seq!['c', 'r', 'a', 't', 'e', ':', ':']);
        assert("self::"@ =~= seq!['s', 'e', 'l', 'f', ':', ':']);
        assert("super::"@ =~= seq!['s', 'u', 'p', 'e', 'r', ':', ':']);
    }
    if str_starts_with(specifier, "mod:") || str_starts_with(specifier, "crate::") || str_starts_with(specifier, "self::")
        || str_starts_with(specifier, "super::") {
        return true;
    }
    rust_top_level_exists(ctx, importer, specifier)
}

} // verus!
