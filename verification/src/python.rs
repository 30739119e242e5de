//! Python import resolution: dotted module paths from the repository root
//! (or its `src/` directory, for a src layout), relative imports climbing
//! packages, and `__init__.py` package entries.
use vstd::prelude::*;

use crate::collections::{opt_str, str_views};
use crate::javascript::importer_dir;
use crate::paths::{join_clean, join_clean_spec, parent, parent_spec};
use crate::resolve::{trim_leading, trim_leading_char, try_candidate_spec, ResolveCtx};
use crate::text::{chars_of, concat, owned, replace_all_char, replace_char, str_starts_with_char};

verus! {

pub open spec fn py_extensions() -> Seq<Seq<char>> {
    seq![seq!['p', 'y']]
}

pub open spec fn init_py() -> Seq<char> {
    seq!['_', '_', 'i', 'n', 'i', 't', '_', '_', '.', 'p', 'y']
}

/// A dotted module path as a file path.
pub open spec fn dots_to_slashes(s: Seq<char>) -> Seq<char> {
    replace_char(s, '.', seq!['/'])
}

/// How many `c`s `s` starts with.
pub open spec fn leading_count(s: Seq<char>, c: char) -> nat
    decreases s.len(),
{
    if s.len() > 0 && s[0] == c {
        1 + leading_count(s.skip(1), c)
    } else {
        0
    }
}

/// `dir` climbed `n` levels (stopping at the top).
pub open spec fn climb(dir: Seq<char>, n: nat) -> Seq<char>
    decreases n,
{
    if n == 0 {
        dir
    } else {
        let d = climb(dir, (n - 1) as nat);
        match parent_spec(d) {
            Some(p) => p,
            None => d,
        }
    }
}

/// A module candidate: the module file itself, else its package's
/// `__init__.py`.
pub open spec fn python_module_spec(files: Set<Seq<char>>, cand: Seq<char>) -> Option<Seq<char>> {
    match try_candidate_spec(files, cand, py_extensions()) {
        Some(p) => Some(p),
        None => {
            let init = join_clean_spec(cand, init_py());
            if files.contains(init) {
                Some(init)
            } else {
                None
            }
        },
    }
}

/// The `src/` directory of a repository, the package root of a src layout.
pub open spec fn src_root_spec(root: Seq<char>) -> Seq<char> {
    join_clean_spec(root, seq!['s', 'r', 'c'])
}

/// An absolute module path looked up under the repository root, then under
/// its `src/` directory.
pub open spec fn python_absolute_spec(files: Set<Seq<char>>, root: Seq<char>, specifier: Seq<char>) -> Option<Seq<char>> {
    match python_module_spec(files, join_clean_spec(root, dots_to_slashes(specifier))) {
        Some(p) => Some(p),
        None => python_module_spec(files, join_clean_spec(src_root_spec(root), dots_to_slashes(specifier))),
    }
}

/// Where a Python import resolves: `.`-relative imports climb one package
/// per extra dot from the importer's directory; absolute ones start at the
/// repository root, then at its `src/` directory.
pub open spec fn python_import_spec(ctx: ResolveCtx, importer: Seq<char>, specifier: Seq<char>) -> Option<Seq<char>> {
    if specifier.len() > 0 && specifier[0] == '.' {
        let level = leading_count(specifier, '.');
        let remainder = trim_leading(specifier, '.');
        let base = climb(importer_dir(ctx, importer), (level - 1) as nat);
        let cand = if remainder.len() == 0 {
            base
        } else {
            join_clean_spec(base, dots_to_slashes(remainder))
        };
        python_module_spec(ctx.files(), cand)
    } else {
        python_absolute_spec(ctx.files(), ctx.repo_root@, specifier)
    }
}

fn py_extension_list() -> (r: Vec<String>)
    ensures
        str_views(r@) == py_extensions(),
{
    proof {
        reveal_strlit("py");
        assert("py"@ =~= seq!['p', 'y']);
    }
    let r = vec![owned("py")];
    proof {
        assert(str_views(r@) =~= py_extensions());
    }
    r
}

fn try_resolve_python_module_candidate(ctx: &ResolveCtx, candidate: &str) -> (r: Option<String>)
    requires
        ctx.wf(),
    ensures
        opt_str(r) == python_module_spec(ctx.files(), candidate@),
{
    let exts = py_extension_list();
    if let Some(path) = ctx.try_resolve_candidate(candidate, &exts) {
        return Some(path);
    }
    proof {
        reveal_strlit("__init__.py");
        assert("__init__.py"@ =~= init_py());
    }
    let package_init = join_clean(candidate, "__init__.py");
    if ctx.source_files.contains(package_init.as_str()) {
        return Some(package_init);
    }
    None
}

fn count_leading(s: &str, c: char) -> (r: usize)
    ensures
        r == leading_count(s@, c),
{
    let v = chars_of(s);
    let mut i: usize = 0;
    proof {
        assert(v@.skip(0) =~= v@);
    }
    while i < v.len() && v[i] == c
        invariant
            i <= v@.len(),
            v@ == s@,
            leading_count(s@, c) == i + leading_count(v@.skip(i as int), c),
        decreases v.len() - i,
    {
        proof {
            assert(v@.skip(i as int).skip(1) =~= v@.skip(i + 1));
        }
        i = i + 1;
    }
    i
}

fn resolve_python_relative_import(ctx: &ResolveCtx, importer: &str, specifier: &str) -> (r: Option<String>)
    requires
        ctx.wf(),
        specifier@.len() > 0 && specifier@[0] == '.',
    ensures
        opt_str(r) == python_import_spec(*ctx, importer@, specifier@),
{
    let level = count_leading(specifier, '.');
    let remainder = trim_leading_char(specifier, '.');
    let mut base = match parent(importer) {
        Some(p) => p,
        None => ctx.repo_root.clone(),
    };
    proof {
        assert(level >= 1) by {
            assert(specifier@.skip(1).len() >= 0);
        }
    }
    let mut n: usize = 1;
    while n < level
        invariant
            1 <= n <= level,
            base@ == climb(importer_dir(*ctx, importer@), (n - 1) as nat),
        decreases level - n,
    {
        match parent(base.as_str()) {
            Some(p) => {
                base = p;
            },
            None => {},
        }
        n = n + 1;
    }
    let candidate = if chars_of(remainder.as_str()).len() == 0 {
        base
    } else {
        proof {
            reveal_strlit("/");
            assert("/"@ =~= seq!['/']);
        }
        let path = replace_all_char(remainder.as_str(), '.', "/");
        join_clean(base.as_str(), path.as_str())
    };
    try_resolve_python_module_candidate(ctx, candidate.as_str())
}

/// Resolve an import of a Python file.
pub fn resolve_python_import(ctx: &ResolveCtx, importer: &str, specifier: &str) -> (r: Option<String>)
    requires
        ctx.wf(),
    ensures
        opt_str(r) == python_import_spec(*ctx, importer@, specifier@),
{
    if str_starts_with_char(specifier, '.') {
        return resolve_python_relative_import(ctx, importer, specifier);
    }
    proof {
        reveal_strlit("/");
        assert("/"@ =~= seq!['/']);
    }
    let path = replace_all_char(specifier, '.', "/");
    let candidate = join_clean(ctx.repo_root.as_str(), path.as_str());
    if let Some(found) = try_resolve_python_module_candidate(ctx, candidate.as_str()) {
        return Some(found);
    }
    proof {
        reveal_strlit("src");
        assert("src"@ =~= seq!['s', 'r', 'c']);
    }
    let src_root = join_clean(ctx.repo_root.as_str(), "src");
    let src_candidate = join_clean(src_root.as_str(), path.as_str());
    try_resolve_python_module_candidate(ctx, src_candidate.as_str())
}

/// The first dotted component of a module path.
pub open spec fn first_segment(s: Seq<char>) -> Seq<char> {
    if s.contains('.') {
        s.take(crate::text::first_pos(s, '.'))
    } else {
        s
    }
}

/// Whether module `first` exists directly under `base`, as a module file or
/// a package.
pub open spec fn top_level_under(files: Set<Seq<char>>, base: Seq<char>, first: Seq<char>) -> bool {
    files.contains(join_clean_spec(base, first + seq!['.', 'p', 'y'])) || files.contains(
        join_clean_spec(join_clean_spec(base, first), init_py()),
    )
}

/// Whether the top-level module of an absolute import exists in the
/// repository, as a module file or a package, under the root or its `src/`
/// directory.
pub open spec fn python_top_level_spec(ctx: ResolveCtx, specifier: Seq<char>) -> bool {
    let first = first_segment(specifier);
    first.len() > 0 && (top_level_under(ctx.files(), ctx.repo_root@, first) || top_level_under(
        ctx.files(),
        src_root_spec(ctx.repo_root@),
        first,
    ))
}

fn top_level_exists_under(ctx: &ResolveCtx, base: &str, first: &str) -> (r: bool)
    requires
        ctx.wf(),
    ensures
        r == top_level_under(ctx.files(), base@, first@),
{
    proof {
        reveal_strlit(".py");
        reveal_strlit("__init__.py");
        assert(".py"@ =~= seq!['.', 'p', 'y']);
        assert("__init__.py"@ =~= init_py());
    }
    let module_name = concat(first, ".py");
    let module_file = join_clean(base, module_name.as_str());
    let package_dir = join_clean(base, first);
    let package_init = join_clean(package_dir.as_str(), "__init__.py");
    ctx.source_files.contains(module_file.as_str()) || ctx.source_files.contains(package_init.as_str())
}

/// Whether a Python specifier refers into the repository.
pub open spec fn python_internal_spec(ctx: ResolveCtx, specifier: Seq<char>) -> bool {
    (specifier.len() > 0 && specifier[0] == '.') || python_top_level_spec(ctx, specifier)
}

pub fn python_top_level_exists(ctx: &ResolveCtx, specifier: &str) -> (r: bool)
    requires
        ctx.wf(),
    ensures
        r == python_top_level_spec(*ctx, specifier@),
{
    let v = chars_of(specifier);
    let first = match crate::text::find_char(v.as_slice(), '.') {
        Some(i) => {
            proof {
                assert(v@.subrange(0, i as int) =~= v@.take(i as int));
            }
            crate::text::sub_string(v.as_slice(), 0, i)
        },
        None => owned(specifier),
    };
    if chars_of(first.as_str()).len() == 0 {
        return false;
    }
    if top_level_exists_under(ctx, ctx.repo_root.as_str(), first.as_str()) {
        return true;
    }
    proof {
        reveal_strlit("src");
        assert("src"@ =~= seq!['s', 'r', 'c']);
    }
    let src_root = join_clean(ctx.repo_root.as_str(), "src");
    top_level_exists_under(ctx, src_root.as_str(), first.as_str())
}

pub fn is_internal_python_specifier(ctx: &ResolveCtx, specifier: &str) -> (r: bool)
    requires
        ctx.wf(),
    ensures
        r == python_internal_spec(*ctx, specifier@),
{
    str_starts_with_char(specifier, '.') || python_top_level_exists(ctx, specifier)
}

/// A relative import with a single leading dot is looked up in the
/// importer's own directory: `.m` from `d/x.py` is the module `m` of `d`,
/// with no package climbed.
pub proof fn lemma_single_dot_is_own_directory(ctx: ResolveCtx, importer: Seq<char>, rest: Seq<char>)
    requires
        rest.len() > 0,
        rest[0] != '.',
    ensures
        python_import_spec(ctx, importer, seq!['.'] + rest) == python_module_spec(
            ctx.files(),
            join_clean_spec(importer_dir(ctx, importer), dots_to_slashes(rest)),
        ),
{
    let s = seq!['.'] + rest;
    assert(s.skip(1) =~= rest);
    assert(leading_count(rest, '.') == 0);
    assert(leading_count(s, '.') == 1);
    assert(trim_leading(rest, '.') == rest);
    assert(trim_leading(s, '.') == rest);
    assert(climb(importer_dir(ctx, importer), 0) == importer_dir(ctx, importer));
}

/// Each extra leading dot climbs one package: `..m` from `d/x.py` is `.m`
/// looked up from the directory above `d`.
pub proof fn lemma_extra_dot_climbs_one(ctx: ResolveCtx, importer: Seq<char>, rest: Seq<char>)
    requires
        rest.len() > 0,
        rest[0] != '.',
    ensures
        python_import_spec(ctx, importer, seq!['.', '.'] + rest) == python_module_spec(
            ctx.files(),
            join_clean_spec(
                match parent_spec(importer_dir(ctx, importer)) {
                    Some(p) => p,
                    None => importer_dir(ctx, importer),
                },
                dots_to_slashes(rest),
            ),
        ),
{
    let s = seq!['.', '.'] + rest;
    assert(s.skip(1) =~= seq!['.'] + rest);
    assert((seq!['.'] + rest).skip(1) =~= rest);
    assert(leading_count(rest, '.') == 0);
    assert(leading_count(seq!['.'] + rest, '.') == 1);
    assert(leading_count(s, '.') == 2);
    assert(trim_leading(rest, '.') == rest);
    assert(trim_leading(seq!['.'] + rest, '.') == rest);
    assert(trim_leading(s, '.') == rest);
    assert(climb(importer_dir(ctx, importer), 0) == importer_dir(ctx, importer));
}

} // verus!
