//! JavaScript/TypeScript import resolution: relative paths, `tsconfig`
//! path aliases and base URLs, package `imports` maps, and workspace
//! packages with their `exports`.
use vstd::prelude::*;

use crate::alias::{
    apply_alias_target, apply_captures, match_alias, match_alias_spec, package_parts_spec, package_specifier_parts, positions,
    specificity_order, specificity_order_exec,
};
use crate::collections::{opt_str, str_views, StrMap};
use crate::config::TsConfigPath;
use crate::manifest::{package_mapping_spec, resolve_package_export, resolve_package_import, PackageInfo};
use crate::paths::{component_count, components, join_clean, join_clean_spec, parent, parent_spec, path_starts_with, starts_with_path};
use crate::resolve::{first_named, first_resolved, resolve_path_spec, Resolution, ResolveCtx};
use crate::text::{concat, owned, starts_with, str_starts_with, str_starts_with_char};

verus! {

/// The extensions JavaScript/TypeScript files own, in resolution preference
/// order.
pub open spec fn js_extensions() -> Seq<Seq<char>> {
    seq![
        seq!['t', 's'],
        seq!['t', 's', 'x'],
        seq!['m', 't', 's'],
        seq!['c', 't', 's'],
        seq!['j', 's'],
        seq!['j', 's', 'x'],
        seq!['m', 'j', 's'],
        seq!['c', 'j', 's']
    ]
}

/// The extensions JavaScript resolution may land on: the JavaScript family
/// plus Vue and Svelte components, never another language.
pub open spec fn web_extensions_spec() -> Seq<Seq<char>> {
    js_extensions() + seq![seq!['v', 'u', 'e'], seq!['s', 'v', 'e', 'l', 't', 'e']]
}

pub fn js_extension_list() -> (r: Vec<String>)
    ensures
        str_views(r@) == js_extensions(),
{
    proof {
        reveal_strlit("ts");
        reveal_strlit("tsx");
        reveal_strlit("mts");
        reveal_strlit("cts");
        reveal_strlit("js");
        reveal_strlit("jsx");
        reveal_strlit("mjs");
        reveal_strlit("cjs");
        assert("ts"@ =~= seq!['t', 's']);
        assert("tsx"@ =~= seq!['t', 's', 'x']);
        assert("mts"@ =~= seq!['m', 't', 's']);
        assert("cts"@ =~= seq!['c', 't', 's']);
        assert("js"@ =~= seq!['j', 's']);
        assert("jsx"@ =~= seq!['j', 's', 'x']);
        assert("mjs"@ =~= seq!['m', 'j', 's']);
        assert("cjs"@ =~= seq!['c', 'j', 's']);
    }
    let r = vec![
        owned("ts"),
        owned("tsx"),
        owned("mts"),
        owned("cts"),
        owned("js"),
        owned("jsx"),
        owned("mjs"),
        owned("cjs"),
    ];
    proof {
        assert(str_views(r@) =~= js_extensions());
    }
    r
}

pub fn web_extensions() -> (r: Vec<String>)
    ensures
        str_views(r@) == web_extensions_spec(),
{
    let mut r = js_extension_list();
    proof {
        reveal_strlit("vue");
        reveal_strlit("svelte");
        assert("vue"@ =~= seq!['v', 'u', 'e']);
        assert("svelte"@ =~= seq!['s', 'v', 'e', 'l', 't', 'e']);
    }
    let ghost before = str_views(r@);
    r.push(owned("vue"));
    r.push(owned("svelte"));
    proof {
        assert(str_views(r@) =~= web_extensions_spec());
    }
    r
}

// ---------------------------------------------------------------------------
// The governing tsconfig
// ---------------------------------------------------------------------------

/// The directory of a config file (the repository root for a bare name).
pub open spec fn config_dir(root: Seq<char>, cfg: TsConfigPath) -> Seq<char> {
    match parent_spec(cfg.path@) {
        Some(p) => p,
        None => root,
    }
}

/// Among the first `n` configs, the deepest one (most path components;
/// the last of equals) whose directory encloses `importer`, optionally only
/// among those that declare aliases.
pub open spec fn deepest_config(cfgs: Seq<TsConfigPath>, root: Seq<char>, importer: Seq<char>, aliased_only: bool, n: nat) -> Option<int>
    decreases n,
{
    if n == 0 {
        None
    } else {
        let prev = deepest_config(cfgs, root, importer, aliased_only, (n - 1) as nat);
        let i = n - 1;
        let c = cfgs[i];
        if path_starts_with(importer, config_dir(root, c)) && (!aliased_only || c.compiler_options.aliased()) {
            match prev {
                None => Some(i),
                Some(j) => if components(c.path@).len() >= components(cfgs[j].path@).len() {
                    Some(i)
                } else {
                    Some(j)
                },
            }
        } else {
            prev
        }
    }
}

/// The config governing `importer`: the deepest enclosing one that declares
/// aliases, so an alias-less project config doesn't shadow an alias-bearing
/// root config; else the deepest enclosing one.
pub open spec fn nearest_tsconfig_spec(ctx: ResolveCtx, importer: Seq<char>) -> Option<int> {
    let cfgs = ctx.tsconfigs@;
    match deepest_config(cfgs, ctx.repo_root@, importer, true, cfgs.len()) {
        Some(i) => Some(i),
        None => deepest_config(cfgs, ctx.repo_root@, importer, false, cfgs.len()),
    }
}

fn deepest_config_exec(ctx: &ResolveCtx, importer: &str, aliased_only: bool) -> (r: Option<usize>)
    requires
        ctx.wf(),
    ensures
        match r {
            Some(i) => deepest_config(ctx.tsconfigs@, ctx.repo_root@, importer@, aliased_only, ctx.tsconfigs@.len()) == Some(
                i as int,
            ) && i < ctx.tsconfigs@.len(),
            None => deepest_config(ctx.tsconfigs@, ctx.repo_root@, importer@, aliased_only, ctx.tsconfigs@.len()) is None,
        },
{
    let mut best: Option<usize> = None;
    let mut best_count: usize = 0;
    let mut i: usize = 0;
    while i < ctx.tsconfigs.len()
        invariant
            ctx.wf(),
            i <= ctx.tsconfigs@.len(),
            match best {
                Some(j) => j < i && deepest_config(ctx.tsconfigs@, ctx.repo_root@, importer@, aliased_only, i as nat) == Some(j as int)
                    && best_count == components(ctx.tsconfigs@[j as int].path@).len(),
                None => deepest_config(ctx.tsconfigs@, ctx.repo_root@, importer@, aliased_only, i as nat) is None,
            },
        decreases ctx.tsconfigs.len() - i,
    {
        let cfg = &ctx.tsconfigs[i];
        let dir = match parent(cfg.path.as_str()) {
            Some(p) => p,
            None => ctx.repo_root.clone(),
        };
        let encloses = starts_with_path(importer, dir.as_str());
        let qualifies = encloses && (!aliased_only || cfg.compiler_options.has_aliases());
        if qualifies {
            let count = component_count(cfg.path.as_str());
            match best {
                None => {
                    best = Some(i);
                    best_count = count;
                },
                Some(_) => {
                    if count >= best_count {
                        best = Some(i);
                        best_count = count;
                    }
                },
            }
        }
        i = i + 1;
    }
    best
}

/// The config governing `importer`.
pub fn nearest_tsconfig(ctx: &ResolveCtx, importer: &str) -> (r: Option<usize>)
    requires
        ctx.wf(),
    ensures
        match r {
            Some(i) => nearest_tsconfig_spec(*ctx, importer@) == Some(i as int) && i < ctx.tsconfigs@.len(),
            None => nearest_tsconfig_spec(*ctx, importer@) is None,
        },
{
    match deepest_config_exec(ctx, importer, true) {
        Some(i) => Some(i),
        None => deepest_config_exec(ctx, importer, false),
    }
}

// ---------------------------------------------------------------------------
// tsconfig aliases
// ---------------------------------------------------------------------------

/// The directory alias targets resolve against: the base URL, else the
/// directory of the config declaring `paths`, else the config's own.
pub open spec fn alias_base(cfg: TsConfigPath) -> Option<Seq<char>> {
    match opt_str(cfg.compiler_options.base_dir) {
        Some(b) => Some(b),
        None => match opt_str(cfg.compiler_options.paths_dir) {
            Some(d) => Some(d),
            None => parent_spec(cfg.path@),
        },
    }
}

/// The first of `targets`, filled with `caps`, that resolves from `base`.
pub open spec fn targets_hit(files: Set<Seq<char>>, root: Seq<char>, base: Seq<char>, targets: Seq<Seq<char>>, caps: Seq<Seq<char>>) -> Option<Seq<char>>
    decreases targets.len(),
{
    if targets.len() == 0 {
        None
    } else {
        match resolve_path_spec(files, root, base, apply_captures(targets[0], caps), web_extensions_spec()) {
            Some(p) => Some(p),
            None => targets_hit(files, root, base, targets.subrange(1, targets.len() as int), caps),
        }
    }
}

/// The patterns of `order` are tried in turn; the first whose match has a
/// target that resolves wins.
pub open spec fn alias_scan(
    files: Set<Seq<char>>,
    root: Seq<char>,
    base: Seq<char>,
    cfg: TsConfigPath,
    order: Seq<int>,
    specifier: Seq<char>,
) -> Option<Seq<char>>
    decreases order.len(),
{
    if order.len() == 0 {
        None
    } else {
        let i = order[0];
        let rest = alias_scan(files, root, base, cfg, order.subrange(1, order.len() as int), specifier);
        match match_alias_spec(cfg.compiler_options.paths.keys()[i], specifier) {
            Some(caps) => match targets_hit(files, root, base, str_views(cfg.compiler_options.paths.vals()[i]@), caps) {
                Some(p) => Some(p),
                None => rest,
            },
            None => rest,
        }
    }
}

/// A bare specifier resolved against the config's base URL.
pub open spec fn base_url_spec(files: Set<Seq<char>>, root: Seq<char>, cfg: TsConfigPath, specifier: Seq<char>) -> Option<Seq<char>> {
    if specifier.len() > 0 && (specifier[0] == '.' || specifier[0] == '/' || specifier[0] == '#') {
        None
    } else {
        match opt_str(cfg.compiler_options.base_dir) {
            None => None,
            Some(b) => resolve_path_spec(files, root, b, specifier, web_extensions_spec()),
        }
    }
}

/// Resolution through the governing config: the most specific matching
/// pattern first (exact, then longest literal prefix), then the base URL.
pub open spec fn tsconfig_alias_spec(ctx: ResolveCtx, importer: Seq<char>, specifier: Seq<char>) -> Option<Seq<char>> {
    match nearest_tsconfig_spec(ctx, importer) {
        None => None,
        Some(i) => {
            let cfg = ctx.tsconfigs@[i];
            match alias_base(cfg) {
                None => None,
                Some(base) => match alias_scan(
                    ctx.files(),
                    ctx.repo_root@,
                    base,
                    cfg,
                    specificity_order(cfg.compiler_options.paths.keys()),
                    specifier,
                ) {
                    Some(p) => Some(p),
                    None => base_url_spec(ctx.files(), ctx.repo_root@, cfg, specifier),
                },
            }
        },
    }
}

fn resolve_tsconfig_base_url(ctx: &ResolveCtx, cfg: &TsConfigPath, specifier: &str, web: &Vec<String>) -> (r: Option<String>)
    requires
        ctx.wf(),
        str_views(web@) == web_extensions_spec(),
    ensures
        opt_str(r) == base_url_spec(ctx.files(), ctx.repo_root@, *cfg, specifier@),
{
    if str_starts_with_char(specifier, '.') || str_starts_with_char(specifier, '/') || str_starts_with_char(specifier, '#') {
        return None;
    }
    match &cfg.compiler_options.base_dir {
        None => None,
        Some(base) => match ctx.resolve_path(base.as_str(), specifier, web) {
            Resolution::Resolved(p) => Some(p),
            Resolution::Unresolved => None,
        },
    }
}

fn first_target_hit(ctx: &ResolveCtx, base: &str, targets: &Vec<String>, captures: &Vec<String>, web: &Vec<String>) -> (r: Option<String>)
    requires
        ctx.wf(),
        str_views(web@) == web_extensions_spec(),
    ensures
        opt_str(r) == targets_hit(ctx.files(), ctx.repo_root@, base@, str_views(targets@), str_views(captures@)),
{
    let ghost ts = str_views(targets@);
    let mut i: usize = 0;
    proof {
        assert(ts.subrange(0, ts.len() as int) =~= ts);
    }
    while i < targets.len()
        invariant
            ctx.wf(),
            str_views(web@) == web_extensions_spec(),
            i <= targets@.len(),
            ts == str_views(targets@),
            targets_hit(ctx.files(), ctx.repo_root@, base@, ts, str_views(captures@)) == targets_hit(
                ctx.files(),
                ctx.repo_root@,
                base@,
                ts.subrange(i as int, ts.len() as int),
                str_views(captures@),
            ),
        decreases targets.len() - i,
    {
        let ghost rest = ts.subrange(i as int, ts.len() as int);
        proof {
            assert(rest[0] == targets@[i as int]@);
            assert(rest.subrange(1, rest.len() as int) =~= ts.subrange(i + 1, ts.len() as int));
        }
        let candidate = apply_alias_target(targets[i].as_str(), captures);
        match ctx.resolve_path(base, candidate.as_str(), web) {
            Resolution::Resolved(p) => {
                return Some(p);
            },
            Resolution::Unresolved => {},
        }
        i = i + 1;
    }
    None
}

/// Resolve a bare specifier through the `tsconfig` governing `importer`.
pub fn resolve_tsconfig_alias(ctx: &ResolveCtx, importer: &str, specifier: &str, web: &Vec<String>) -> (r: Option<String>)
    requires
        ctx.wf(),
        str_views(web@) == web_extensions_spec(),
    ensures
        opt_str(r) == tsconfig_alias_spec(*ctx, importer@, specifier@),
{
    let idx = match nearest_tsconfig(ctx, importer) {
        Some(i) => i,
        None => return None,
    };
    let cfg = &ctx.tsconfigs[idx];
    let base = match &cfg.compiler_options.base_dir {
        Some(b) => b.clone(),
        None => match &cfg.compiler_options.paths_dir {
            Some(d) => d.clone(),
            None => match parent(cfg.path.as_str()) {
                Some(p) => p,
                None => return None,
            },
        },
    };
    proof {
        assert(cfg.compiler_options.wf());
        assert(alias_base(*cfg) == Some(base@));
    }
    let mut keys: Vec<String> = Vec::new();
    let n = cfg.compiler_options.paths.len();
    let mut k: usize = 0;
    while k < n
        invariant
            cfg.compiler_options.wf(),
            n == cfg.compiler_options.paths.keys().len(),
            k <= n,
            str_views(keys@) == cfg.compiler_options.paths.keys().take(k as int),
        decreases n - k,
    {
        let ghost before = str_views(keys@);
        keys.push(cfg.compiler_options.paths.key_at(k).clone());
        proof {
            assert(str_views(keys@) =~= before.push(cfg.compiler_options.paths.keys()[k as int]));
            assert(cfg.compiler_options.paths.keys().take(k + 1) =~= cfg.compiler_options.paths.keys().take(k as int).push(
                cfg.compiler_options.paths.keys()[k as int]));
        }
        k = k + 1;
    }
    proof {
        assert(cfg.compiler_options.paths.keys().take(n as int) =~= cfg.compiler_options.paths.keys());
    }
    let order = specificity_order_exec(&keys);
    let ghost ord = positions(order@);
    let ghost files = ctx.files();
    let mut j: usize = 0;
    proof {
        assert(ord.subrange(0, ord.len() as int) =~= ord);
    }
    while j < order.len()
        invariant
            ctx.wf(),
            str_views(web@) == web_extensions_spec(),
            cfg.compiler_options.wf(),
            files == ctx.files(),
            j <= order@.len(),
            ord == positions(order@),
            ord == specificity_order(cfg.compiler_options.paths.keys()),
            alias_base(*cfg) == Some(base@),
            *cfg == ctx.tsconfigs@[idx as int],
            nearest_tsconfig_spec(*ctx, importer@) == Some(idx as int),
            str_views(keys@) == cfg.compiler_options.paths.keys(),
            forall|x: int| 0 <= x < order@.len() ==> order@[x] < keys@.len(),
            alias_scan(files, ctx.repo_root@, base@, *cfg, ord, specifier@) == alias_scan(
                files,
                ctx.repo_root@,
                base@,
                *cfg,
                ord.subrange(j as int, ord.len() as int),
                specifier@,
            ),
        decreases order.len() - j,
    {
        let ghost rest = ord.subrange(j as int, ord.len() as int);
        proof {
            assert(rest[0] == order@[j as int] as int);
            assert(rest.subrange(1, rest.len() as int) =~= ord.subrange(j + 1, ord.len() as int));
        }
        let idx2 = order[j];
        match match_alias(keys[idx2].as_str(), specifier) {
            Some(captures) => {
                let targets = cfg.compiler_options.paths.val_at(idx2);
                match first_target_hit(ctx, base.as_str(), targets, &captures, web) {
                    Some(p) => {
                        proof {
                            assert(keys@[idx2 as int]@ == cfg.compiler_options.paths.keys()[idx2 as int]);
                            assert(alias_scan(files, ctx.repo_root@, base@, *cfg, rest, specifier@) == Some(p@));
                        }
                        return Some(p);
                    },
                    None => {},
                }
            },
            None => {},
        }
        j = j + 1;
    }
    resolve_tsconfig_base_url(ctx, cfg, specifier, web)
}


// ---------------------------------------------------------------------------
// Packages
// ---------------------------------------------------------------------------

/// Among the first `n` packages, the deepest one (most root components, the
/// last of equals) whose root encloses `importer`.
pub open spec fn deepest_package(pkgs: Seq<PackageInfo>, importer: Seq<char>, n: nat) -> Option<int>
    decreases n,
{
    if n == 0 {
        None
    } else {
        let prev = deepest_package(pkgs, importer, (n - 1) as nat);
        let i = n - 1;
        if path_starts_with(importer, pkgs[i].root@) {
            match prev {
                None => Some(i),
                Some(j) => if components(pkgs[i].root@).len() >= components(pkgs[j].root@).len() {
                    Some(i)
                } else {
                    Some(j)
                },
            }
        } else {
            prev
        }
    }
}

/// The package enclosing `importer` most closely.
pub fn nearest_package(ctx: &ResolveCtx, importer: &str) -> (r: Option<usize>)
    ensures
        match r {
            Some(i) => deepest_package(ctx.packages@, importer@, ctx.packages@.len()) == Some(i as int) && i < ctx.packages@.len(),
            None => deepest_package(ctx.packages@, importer@, ctx.packages@.len()) is None,
        },
{
    let mut best: Option<usize> = None;
    let mut best_count: usize = 0;
    let mut i: usize = 0;
    while i < ctx.packages.len()
        invariant
            i <= ctx.packages@.len(),
            match best {
                Some(j) => j < i && deepest_package(ctx.packages@, importer@, i as nat) == Some(j as int) && best_count == components(
                    ctx.packages@[j as int].root@,
                ).len(),
                None => deepest_package(ctx.packages@, importer@, i as nat) is None,
            },
        decreases ctx.packages.len() - i,
    {
        let root = &ctx.packages[i].root;
        if starts_with_path(importer, root.as_str()) {
            let count = component_count(root.as_str());
            match best {
                None => {
                    best = Some(i);
                    best_count = count;
                },
                Some(_) => {
                    if count >= best_count {
                        best = Some(i);
                        best_count = count;
                    }
                },
            }
        }
        i = i + 1;
    }
    best
}

/// `#name` resolved through the `imports` map of the package enclosing
/// `importer`.
pub open spec fn package_imports_spec(ctx: ResolveCtx, importer: Seq<char>, specifier: Seq<char>) -> Option<Seq<char>> {
    if !(specifier.len() > 0 && specifier[0] == '#') {
        None
    } else {
        match deepest_package(ctx.packages@, importer, ctx.packages@.len()) {
            None => None,
            Some(i) => {
                let p = ctx.packages@[i];
                first_resolved(ctx.files(), package_mapping_spec(p.import_mappings@, p.root@, specifier), web_extensions_spec())
            },
        }
    }
}

pub fn resolve_package_imports(ctx: &ResolveCtx, importer: &str, specifier: &str, web: &Vec<String>) -> (r: Option<String>)
    requires
        ctx.wf(),
        str_views(web@) == web_extensions_spec(),
    ensures
        opt_str(r) == package_imports_spec(*ctx, importer@, specifier@),
{
    if !str_starts_with_char(specifier, '#') {
        return None;
    }
    let idx = match nearest_package(ctx, importer) {
        Some(i) => i,
        None => return None,
    };
    let paths = resolve_package_import(&ctx.packages[idx], specifier);
    ctx.first_resolved_exec(&paths, web)
}

/// The package a lookup by name finds.
pub open spec fn package_named(ctx: ResolveCtx, name: Seq<char>) -> Option<int> {
    first_named(ctx.packages@, name, ctx.packages@.len())
}

pub proof fn lemma_first_named_bound(pkgs: Seq<PackageInfo>, name: Seq<char>, n: nat)
    ensures
        first_named(pkgs, name, n) matches Some(i) ==> 0 <= i < n,
    decreases n,
{
    if n > 0 {
        lemma_first_named_bound(pkgs, name, (n - 1) as nat);
    }
}

/// A bare specifier resolved into a workspace package: a subpath through
/// the package's `exports`, then directly under its root, then under its
/// `src`; the package itself through its `exports` root, then its entry
/// candidates.
pub open spec fn workspace_package_spec(ctx: ResolveCtx, specifier: Seq<char>) -> Option<Seq<char>> {
    match package_parts_spec(specifier) {
        None => None,
        Some((name, rest)) => match package_named(ctx, name) {
            None => None,
            Some(i) => {
                let p = ctx.packages@[i];
                match rest {
                    Some(r) => first_resolved(
                        ctx.files(),
                        package_mapping_spec(p.export_mappings@, p.root@, seq!['.', '/'] + r) + seq![
                            join_clean_spec(p.root@, r),
                            join_clean_spec(join_clean_spec(p.root@, seq!['s', 'r', 'c']), r)
                        ],
                        web_extensions_spec(),
                    ),
                    None => first_resolved(
                        ctx.files(),
                        package_mapping_spec(p.export_mappings@, p.root@, seq!['.']) + str_views(p.entry_candidates@),
                        web_extensions_spec(),
                    ),
                }
            },
        },
    }
}

fn append_all(out: &mut Vec<String>, more: &Vec<String>)
    ensures
        str_views(final(out)@) == str_views(old(out)@) + str_views(more@),
{
    let ghost start = str_views(out@);
    let mut i: usize = 0;
    while i < more.len()
        invariant
            i <= more@.len(),
            str_views(out@) == start + str_views(more@).take(i as int),
        decreases more.len() - i,
    {
        let ghost before = str_views(out@);
        out.push(more[i].clone());
        proof {
            assert(str_views(out@) =~= before.push(more@[i as int]@));
            assert(str_views(more@).take(i + 1) =~= str_views(more@).take(i as int).push(more@[i as int]@));
        }
        i = i + 1;
    }
    proof {
        assert(str_views(more@).take(more@.len() as int) =~= str_views(more@));
    }
}

pub fn resolve_workspace_package(ctx: &ResolveCtx, specifier: &str, web: &Vec<String>) -> (r: Option<String>)
    requires
        ctx.wf(),
        str_views(web@) == web_extensions_spec(),
    ensures
        opt_str(r) == workspace_package_spec(*ctx, specifier@),
{
    let (name, rest) = match package_specifier_parts(specifier) {
        Some(parts) => parts,
        None => return None,
    };
    let idx = match ctx.package_by_name.get(name.as_str()) {
        Some(i) => *i,
        None => return None,
    };
    proof {
        lemma_first_named_bound(ctx.packages@, name@, ctx.packages@.len());
        assert(ctx.package_by_name.as_map().contains_key(name@));
    }
    let package = &ctx.packages[idx];
    proof {
        reveal_strlit("./");
        reveal_strlit(".");
        reveal_strlit("src");
        assert("./"@ =~= seq!['.', '/']);
        assert("."@ =~= seq!['.']);
        assert("src"@ =~= seq!['s', 'r', 'c']);
    }
    match rest {
        Some(r) => {
            let export_key = concat("./", r.as_str());
            let mut candidates = resolve_package_export(package, export_key.as_str());
            let ghost mapped = str_views(candidates@);
            candidates.push(join_clean(package.root.as_str(), r.as_str()));
            let src = join_clean(package.root.as_str(), "src");
            candidates.push(join_clean(src.as_str(), r.as_str()));
            proof {
                assert(str_views(candidates@) =~= mapped + seq![
                    join_clean_spec(package.root@, r@),
                    join_clean_spec(join_clean_spec(package.root@, seq!['s', 'r', 'c']), r@)
                ]);
            }
            ctx.first_resolved_exec(&candidates, web)
        },
        None => {
            let mut candidates = resolve_package_export(package, ".");
            append_all(&mut candidates, &package.entry_candidates);
            ctx.first_resolved_exec(&candidates, web)
        },
    }
}

// ---------------------------------------------------------------------------
// The JavaScript rules
// ---------------------------------------------------------------------------

pub open spec fn is_relative_or_absolute(specifier: Seq<char>) -> bool {
    specifier.len() > 0 && (specifier[0] == '.' || specifier[0] == '/')
}

/// The directory an importer's relative imports resolve from.
pub open spec fn importer_dir(ctx: ResolveCtx, importer: Seq<char>) -> Seq<char> {
    match parent_spec(importer) {
        Some(p) => p,
        None => ctx.repo_root@,
    }
}

/// Where a JavaScript/TypeScript import resolves: relative and absolute
/// paths from the importer's directory; otherwise `tsconfig` aliases, then
/// the package `imports` map, then workspace packages.
pub open spec fn javascript_import_spec(ctx: ResolveCtx, importer: Seq<char>, specifier: Seq<char>) -> Option<Seq<char>> {
    if is_relative_or_absolute(specifier) {
        resolve_path_spec(ctx.files(), ctx.repo_root@, importer_dir(ctx, importer), specifier, web_extensions_spec())
    } else {
        match tsconfig_alias_spec(ctx, importer, specifier) {
            Some(p) => Some(p),
            None => match package_imports_spec(ctx, importer, specifier) {
                Some(p) => Some(p),
                None => workspace_package_spec(ctx, specifier),
            },
        }
    }
}

fn importer_dir_exec(ctx: &ResolveCtx, importer: &str) -> (r: String)
    ensures
        r@ == importer_dir(*ctx, importer@),
{
    match parent(importer) {
        Some(p) => p,
        None => ctx.repo_root.clone(),
    }
}

/// Resolve an import of a JavaScript/TypeScript (or Vue/Svelte) file.
pub fn resolve_javascript_import(ctx: &ResolveCtx, importer: &str, specifier: &str) -> (r: Resolution)
    requires
        ctx.wf(),
    ensures
        r.path() == javascript_import_spec(*ctx, importer@, specifier@),
{
    let web = web_extensions();
    if str_starts_with_char(specifier, '.') || str_starts_with_char(specifier, '/') {
        let dir = importer_dir_exec(ctx, importer);
        return ctx.resolve_path(dir.as_str(), specifier, &web);
    }
    if let Some(path) = resolve_tsconfig_alias(ctx, importer, specifier, &web) {
        return Resolution::Resolved(path);
    }
    if let Some(path) = resolve_package_imports(ctx, importer, specifier, &web) {
        return Resolution::Resolved(path);
    }
    if let Some(path) = resolve_workspace_package(ctx, specifier, &web) {
        return Resolution::Resolved(path);
    }
    Resolution::Unresolved
}

/// Some pattern of the config matches `specifier`.
pub open spec fn any_pattern_matches(cfg: TsConfigPath, specifier: Seq<char>) -> bool {
    exists|i: int| 0 <= i < cfg.compiler_options.paths.keys().len() && #[trigger] match_alias_spec(
        cfg.compiler_options.paths.keys()[i],
        specifier,
    ) is Some
}

/// Whether a JavaScript specifier refers into the repository rather than
/// to an outside package: paths, configured aliases and base URLs,
/// `#imports` inside a package, alias-looking `@/` and `~` specifiers, and
/// workspace package names.
pub open spec fn javascript_internal_spec(ctx: ResolveCtx, importer: Seq<char>, specifier: Seq<char>) -> bool {
    if is_relative_or_absolute(specifier) {
        true
    } else if (match nearest_tsconfig_spec(ctx, importer) {
        Some(i) => any_pattern_matches(ctx.tsconfigs@[i], specifier) || base_url_spec(
            ctx.files(),
            ctx.repo_root@,
            ctx.tsconfigs@[i],
            specifier,
        ) is Some,
        None => false,
    }) {
        true
    } else if specifier.len() > 0 && specifier[0] == '#' && deepest_package(ctx.packages@, importer, ctx.packages@.len()) is Some {
        true
    } else if starts_with(specifier, seq!['@', '/']) || (specifier.len() > 0 && specifier[0] == '~') {
        true
    } else {
        match package_parts_spec(specifier) {
            Some((name, _)) => ctx.package_by_name.as_map().contains_key(name),
            None => false,
        }
    }
}

proof fn lemma_alias_scan_matches(
    files: Set<Seq<char>>,
    root: Seq<char>,
    base: Seq<char>,
    cfg: TsConfigPath,
    order: Seq<int>,
    specifier: Seq<char>,
)
    requires
        alias_scan(files, root, base, cfg, order, specifier) is Some,
    ensures
        exists|j: int| 0 <= j < order.len() && match_alias_spec(cfg.compiler_options.paths.keys()[#[trigger] order[j]], specifier) is Some,
    decreases order.len(),
{
    let rest = order.subrange(1, order.len() as int);
    if match_alias_spec(cfg.compiler_options.paths.keys()[order[0]], specifier) is Some {
        assert(0 <= 0 < order.len());
    } else {
        lemma_alias_scan_matches(files, root, base, cfg, rest, specifier);
        let j = choose|j: int| 0 <= j < rest.len() && match_alias_spec(cfg.compiler_options.paths.keys()[#[trigger] rest[j]], specifier) is Some;
        assert(order[j + 1] == rest[j]);
    }
}

/// A specifier that a JavaScript import resolves is one the resolver calls
/// internal.
pub proof fn lemma_javascript_resolved_internal(ctx: ResolveCtx, importer: Seq<char>, specifier: Seq<char>)
    requires
        ctx.wf(),
        javascript_import_spec(ctx, importer, specifier) is Some,
    ensures
        javascript_internal_spec(ctx, importer, specifier),
{
    if !is_relative_or_absolute(specifier) {
        if tsconfig_alias_spec(ctx, importer, specifier) is Some {
            let i = nearest_tsconfig_spec(ctx, importer)->0;
            let cfg = ctx.tsconfigs@[i];
            let base = alias_base(cfg)->0;
            let keys = cfg.compiler_options.paths.keys();
            let order = specificity_order(keys);
            if alias_scan(ctx.files(), ctx.repo_root@, base, cfg, order, specifier) is Some {
                lemma_alias_scan_matches(ctx.files(), ctx.repo_root@, base, cfg, order, specifier);
                crate::alias::lemma_order_bounds(keys);
                let j = choose|j: int| 0 <= j < order.len() && match_alias_spec(keys[#[trigger] order[j]], specifier) is Some;
                assert(0 <= order[j] < keys.len());
                assert(match_alias_spec(keys[order[j]], specifier) is Some);
                assert(any_pattern_matches(cfg, specifier));
            }
        } else if package_imports_spec(ctx, importer, specifier) is Some {
        } else {
            let (name, rest) = package_parts_spec(specifier)->0;
            assert(package_named(ctx, name) is Some);
            assert(ctx.package_by_name.as_map().contains_key(name));
        }
    }
}

pub fn is_internal_javascript_specifier(ctx: &ResolveCtx, importer: &str, specifier: &str) -> (r: bool)
    requires
        ctx.wf(),
    ensures
        r == javascript_internal_spec(*ctx, importer@, specifier@),
{
    if str_starts_with_char(specifier, '.') || str_starts_with_char(specifier, '/') {
        return true;
    }
    let web = web_extensions();
    if let Some(idx) = nearest_tsconfig(ctx, importer) {
        let cfg = &ctx.tsconfigs[idx];
        proof {
            assert(cfg.compiler_options.wf());
        }
        let n = cfg.compiler_options.paths.len();
        let mut k: usize = 0;
        while k < n
            invariant
                cfg.compiler_options.wf(),
                n == cfg.compiler_options.paths.keys().len(),
                k <= n,
                forall|x: int| 0 <= x < k ==> #[trigger] match_alias_spec(cfg.compiler_options.paths.keys()[x], specifier@) is None,
                nearest_tsconfig_spec(*ctx, importer@) == Some(idx as int),
                *cfg == ctx.tsconfigs@[idx as int],
                !is_relative_or_absolute(specifier@),
            decreases n - k,
        {
            if match_alias(cfg.compiler_options.paths.key_at(k).as_str(), specifier).is_some() {
                proof {
                    assert(match_alias_spec(cfg.compiler_options.paths.keys()[k as int], specifier@) is Some);
                    assert(any_pattern_matches(*cfg, specifier@));
                }
                return true;
            }
            k = k + 1;
        }
        if resolve_tsconfig_base_url(ctx, cfg, specifier, &web).is_some() {
            return true;
        }
    }
    if str_starts_with_char(specifier, '#') && nearest_package(ctx, importer).is_some() {
        return true;
    }
    proof {
        reveal_strlit("@/");
        assert("@/"@ =~= seq!['@', '/']);
    }
    if str_starts_with(specifier, "@/") || str_starts_with_char(specifier, '~') {
        return true;
    }
    match package_specifier_parts(specifier) {
        Some((name, _)) => ctx.package_by_name.find(name.as_str()).is_some(),
        None => false,
    }
}

} // verus!
