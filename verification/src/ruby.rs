//! Ruby `require` resolution: relative requires from the importer, then the
//! repository root, `lib` and `app`, then any file whose path ends with the
//! required one.
use vstd::prelude::*;

use crate::collections::{opt_str, str_views, StrMap};
use crate::javascript::importer_dir;
use crate::paths::{join_clean, join_clean_spec, parent};
use crate::resolve::{first_resolved, try_candidate_spec, ResolveCtx};
use crate::text::{concat, owned, str_starts_with_char};

verus! {

pub open spec fn rb_extensions() -> Seq<Seq<char>> {
    seq![seq!['r', 'b']]
}

/// What an index map holds under `key`.
pub open spec fn index_lookup(m: StrMap<String>, key: Seq<char>) -> Option<Seq<char>> {
    if m.as_map().contains_key(key) {
        Some(m.as_map()[key]@)
    } else {
        None
    }
}

pub fn index_get(m: &StrMap<String>, key: &str) -> (r: Option<String>)
    requires
        m.wf(),
    ensures
        opt_str(r) == index_lookup(*m, key@),
{
    match m.get(key) {
        Some(v) => Some(v.clone()),
        None => None,
    }
}

/// Where a Ruby `require` resolves.
pub open spec fn ruby_import_spec(ctx: ResolveCtx, importer: Seq<char>, specifier: Seq<char>) -> Option<Seq<char>> {
    if specifier.len() > 0 && specifier[0] == '.' {
        try_candidate_spec(ctx.files(), join_clean_spec(importer_dir(ctx, importer), specifier), rb_extensions())
    } else {
        let root = ctx.repo_root@;
        match first_resolved(
            ctx.files(),
            seq![
                join_clean_spec(root, specifier),
                join_clean_spec(join_clean_spec(root, seq!['l', 'i', 'b']), specifier),
                join_clean_spec(join_clean_spec(root, seq!['a', 'p', 'p']), specifier)
            ],
            rb_extensions(),
        ) {
            Some(p) => Some(p),
            None => index_lookup(ctx.suffix_index, specifier + seq!['.', 'r', 'b']),
        }
    }
}

fn rb_extension_list() -> (r: Vec<String>)
    ensures
        str_views(r@) == rb_extensions(),
{
    proof {
        reveal_strlit("rb");
        assert("rb"@ =~= seq!['r', 'b']);
    }
    let r = vec![owned("rb")];
    proof {
        assert(str_views(r@) =~= rb_extensions());
    }
    r
}

/// Resolve a `require` of a Ruby file.
pub fn resolve_ruby_import(ctx: &ResolveCtx, importer: &str, specifier: &str) -> (r: Option<String>)
    requires
        ctx.wf(),
    ensures
        opt_str(r) == ruby_import_spec(*ctx, importer@, specifier@),
{
    let exts = rb_extension_list();
    if str_starts_with_char(specifier, '.') {
        let base = match parent(importer) {
            Some(p) => p,
            None => ctx.repo_root.clone(),
        };
        let candidate = join_clean(base.as_str(), specifier);
        return ctx.try_resolve_candidate(candidate.as_str(), &exts);
    }
    proof {
        reveal_strlit("lib");
        reveal_strlit("app");
        reveal_strlit(".rb");
        assert("lib"@ =~= seq!['l', 'i', 'b']);
        assert("app"@ =~= seq!['a', 'p', 'p']);
        assert(".rb"@ =~= seq!['.', 'r', 'b']);
    }
    let lib = join_clean(ctx.repo_root.as_str(), "lib");
    let app = join_clean(ctx.repo_root.as_str(), "app");
    let candidates = vec![
        join_clean(ctx.repo_root.as_str(), specifier),
        join_clean(lib.as_str(), specifier),
        join_clean(app.as_str(), specifier),
    ];
    proof {
        let root = ctx.repo_root@;
        assert(str_views(candidates@) =~= seq![
            join_clean_spec(root, specifier@),
            join_clean_spec(join_clean_spec(root, seq!['l', 'i', 'b']), specifier@),
            join_clean_spec(join_clean_spec(root, seq!['a', 'p', 'p']), specifier@)
        ]);
    }
    if let Some(path) = ctx.first_resolved_exec(&candidates, &exts) {
        return Some(path);
    }
    let key = concat(specifier, ".rb");
    index_get(&ctx.suffix_index, key.as_str())
}

/// Whether a Ruby `require` refers into the repository.
pub fn is_internal_ruby_specifier(ctx: &ResolveCtx, importer: &str, specifier: &str) -> (r: bool)
    requires
        ctx.wf(),
    ensures
        r == ((specifier@.len() > 0 && specifier@[0] == '.') || ruby_import_spec(*ctx, importer@, specifier@) is Some),
{
    str_starts_with_char(specifier, '.') || resolve_ruby_import(ctx, importer, specifier).is_some()
}

} // verus!
