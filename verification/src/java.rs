//! Java import resolution: a class through the file whose path ends with
//! its package path, a wildcard import through a file of its package.
use vstd::prelude::*;

use crate::collections::opt_str;
use crate::python::dots_to_slashes;
use crate::resolve::ResolveCtx;
use crate::ruby::{index_get, index_lookup};
use crate::text::{chars_of, chars_ends_with, concat, ends_with, replace_all_char, string_of, sub_chars};

verus! {

/// `s` without its trailing repetitions of `p`.
pub open spec fn trim_trailing(s: Seq<char>, p: Seq<char>) -> Seq<char>
    decreases s.len(),
{
    if p.len() > 0 && ends_with(s, p) {
        trim_trailing(s.take(s.len() - p.len()), p)
    } else {
        s
    }
}

pub open spec fn wildcard_suffix() -> Seq<char> {
    seq!['.', '*']
}

/// Where a Java import resolves: `pkg.*` to the first file of the package
/// directory, `pkg.Class` to the file `pkg/Class.java`, each by the end of
/// the file's path.
pub open spec fn java_import_spec(ctx: ResolveCtx, specifier: Seq<char>) -> Option<Seq<char>> {
    if ends_with(specifier, wildcard_suffix()) {
        index_lookup(ctx.java_package_index, dots_to_slashes(trim_trailing(specifier, wildcard_suffix())))
    } else {
        index_lookup(ctx.suffix_index, dots_to_slashes(specifier) + seq!['.', 'j', 'a', 'v', 'a'])
    }
}

fn trim_trailing_exec(s: &str, p: &str) -> (r: String)
    ensures
        r@ == trim_trailing(s@, p@),
{
    let mut v = chars_of(s);
    let pv = chars_of(p);
    if pv.len() == 0 {
        return string_of(v.as_slice());
    }
    while chars_ends_with(v.as_slice(), pv.as_slice())
        invariant
            pv@ == p@,
            pv@.len() > 0,
            trim_trailing(s@, p@) == trim_trailing(v@, p@),
        decreases v@.len(),
    {
        let cut = v.len() - pv.len();
        let shorter = sub_chars(v.as_slice(), 0, cut);
        proof {
            assert(shorter@ =~= v@.take(cut as int));
        }
        v = shorter;
    }
    string_of(v.as_slice())
}

/// Resolve an import of a Java file.
pub fn resolve_java_import(ctx: &ResolveCtx, specifier: &str) -> (r: Option<String>)
    requires
        ctx.wf(),
    ensures
        opt_str(r) == java_import_spec(*ctx, specifier@),
{
    proof {
        reveal_strlit(".*");
        reveal_strlit("/");
        reveal_strlit(".java");
        assert(".*"@ =~= wildcard_suffix());
        assert("/"@ =~= seq!['/']);
        assert(".java"@ =~= seq!['.', 'j', 'a', 'v', 'a']);
    }
    let v = chars_of(specifier);
    let w = chars_of(".*");
    if chars_ends_with(v.as_slice(), w.as_slice()) {
        let package = trim_trailing_exec(specifier, ".*");
        let package_path = replace_all_char(package.as_str(), '.', "/");
        return index_get(&ctx.java_package_index, package_path.as_str());
    }
    let path = replace_all_char(specifier, '.', "/");
    let key = concat(path.as_str(), ".java");
    index_get(&ctx.suffix_index, key.as_str())
}

} // verus!
