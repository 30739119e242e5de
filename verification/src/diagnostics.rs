//! Internal imports that resolve to no file: which count, and, on request,
//! the explanation grouped by likely cause.
use vstd::prelude::*;

use crate::analyze::{relative_label, relative_label_spec, ResolutionCache};
use crate::collections::{sorted, str_views, StrSet};
use crate::facts::{ImportFact, ModuleFacts};
use crate::language::{internal_spec, resolution_spec};
use crate::resolve::Resolution;
use crate::text::{
    chars_of, concat, concat3, contains_seq, decimal, ends_with, owned, starts_with, str_contains, str_ends_with, str_starts_with,
    sub_string, usize_to_string,
};

verus! {

// ---------------------------------------------------------------------------
// Which unresolved imports count
// ---------------------------------------------------------------------------

pub open spec fn is_stop(c: char) -> bool {
    c == '?' || c == '#'
}

/// `i` is where the path part of an import specifier ends: at its first `?`
/// or `#`, else at its end.
pub open spec fn path_end(s: Seq<char>, i: int) -> bool {
    &&& 0 <= i <= s.len()
    &&& forall|k: int| 0 <= k < i ==> !is_stop(#[trigger] s[k])
    &&& (i == s.len() || is_stop(s[i]))
}

/// The specifier without its query or hash suffix (`./logo.svg?react`).
pub open spec fn path_part(s: Seq<char>) -> Seq<char> {
    s.take(choose|i: int| path_end(s, i))
}

/// File extensions of assets and data rather than code.
pub open spec fn non_code_extensions() -> Seq<Seq<char>> {
    seq![
        ".svg"@, ".png"@, ".jpg"@, ".jpeg"@, ".gif"@, ".webp"@, ".avif"@, ".css"@, ".scss"@, ".sass"@, ".less"@,
        ".json"@, ".yaml"@, ".yml"@, ".md"@, ".mdx"@,
    ]
}

pub open spec fn is_non_code(path: Seq<char>) -> bool {
    exists|k: int| 0 <= k < non_code_extensions().len() && ends_with(path, #[trigger] non_code_extensions()[k])
}

pub open spec fn is_ignored(source: Seq<char>, ignore: Seq<Seq<char>>) -> bool {
    exists|k: int| 0 <= k < ignore.len() && contains_seq(source, #[trigger] ignore[k])
}

/// An unresolved import counts unless it is type-only, names an asset or
/// data file, or matches one of the repository's ignore patterns.
pub open spec fn counts_spec(imp: ImportFact, ignore: Seq<Seq<char>>) -> bool {
    !imp.type_only && !is_non_code(path_part(imp.source@)) && !is_ignored(imp.source@, ignore)
}

proof fn lemma_path_end_unique(s: Seq<char>, i: int, j: int)
    requires
        path_end(s, i),
        path_end(s, j),
    ensures
        i == j,
{
    if i < j {
        assert(!is_stop(s[i]));
    } else if j < i {
        assert(!is_stop(s[j]));
    }
}

fn non_code_extension_list() -> (r: Vec<&'static str>)
    ensures
        r@.map_values(|e: &str| e@) == non_code_extensions(),
{
    let r = vec![
        ".svg", ".png", ".jpg", ".jpeg", ".gif", ".webp", ".avif", ".css", ".scss", ".sass", ".less", ".json", ".yaml", ".yml", ".md",
        ".mdx",
    ];
    assert(r@.map_values(|e: &str| e@) =~= non_code_extensions());
    r
}

/// The part of `source` before its first `?` or `#`.
pub fn path_part_of(source: &str) -> (r: String)
    ensures
        r@ == path_part(source@),
{
    let cs = chars_of(source);
    let mut i: usize = 0;
    while i < cs.len()
        invariant
            i <= cs@.len(),
            cs@ == source@,
            forall|k: int| 0 <= k < i ==> !is_stop(#[trigger] cs@[k]),
        ensures
            path_end(source@, i as int),
        decreases cs.len() - i,
    {
        if cs[i] == '?' || cs[i] == '#' {
            break;
        }
        i = i + 1;
    }
    proof {
        let j = choose|j: int| path_end(source@, j);
        lemma_path_end_unique(source@, i as int, j);
    }
    sub_string(cs.as_slice(), 0, i)
}

/// Whether an unresolved `import` should count against the repository,
/// given its ignore patterns.
pub fn should_count_unresolved_import(import: &ImportFact, ignore: &Vec<String>) -> (r: bool)
    ensures
        r == counts_spec(*import, str_views(ignore@)),
{
    if import.type_only {
        return false;
    }
    let path = path_part_of(import.source.as_str());
    let exts = non_code_extension_list();
    let mut k: usize = 0;
    while k < exts.len()
        invariant
            k <= exts@.len(),
            exts@.map_values(|e: &str| e@) == non_code_extensions(),
            path@ == path_part(import.source@),
            forall|j: int| 0 <= j < k ==> !ends_with(path@, #[trigger] non_code_extensions()[j]),
        decreases exts.len() - k,
    {
        if str_ends_with(path.as_str(), exts[k]) {
            assert(non_code_extensions()[k as int] == exts@[k as int]@);
            return false;
        }
        k = k + 1;
    }
    let mut k: usize = 0;
    while k < ignore.len()
        invariant
            k <= ignore@.len(),
            forall|j: int| 0 <= j < k ==> !contains_seq(import.source@, #[trigger] str_views(ignore@)[j]),
        decreases ignore.len() - k,
    {
        if str_contains(import.source.as_str(), ignore[k].as_str()) {
            assert(str_views(ignore@)[k as int] == ignore@[k as int]@);
            return false;
        }
        k = k + 1;
    }
    true
}

/// The likely cause of an internal specifier resolving to nothing.
pub open spec fn unresolved_reason_spec(s: Seq<char>) -> Seq<char> {
    if starts_with(s, "."@) || starts_with(s, "/"@) {
        "relative or absolute path"@
    } else if starts_with(s, "#"@) {
        "package.json imports"@
    } else if starts_with(s, "~"@) {
        "path alias not configured (add it to tsconfig/jsconfig paths, or .blast-radius.json)"@
    } else if starts_with(s, "@"@) {
        "tsconfig paths or workspace package export"@
    } else {
        "workspace package export or tsconfig baseUrl"@
    }
}

pub fn unresolved_reason(specifier: &str) -> (r: String)
    ensures
        r@ == unresolved_reason_spec(specifier@),
{
    if str_starts_with(specifier, ".") || str_starts_with(specifier, "/") {
        owned("relative or absolute path")
    } else if str_starts_with(specifier, "#") {
        owned("package.json imports")
    } else if str_starts_with(specifier, "~") {
        owned("path alias not configured (add it to tsconfig/jsconfig paths, or .blast-radius.json)")
    } else if str_starts_with(specifier, "@") {
        owned("tsconfig paths or workspace package export")
    } else {
        owned("workspace package export or tsconfig baseUrl")
    }
}

// ---------------------------------------------------------------------------
// The unresolved imports of a repository
// ---------------------------------------------------------------------------

/// The import counts, refers into the repository and resolves to no file.
pub open spec fn is_unresolved_hit(ctx: crate::resolve::ResolveCtx, file: Seq<char>, imp: ImportFact, ignore: Seq<Seq<char>>) -> bool {
    counts_spec(imp, ignore) && internal_spec(ctx, file, imp.source@) && resolution_spec(ctx, file, imp.source@) is None
}

/// The unresolved imports among the first `k` imports of `m`, as
/// (specifier, importing file).
pub open spec fn module_hits(ctx: crate::resolve::ResolveCtx, m: ModuleFacts, ignore: Seq<Seq<char>>, k: nat) -> Seq<(Seq<char>, Seq<char>)>
    decreases k,
{
    if k == 0 {
        Seq::empty()
    } else {
        let rest = module_hits(ctx, m, ignore, (k - 1) as nat);
        let imp = m.imports@[k - 1];
        if is_unresolved_hit(ctx, m.file@, imp, ignore) {
            rest.push((imp.source@, m.file@))
        } else {
            rest
        }
    }
}

/// The unresolved imports of the first `n` modules, in order.
pub open spec fn unresolved_hits(ctx: crate::resolve::ResolveCtx, ms: Seq<ModuleFacts>, ignore: Seq<Seq<char>>, n: nat) -> Seq<(Seq<char>, Seq<char>)>
    decreases n,
{
    if n == 0 {
        Seq::empty()
    } else {
        let m = ms[n - 1];
        unresolved_hits(ctx, ms, ignore, (n - 1) as nat) + module_hits(ctx, m, ignore, m.imports@.len())
    }
}

/// How often the specifier `s` occurs among the hits.
pub open spec fn occurrences(h: Seq<(Seq<char>, Seq<char>)>, s: Seq<char>) -> nat
    decreases h.len(),
{
    if h.len() == 0 {
        0
    } else {
        occurrences(h.drop_last(), s) + if h.last().0 == s { 1nat } else { 0nat }
    }
}

/// The importer of the first hit on `s`.
pub open spec fn first_importer(h: Seq<(Seq<char>, Seq<char>)>, s: Seq<char>) -> Seq<char> {
    let j = choose|j: int| 0 <= j < h.len() && h[j].0 == s && forall|k: int| 0 <= k < j ==> (#[trigger] h[k]).0 != s;
    h[j].1
}

/// The likely causes among the hits.
pub open spec fn hit_reasons(h: Seq<(Seq<char>, Seq<char>)>) -> Set<Seq<char>> {
    Set::new(|r: Seq<char>| exists|j: int| 0 <= j < h.len() && unresolved_reason_spec(#[trigger] h[j].0) == r)
}

/// The specifiers among the hits with cause `r`.
pub open spec fn reason_specifiers(h: Seq<(Seq<char>, Seq<char>)>, r: Seq<char>) -> Set<Seq<char>> {
    Set::new(|s: Seq<char>| exists|j: int| 0 <= j < h.len() && #[trigger] h[j].0 == s && unresolved_reason_spec(s) == r)
}

/// The elements of `s` in ascending order.
pub open spec fn ascending(s: Set<Seq<char>>) -> Seq<Seq<char>> {
    choose|l: Seq<Seq<char>>| sorted(l) && l.to_set() == s
}

pub open spec fn plural(n: nat) -> Seq<char> {
    if n == 1 { ""@ } else { "s"@ }
}

pub open spec fn explain_header(n: nat) -> Seq<char> {
    "unresolved import details: "@ + decimal(n) + " internal import"@ + plural(n) + " could not be resolved"@
}

pub open spec fn reason_line(r: Seq<char>) -> Seq<char> {
    "unresolved imports \u{b7} "@ + r + ":"@
}

pub open spec fn specifier_line(s: Seq<char>, count: nat, example: Seq<char>) -> Seq<char> {
    "  "@ + s + " ("@ + decimal(count) + " occurrence"@ + plural(count) + ", e.g. "@ + example + ")"@
}

/// The lines for one cause: its heading, then each of its specifiers in
/// order with its count and the first file that imports it.
pub open spec fn reason_lines(h: Seq<(Seq<char>, Seq<char>)>, root: Seq<char>, r: Seq<char>) -> Seq<Seq<char>> {
    seq![reason_line(r)] + ascending(reason_specifiers(h, r)).map_values(
        |s: Seq<char>| specifier_line(s, occurrences(h, s), relative_label_spec(root, first_importer(h, s))),
    )
}

pub open spec fn concat_lines(groups: Seq<Seq<Seq<char>>>) -> Seq<Seq<char>>
    decreases groups.len(),
{
    if groups.len() == 0 {
        Seq::empty()
    } else {
        concat_lines(groups.drop_last()) + groups.last()
    }
}

/// The explanation of the hits: a header with their number, then each cause
/// in order with its lines.
pub open spec fn explain_lines(h: Seq<(Seq<char>, Seq<char>)>, root: Seq<char>) -> Seq<Seq<char>> {
    seq![explain_header(h.len())] + concat_lines(ascending(hit_reasons(h)).map_values(|r: Seq<char>| reason_lines(h, root, r)))
}

pub struct UnresolvedDiagnostics {
    pub count: usize,
    pub warnings: Vec<String>,
}

/// Collects the unresolved imports of the first `n` modules.
fn collect_hits(modules: &Vec<ModuleFacts>, cache: &mut ResolutionCache, ignore: &Vec<String>) -> (r: Vec<(String, String)>)
    requires
        old(cache).wf(),
    ensures
        final(cache).wf(),
        final(cache).ctx() == old(cache).ctx(),
        r@.map_values(|p: (String, String)| (p.0@, p.1@)) == unresolved_hits(old(cache).ctx(), modules@, str_views(ignore@), modules@.len()),
{
    let ghost ctx = cache.ctx();
    let ghost ig = str_views(ignore@);
    let mut hits: Vec<(String, String)> = Vec::new();
    let mut i: usize = 0;
    proof {
        assert(hits@.map_values(|p: (String, String)| (p.0@, p.1@)) =~= Seq::<(Seq<char>, Seq<char>)>::empty());
    }
    while i < modules.len()
        invariant
            i <= modules@.len(),
            cache.wf(),
            cache.ctx() == ctx,
            ig == str_views(ignore@),
            hits@.map_values(|p: (String, String)| (p.0@, p.1@)) == unresolved_hits(ctx, modules@, ig, i as nat),
        decreases modules.len() - i,
    {
        let m = &modules[i];
        let ghost base = hits@.map_values(|p: (String, String)| (p.0@, p.1@));
        let mut k: usize = 0;
        proof {
            assert(base + module_hits(ctx, *m, ig, 0) =~= base);
        }
        while k < m.imports.len()
            invariant
                k <= m.imports@.len(),
                cache.wf(),
                cache.ctx() == ctx,
                ig == str_views(ignore@),
                hits@.map_values(|p: (String, String)| (p.0@, p.1@)) == base + module_hits(ctx, *m, ig, k as nat),
            decreases m.imports.len() - k,
        {
            let imp = &m.imports[k];
            if should_count_unresolved_import(imp, ignore) && cache.is_internal_specifier(m.file.as_str(), imp.source.as_str()) {
                let res = cache.resolve(m.file.as_str(), imp.source.as_str());
                if let Resolution::Unresolved = res {
                    let ghost before = hits@;
                    hits.push((imp.source.clone(), m.file.clone()));
                    proof {
                        assert(hits@.map_values(|p: (String, String)| (p.0@, p.1@)) =~= before.map_values(
                            |p: (String, String)| (p.0@, p.1@),
                        ).push((imp.source@, m.file@)));
                    }
                }
            }
            proof {
                assert(base + module_hits(ctx, *m, ig, (k + 1) as nat) =~= if is_unresolved_hit(ctx, m.file@, *imp, ig) {
                    (base + module_hits(ctx, *m, ig, k as nat)).push((imp.source@, m.file@))
                } else {
                    base + module_hits(ctx, *m, ig, k as nat)
                });
            }
            k = k + 1;
        }
        i = i + 1;
    }
    hits
}

pub open spec fn hit_views(h: Seq<(String, String)>) -> Seq<(Seq<char>, Seq<char>)> {
    h.map_values(|p: (String, String)| (p.0@, p.1@))
}

pub proof fn lemma_ascending(l: Seq<Seq<char>>, s: Set<Seq<char>>)
    requires
        sorted(l),
        l.to_set() == s,
    ensures
        ascending(s) == l,
{
    let a = ascending(s);
    assert(sorted(a) && a.to_set() == s);
    crate::collections::lemma_sorted_unique(a, l);
}

fn count_occurrences(h: &Vec<(String, String)>, s: &String) -> (r: usize)
    ensures
        r == occurrences(hit_views(h@), s@),
{
    let ghost hv = hit_views(h@);
    let mut c: usize = 0;
    let mut j: usize = 0;
    while j < h.len()
        invariant
            j <= h@.len(),
            hv == hit_views(h@),
            c == occurrences(hv.take(j as int), s@),
            c <= j,
        decreases h.len() - j,
    {
        proof {
            assert(hv.take(j + 1).drop_last() =~= hv.take(j as int));
        }
        if crate::text::str_eq(h[j].0.as_str(), s.as_str()) {
            c = c + 1;
        }
        j = j + 1;
    }
    proof {
        assert(hv.take(h@.len() as int) =~= hv);
    }
    c
}

fn first_importer_of(h: &Vec<(String, String)>, s: &String) -> (r: String)
    requires
        exists|j: int| 0 <= j < h@.len() && (#[trigger] h@[j]).0@ == s@,
    ensures
        r@ == first_importer(hit_views(h@), s@),
{
    let ghost hv = hit_views(h@);
    let mut j: usize = 0;
    while j < h.len()
        invariant
            j <= h@.len(),
            hv == hit_views(h@),
            forall|k: int| 0 <= k < j ==> (#[trigger] hv[k]).0 != s@,
        decreases h.len() - j,
    {
        if crate::text::str_eq(h[j].0.as_str(), s.as_str()) {
            proof {
                let c = choose|c: int| 0 <= c < hv.len() && hv[c].0 == s@ && forall|k: int| 0 <= k < c ==> (#[trigger] hv[k]).0 != s@;
                assert(hv[j as int].0 == s@);
                if c < j {
                    assert(hv[c].0 != s@);
                } else if j < c {
                    assert(hv[j as int].0 != s@);
                }
            }
            return h[j].1.clone();
        }
        j = j + 1;
    }
    proof {
        let w = choose|w: int| 0 <= w < h@.len() && (#[trigger] h@[w]).0@ == s@;
        assert(hv[w].0 == s@);
    }
    h[0].1.clone()
}

pub fn plural_of(n: usize) -> (r: &'static str)
    ensures
        r@ == plural(n as nat),
{
    proof {
        reveal_strlit("");
        reveal_strlit("s");
    }
    if n == 1 { "" } else { "s" }
}

/// The explanation lines for the unresolved imports `h`.
fn explain(h: &Vec<(String, String)>, repo_root: &str) -> (r: Vec<String>)
    ensures
        str_views(r@) == explain_lines(hit_views(h@), repo_root@),
{
    let ghost hv = hit_views(h@);
    // the causes, in order
    let mut reasons = StrSet::new();
    let mut j: usize = 0;
    proof {
        assert(reasons.set() =~= Set::new(|r: Seq<char>| exists|x: int| 0 <= x < 0 && unresolved_reason_spec(#[trigger] hv[x].0) == r));
    }
    while j < h.len()
        invariant
            j <= h@.len(),
            hv == hit_views(h@),
            reasons.wf(),
            reasons.set() == Set::new(|r: Seq<char>| exists|x: int| 0 <= x < j && unresolved_reason_spec(#[trigger] hv[x].0) == r),
        decreases h.len() - j,
    {
        let ghost before = reasons.set();
        reasons.insert(unresolved_reason(h[j].0.as_str()));
        proof {
            assert(hv[j as int].0 == h@[j as int].0@);
            assert(reasons.set() =~= Set::new(|r: Seq<char>| exists|x: int| 0 <= x < j + 1 && unresolved_reason_spec(#[trigger] hv[x].0) == r)) by {
                assert forall|r: Seq<char>| #[trigger] reasons.set().contains(r) implies exists|x: int| 0 <= x < j + 1 && unresolved_reason_spec(#[trigger] hv[x].0) == r by {
                    if !before.contains(r) {
                        assert(unresolved_reason_spec(hv[j as int].0) == r);
                    }
                }
                assert forall|r: Seq<char>| (exists|x: int| 0 <= x < j + 1 && unresolved_reason_spec(#[trigger] hv[x].0) == r) implies #[trigger] reasons.set().contains(r) by {
                    let x = choose|x: int| 0 <= x < j + 1 && unresolved_reason_spec(#[trigger] hv[x].0) == r;
                    if x < j {
                        assert(before.contains(r));
                    }
                }
            }
        }
        j = j + 1;
    }
    proof {
        assert(reasons.set() =~= hit_reasons(hv));
        lemma_ascending(reasons@, hit_reasons(hv));
    }
    let ghost groups = reasons@.map_values(|r: Seq<char>| reason_lines(hv, repo_root@, r));
    let count = usize_to_string(h.len());
    let header = concat(concat3("unresolved import details: ", count.as_str(), " internal import").as_str(), concat(plural_of(h.len()), " could not be resolved").as_str());
    proof {
        assert(header@ =~= explain_header(hv.len()));
    }
    let mut out: Vec<String> = vec![header];
    let mut t: usize = 0;
    proof {
        assert(str_views(out@) =~= seq![explain_header(hv.len())] + concat_lines(groups.take(0)));
    }
    while t < reasons.len()
        invariant
            t <= reasons@.len(),
            hv == hit_views(h@),
            reasons.wf(),
            reasons@ == ascending(hit_reasons(hv)),
            groups == reasons@.map_values(|r: Seq<char>| reason_lines(hv, repo_root@, r)),
            str_views(out@) == seq![explain_header(hv.len())] + concat_lines(groups.take(t as int)),
        decreases reasons@.len() - t,
    {
        let reason = reasons.get(t);
        let ghost rv = reason@;
        let ghost lines_before = str_views(out@);
        out.push(concat3("unresolved imports \u{b7} ", reason.as_str(), ":"));
        // the specifiers with this cause, in order
        let mut specs = StrSet::new();
        let mut j: usize = 0;
        proof {
            assert(specs.set() =~= Set::new(|s: Seq<char>| exists|x: int| 0 <= x < 0 && #[trigger] hv[x].0 == s && unresolved_reason_spec(s) == rv));
        }
        while j < h.len()
            invariant
                j <= h@.len(),
                hv == hit_views(h@),
                rv == reason@,
                specs.wf(),
                specs.set() == Set::new(|s: Seq<char>| exists|x: int| 0 <= x < j && #[trigger] hv[x].0 == s && unresolved_reason_spec(s) == rv),
            decreases h.len() - j,
        {
            let ghost before = specs.set();
            let r = unresolved_reason(h[j].0.as_str());
            if crate::text::str_eq(r.as_str(), reason.as_str()) {
                specs.insert(h[j].0.clone());
            }
            proof {
                assert(hv[j as int].0 == h@[j as int].0@);
                assert(specs.set() =~= Set::new(|s: Seq<char>| exists|x: int| 0 <= x < j + 1 && #[trigger] hv[x].0 == s && unresolved_reason_spec(s) == rv)) by {
                    assert forall|s: Seq<char>| #[trigger] specs.set().contains(s) implies exists|x: int| 0 <= x < j + 1 && #[trigger] hv[x].0 == s && unresolved_reason_spec(s) == rv by {
                        if !before.contains(s) {
                            assert(hv[j as int].0 == s);
                        }
                    }
                    assert forall|s: Seq<char>| (exists|x: int| 0 <= x < j + 1 && #[trigger] hv[x].0 == s && unresolved_reason_spec(s) == rv) implies #[trigger] specs.set().contains(s) by {
                        let x = choose|x: int| 0 <= x < j + 1 && #[trigger] hv[x].0 == s && unresolved_reason_spec(s) == rv;
                        if x < j {
                            assert(before.contains(s));
                        }
                    }
                }
            }
            j = j + 1;
        }
        proof {
            assert(specs.set() =~= reason_specifiers(hv, rv));
            lemma_ascending(specs@, reason_specifiers(hv, rv));
        }
        let ghost entries = specs@.map_values(
            |s: Seq<char>| specifier_line(s, occurrences(hv, s), relative_label_spec(repo_root@, first_importer(hv, s))),
        );
        let mut q: usize = 0;
        proof {
            assert(str_views(out@) =~= lines_before + seq![reason_line(rv)] + entries.take(0));
        }
        while q < specs.len()
            invariant
                q <= specs@.len(),
                hv == hit_views(h@),
                specs.wf(),
                specs.set() == reason_specifiers(hv, rv),
                entries == specs@.map_values(
                    |s: Seq<char>| specifier_line(s, occurrences(hv, s), relative_label_spec(repo_root@, first_importer(hv, s))),
                ),
                str_views(out@) == lines_before + seq![reason_line(rv)] + entries.take(q as int),
            decreases specs@.len() - q,
        {
            let spec = specs.get(q);
            proof {
                assert(specs@.to_set().contains(specs@[q as int]));
                let x = choose|x: int| 0 <= x < hv.len() && #[trigger] hv[x].0 == spec@ && unresolved_reason_spec(spec@) == rv;
                assert(h@[x].0@ == spec@);
            }
            let c = count_occurrences(h, spec);
            let importer = first_importer_of(h, spec);
            let label = relative_label(repo_root, importer.as_str());
            let cs = usize_to_string(c);
            let line = concat(
                concat(concat3("  ", spec.as_str(), " (").as_str(), concat3(cs.as_str(), " occurrence", plural_of(c)).as_str()).as_str(),
                concat3(", e.g. ", label.as_str(), ")").as_str(),
            );
            let ghost before = str_views(out@);
            out.push(line);
            proof {
                assert(line@ =~= entries[q as int]);
                assert(entries.take(q + 1) =~= entries.take(q as int).push(entries[q as int]));
                assert(str_views(out@) =~= before.push(line@));
            }
            q = q + 1;
        }
        proof {
            assert(entries.take(specs@.len() as int) =~= entries);
            assert(groups[t as int] == reason_lines(hv, repo_root@, rv));
            assert(groups.take(t + 1).drop_last() =~= groups.take(t as int));
            assert(str_views(out@) =~= seq![explain_header(hv.len())] + concat_lines(groups.take(t + 1)));
        }
        t = t + 1;
    }
    proof {
        assert(groups.take(reasons@.len() as int) =~= groups);
    }
    out
}

/// The unresolved internal imports of the repository: how many there are
/// and, when `explain` is set and there are any, the explanation lines.
pub fn unresolved_import_diagnostics(
    modules: &Vec<ModuleFacts>,
    cache: &mut ResolutionCache,
    ignore: &Vec<String>,
    repo_root: &str,
    explain_unresolved: bool,
) -> (r: UnresolvedDiagnostics)
    requires
        old(cache).wf(),
    ensures
        final(cache).wf(),
        final(cache).ctx() == old(cache).ctx(),
        ({
            let h = unresolved_hits(old(cache).ctx(), modules@, str_views(ignore@), modules@.len());
            &&& r.count == h.len()
            &&& str_views(r.warnings@) == if explain_unresolved && h.len() > 0 {
                explain_lines(h, repo_root@)
            } else {
                Seq::empty()
            }
        }),
{
    let hits = collect_hits(modules, cache, ignore);
    let count = hits.len();
    let warnings = if explain_unresolved && count > 0 {
        explain(&hits, repo_root)
    } else {
        Vec::new()
    };
    proof {
        if !(explain_unresolved && count > 0) {
            assert(str_views(warnings@) =~= Seq::<Seq<char>>::empty());
        }
    }
    UnresolvedDiagnostics { count, warnings }
}

} // verus!
