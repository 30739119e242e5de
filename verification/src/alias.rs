//! Wildcard patterns of `tsconfig` `paths` and package `exports`/`imports`
//! maps, and the split of a bare package specifier.
use vstd::prelude::*;

use crate::collections::str_views;
use crate::text::{
    chars_of, chars_ends_with, chars_starts_with, ends_with, find_char, first_pos, owned, starts_with,
    string_of, sub_chars, sub_string,
};

verus! {

/// The capture of `pattern` (at most one `*`) against `specifier`:
/// `Some([])` for an exact pattern that equals it, `Some([middle])` for a
/// wildcard pattern whose literal prefix and suffix enclose it without
/// overlapping, `None` otherwise.
pub open spec fn match_alias_spec(pattern: Seq<char>, specifier: Seq<char>) -> Option<Seq<Seq<char>>> {
    if pattern.contains('*') {
        let i = first_pos(pattern, '*');
        let prefix = pattern.take(i);
        let suffix = pattern.skip(i + 1);
        if specifier.len() >= prefix.len() + suffix.len() && starts_with(specifier, prefix) && ends_with(
            specifier,
            suffix,
        ) {
            Some(seq![specifier.subrange(prefix.len() as int, specifier.len() - suffix.len())])
        } else {
            None
        }
    } else if pattern == specifier {
        Some(Seq::empty())
    } else {
        None
    }
}

/// Match an alias pattern against a specifier.
pub fn match_alias(pattern: &str, specifier: &str) -> (r: Option<Vec<String>>)
    ensures
        r matches Some(c) ==> match_alias_spec(pattern@, specifier@) == Some(str_views(c@)),
        r is None ==> match_alias_spec(pattern@, specifier@) is None,
{
    let p = chars_of(pattern);
    let s = chars_of(specifier);
    match find_char(p.as_slice(), '*') {
        Some(i) => {
            assert(i < p.len());
            let prefix = sub_chars(p.as_slice(), 0, i);
            let suffix = sub_chars(p.as_slice(), i + 1, p.len());
            proof {
                assert(p@.subrange(0, i as int) =~= p@.take(i as int));
                assert(p@.subrange(i + 1, p@.len() as int) =~= p@.skip(i + 1));
            }
            if s.len() >= prefix.len() + suffix.len() && chars_starts_with(s.as_slice(), prefix.as_slice())
                && chars_ends_with(s.as_slice(), suffix.as_slice()) {
                let middle = sub_string(s.as_slice(), prefix.len(), s.len() - suffix.len());
                let mut out: Vec<String> = Vec::new();
                out.push(middle);
                proof {
                    assert(str_views(out@) =~= seq![s@.subrange(prefix@.len() as int, s@.len() - suffix@.len())]);
                }
                Some(out)
            } else {
                None
            }
        },
        None => {
            if crate::text::chars_eq(p.as_slice(), s.as_slice()) {
                let out: Vec<String> = Vec::new();
                proof {
                    assert(str_views(out@) =~= Seq::<Seq<char>>::empty());
                }
                Some(out)
            } else {
                None
            }
        },
    }
}

/// `s` with its first `*` replaced by `c` (unchanged without a `*`).
pub open spec fn replace_first_star(s: Seq<char>, c: Seq<char>) -> Seq<char> {
    if s.contains('*') {
        let i = first_pos(s, '*');
        s.take(i) + c + s.skip(i + 1)
    } else {
        s
    }
}

/// `target` with its `*`s filled by `captures`, in order.
pub open spec fn apply_captures(target: Seq<char>, captures: Seq<Seq<char>>) -> Seq<char>
    decreases captures.len(),
{
    if captures.len() == 0 {
        target
    } else {
        replace_first_star(apply_captures(target, captures.drop_last()), captures.last())
    }
}

fn replace_first_star_exec(s: &String, c: &String) -> (r: String)
    ensures
        r@ == replace_first_star(s@, c@),
{
    let v = chars_of(s.as_str());
    match find_char(v.as_slice(), '*') {
        Some(i) => {
            assert(i < v.len());
            let mut out = sub_string(v.as_slice(), 0, i);
            out.append(c.as_str());
            let tail = sub_string(v.as_slice(), i + 1, v.len());
            out.append(tail.as_str());
            proof {
                assert(v@.subrange(0, i as int) =~= v@.take(i as int));
                assert(v@.subrange(i + 1, v@.len() as int) =~= v@.skip(i + 1));
            }
            out
        },
        None => s.clone(),
    }
}

/// Fill the `*` placeholders of an alias target with the captured text.
pub fn apply_alias_target(target: &str, captures: &Vec<String>) -> (r: String)
    ensures
        r@ == apply_captures(target@, str_views(captures@)),
{
    let mut resolved = owned(target);
    let mut i: usize = 0;
    while i < captures.len()
        invariant
            i <= captures.len(),
            resolved@ == apply_captures(target@, str_views(captures@).take(i as int)),
        decreases captures.len() - i,
    {
        resolved = replace_first_star_exec(&resolved, &captures[i]);
        proof {
            assert(str_views(captures@).take(i + 1).drop_last() =~= str_views(captures@).take(i as int));
        }
        i = i + 1;
    }
    proof {
        assert(str_views(captures@).take(captures.len() as int) =~= str_views(captures@));
    }
    resolved
}

/// The package name of a bare specifier and the subpath after it:
/// `None` for relative, absolute and empty specifiers, and for a scope
/// without a name.
pub open spec fn package_parts_spec(s: Seq<char>) -> Option<(Seq<char>, Option<Seq<char>>)> {
    if s.len() == 0 || s[0] == '.' || s[0] == '/' {
        None
    } else if s[0] == '@' {
        if !s.contains('/') {
            None
        } else {
            let first = first_pos(s, '/');
            let rest = s.skip(first + 1);
            if rest.contains('/') {
                let second = first + 1 + first_pos(rest, '/');
                Some((s.take(second), Some(s.skip(second + 1))))
            } else {
                Some((s, None))
            }
        }
    } else if s.contains('/') {
        let i = first_pos(s, '/');
        Some((s.take(i), Some(s.skip(i + 1))))
    } else {
        Some((s, None))
    }
}

/// Split a bare package specifier into the package name and its subpath
/// (`@scope/name/sub` → `@scope/name` + `sub`; `name/sub` → `name` + `sub`).
pub fn package_specifier_parts(specifier: &str) -> (r: Option<(String, Option<String>)>)
    ensures
        r matches Some((n, rest)) ==> package_parts_spec(specifier@) == Some((n@, match rest {
            Some(x) => Some(x@),
            None => None,
        })),
        r is None ==> package_parts_spec(specifier@) is None,
{
    let s = chars_of(specifier);
    if s.len() == 0 || s[0] == '.' || s[0] == '/' {
        return None;
    }
    if s[0] == '@' {
        let first = match find_char(s.as_slice(), '/') {
            Some(i) => i,
            None => return None,
        };
        let rest = sub_chars(s.as_slice(), first + 1, s.len());
        proof {
            assert(s@.subrange(first + 1, s@.len() as int) =~= s@.skip(first + 1));
        }
        match find_char(rest.as_slice(), '/') {
            Some(j) => {
                let second = first + 1 + j;
                proof {
                    assert(s@.subrange(0, second as int) =~= s@.take(second as int));
                    assert(s@.subrange(second + 1, s@.len() as int) =~= s@.skip(second + 1));
                }
                Some((sub_string(s.as_slice(), 0, second), Some(sub_string(s.as_slice(), second + 1, s.len()))))
            },
            None => Some((owned(specifier), None)),
        }
    } else {
        match find_char(s.as_slice(), '/') {
            Some(i) => {
                proof {
                    assert(s@.subrange(0, i as int) =~= s@.take(i as int));
                    assert(s@.subrange(i + 1, s@.len() as int) =~= s@.skip(i + 1));
                }
                Some((sub_string(s.as_slice(), 0, i), Some(sub_string(s.as_slice(), i + 1, s.len()))))
            },
            None => Some((owned(specifier), None)),
        }
    }
}


// ---------------------------------------------------------------------------
// The most specific pattern first
// ---------------------------------------------------------------------------

/// The length of the literal prefix of a wildcard pattern, before its `*`.
pub open spec fn star_prefix_len(k: Seq<char>) -> int {
    first_pos(k, '*')
}

/// The positions, in order, of the wildcard patterns among the first `n`
/// whose literal prefix is `l` characters long.
pub open spec fn bucket(keys: Seq<Seq<char>>, l: int, n: nat) -> Seq<int>
    decreases n,
{
    if n == 0 {
        Seq::empty()
    } else {
        let rest = bucket(keys, l, (n - 1) as nat);
        let k = keys[n - 1];
        if k.contains('*') && star_prefix_len(k) == l {
            rest.push(n - 1)
        } else {
            rest
        }
    }
}

/// The positions of the wildcard patterns with a literal prefix of at most
/// `l` characters, longest prefix first, ties in order.
pub open spec fn wildcards_from(keys: Seq<Seq<char>>, l: nat) -> Seq<int>
    decreases l,
{
    if l == 0 {
        bucket(keys, 0, keys.len())
    } else {
        bucket(keys, l as int, keys.len()) + wildcards_from(keys, (l - 1) as nat)
    }
}

/// The positions, in order, of the exact (wildcard-free) patterns among the
/// first `n`.
pub open spec fn exact_positions(keys: Seq<Seq<char>>, n: nat) -> Seq<int>
    decreases n,
{
    if n == 0 {
        Seq::empty()
    } else {
        let rest = exact_positions(keys, (n - 1) as nat);
        if !keys[n - 1].contains('*') {
            rest.push(n - 1)
        } else {
            rest
        }
    }
}

/// The longest pattern length.
pub open spec fn max_len(keys: Seq<Seq<char>>) -> nat
    decreases keys.len(),
{
    if keys.len() == 0 {
        0
    } else {
        let m = max_len(keys.drop_last());
        if keys.last().len() > m { keys.last().len() } else { m }
    }
}

/// The wildcard patterns, most specific (longest literal prefix) first,
/// ties kept in order.
pub open spec fn wildcard_order(keys: Seq<Seq<char>>) -> Seq<int> {
    wildcards_from(keys, max_len(keys))
}

/// Exact patterns first, in order, then the wildcards by specificity.
pub open spec fn specificity_order(keys: Seq<Seq<char>>) -> Seq<int> {
    exact_positions(keys, keys.len()) + wildcard_order(keys)
}

proof fn lemma_bucket_bounds(keys: Seq<Seq<char>>, l: int, n: nat)
    requires
        n <= keys.len(),
    ensures
        forall|j: int| 0 <= j < bucket(keys, l, n).len() ==> 0 <= #[trigger] bucket(keys, l, n)[j] < n,
    decreases n,
{
    if n > 0 {
        lemma_bucket_bounds(keys, l, (n - 1) as nat);
        let rest = bucket(keys, l, (n - 1) as nat);
        assert forall|j: int| 0 <= j < bucket(keys, l, n).len() implies 0 <= #[trigger] bucket(keys, l, n)[j] < n by {
            if j < rest.len() {
                assert(bucket(keys, l, n)[j] == rest[j]);
            }
        }
    }
}

proof fn lemma_wildcards_bounds(keys: Seq<Seq<char>>, l: nat)
    ensures
        forall|j: int| 0 <= j < wildcards_from(keys, l).len() ==> 0 <= #[trigger] wildcards_from(keys, l)[j] < keys.len(),
    decreases l,
{
    lemma_bucket_bounds(keys, l as int, keys.len());
    if l > 0 {
        lemma_wildcards_bounds(keys, (l - 1) as nat);
        let a = bucket(keys, l as int, keys.len());
        let b = wildcards_from(keys, (l - 1) as nat);
        assert forall|j: int| 0 <= j < (a + b).len() implies 0 <= #[trigger] (a + b)[j] < keys.len() by {
            if j < a.len() {
                assert((a + b)[j] == a[j]);
            } else {
                assert((a + b)[j] == b[j - a.len()]);
            }
        }
    }
}

proof fn lemma_exact_bounds(keys: Seq<Seq<char>>, n: nat)
    requires
        n <= keys.len(),
    ensures
        forall|j: int| 0 <= j < exact_positions(keys, n).len() ==> 0 <= #[trigger] exact_positions(keys, n)[j] < n,
    decreases n,
{
    if n > 0 {
        lemma_exact_bounds(keys, (n - 1) as nat);
        let rest = exact_positions(keys, (n - 1) as nat);
        assert forall|j: int| 0 <= j < exact_positions(keys, n).len() implies 0 <= #[trigger] exact_positions(keys, n)[j] < n by {
            if j < rest.len() {
                assert(exact_positions(keys, n)[j] == rest[j]);
            }
        }
    }
}

/// Every position in the specificity order names a pattern.
pub proof fn lemma_order_bounds(keys: Seq<Seq<char>>)
    ensures
        forall|j: int| 0 <= j < specificity_order(keys).len() ==> 0 <= #[trigger] specificity_order(keys)[j] < keys.len(),
{
    lemma_exact_bounds(keys, keys.len());
    lemma_wildcards_bounds(keys, max_len(keys));
    let a = exact_positions(keys, keys.len());
    let b = wildcard_order(keys);
    assert forall|j: int| 0 <= j < (a + b).len() implies 0 <= #[trigger] (a + b)[j] < keys.len() by {
        if j < a.len() {
            assert((a + b)[j] == a[j]);
        } else {
            assert((a + b)[j] == b[j - a.len()]);
        }
    }
}

fn max_key_len(keys: &Vec<String>) -> (r: usize)
    ensures
        r == max_len(str_views(keys@)),
{
    let ghost ks = str_views(keys@);
    let mut m: usize = 0;
    let mut i: usize = 0;
    while i < keys.len()
        invariant
            i <= keys.len(),
            ks == str_views(keys@),
            m == max_len(ks.take(i as int)),
        decreases keys.len() - i,
    {
        proof {
            assert(ks.take(i + 1).drop_last() =~= ks.take(i as int));
        }
        let l = crate::text::char_count(keys[i].as_str());
        if l > m {
            m = l;
        }
        i = i + 1;
    }
    proof {
        assert(ks.take(keys.len() as int) =~= ks);
    }
    m
}

/// Positions as integers.
pub open spec fn positions(v: Seq<usize>) -> Seq<int> {
    v.map_values(|i: usize| i as int)
}

fn push_bucket(out: &mut Vec<usize>, keys: &Vec<String>, l: usize)
    ensures
        positions(final(out)@) == positions(old(out)@) + bucket(str_views(keys@), l as int, keys@.len()),
        forall|j: int| 0 <= j < final(out)@.len() ==> (j < old(out)@.len() && final(out)@[j] == old(out)@[j]) || final(out)@[j] < keys@.len(),
{
    let ghost ks = str_views(keys@);
    let ghost start = positions(out@);
    let mut i: usize = 0;
    while i < keys.len()
        invariant
            i <= keys.len(),
            ks == str_views(keys@),
            positions(out@) == start + bucket(ks, l as int, i as nat),
            start == positions(old(out)@),
            out@.len() >= old(out)@.len(),
            forall|j: int| 0 <= j < old(out)@.len() ==> out@[j] == old(out)@[j],
            forall|j: int| old(out)@.len() <= j < out@.len() ==> out@[j] < keys@.len(),
        decreases keys.len() - i,
    {
        let v = chars_of(keys[i].as_str());
        let ghost before = positions(out@);
        match find_char(v.as_slice(), '*') {
            Some(p) => {
                if p == l {
                    out.push(i);
                    proof {
                        assert(positions(out@) =~= before.push(i as int));
                    }
                }
            },
            None => {},
        }
        i = i + 1;
    }
}

/// The wildcard patterns, longest literal prefix first, ties in order.
pub fn wildcard_order_exec(keys: &Vec<String>) -> (r: Vec<usize>)
    ensures
        positions(r@) == wildcard_order(str_views(keys@)),
        forall|j: int| 0 <= j < r@.len() ==> r@[j] < keys@.len(),
{
    let ghost ks = str_views(keys@);
    let mut out: Vec<usize> = Vec::new();
    let m = max_key_len(keys);
    let mut l: usize = m;
    proof {
        assert(positions(out@) + wildcards_from(ks, l as nat) =~= wildcard_order(ks));
    }
    loop
        invariant_except_break
            l <= m,
            positions(out@) + wildcards_from(ks, l as nat) == wildcard_order(ks),
        invariant
            ks == str_views(keys@),
            m == max_len(ks),
            forall|j: int| 0 <= j < out@.len() ==> out@[j] < keys@.len(),
        ensures
            positions(out@) == wildcard_order(ks),
        decreases l,
    {
        let ghost before = positions(out@);
        push_bucket(&mut out, keys, l);
        if l == 0 {
            proof {
                assert(wildcards_from(ks, 0) == bucket(ks, 0, ks.len()));
            }
            break;
        }
        proof {
            assert(wildcards_from(ks, l as nat) == bucket(ks, l as int, ks.len()) + wildcards_from(ks, (l - 1) as nat));
            assert(positions(out@) + wildcards_from(ks, (l - 1) as nat) =~= before + wildcards_from(ks, l as nat));
        }
        l = l - 1;
    }
    out
}

/// The order in which patterns are tried: exact patterns first, in order,
/// then wildcard patterns, longest literal prefix first, ties in order.
pub fn specificity_order_exec(keys: &Vec<String>) -> (r: Vec<usize>)
    ensures
        positions(r@) == specificity_order(str_views(keys@)),
        forall|j: int| 0 <= j < r@.len() ==> r@[j] < keys@.len(),
{
    let ghost ks = str_views(keys@);
    let mut out: Vec<usize> = Vec::new();
    let mut i: usize = 0;
    while i < keys.len()
        invariant
            i <= keys.len(),
            ks == str_views(keys@),
            positions(out@) == exact_positions(ks, i as nat),
            forall|j: int| 0 <= j < out@.len() ==> out@[j] < keys@.len(),
        decreases keys.len() - i,
    {
        if !crate::text::str_contains_char(keys[i].as_str(), '*') {
            let ghost before = positions(out@);
            out.push(i);
            proof {
                assert(positions(out@) =~= before.push(i as int));
            }
        }
        i = i + 1;
    }
    let wild = wildcard_order_exec(keys);
    let mut j: usize = 0;
    let ghost exact = positions(out@);
    while j < wild.len()
        invariant
            j <= wild.len(),
            positions(out@) == exact + positions(wild@).take(j as int),
            forall|x: int| 0 <= x < out@.len() ==> out@[x] < keys@.len(),
            forall|x: int| 0 <= x < wild@.len() ==> wild@[x] < keys@.len(),
        decreases wild.len() - j,
    {
        let ghost before = positions(out@);
        out.push(wild[j]);
        proof {
            assert(positions(out@) =~= before.push(wild@[j as int] as int));
            assert(positions(wild@).take(j + 1) =~= positions(wild@).take(j as int).push(wild@[j as int] as int));
        }
        j = j + 1;
    }
    proof {
        assert(positions(wild@).take(wild.len() as int) =~= positions(wild@));
    }
    out
}

} // verus!
