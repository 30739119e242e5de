//! File paths as `/`-separated strings, with the component semantics of a
//! POSIX path: `.` pieces vanish, `..` pieces climb, and repeated separators
//! collapse.
use vstd::prelude::*;

use crate::text::{rfind_char, sub_string, chars_of, concat, concat3, join, join_strings, last_index, owned, str_eq, str_starts_with_char, string_of};

verus! {

// ---------------------------------------------------------------------------
// Model
// ---------------------------------------------------------------------------

/// The pieces of `s` between occurrences of `c` (always at least one piece).
pub open spec fn split_on(s: Seq<char>, c: char) -> Seq<Seq<char>>
    decreases s.len(),
{
    if s.len() == 0 {
        seq![Seq::<char>::empty()]
    } else {
        let r = split_on(s.drop_last(), c);
        if s.last() == c {
            r.push(Seq::empty())
        } else {
            r.update(r.len() - 1, r.last().push(s.last()))
        }
    }
}

pub open spec fn dot() -> Seq<char> {
    seq!['.']
}

pub open spec fn dot_dot() -> Seq<char> {
    seq!['.', '.']
}

/// The marker component of the root directory (never a normal component,
/// since those hold no `/`).
pub open spec fn root_component() -> Seq<char> {
    seq!['/']
}

/// One step of lexical normalisation: empty and `.` pieces vanish, `..`
/// drops the previous component, anything else is appended.
pub open spec fn clean_step(acc: Seq<Seq<char>>, piece: Seq<char>) -> Seq<Seq<char>> {
    if piece.len() == 0 || piece == dot() {
        acc
    } else if piece == dot_dot() {
        if acc.len() > 0 { acc.drop_last() } else { acc }
    } else {
        acc.push(piece)
    }
}

/// Normalise a list of pieces, left to right.
pub open spec fn clean_parts(pieces: Seq<Seq<char>>) -> Seq<Seq<char>>
    decreases pieces.len(),
{
    if pieces.len() == 0 {
        Seq::empty()
    } else {
        clean_step(clean_parts(pieces.drop_last()), pieces.last())
    }
}

pub open spec fn is_abs(s: Seq<char>) -> bool {
    s.len() > 0 && s[0] == '/'
}

/// The normal components of `s` after lexical normalisation.
pub open spec fn normal_parts(s: Seq<char>) -> Seq<Seq<char>> {
    clean_parts(split_on(s, '/'))
}

/// The components of the normalised `s`: the root marker for an absolute
/// path, then its normal components.
pub open spec fn components(s: Seq<char>) -> Seq<Seq<char>> {
    if is_abs(s) {
        seq![root_component()] + normal_parts(s)
    } else {
        normal_parts(s)
    }
}

/// The path spelled by a list of components.
pub open spec fn from_components(cs: Seq<Seq<char>>) -> Seq<char> {
    if cs.len() > 0 && cs[0] == root_component() {
        root_component() + join(cs.skip(1), seq!['/'])
    } else {
        join(cs, seq!['/'])
    }
}

/// The lexically normalised form of `s`.
pub open spec fn clean(s: Seq<char>) -> Seq<char> {
    from_components(components(s))
}

/// `rel` appended to `base` as a path (`Path::join`).
pub open spec fn join_path(base: Seq<char>, rel: Seq<char>) -> Seq<char> {
    if is_abs(rel) || base.len() == 0 {
        rel
    } else if base.last() == '/' {
        base + rel
    } else {
        base + seq!['/'] + rel
    }
}

/// `clean(join_path(base, rel))`.
pub open spec fn join_clean_spec(base: Seq<char>, rel: Seq<char>) -> Seq<char> {
    clean(join_path(base, rel))
}

/// The last normal component, if any.
pub open spec fn file_name_spec(s: Seq<char>) -> Option<Seq<char>> {
    if normal_parts(s).len() == 0 { None } else { Some(normal_parts(s).last()) }
}

/// The parent directory: `None` for the root and for the empty path.
pub open spec fn parent_spec(s: Seq<char>) -> Option<Seq<char>> {
    if normal_parts(s).len() == 0 {
        None
    } else {
        Some(from_components(components(s).drop_last()))
    }
}

/// The position of the extension dot of a file name: its last `.`, unless
/// that is the first character.
pub open spec fn ext_dot(name: Seq<char>, i: int) -> bool {
    0 < i && last_index(name, '.', i)
}

/// The extension of a file name (`Path::extension`).
pub open spec fn name_extension(name: Seq<char>) -> Option<Seq<char>> {
    if exists|i: int| ext_dot(name, i) {
        let i = choose|i: int| ext_dot(name, i);
        Some(name.skip(i + 1))
    } else {
        None
    }
}

/// The stem of a file name (`Path::file_stem`).
pub open spec fn name_stem(name: Seq<char>) -> Seq<char> {
    if exists|i: int| ext_dot(name, i) {
        let i = choose|i: int| ext_dot(name, i);
        name.take(i)
    } else {
        name
    }
}

pub open spec fn extension_spec(s: Seq<char>) -> Option<Seq<char>> {
    match file_name_spec(s) {
        Some(name) => name_extension(name),
        None => None,
    }
}

pub open spec fn stem_spec(s: Seq<char>) -> Option<Seq<char>> {
    match file_name_spec(s) {
        Some(name) => Some(name_stem(name)),
        None => None,
    }
}

/// The file name with its extension replaced by `ext` (dropped when `ext`
/// is empty).
pub open spec fn replace_extension(name: Seq<char>, ext: Seq<char>) -> Seq<char> {
    if ext.len() == 0 {
        name_stem(name)
    } else {
        name_stem(name) + dot() + ext
    }
}

/// `Path::with_extension` on the normalised path.
pub open spec fn with_extension_spec(s: Seq<char>, ext: Seq<char>) -> Seq<char> {
    if normal_parts(s).len() == 0 {
        clean(s)
    } else {
        from_components(components(s).drop_last().push(replace_extension(normal_parts(s).last(), ext)))
    }
}

/// `a` is a prefix of `b`, element by element.
pub open spec fn is_prefix_of<T>(a: Seq<T>, b: Seq<T>) -> bool {
    a.len() <= b.len() && b.take(a.len() as int) == a
}

/// `Path::starts_with`: the components of `base` begin those of `s`.
pub open spec fn path_starts_with(s: Seq<char>, base: Seq<char>) -> bool {
    is_prefix_of(components(base), components(s))
}

/// `Path::strip_prefix`: the components of `s` after those of `base`.
pub open spec fn strip_prefix_spec(s: Seq<char>, base: Seq<char>) -> Option<Seq<char>> {
    if path_starts_with(s, base) {
        Some(from_components(components(s).skip(components(base).len() as int)))
    } else {
        None
    }
}

// ---------------------------------------------------------------------------
// Lemmas
// ---------------------------------------------------------------------------

proof fn lemma_split_step(s: Seq<char>, i: int, c: char)
    requires
        0 <= i < s.len(),
    ensures
        split_on(s.take(i + 1), c) == if s[i] == c {
            split_on(s.take(i), c).push(Seq::empty())
        } else {
            let r = split_on(s.take(i), c);
            r.update(r.len() - 1, r.last().push(s[i]))
        },
{
    assert(s.take(i + 1).drop_last() =~= s.take(i));
}

proof fn lemma_split_nonempty(s: Seq<char>, c: char)
    ensures
        split_on(s, c).len() >= 1,
    decreases s.len(),
{
    if s.len() > 0 {
        lemma_split_nonempty(s.drop_last(), c);
    }
}

proof fn lemma_clean_parts_push(pieces: Seq<Seq<char>>, p: Seq<char>)
    ensures
        clean_parts(pieces.push(p)) == clean_step(clean_parts(pieces), p),
{
    assert(pieces.push(p).drop_last() =~= pieces);
}

// ---------------------------------------------------------------------------
// Operations
// ---------------------------------------------------------------------------

fn is_dot(p: &Vec<char>) -> (r: bool)
    ensures
        r == (p@ == dot()),
{
    let r = p.len() == 1 && p[0] == '.';
    proof {
        if p@.len() == 1 && p@[0] == '.' {
            assert(p@ =~= dot());
        }
    }
    r
}

fn is_dot_dot(p: &Vec<char>) -> (r: bool)
    ensures
        r == (p@ == dot_dot()),
{
    let r = p.len() == 2 && p[0] == '.' && p[1] == '.';
    proof {
        if p@.len() == 2 && p@[0] == '.' && p@[1] == '.' {
            assert(p@ =~= dot_dot());
        }
    }
    r
}

/// Apply `clean_step` with the next piece.
fn apply_piece(acc: &mut Vec<String>, piece: &Vec<char>)
    ensures
        final(acc)@.map_values(|p: String| p@) == clean_step(old(acc)@.map_values(|p: String| p@), piece@),
{
    if piece.len() == 0 || is_dot(piece) {
    } else if is_dot_dot(piece) {
        if acc.len() > 0 {
            acc.pop();
            proof {
                assert(final(acc)@.map_values(|p: String| p@) =~= old(acc)@.map_values(|p: String| p@).drop_last());
            }
        }
    } else {
        acc.push(string_of(piece.as_slice()));
        proof {
            assert(final(acc)@.map_values(|p: String| p@) =~= old(acc)@.map_values(|p: String| p@).push(piece@));
        }
    }
}

/// The components of a path: the root marker `/` for an absolute path,
/// followed by its normal components after lexical normalisation.
pub fn path_components(s: &str) -> (r: Vec<String>)
    ensures
        r@.map_values(|p: String| p@) == components(s@),
{
    let v = chars_of(s);
    let mut acc: Vec<String> = Vec::new();
    let mut cur: Vec<char> = Vec::new();
    let ghost mut done: Seq<Seq<char>> = Seq::empty();
    let mut i: usize = 0;
    proof {
        assert(v@.take(0) =~= Seq::<char>::empty());
    }
    while i < v.len()
        invariant
            i <= v.len(),
            v@ == s@,
            split_on(v@.take(i as int), '/') == done.push(cur@),
            acc@.map_values(|p: String| p@) == clean_parts(done),
        decreases v.len() - i,
    {
        proof {
            lemma_split_step(v@, i as int, '/');
        }
        if v[i] == '/' {
            apply_piece(&mut acc, &cur);
            proof {
                lemma_clean_parts_push(done, cur@);
                done = done.push(cur@);
            }
            cur = Vec::new();
        } else {
            proof {
                assert(done.push(cur@).update(done.len() as int, cur@.push(v@[i as int])) =~= done.push(cur@.push(v@[i as int])));
            }
            cur.push(v[i]);
        }
        i = i + 1;
    }
    apply_piece(&mut acc, &cur);
    proof {
        lemma_clean_parts_push(done, cur@);
        assert(v@.take(v.len() as int) =~= v@);
    }
    let abs = v.len() > 0 && v[0] == '/';
    if abs {
        let mut r: Vec<String> = Vec::new();
        r.push(owned("/"));
        proof {
            reveal_strlit("/");
            assert("/"@ =~= root_component());
            assert(r@[0]@ == root_component());
            assert(r@.map_values(|p: String| p@) =~= seq![root_component()] + acc@.map_values(|p: String| p@).take(0));
        }
        let mut k: usize = 0;
        while k < acc.len()
            invariant
                k <= acc.len(),
                r@.map_values(|p: String| p@) == seq![root_component()] + acc@.map_values(|p: String| p@).take(k as int),
            decreases acc.len() - k,
        {
            r.push(acc[k].clone());
            proof {
                assert(acc@.map_values(|p: String| p@).take(k + 1) =~= acc@.map_values(|p: String| p@).take(k as int).push(acc@[k as int]@));
                assert(r@.map_values(|p: String| p@) =~= (seq![root_component()] + acc@.map_values(|p: String| p@).take(k as int)).push(acc@[k as int]@));
            }
            k = k + 1;
        }
        proof {
            assert(acc@.map_values(|p: String| p@).take(acc.len() as int) =~= acc@.map_values(|p: String| p@));
            assert(seq!['/'] =~= root_component());
        }
        r
    } else {
        acc
    }
}

/// The path spelled by a list of components (the inverse of
/// `path_components` on normalised paths).
pub fn render_components(cs: &Vec<String>) -> (r: String)
    ensures
        r@ == from_components(cs@.map_values(|p: String| p@)),
{
    let ghost views = cs@.map_values(|p: String| p@);
    if cs.len() > 0 && str_eq(cs[0].as_str(), "/") {
        proof {
            reveal_strlit("/");
            assert(root_component() =~= "/"@);
        }
        let mut rest: Vec<String> = Vec::new();
        let mut k: usize = 1;
        while k < cs.len()
            invariant
                1 <= k <= cs.len(),
                views == cs@.map_values(|p: String| p@),
                rest@.map_values(|p: String| p@) == views.subrange(1, k as int),
            decreases cs.len() - k,
        {
            let ghost before = rest@;
            rest.push(cs[k].clone());
            proof {
                assert(rest@ == before.push(cs@[k as int]));
                assert(rest@.map_values(|p: String| p@) =~= before.map_values(|p: String| p@).push(views[k as int]));
                assert(views.subrange(1, k + 1) =~= views.subrange(1, k as int).push(views[k as int]));
            }
            k = k + 1;
        }
        let tail = join_strings(&rest, "/");
        proof {
            reveal_strlit("/");
            assert(views.subrange(1, cs.len() as int) =~= views.skip(1));
            assert(seq!['/'] =~= "/"@);
        }
        concat("/", tail.as_str())
    } else {
        proof {
            reveal_strlit("/");
            assert(seq!['/'] =~= "/"@);
            if cs.len() > 0 {
                assert(views[0] == cs@[0]@);
            }
        }
        join_strings(cs, "/")
    }
}

/// The lexically normalised form of a path (`.` removed, `..` resolved,
/// separators collapsed).
pub fn clean_path(s: &str) -> (r: String)
    ensures
        r@ == clean(s@),
{
    let cs = path_components(s);
    render_components(&cs)
}

/// `rel` joined onto `base` and normalised.
pub fn join_clean(base: &str, rel: &str) -> (r: String)
    ensures
        r@ == join_clean_spec(base@, rel@),
{
    let rel_abs = str_starts_with_char(rel, '/');
    let b = chars_of(base);
    let joined = if rel_abs || b.len() == 0 {
        owned(rel)
    } else {
        if b[b.len() - 1] == '/' {
            concat(base, rel)
        } else {
            concat3(base, "/", rel)
        }
    };
    proof {
        reveal_strlit("/");
        assert(seq!['/'] =~= "/"@);
    }
    clean_path(joined.as_str())
}


proof fn lemma_last_index_unique(s: Seq<char>, c: char, i: int, j: int)
    requires
        last_index(s, c, i),
        last_index(s, c, j),
    ensures
        i == j,
{
    if i < j {
        assert(s[j] != c);
    } else if j < i {
        assert(s[i] != c);
    }
}

/// Where the extension of a file name starts: `Some(i)` with the dot at `i`.
fn extension_dot(name: &Vec<char>) -> (r: Option<usize>)
    ensures
        r matches Some(i) ==> ext_dot(name@, i as int) && name_extension(name@) == Some(name@.skip(i + 1))
            && name_stem(name@) == name@.take(i as int),
        r is None ==> name_extension(name@) is None && name_stem(name@) == name@,
{
    match rfind_char(name.as_slice(), '.') {
        Some(i) => {
            if i > 0 {
                proof {
                    assert(ext_dot(name@, i as int));
                    let k = choose|k: int| ext_dot(name@, k);
                    lemma_last_index_unique(name@, '.', i as int, k);
                }
                Some(i)
            } else {
                proof {
                    assert forall|k: int| !ext_dot(name@, k) by {
                        if ext_dot(name@, k) {
                            lemma_last_index_unique(name@, '.', 0, k);
                        }
                    }
                }
                None
            }
        },
        None => {
            proof {
                assert forall|k: int| !ext_dot(name@, k) by {
                    if ext_dot(name@, k) {
                        assert(name@.contains('.'));
                    }
                }
            }
            None
        },
    }
}

/// The number of normal components (after the root marker, if any).
proof fn lemma_components_normal(s: Seq<char>)
    ensures
        components(s).len() == normal_parts(s).len() + (if is_abs(s) { 1int } else { 0int }),
        normal_parts(s).len() > 0 ==> components(s).last() == normal_parts(s).last(),
{
}

/// The parent directory of a path (`Path::parent`): `None` for the root and
/// for the empty path.
pub fn parent(s: &str) -> (r: Option<String>)
    ensures
        r matches Some(p) ==> parent_spec(s@) == Some(p@),
        r is None ==> parent_spec(s@) is None,
{
    let mut cs = path_components(s);
    let abs = str_starts_with_char(s, '/');
    proof {
        lemma_components_normal(s@);
    }
    let normal = if abs { cs.len() - 1 } else { cs.len() };
    if normal == 0 {
        return None;
    }
    let ghost before = cs@;
    cs.pop();
    proof {
        assert(cs@.map_values(|p: String| p@) =~= before.map_values(|p: String| p@).drop_last());
    }
    Some(render_components(&cs))
}

/// The final normal component of a path (`Path::file_name`).
pub fn file_name(s: &str) -> (r: Option<String>)
    ensures
        r matches Some(n) ==> file_name_spec(s@) == Some(n@),
        r is None ==> file_name_spec(s@) is None,
{
    let cs = path_components(s);
    let abs = str_starts_with_char(s, '/');
    proof {
        lemma_components_normal(s@);
    }
    let normal = if abs { cs.len() - 1 } else { cs.len() };
    if normal == 0 {
        return None;
    }
    proof {
        assert(cs@.map_values(|p: String| p@).last() == cs@.last()@);
    }
    Some(cs[cs.len() - 1].clone())
}

/// The extension of a path's file name (`Path::extension`).
pub fn extension(s: &str) -> (r: Option<String>)
    ensures
        r matches Some(e) ==> extension_spec(s@) == Some(e@),
        r is None ==> extension_spec(s@) is None,
{
    match file_name(s) {
        None => None,
        Some(name) => {
            let v = chars_of(name.as_str());
            match extension_dot(&v) {
                Some(i) => {
                    assert(last_index(v@, '.', i as int));
                    assert(i < v.len());
                    Some(sub_string(v.as_slice(), i + 1, v.len()))
                },
                None => None,
            }
        },
    }
}

/// The file name without its extension (`Path::file_stem`).
pub fn file_stem(s: &str) -> (r: Option<String>)
    ensures
        r matches Some(e) ==> stem_spec(s@) == Some(e@),
        r is None ==> stem_spec(s@) is None,
{
    match file_name(s) {
        None => None,
        Some(name) => {
            let v = chars_of(name.as_str());
            match extension_dot(&v) {
                Some(i) => Some(sub_string(v.as_slice(), 0, i)),
                None => Some(name),
            }
        },
    }
}

/// The path with the extension of its file name replaced
/// (`Path::with_extension`), normalised.
pub fn with_extension(s: &str, ext: &str) -> (r: String)
    ensures
        r@ == with_extension_spec(s@, ext@),
{
    let mut cs = path_components(s);
    let abs = str_starts_with_char(s, '/');
    proof {
        lemma_components_normal(s@);
    }
    let normal = if abs { cs.len() - 1 } else { cs.len() };
    if normal == 0 {
        return render_components(&cs);
    }
    let ghost before = cs@;
    let name = cs.pop().unwrap();
    let v = chars_of(name.as_str());
    let stem = match extension_dot(&v) {
        Some(i) => sub_string(v.as_slice(), 0, i),
        None => name,
    };
    let e = chars_of(ext);
    let renamed = if e.len() == 0 {
        stem
    } else {
        concat3(stem.as_str(), ".", ext)
    };
    proof {
        reveal_strlit(".");
        assert("."@ =~= dot());
        assert(before.map_values(|p: String| p@).last() == v@);
    }
    cs.push(renamed);
    proof {
        assert(cs@.map_values(|p: String| p@) =~= before.map_values(|p: String| p@).drop_last().push(
            replace_extension(normal_parts(s@).last(), ext@)));
    }
    render_components(&cs)
}

/// Whether the components of `base` begin those of `s` (`Path::starts_with`).
pub fn starts_with_path(s: &str, base: &str) -> (r: bool)
    ensures
        r == path_starts_with(s@, base@),
{
    let a = path_components(s);
    let b = path_components(base);
    let ghost av = a@.map_values(|p: String| p@);
    let ghost bv = b@.map_values(|p: String| p@);
    if b.len() > a.len() {
        proof {
            assert(av.len() == a.len() && bv.len() == b.len());
        }
        return false;
    }
    let mut i: usize = 0;
    while i < b.len()
        invariant
            b.len() <= a.len(),
            i <= b.len(),
            av == a@.map_values(|p: String| p@),
            bv == b@.map_values(|p: String| p@),
            av == components(s@),
            bv == components(base@),
            forall|j: int| 0 <= j < i ==> av[j] == bv[j],
        decreases b.len() - i,
    {
        if !(a[i] == b[i]) {
            proof {
                assert(av[i as int] == a@[i as int]@);
                assert(bv[i as int] == b@[i as int]@);
                assert(av.take(bv.len() as int)[i as int] != bv[i as int]);
            }
            return false;
        }
        i = i + 1;
    }
    proof {
        assert(av.take(bv.len() as int) =~= bv);
    }
    true
}

/// The number of components of a path, counting the root (`components().count()`).
pub fn component_count(s: &str) -> (r: usize)
    ensures
        r == components(s@).len(),
{
    path_components(s).len()
}

/// `s` with the leading components of `base` removed (`Path::strip_prefix`).
pub fn strip_prefix_path(s: &str, base: &str) -> (r: Option<String>)
    ensures
        r matches Some(p) ==> strip_prefix_spec(s@, base@) == Some(p@),
        r is None ==> strip_prefix_spec(s@, base@) is None,
{
    if !starts_with_path(s, base) {
        return None;
    }
    let a = path_components(s);
    let b = path_components(base);
    let ghost av = a@.map_values(|p: String| p@);
    let mut rest: Vec<String> = Vec::new();
    let mut k = b.len();
    proof {
        assert(b@.map_values(|p: String| p@).len() == b.len());
    }
    while k < a.len()
        invariant
            b.len() <= k <= a.len(),
            av == a@.map_values(|p: String| p@),
            rest@.map_values(|p: String| p@) == av.subrange(b.len() as int, k as int),
        decreases a.len() - k,
    {
        let ghost before = rest@;
        rest.push(a[k].clone());
        proof {
            assert(rest@ == before.push(a@[k as int]));
            assert(rest@.map_values(|p: String| p@) =~= before.map_values(|p: String| p@).push(av[k as int]));
            assert(av.subrange(b.len() as int, k + 1) =~= av.subrange(b.len() as int, k as int).push(av[k as int]));
        }
        k = k + 1;
    }
    proof {
        assert(av.subrange(b.len() as int, a.len() as int) =~= av.skip(b.len() as int));
    }
    Some(render_components(&rest))
}

} // verus!
