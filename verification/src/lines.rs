//! Line-oriented text helpers for the line-based source parsers: lines,
//! trimming, and tokens.
use vstd::prelude::*;

use crate::collections::str_views;
use crate::text::{chars_of, occurs_at, string_of, sub_string};
use crate::theme::{is_whitespace, lines_spec, unicode_white_space, split_newlines, trim_end, trim_end_spec};

verus! {

/// `s` without its leading whitespace.
pub open spec fn trim_start_spec(s: Seq<char>) -> Seq<char>
    decreases s.len(),
{
    if s.len() > 0 && unicode_white_space(s[0]) {
        trim_start_spec(s.drop_first())
    } else {
        s
    }
}

/// `s` without leading and trailing whitespace.
pub open spec fn trim_spec(s: Seq<char>) -> Seq<char> {
    trim_start_spec(trim_end_spec(s))
}

pub fn trim_start_chars(s: &Vec<char>) -> (r: Vec<char>)
    ensures
        r@ == trim_start_spec(s@),
{
    let mut i: usize = 0;
    proof {
        assert(s@.skip(0) =~= s@);
    }
    while i < s.len() && is_whitespace(s[i])
        invariant
            i <= s@.len(),
            trim_start_spec(s@) == trim_start_spec(s@.skip(i as int)),
        decreases s.len() - i,
    {
        proof {
            assert(s@.skip(i as int).drop_first() =~= s@.skip(i + 1));
            assert(s@.skip(i as int)[0] == s@[i as int]);
        }
        i = i + 1;
    }
    let mut out: Vec<char> = Vec::new();
    let mut k = i;
    while k < s.len()
        invariant
            i <= k <= s@.len(),
            out@ == s@.subrange(i as int, k as int),
        decreases s.len() - k,
    {
        out.push(s[k]);
        proof {
            assert(out@ =~= s@.subrange(i as int, k + 1));
        }
        k = k + 1;
    }
    proof {
        assert(out@ =~= s@.skip(i as int));
    }
    out
}

pub fn trim_chars(s: &Vec<char>) -> (r: Vec<char>)
    ensures
        r@ == trim_spec(s@),
{
    let e = trim_end(s);
    trim_start_chars(&e)
}

pub fn trim_str(s: &str) -> (r: String)
    ensures
        r@ == trim_spec(s@),
{
    let cs = chars_of(s);
    let t = trim_chars(&cs);
    string_of(t.as_slice())
}

pub fn trim_start_str(s: &str) -> (r: String)
    ensures
        r@ == trim_start_spec(s@),
{
    let cs = chars_of(s);
    let t = trim_start_chars(&cs);
    string_of(t.as_slice())
}

/// The lines of `s`, as `str::lines` gives them.
pub fn lines_of(s: &str) -> (r: Vec<String>)
    ensures
        str_views(r@) == lines_spec(s@),
{
    let cs = chars_of(s);
    let mut parts: Vec<Vec<char>> = vec![Vec::new()];
    let mut i: usize = 0;
    proof {
        assert(cs@.take(0) =~= Seq::<char>::empty());
        assert(parts@.map_values(|l: Vec<char>| l@) =~= split_newlines(cs@.take(0)));
    }
    while i < cs.len()
        invariant
            i <= cs@.len(),
            cs@ == s@,
            parts@.len() >= 1,
            parts@.map_values(|l: Vec<char>| l@) == split_newlines(cs@.take(i as int)),
        decreases cs.len() - i,
    {
        let ghost before = parts@.map_values(|l: Vec<char>| l@);
        proof {
            assert(cs@.take(i + 1).drop_last() =~= cs@.take(i as int));
        }
        if cs[i] == '\n' {
            parts.push(Vec::new());
            proof {
                assert(parts@.map_values(|l: Vec<char>| l@) =~= before.push(Seq::<char>::empty()));
            }
        } else {
            let last = parts.len() - 1;
            let mut cur = parts[last].clone();
            cur.push(cs[i]);
            parts.set(last, cur);
            proof {
                assert(parts@.map_values(|l: Vec<char>| l@) =~= before.update(before.len() - 1, before.last().push(cs@[i as int])));
            }
        }
        i = i + 1;
    }
    proof {
        assert(cs@.take(cs@.len() as int) =~= cs@);
    }
    let ghost split = parts@.map_values(|l: Vec<char>| l@);
    let total = parts.len();
    let count = if parts[total - 1].len() == 0 { total - 1 } else { total };
    let ghost kept = if split.len() > 0 && split.last().len() == 0 { split.drop_last() } else { split };
    let mut rows: Vec<String> = Vec::new();
    let mut k: usize = 0;
    while k < count
        invariant
            k <= count,
            count == kept.len(),
            kept.len() <= parts@.len(),
            split == parts@.map_values(|l: Vec<char>| l@),
            kept == (if split.len() > 0 && split.last().len() == 0 { split.drop_last() } else { split }),
            str_views(rows@) == kept.take(k as int).map_values(|l: Seq<char>| if l.len() > 0 && l.last() == '\r' { l.drop_last() } else { l }),
        decreases count - k,
    {
        let mut line = parts[k].clone();
        let n = line.len();
        if n > 0 && line[n - 1] == '\r' {
            line.pop();
        }
        let ghost before = str_views(rows@);
        let text = string_of(line.as_slice());
        rows.push(text);
        proof {
            assert(kept[k as int] == parts@[k as int]@);
            assert(kept.take(k + 1) =~= kept.take(k as int).push(kept[k as int]));
            assert(str_views(rows@) =~= before.push(text@));
        }
        k = k + 1;
    }
    proof {
        assert(kept.take(count as int) =~= kept);
    }
    rows
}

// ---------------------------------------------------------------------------
// Pieces of a line
// ---------------------------------------------------------------------------

/// The text before the first character that `stop` holds of (all of `s`
/// when there is none).
pub open spec fn prefix_until(s: Seq<char>, stop: spec_fn(char) -> bool) -> Seq<char>
    decreases s.len(),
{
    if s.len() == 0 || stop(s[0]) {
        Seq::empty()
    } else {
        seq![s[0]] + prefix_until(s.drop_first(), stop)
    }
}

pub proof fn lemma_prefix_until(s: Seq<char>, stop: spec_fn(char) -> bool, i: int)
    requires
        0 <= i <= s.len(),
        forall|k: int| 0 <= k < i ==> !stop(#[trigger] s[k]),
        i == s.len() || stop(s[i]),
    ensures
        prefix_until(s, stop) == s.take(i),
    decreases s.len(),
{
    if s.len() > 0 && i > 0 {
        assert forall|k: int| 0 <= k < i - 1 implies !stop(#[trigger] s.drop_first()[k]) by {
            assert(s.drop_first()[k] == s[k + 1]);
        }
        if i < s.len() {
            assert(s.drop_first()[i - 1] == s[i]);
        }
        lemma_prefix_until(s.drop_first(), stop, i - 1);
        assert(seq![s[0]] + s.drop_first().take(i - 1) =~= s.take(i));
    } else if s.len() > 0 {
        assert(s.take(0) =~= Seq::<char>::empty());
    } else {
        assert(s.take(i) =~= Seq::<char>::empty());
    }
}

/// The maximal runs of characters `delim` does not hold of, in order.
pub open spec fn tokens_spec(s: Seq<char>, delim: spec_fn(char) -> bool) -> Seq<Seq<char>> {
    let st = token_state(s, delim);
    if st.1.len() > 0 { st.0.push(st.1) } else { st.0 }
}

/// The finished tokens of `s` and the one still open at its end.
pub open spec fn token_state(s: Seq<char>, delim: spec_fn(char) -> bool) -> (Seq<Seq<char>>, Seq<char>)
    decreases s.len(),
{
    if s.len() == 0 {
        (Seq::empty(), Seq::empty())
    } else {
        let st = token_state(s.drop_last(), delim);
        if delim(s.last()) {
            if st.1.len() > 0 { (st.0.push(st.1), Seq::empty()) } else { (st.0, Seq::empty()) }
        } else {
            (st.0, st.1.push(s.last()))
        }
    }
}

/// The last position at which `p` occurs in `s`.
pub open spec fn last_occurrence(s: Seq<char>, p: Seq<char>, i: int) -> bool {
    &&& occurs_at(s, p, i)
    &&& forall|j: int| i < j && #[trigger] occurs_at(s, p, j) ==> false
}

/// The text after the last `p` in `s`, or all of `s`.
pub open spec fn after_last(s: Seq<char>, p: Seq<char>) -> Seq<char> {
    if exists|i: int| last_occurrence(s, p, i) {
        let i = choose|i: int| last_occurrence(s, p, i);
        s.skip(i + p.len())
    } else {
        s
    }
}

proof fn lemma_last_occurrence_unique(s: Seq<char>, p: Seq<char>, i: int, j: int)
    requires
        last_occurrence(s, p, i),
        last_occurrence(s, p, j),
    ensures
        i == j,
{
    if i < j {
        assert(occurs_at(s, p, j));
    } else if j < i {
        assert(occurs_at(s, p, i));
    }
}

/// The text of `s` after its last `p` (a non-empty pattern), or all of `s`.
pub fn after_last_of(s: &str, p: &str) -> (r: String)
    requires
        p@.len() > 0,
    ensures
        r@ == after_last(s@, p@),
{
    let cs = chars_of(s);
    let ps = chars_of(p);
    let n = cs.len();
    let m = ps.len();
    if m > n {
        proof {
            assert forall|i: int| !last_occurrence(s@, p@, i) by {
                if occurs_at(s@, p@, i) {
                    assert(i + p@.len() <= s@.len());
                }
            }
        }
        return crate::text::owned(s);
    }
    let mut i: usize = n - m + 1;
    while i > 0
        invariant
            i <= n - m + 1,
            m <= n,
            cs@ == s@,
            ps@ == p@,
            n == s@.len(),
            m == p@.len(),
            forall|j: int| i <= j && #[trigger] occurs_at(s@, p@, j) ==> false,
        decreases i,
    {
        i = i - 1;
        if crate::text::chars_occur_at(cs.as_slice(), ps.as_slice(), i) {
            proof {
                assert(last_occurrence(s@, p@, i as int));
                let c = choose|c: int| last_occurrence(s@, p@, c);
                lemma_last_occurrence_unique(s@, p@, i as int, c);
            }
            return sub_string(cs.as_slice(), i + m, n);
        }
        proof {
            assert forall|j: int| i <= j && #[trigger] occurs_at(s@, p@, j) implies false by {
                if j > i + 0 {
                } else {
                    assert(j == i);
                }
            }
        }
    }
    proof {
        assert forall|i: int| !last_occurrence(s@, p@, i) by {
            if last_occurrence(s@, p@, i) {
                assert(occurs_at(s@, p@, i));
                if i < 0 {
                    assert(false);
                }
            }
        }
    }
    crate::text::owned(s)
}

/// `s` with every trailing copy of `p` (a non-empty pattern) removed.
pub open spec fn trim_end_matches_spec(s: Seq<char>, p: Seq<char>) -> Seq<char>
    decreases s.len(),
{
    if p.len() > 0 && crate::text::ends_with(s, p) {
        trim_end_matches_spec(s.take(s.len() - p.len()), p)
    } else {
        s
    }
}

pub fn trim_end_matches(s: &str, p: &str) -> (r: String)
    requires
        p@.len() > 0,
    ensures
        r@ == trim_end_matches_spec(s@, p@),
{
    let cs = chars_of(s);
    let ps = chars_of(p);
    let mut n = cs.len();
    proof {
        assert(s@.take(n as int) =~= s@);
    }
    loop
        invariant
            n <= cs@.len(),
            cs@ == s@,
            ps@ == p@,
            p@.len() > 0,
            trim_end_matches_spec(s@, p@) == trim_end_matches_spec(s@.take(n as int), p@),
        decreases n,
    {
        let cur = sub_string(cs.as_slice(), 0, n);
        if n >= ps.len() && crate::text::chars_occur_at(cs.as_slice(), ps.as_slice(), n - ps.len()) {
            proof {
                assert(crate::text::ends_with(s@.take(n as int), p@)) by {
                    assert(s@.take(n as int).skip(n - p@.len()) =~= s@.subrange(n - p@.len(), n as int));
                }
                assert(s@.take(n as int).take(n - p@.len()) =~= s@.take(n - p@.len()));
            }
            n = n - ps.len();
        } else {
            proof {
                if crate::text::ends_with(s@.take(n as int), p@) {
                    assert(s@.take(n as int).skip(n - p@.len()) =~= s@.subrange(n - p@.len(), n as int));
                    assert(crate::text::occurs_at(s@, p@, n - p@.len()));
                }
                assert(cur@ =~= s@.take(n as int));
            }
            return cur;
        }
    }
}

} // verus!
