//! Stable insertion order: where an element goes among sorted ones, and the
//! sequence a stable sort by a strict order produces.
use vstd::prelude::*;

verus! {

/// Where a stable sort by `lt` puts `x` into the sorted `s`: after every
/// element `x` does not sort before.
pub open spec fn ins_pos<T>(s: Seq<T>, x: T, lt: spec_fn(T, T) -> bool) -> int
    decreases s.len(),
{
    if s.len() == 0 {
        0
    } else if lt(x, s[0]) {
        0
    } else {
        1 + ins_pos(s.drop_first(), x, lt)
    }
}

/// `s` sorted stably by the strict order `lt`.
pub open spec fn isort<T>(s: Seq<T>, lt: spec_fn(T, T) -> bool) -> Seq<T>
    decreases s.len(),
{
    if s.len() == 0 {
        Seq::empty()
    } else {
        let r = isort(s.drop_last(), lt);
        r.insert(ins_pos(r, s.last(), lt), s.last())
    }
}

pub proof fn lemma_ins_pos<T>(s: Seq<T>, x: T, lt: spec_fn(T, T) -> bool, p: int)
    requires
        0 <= p <= s.len(),
        forall|k: int| 0 <= k < p ==> !lt(x, #[trigger] s[k]),
        p == s.len() || lt(x, s[p]),
    ensures
        ins_pos(s, x, lt) == p,
    decreases s.len(),
{
    if s.len() > 0 && p > 0 {
        assert forall|k: int| 0 <= k < p - 1 implies !lt(x, #[trigger] s.drop_first()[k]) by {
            assert(s.drop_first()[k] == s[k + 1]);
        }
        if p < s.len() {
            assert(s.drop_first()[p - 1] == s[p]);
        }
        lemma_ins_pos(s.drop_first(), x, lt, p - 1);
    }
}

pub proof fn lemma_ins_pos_bound<T>(s: Seq<T>, x: T, lt: spec_fn(T, T) -> bool)
    ensures
        0 <= ins_pos(s, x, lt) <= s.len(),
    decreases s.len(),
{
    if s.len() > 0 && !lt(x, s[0]) {
        lemma_ins_pos_bound(s.drop_first(), x, lt);
    }
}

/// One more element of `s` sorted in.
pub proof fn lemma_isort_step<T>(s: Seq<T>, i: int, lt: spec_fn(T, T) -> bool)
    requires
        0 <= i < s.len(),
    ensures
        isort(s.take(i + 1), lt) == isort(s.take(i), lt).insert(ins_pos(isort(s.take(i), lt), s[i], lt), s[i]),
{
    assert(s.take(i + 1).drop_last() =~= s.take(i));
    assert(s.take(i + 1).last() == s[i]);
}

} // verus!
