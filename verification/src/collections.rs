//! Ordered sets and maps keyed by strings, in the code-point order that
//! `BTreeSet<String>` and `BTreeMap<String, _>` iterate in.
use vstd::prelude::*;

use crate::text::chars_of;

verus! {

// ---------------------------------------------------------------------------
// The order on strings
// ---------------------------------------------------------------------------

/// Lexicographic order on character sequences by code point.
pub open spec fn str_lt(a: Seq<char>, b: Seq<char>) -> bool
    decreases a.len(),
{
    if a.len() == 0 {
        b.len() > 0
    } else if b.len() == 0 {
        false
    } else if a[0] == b[0] {
        str_lt(a.skip(1), b.skip(1))
    } else {
        (a[0] as int) < (b[0] as int)
    }
}

pub proof fn lemma_str_lt_irreflexive(a: Seq<char>)
    ensures
        !str_lt(a, a),
    decreases a.len(),
{
    if a.len() > 0 {
        lemma_str_lt_irreflexive(a.skip(1));
    }
}

pub proof fn lemma_str_lt_total(a: Seq<char>, b: Seq<char>)
    ensures
        a == b || str_lt(a, b) || str_lt(b, a),
    decreases a.len(),
{
    if a.len() > 0 && b.len() > 0 {
        if a[0] == b[0] {
            lemma_str_lt_total(a.skip(1), b.skip(1));
            if a.skip(1) == b.skip(1) {
                assert(a =~= seq![a[0]] + a.skip(1));
                assert(b =~= seq![b[0]] + b.skip(1));
            }
        } else {
            assert((a[0] as int) != (b[0] as int));
        }
    } else if a.len() == 0 && b.len() == 0 {
        assert(a =~= b);
    }
}

pub proof fn lemma_str_lt_transitive(a: Seq<char>, b: Seq<char>, c: Seq<char>)
    requires
        str_lt(a, b),
        str_lt(b, c),
    ensures
        str_lt(a, c),
    decreases a.len(),
{
    if a.len() > 0 && b.len() > 0 && c.len() > 0 {
        if a[0] == b[0] && b[0] == c[0] {
            lemma_str_lt_transitive(a.skip(1), b.skip(1), c.skip(1));
        }
    }
}

pub proof fn lemma_str_lt_asymmetric(a: Seq<char>, b: Seq<char>)
    requires
        str_lt(a, b),
    ensures
        !str_lt(b, a),
{
    if str_lt(b, a) {
        lemma_str_lt_transitive(a, b, a);
        lemma_str_lt_irreflexive(a);
    }
}

/// Whether `a` comes strictly before `b`.
pub fn chars_less(a: &[char], b: &[char]) -> (r: bool)
    ensures
        r == str_lt(a@, b@),
{
    let mut i: usize = 0;
    proof {
        assert(a@.skip(0) =~= a@);
        assert(b@.skip(0) =~= b@);
    }
    while i < a.len() && i < b.len()
        invariant
            i <= a.len(),
            i <= b.len(),
            str_lt(a@, b@) == str_lt(a@.skip(i as int), b@.skip(i as int)),
        decreases a.len() - i,
    {
        let x = a[i];
        let y = b[i];
        if x != y {
            proof {
                assert(a@.skip(i as int)[0] == x);
                assert(b@.skip(i as int)[0] == y);
            }
            return x < y;
        }
        proof {
            assert(a@.skip(i as int).skip(1) =~= a@.skip(i + 1));
            assert(b@.skip(i as int).skip(1) =~= b@.skip(i + 1));
        }
        i = i + 1;
    }
    i < b.len()
}

/// Whether the string `a` comes strictly before `b`.
pub fn str_less(a: &str, b: &str) -> (r: bool)
    ensures
        r == str_lt(a@, b@),
{
    let x = chars_of(a);
    let y = chars_of(b);
    chars_less(x.as_slice(), y.as_slice())
}

/// Strictly increasing in the string order (so also free of duplicates).
pub open spec fn sorted(s: Seq<Seq<char>>) -> bool {
    forall|i: int, j: int| 0 <= i < j < s.len() ==> str_lt(s[i], s[j])
}

pub proof fn lemma_sorted_no_duplicates(s: Seq<Seq<char>>)
    requires
        sorted(s),
    ensures
        s.no_duplicates(),
{
    assert forall|i: int, j: int| 0 <= i < s.len() && 0 <= j < s.len() && i != j implies s[i] != s[j] by {
        if i < j {
            lemma_str_lt_irreflexive(s[i]);
        } else {
            lemma_str_lt_irreflexive(s[j]);
        }
    }
}

/// Where `x` belongs in the sorted `s`: the position of the first element not
/// below it, and whether that element is `x`.
pub open spec fn position_of(s: Seq<Seq<char>>, x: Seq<char>, found: bool, pos: int) -> bool {
    &&& 0 <= pos <= s.len()
    &&& forall|i: int| 0 <= i < pos ==> str_lt(#[trigger] s[i], x)
    &&& found ==> pos < s.len() && s[pos] == x
    &&& !found ==> forall|i: int| pos <= i < s.len() ==> str_lt(x, #[trigger] s[i])
}

pub proof fn lemma_position_contains(s: Seq<Seq<char>>, x: Seq<char>, found: bool, pos: int)
    requires
        position_of(s, x, found, pos),
    ensures
        found == s.contains(x),
{
    if !found && s.contains(x) {
        let k = choose|k: int| 0 <= k < s.len() && s[k] == x;
        lemma_str_lt_irreflexive(x);
        if k < pos {
            assert(str_lt(s[k], x));
        } else {
            assert(str_lt(x, s[k]));
        }
    }
}

/// Binary search for `x` in the sorted `keys`.
fn search(keys: &Vec<String>, x: &Vec<char>) -> (r: (bool, usize))
    requires
        sorted(keys@.map_values(|s: String| s@)),
    ensures
        position_of(keys@.map_values(|s: String| s@), x@, r.0, r.1 as int),
{
    let ghost s = keys@.map_values(|k: String| k@);
    let mut lo: usize = 0;
    let mut hi: usize = keys.len();
    while lo < hi
        invariant
            0 <= lo <= hi <= keys.len(),
            s == keys@.map_values(|k: String| k@),
            sorted(s),
            forall|i: int| 0 <= i < lo ==> str_lt(#[trigger] s[i], x@),
            forall|i: int| hi <= i < s.len() ==> !str_lt(#[trigger] s[i], x@),
        decreases hi - lo,
    {
        let mid = lo + (hi - lo) / 2;
        let k = chars_of(keys[mid].as_str());
        if chars_less(k.as_slice(), x.as_slice()) {
            proof {
                assert forall|i: int| 0 <= i < mid + 1 implies str_lt(#[trigger] s[i], x@) by {
                    if i < mid {
                        lemma_str_lt_transitive(s[i], s[mid as int], x@);
                    }
                }
            }
            lo = mid + 1;
        } else {
            proof {
                assert forall|i: int| mid <= i < s.len() implies !str_lt(#[trigger] s[i], x@) by {
                    if i > mid && str_lt(s[i], x@) {
                        lemma_str_lt_transitive(s[mid as int], s[i], x@);
                    }
                }
            }
            hi = mid;
        }
    }
    if lo < keys.len() {
        let k = chars_of(keys[lo].as_str());
        if crate::text::chars_eq(k.as_slice(), x.as_slice()) {
            return (true, lo);
        }
        proof {
            lemma_str_lt_total(s[lo as int], x@);
            assert forall|i: int| lo <= i < s.len() implies str_lt(x@, #[trigger] s[i]) by {
                if i > lo {
                    lemma_str_lt_transitive(x@, s[lo as int], s[i]);
                }
            }
        }
    }
    (false, lo)
}

// ---------------------------------------------------------------------------
// Sets
// ---------------------------------------------------------------------------

/// A set of strings kept in ascending order.
#[derive(Debug)]
pub struct StrSet {
    items: Vec<String>,
}

impl View for StrSet {
    type V = Seq<Seq<char>>;

    closed spec fn view(&self) -> Seq<Seq<char>> {
        self.items@.map_values(|s: String| s@)
    }
}

/// Whether the strings of `items` are strictly increasing.
fn strictly_sorted(items: &Vec<String>) -> (r: bool)
    ensures
        r == sorted(items@.map_values(|s: String| s@)),
{
    let ghost v = items@.map_values(|s: String| s@);
    if items.len() == 0 {
        return true;
    }
    let mut i: usize = 1;
    while i < items.len()
        invariant
            1 <= i <= items@.len(),
            v == items@.map_values(|s: String| s@),
            sorted(v.take(i as int)),
        decreases items.len() - i,
    {
        if !str_less(items[i - 1].as_str(), items[i].as_str()) {
            proof {
                assert(!str_lt(v[i - 1], v[i as int]));
            }
            return false;
        }
        proof {
            assert forall|a: int, b: int| 0 <= a < b < i + 1 implies str_lt(#[trigger] v.take(i + 1)[a], #[trigger] v.take(i + 1)[b]) by {
                if b == i && a < i - 1 {
                    assert(str_lt(v.take(i as int)[a], v.take(i as int)[i - 1]));
                    lemma_str_lt_transitive(v[a], v[i - 1], v[i as int]);
                } else if b < i {
                    assert(str_lt(v.take(i as int)[a], v.take(i as int)[b]));
                }
            }
        }
        i = i + 1;
    }
    proof {
        assert(v.take(items@.len() as int) =~= v);
    }
    true
}

impl StrSet {
    /// Whether the set is well formed.
    pub fn is_wf(&self) -> (r: bool)
        ensures
            r == self.wf(),
    {
        strictly_sorted(&self.items)
    }

    /// The elements are in ascending order, each once.
    pub open spec fn wf(&self) -> bool {
        sorted(self@)
    }

    /// The elements as a mathematical set.
    pub open spec fn set(&self) -> Set<Seq<char>> {
        self@.to_set()
    }

    pub fn new() -> (r: StrSet)
        ensures
            r.wf(),
            r@ == Seq::<Seq<char>>::empty(),
    {
        let r = StrSet { items: Vec::new() };
        assert(r@ =~= Seq::<Seq<char>>::empty());
        r
    }

    pub fn len(&self) -> (r: usize)
        ensures
            r == self@.len(),
    {
        self.items.len()
    }

    pub fn is_empty(&self) -> (r: bool)
        ensures
            r == (self@.len() == 0),
    {
        self.items.len() == 0
    }

    /// The `i`-th element in ascending order.
    pub fn get(&self, i: usize) -> (r: &String)
        requires
            i < self@.len(),
        ensures
            r@ == self@[i as int],
    {
        &self.items[i]
    }

    pub fn contains(&self, x: &str) -> (r: bool)
        requires
            self.wf(),
        ensures
            r == self@.contains(x@),
    {
        let v = chars_of(x);
        let (found, pos) = search(&self.items, &v);
        proof {
            lemma_position_contains(self@, x@, found, pos as int);
        }
        found
    }

    /// Adds `x`; returns whether it was new.
    pub fn insert(&mut self, x: String) -> (r: bool)
        requires
            old(self).wf(),
        ensures
            final(self).wf(),
            r == !old(self)@.contains(x@),
            final(self).set() == old(self).set().insert(x@),
            final(self)@.len() == old(self)@.len() + (if r { 1int } else { 0int }),
    {
        let v = chars_of(x.as_str());
        let (found, pos) = search(&self.items, &v);
        proof {
            lemma_position_contains(self@, x@, found, pos as int);
        }
        if found {
            proof {
                assert(self@.to_set().insert(x@) =~= self@.to_set());
            }
            return false;
        }
        let ghost old_view = self@;
        self.items.insert(pos, x);
        proof {
            assert(self@ =~= old_view.insert(pos as int, v@));
            assert forall|i: int, j: int| 0 <= i < j < self@.len() implies str_lt(self@[i], self@[j]) by {
                if j < pos {
                } else if j == pos {
                } else if i < pos {
                    assert(str_lt(old_view[i], v@));
                    assert(str_lt(v@, old_view[j - 1]));
                    lemma_str_lt_transitive(old_view[i], v@, old_view[j - 1]);
                } else if i == pos {
                } else {
                }
            }
            assert(self@.to_set() =~= old_view.to_set().insert(x@)) by {
                assert forall|y: Seq<char>| self@.contains(y) <==> old_view.contains(y) || y == x@ by {
                    if self@.contains(y) {
                        let k = choose|k: int| 0 <= k < self@.len() && self@[k] == y;
                        if k < pos {
                            assert(old_view[k] == y);
                        } else if k > pos {
                            assert(old_view[k - 1] == y);
                        }
                    }
                    if old_view.contains(y) {
                        let k = choose|k: int| 0 <= k < old_view.len() && old_view[k] == y;
                        if k < pos {
                            assert(self@[k] == y);
                        } else {
                            assert(self@[k + 1] == y);
                        }
                    }
                    if y == x@ {
                        assert(self@[pos as int] == y);
                    }
                }
            }
        }
        true
    }

    /// Adds every element of `other`; returns how many were new.
    pub fn extend(&mut self, other: &StrSet) -> (r: usize)
        requires
            old(self).wf(),
        ensures
            final(self).wf(),
            final(self).set() == old(self).set().union(other.set()),
            final(self)@.len() == old(self)@.len() + r,
    {
        let mut added: usize = 0;
        let mut i: usize = 0;
        while i < other.items.len()
            invariant
                self.wf(),
                i <= other@.len(),
                self.set() == old(self).set().union(other@.take(i as int).to_set()),
                self@.len() == old(self)@.len() + added,
                added <= i,
            decreases other@.len() - i,
        {
            let is_new = self.insert(other.items[i].clone());
            if is_new {
                added = added + 1;
            }
            proof {
                assert(other@.take(i + 1) =~= other@.take(i as int).push(other@[i as int]));
                other@.take(i as int).lemma_push_to_set_commute(other@[i as int]);
            }
            i = i + 1;
        }
        proof {
            assert(other@.take(other@.len() as int) =~= other@);
        }
        added
    }

    /// An independent copy.
    pub fn copy(&self) -> (r: StrSet)
        ensures
            r@ == self@,
    {
        let mut items: Vec<String> = Vec::new();
        let mut i: usize = 0;
        while i < self.items.len()
            invariant
                i <= self.items.len(),
                items@.map_values(|s: String| s@) == self@.take(i as int),
            decreases self.items.len() - i,
        {
            let ghost before = items@;
            items.push(self.items[i].clone());
            proof {
                assert(items@.map_values(|s: String| s@) =~= before.map_values(|s: String| s@).push(self@[i as int]));
                assert(self@.take(i + 1) =~= self@.take(i as int).push(self@[i as int]));
            }
            i = i + 1;
        }
        proof {
            assert(self@.take(self@.len() as int) =~= self@);
        }
        StrSet { items }
    }

    /// The set holding the elements of `v`.
    pub fn from_vec(v: &Vec<String>) -> (r: StrSet)
        ensures
            r.wf(),
            r.set() == v@.map_values(|s: String| s@).to_set(),
    {
        let ghost vv = v@.map_values(|s: String| s@);
        let mut r = StrSet::new();
        let mut i: usize = 0;
        while i < v.len()
            invariant
                r.wf(),
                i <= v.len(),
                vv == v@.map_values(|s: String| s@),
                r.set() == vv.take(i as int).to_set(),
            decreases v.len() - i,
        {
            r.insert(v[i].clone());
            proof {
                assert(vv.take(i + 1) =~= vv.take(i as int).push(vv[i as int]));
                vv.take(i as int).lemma_push_to_set_commute(vv[i as int]);
            }
            i = i + 1;
        }
        proof {
            assert(vv.take(v.len() as int) =~= vv);
            assert(Seq::<Seq<char>>::empty().to_set() =~= Set::empty());
        }
        r
    }

    /// The elements in ascending order.
    pub fn to_vec(&self) -> (r: Vec<String>)
        ensures
            r@.map_values(|s: String| s@) == self@,
    {
        self.copy().items
    }
}


// ---------------------------------------------------------------------------
// Maps
// ---------------------------------------------------------------------------

/// A map from strings to values, keys kept in ascending order.
#[derive(Debug)]
pub struct StrMap<V> {
    keys: Vec<String>,
    vals: Vec<V>,
}

pub proof fn lemma_sorted_insert(old_keys: Seq<Seq<char>>, x: Seq<char>, pos: int)
    requires
        sorted(old_keys),
        position_of(old_keys, x, false, pos),
    ensures
        sorted(old_keys.insert(pos, x)),
        old_keys.insert(pos, x).to_set() == old_keys.to_set().insert(x),
{
    let ks = old_keys.insert(pos, x);
    assert forall|i: int, j: int| 0 <= i < j < ks.len() implies str_lt(ks[i], ks[j]) by {
        if i < pos && j > pos {
            assert(str_lt(old_keys[i], x));
            assert(str_lt(x, old_keys[j - 1]));
            lemma_str_lt_transitive(old_keys[i], x, old_keys[j - 1]);
        }
    }
    assert forall|y: Seq<char>| ks.contains(y) <==> old_keys.contains(y) || y == x by {
        if ks.contains(y) {
            let k = choose|k: int| 0 <= k < ks.len() && ks[k] == y;
            if k < pos {
                assert(old_keys[k] == y);
            } else if k > pos {
                assert(old_keys[k - 1] == y);
            }
        }
        if old_keys.contains(y) {
            let k = choose|k: int| 0 <= k < old_keys.len() && old_keys[k] == y;
            if k < pos {
                assert(ks[k] == y);
            } else {
                assert(ks[k + 1] == y);
            }
        }
        if y == x {
            assert(ks[pos] == y);
        }
    }
    assert(ks.to_set() =~= old_keys.to_set().insert(x));
}

impl<V> StrMap<V> {
    /// Whether the map is well formed.
    pub fn is_wf(&self) -> (r: bool)
        ensures
            r == self.wf(),
    {
        strictly_sorted(&self.keys) && self.keys.len() == self.vals.len()
    }

    /// The keys in ascending order.
    pub closed spec fn keys(&self) -> Seq<Seq<char>> {
        self.keys@.map_values(|s: String| s@)
    }

    /// The values, aligned with `keys`.
    pub closed spec fn vals(&self) -> Seq<V> {
        self.vals@
    }

    pub open spec fn wf(&self) -> bool {
        sorted(self.keys()) && self.keys().len() == self.vals().len()
    }

    /// The map from keys to values.
    pub open spec fn as_map(&self) -> Map<Seq<char>, V> {
        Map::new(|k: Seq<char>| self.keys().contains(k), |k: Seq<char>| self.vals()[self.keys().index_of(k)])
    }

    pub fn new() -> (r: StrMap<V>)
        ensures
            r.wf(),
            r.keys() == Seq::<Seq<char>>::empty(),
            r.vals() == Seq::<V>::empty(),
    {
        let r = StrMap { keys: Vec::new(), vals: Vec::new() };
        assert(r.keys() =~= Seq::<Seq<char>>::empty());
        r
    }

    pub fn len(&self) -> (r: usize)
        requires
            self.wf(),
        ensures
            r == self.keys().len(),
    {
        self.keys.len()
    }

    pub fn key_at(&self, i: usize) -> (r: &String)
        requires
            self.wf(),
            i < self.keys().len(),
        ensures
            r@ == self.keys()[i as int],
    {
        &self.keys[i]
    }

    pub fn val_at(&self, i: usize) -> (r: &V)
        requires
            self.wf(),
            i < self.keys().len(),
        ensures
            *r == self.vals()[i as int],
    {
        &self.vals[i]
    }

    /// The position of key `k`, if present.
    pub fn find(&self, k: &str) -> (r: Option<usize>)
        requires
            self.wf(),
        ensures
            r matches Some(i) ==> i < self.keys().len() && self.keys()[i as int] == k@,
            r is None ==> !self.keys().contains(k@),
    {
        let v = chars_of(k);
        let (found, pos) = search(&self.keys, &v);
        proof {
            lemma_position_contains(self.keys(), k@, found, pos as int);
        }
        if found { Some(pos) } else { None }
    }

    /// The value stored under `k`, if any.
    pub fn get(&self, k: &str) -> (r: Option<&V>)
        requires
            self.wf(),
        ensures
            r matches Some(v) ==> self.as_map().contains_key(k@) && self.as_map()[k@] == *v,
            r is None ==> !self.as_map().contains_key(k@),
    {
        match self.find(k) {
            Some(i) => {
                proof {
                    lemma_sorted_no_duplicates(self.keys());
                    let j = self.keys().index_of(k@);
                    assert(0 <= j < self.keys().len() && self.keys()[j] == k@);
                }
                Some(&self.vals[i])
            },
            None => None,
        }
    }

    /// The value at position `i`, for update in place.
    pub fn val_mut(&mut self, i: usize) -> (r: &mut V)
        requires
            old(self).wf(),
            i < old(self).keys().len(),
        ensures
            *r == old(self).vals()[i as int],
            final(self).keys() == old(self).keys(),
            final(self).vals() == old(self).vals().update(i as int, *final(r)),
    {
        &mut self.vals[i]
    }

    /// Stores `v` under `k`, replacing any earlier value.
    pub fn set(&mut self, k: String, v: V)
        requires
            old(self).wf(),
        ensures
            final(self).wf(),
            final(self).as_map() == old(self).as_map().insert(k@, v),
            final(self).keys().to_set() == old(self).keys().to_set().insert(k@),
            old(self).keys().contains(k@) ==> final(self).keys() == old(self).keys()
                && final(self).vals() == old(self).vals().update(old(self).keys().index_of(k@), v),
            !old(self).keys().contains(k@) ==> exists|p: int| position_of(old(self).keys(), k@, false, p)
                && final(self).keys() == old(self).keys().insert(p, k@)
                && final(self).vals() == old(self).vals().insert(p, v),
    {
        let kv = chars_of(k.as_str());
        let (found, pos) = search(&self.keys, &kv);
        proof {
            lemma_position_contains(self.keys(), k@, found, pos as int);
            lemma_sorted_no_duplicates(self.keys());
        }
        if found {
            proof {
                let j = self.keys().index_of(k@);
                assert(0 <= j < self.keys().len() && self.keys()[j] == k@);
                assert(j == pos);
                assert(self.keys().to_set().insert(k@) =~= self.keys().to_set());
            }
            let ghost old_map = self.as_map();
            self.vals.set(pos, v);
            proof {
                assert forall|q: Seq<char>| #[trigger] self.keys().contains(q) implies self.as_map()[q] == old_map.insert(k@, v)[q] by {
                    let j = self.keys().index_of(q);
                    assert(self.keys()[j] == q);
                    if q != k@ {
                        assert(j != pos);
                    }
                }
                assert(self.as_map() =~= old_map.insert(k@, v));
            }
        } else {
            let ghost old_keys = self.keys();
            let ghost old_vals = self.vals();
            let ghost old_map = self.as_map();
            self.keys.insert(pos, k);
            self.vals.insert(pos, v);
            proof {
                assert(self.keys() =~= old_keys.insert(pos as int, kv@));
                lemma_sorted_insert(old_keys, k@, pos as int);
                lemma_sorted_no_duplicates(self.keys());
                assert forall|q: Seq<char>| #[trigger] self.keys().contains(q) implies self.as_map()[q] == old_map.insert(k@, v)[q] by {
                    let j = self.keys().index_of(q);
                    assert(self.keys()[j] == q);
                    if q != k@ {
                        assert(j != pos);
                        let oj = if j < pos { j } else { j - 1 };
                        assert(old_keys[oj] == q);
                        assert(old_keys.contains(q));
                        let i0 = old_keys.index_of(q);
                        assert(old_keys[i0] == q);
                        assert(i0 == oj);
                    } else {
                        assert(self.keys()[pos as int] == k@);
                        assert(j == pos);
                    }
                }
                assert forall|q: Seq<char>| self.keys().contains(q) <==> old_map.insert(k@, v).contains_key(q) by {
                    assert(self.keys().to_set().contains(q) <==> old_keys.to_set().insert(k@).contains(q));
                }
                assert(self.as_map() =~= old_map.insert(k@, v));
            }
        }
    }
}


/// A map from strings to sets of strings, each set well formed.
pub open spec fn set_map_wf(m: &StrMap<StrSet>) -> bool {
    m.wf() && forall|k: Seq<char>| #[trigger] m.as_map().contains_key(k) ==> m.as_map()[k].wf()
}

/// The mathematical view of a map of sets.
pub open spec fn set_map_view(m: &StrMap<StrSet>) -> Map<Seq<char>, Set<Seq<char>>> {
    Map::new(|k: Seq<char>| m.as_map().contains_key(k), |k: Seq<char>| m.as_map()[k].set())
}

/// The set stored under `k` in a map view, empty when absent.
pub open spec fn set_at(m: Map<Seq<char>, Set<Seq<char>>>, k: Seq<char>) -> Set<Seq<char>> {
    if m.contains_key(k) { m[k] } else { Set::empty() }
}

/// Adds `v` to the set stored under `k`, creating it when absent.
pub fn add_to_set_map(m: &mut StrMap<StrSet>, k: String, v: String)
    requires
        set_map_wf(old(m)),
    ensures
        set_map_wf(final(m)),
        set_map_view(final(m)) == set_map_view(old(m)).insert(k@, set_at(set_map_view(old(m)), k@).insert(v@)),
{
    let ghost old_view = set_map_view(m);
    let mut updated = match m.get(k.as_str()) {
        Some(existing) => existing.copy(),
        None => StrSet::new(),
    };
    proof {
        if m.as_map().contains_key(k@) {
            assert(updated@ == m.as_map()[k@]@);
            assert(m.as_map()[k@].wf());
        } else {
            assert(updated.set() =~= Set::<Seq<char>>::empty());
        }
    }
    updated.insert(v);
    m.set(k, updated);
    proof {
        assert(set_map_view(m) =~= old_view.insert(k@, set_at(old_view, k@).insert(v@)));
    }
}

/// The set stored under `k`, if any.
/// Whether a map of sets is well formed.
pub fn set_map_is_wf(m: &StrMap<StrSet>) -> (r: bool)
    ensures
        r == set_map_wf(m),
{
    if !m.is_wf() {
        return false;
    }
    proof {
        lemma_sorted_no_duplicates(m.keys());
    }
    let mut j: usize = 0;
    while j < m.len()
        invariant
            m.wf(),
            m.keys().no_duplicates(),
            j <= m.keys().len(),
            forall|x: int| 0 <= x < j ==> (#[trigger] m.vals()[x]).wf(),
        decreases m.keys().len() - j,
    {
        if !m.val_at(j).is_wf() {
            proof {
                let k = m.keys()[j as int];
                assert(m.keys().contains(k));
                assert(m.keys().index_of(k) == j);
                assert(m.as_map().contains_key(k));
            }
            return false;
        }
        j = j + 1;
    }
    proof {
        assert forall|k: Seq<char>| #[trigger] m.as_map().contains_key(k) implies m.as_map()[k].wf() by {
            let x = m.keys().index_of(k);
            assert(0 <= x < m.keys().len());
            assert(m.vals()[x].wf());
        }
    }
    true
}

pub fn set_map_get<'a>(m: &'a StrMap<StrSet>, k: &str) -> (r: Option<&'a StrSet>)
    requires
        set_map_wf(m),
    ensures
        r matches Some(s) ==> set_map_view(m).contains_key(k@) && set_map_view(m)[k@] == s.set() && s.wf(),
        r is None ==> !set_map_view(m).contains_key(k@),
{
    m.get(k)
}


pub proof fn lemma_push_to_set<A>(s: Seq<A>, x: A)
    ensures
        s.push(x).to_set() =~= s.to_set().insert(x),
{
    let t = s.push(x);
    assert forall|y: A| t.to_set().contains(y) <==> s.to_set().insert(x).contains(y) by {
        if t.contains(y) {
            let j = choose|j: int| 0 <= j < t.len() && #[trigger] t[j] == y;
            if j < s.len() {
                assert(s[j] == y);
            }
        }
        if s.contains(y) {
            let j = choose|j: int| 0 <= j < s.len() && #[trigger] s[j] == y;
            assert(t[j] == y);
        }
        if y == x {
            assert(t[s.len() as int] == x);
        }
    }
}

/// The strings of `v` as character sequences.
pub open spec fn str_views(v: Seq<String>) -> Seq<Seq<char>> {
    v.map_values(|s: String| s@)
}

/// Whether `x` is one of the strings of `v`.
pub fn contains_str(v: &Vec<String>, x: &str) -> (r: bool)
    ensures
        r == str_views(v@).contains(x@),
{
    let mut i: usize = 0;
    while i < v.len()
        invariant
            i <= v.len(),
            forall|j: int| 0 <= j < i ==> v@[j]@ != x@,
        decreases v.len() - i,
    {
        if crate::text::str_eq(v[i].as_str(), x) {
            proof {
                assert(str_views(v@)[i as int] == x@);
            }
            return true;
        }
        i = i + 1;
    }
    proof {
        if str_views(v@).contains(x@) {
            let j = choose|j: int| 0 <= j < str_views(v@).len() && str_views(v@)[j] == x@;
            assert(v@[j]@ == x@);
        }
    }
    false
}


/// An independent copy of a list of strings.
pub fn copy_strings(v: &Vec<String>) -> (r: Vec<String>)
    ensures
        str_views(r@) == str_views(v@),
{
    let mut out: Vec<String> = Vec::new();
    let mut i: usize = 0;
    while i < v.len()
        invariant
            i <= v@.len(),
            str_views(out@) == str_views(v@).take(i as int),
        decreases v.len() - i,
    {
        let ghost before = str_views(out@);
        out.push(v[i].clone());
        proof {
            assert(str_views(out@) =~= before.push(v@[i as int]@));
            assert(str_views(v@).take(i + 1) =~= str_views(v@).take(i as int).push(v@[i as int]@));
        }
        i = i + 1;
    }
    proof {
        assert(str_views(v@).take(v@.len() as int) =~= str_views(v@));
    }
    out
}

/// An optional string viewed as characters.
pub open spec fn opt_str(o: Option<String>) -> Option<Seq<char>> {
    match o {
        Some(s) => Some(s@),
        None => None,
    }
}

pub fn copy_opt(o: &Option<String>) -> (r: Option<String>)
    ensures
        opt_str(r) == opt_str(*o),
{
    match o {
        Some(s) => Some(s.clone()),
        None => None,
    }
}

/// A map from strings to lists of strings, viewed as characters.
pub open spec fn lists_view(m: StrMap<Vec<String>>) -> Seq<(Seq<char>, Seq<Seq<char>>)> {
    Seq::new(m.keys().len(), |i: int| (m.keys()[i], str_views(m.vals()[i]@)))
}

impl StrMap<Vec<String>> {
    /// An independent copy.
    pub fn copy_lists(&self) -> (r: StrMap<Vec<String>>)
        requires
            self.wf(),
        ensures
            r.wf(),
            r.keys() == self.keys(),
            lists_view(r) == lists_view(*self),
    {
        let mut vals: Vec<Vec<String>> = Vec::new();
        let mut i: usize = 0;
        while i < self.vals.len()
            invariant
                self.wf(),
                i <= self.vals@.len(),
                vals@.len() == i,
                forall|j: int| 0 <= j < i ==> str_views(#[trigger] vals@[j]@) == str_views(self.vals@[j]@),
            decreases self.vals.len() - i,
        {
            vals.push(copy_strings(&self.vals[i]));
            i = i + 1;
        }
        let keys = copy_strings(&self.keys);
        let r = StrMap { keys, vals };
        proof {
            assert(r.keys() =~= self.keys());
            assert(lists_view(r) =~= lists_view(*self));
        }
        r
    }
}


/// A set of strings has one ascending listing.
pub proof fn lemma_sorted_unique(a: Seq<Seq<char>>, b: Seq<Seq<char>>)
    requires
        sorted(a),
        sorted(b),
        a.to_set() == b.to_set(),
    ensures
        a == b,
    decreases a.len() + b.len(),
{
    if a.len() == 0 || b.len() == 0 {
        if a.len() > 0 {
            assert(a.to_set().contains(a[0]));
            assert(b.contains(a[0]));
        }
        if b.len() > 0 {
            assert(b.to_set().contains(b[0]));
            assert(a.contains(b[0]));
        }
        assert(a =~= b);
    } else {
        assert(b.to_set().contains(a[0]));
        assert(a.to_set().contains(b[0]));
        let j = choose|j: int| 0 <= j < b.len() && b[j] == a[0];
        let k = choose|k: int| 0 <= k < a.len() && a[k] == b[0];
        if j > 0 {
            if k > 0 {
                lemma_str_lt_asymmetric(b[0], a[0]);
            } else {
                lemma_str_lt_irreflexive(b[0]);
            }
        }
        assert(a[0] == b[0]);
        let a1 = a.skip(1);
        let b1 = b.skip(1);
        assert forall|x: Seq<char>| a1.to_set().contains(x) <==> b1.to_set().contains(x) by {
            if a1.contains(x) {
                let i = choose|i: int| 0 <= i < a1.len() && a1[i] == x;
                assert(a[i + 1] == x);
                assert(a.to_set().contains(x));
                assert(b.contains(x));
                let m = choose|m: int| 0 <= m < b.len() && b[m] == x;
                if m == 0 {
                    lemma_str_lt_irreflexive(a[0]);
                    assert(str_lt(a[0], a[i + 1]));
                }
                assert(b1[m - 1] == x);
            }
            if b1.contains(x) {
                let i = choose|i: int| 0 <= i < b1.len() && b1[i] == x;
                assert(b[i + 1] == x);
                assert(b.to_set().contains(x));
                assert(a.contains(x));
                let m = choose|m: int| 0 <= m < a.len() && a[m] == x;
                if m == 0 {
                    lemma_str_lt_irreflexive(b[0]);
                    assert(str_lt(b[0], b[i + 1]));
                }
                assert(a1[m - 1] == x);
            }
        }
        assert(a1.to_set() =~= b1.to_set());
        lemma_sorted_unique(a1, b1);
        assert(a =~= seq![a[0]] + a1);
        assert(b =~= seq![b[0]] + b1);
    }
}

} // verus!
