//! The reverse-dependency walk: from the changed files outwards through the
//! files that consume them, tracking which exports each reached file has
//! affected and at what depth.
use vstd::prelude::*;

use crate::collections::{set_map_get, set_map_view, StrSet};
use crate::facts::{ImportTarget, ModuleFacts, ReexportTarget};
use crate::graph::{EdgeKind, ModuleState};
use crate::graph::normalize_separators;
use crate::text::{concat, concat3, replace_char, str_eq};

verus! {

/// How a consumer file depends on the file it was reached from.
#[derive(Debug)]
pub enum ConsumerRelation {
    /// The consumer imports the file under the binding `local`.
    Import { imported: ImportTarget, local: String, kind: EdgeKind },
    /// The consumer imports the file under `local` and exports that binding
    /// again as `exported`.
    LocalExport { imported: ImportTarget, local: String, exported: String },
    /// The consumer re-exports from the file.
    Reexport { imported: ReexportTarget, exported: String, kind: EdgeKind, is_ambiguous: bool },
}

/// One consumer of a file: the consumer's position among the modules and how
/// it depends on the file.
#[derive(Debug)]
pub struct ConsumerLink {
    pub consumer: usize,
    pub relation: ConsumerRelation,
}

/// One edge that explains why a file or export is in the blast radius.
#[derive(Debug)]
pub struct ImpactReason {
    pub parent_id: String,
    pub child_id: String,
    pub kind: EdgeKind,
    pub is_ambiguous: bool,
}

// ---------------------------------------------------------------------------
// What a link passes on
// ---------------------------------------------------------------------------

pub open spec fn default_name() -> Seq<char> {
    seq!['d', 'e', 'f', 'a', 'u', 'l', 't']
}

/// The pseudo export standing for "the whole file changed".
pub open spec fn file_marker() -> Seq<char> {
    seq!['*', 'f', 'i', 'l', 'e', '*']
}

pub open spec fn star() -> Seq<char> {
    seq!['*']
}

pub open spec fn nonempty(e: Set<Seq<char>>) -> bool {
    exists|x: Seq<char>| e.contains(x)
}

/// Some member of `members` is in `e`.
pub open spec fn meets(members: Set<Seq<char>>, e: Set<Seq<char>>) -> bool {
    exists|m: Seq<char>| members.contains(m) && e.contains(m)
}

/// The members of the namespace binding `local` that the module reads.
pub open spec fn ns_members(module: ModuleFacts, local: Seq<char>) -> Option<Set<Seq<char>>> {
    let m = set_map_view(&module.namespace_member_usage);
    if m.contains_key(local) {
        Some(m[local])
    } else {
        None
    }
}

/// Whether a change to the exports `e` reaches the binding `local` imported
/// as `imported`.
pub open spec fn import_target_matches(imported: ImportTarget, e: Set<Seq<char>>, module: ModuleFacts, local: Seq<char>) -> bool {
    match imported {
        ImportTarget::Name(name) => e.contains(name@),
        ImportTarget::Default => e.contains(default_name()) || e.contains(file_marker()) || e.contains(local),
        ImportTarget::Namespace => match ns_members(module, local) {
            Some(members) => meets(members, e),
            None => module.used_locals.set().contains(local) && nonempty(e),
        },
        ImportTarget::SideEffect => nonempty(e),
    }
}

/// Whether a change to `e` reaches an import, which must also be used in the
/// module's body (a side-effect import needs no use).
pub open spec fn import_matches(imported: ImportTarget, e: Set<Seq<char>>, module: ModuleFacts, local: Seq<char>) -> bool {
    match imported {
        ImportTarget::SideEffect => nonempty(e),
        _ => import_target_matches(imported, e, module, local) && (module.used_locals.set().contains(local) || match ns_members(module, local) {
            Some(members) => meets(members, e),
            None => false,
        }),
    }
}

/// Whether a change to `e` reaches a re-export.
pub open spec fn reexport_matches(imported: ReexportTarget, e: Set<Seq<char>>) -> bool {
    match imported {
        ReexportTarget::Name(name) => e.contains(name@),
        ReexportTarget::Default => e.contains(default_name()),
        ReexportTarget::Namespace => nonempty(e),
        ReexportTarget::All => nonempty(e),
    }
}

/// Whether a change to the exports `e` of a file passes along `link`.
pub open spec fn link_matches(link: ConsumerLink, e: Set<Seq<char>>, consumer: ModuleFacts) -> bool {
    match link.relation {
        ConsumerRelation::Import { imported, local, .. } => import_matches(imported, e, consumer, local@),
        ConsumerRelation::LocalExport { imported, local, .. } => import_target_matches(imported, e, consumer, local@),
        ConsumerRelation::Reexport { imported, .. } => reexport_matches(imported, e),
    }
}

/// The exports of the consumer that a matching `link` affects, given the
/// affected exports `e` of the file and the consumer's public exports.
pub open spec fn link_adds(link: ConsumerLink, e: Set<Seq<char>>, public: Set<Seq<char>>) -> Set<Seq<char>> {
    match link.relation {
        ConsumerRelation::Import { .. } => public,
        ConsumerRelation::LocalExport { exported, .. } => set![exported@],
        ConsumerRelation::Reexport { imported, exported, .. } => match imported {
            ReexportTarget::All => e,
            _ => if exported@ == star() { Set::empty() } else { set![exported@] },
        },
    }
}

/// The names a link may add whatever reaches it.
pub open spec fn link_names(link: ConsumerLink) -> Set<Seq<char>> {
    match link.relation {
        ConsumerRelation::Import { .. } => Set::empty(),
        ConsumerRelation::LocalExport { exported, .. } => set![exported@],
        ConsumerRelation::Reexport { exported, .. } => set![exported@],
    }
}

/// More affected exports never stop a link from matching, and never make it
/// add less.
pub proof fn lemma_link_monotonic(link: ConsumerLink, e1: Set<Seq<char>>, e2: Set<Seq<char>>, consumer: ModuleFacts, public: Set<Seq<char>>)
    requires
        e1.subset_of(e2),
    ensures
        link_matches(link, e1, consumer) ==> link_matches(link, e2, consumer),
        link_adds(link, e1, public).subset_of(link_adds(link, e2, public)),
{
    assert(nonempty(e1) ==> nonempty(e2));
    assert forall|ms: Set<Seq<char>>| meets(ms, e1) implies meets(ms, e2) by {
        let m = choose|m: Seq<char>| ms.contains(m) && e1.contains(m);
        assert(ms.contains(m) && e2.contains(m));
    }
    assert(nonempty(e1) ==> nonempty(e2)) by {
        if nonempty(e1) {
            let x = choose|x: Seq<char>| e1.contains(x);
            assert(e2.contains(x));
        }
    }
}

/// A file that imports a binding but never uses it is not reached through
/// that import: merely importing a changed export cannot break it.
pub proof fn lemma_unused_import_unreached(link: ConsumerLink, e: Set<Seq<char>>, consumer: ModuleFacts)
    requires
        link.relation matches ConsumerRelation::Import { imported, local, .. } && !(imported is SideEffect)
            && !consumer.used_locals.set().contains(local@) && ns_members(consumer, local@) is None,
    ensures
        !link_matches(link, e, consumer),
{
}

/// A change to no export passes along no link.
pub proof fn lemma_empty_change_unreached(link: ConsumerLink, consumer: ModuleFacts)
    ensures
        !link_matches(link, Set::empty(), consumer),
{
    assert(!nonempty(Set::<Seq<char>>::empty()));
    assert forall|ms: Set<Seq<char>>| !meets(ms, Set::<Seq<char>>::empty()) by {}
}

pub proof fn lemma_nonempty_seq(s: Seq<Seq<char>>)
    ensures
        s.len() > 0 <==> nonempty(s.to_set()),
{
    if s.len() > 0 {
        assert(s.to_set().contains(s[0]));
    }
    if nonempty(s.to_set()) {
        let x = choose|x: Seq<char>| s.to_set().contains(x);
        assert(s.contains(x));
    }
}

// ---------------------------------------------------------------------------
// Deciding a link
// ---------------------------------------------------------------------------

fn set_nonempty(e: &StrSet) -> (r: bool)
    ensures
        r == nonempty(e.set()),
{
    proof {
        lemma_nonempty_seq(e@);
    }
    !e.is_empty()
}

fn set_meets(members: &StrSet, e: &StrSet) -> (r: bool)
    requires
        e.wf(),
    ensures
        r == meets(members.set(), e.set()),
{
    let mut i: usize = 0;
    while i < members.len()
        invariant
            e.wf(),
            i <= members@.len(),
            forall|j: int| 0 <= j < i ==> !e@.contains(#[trigger] members@[j]),
        decreases members@.len() - i,
    {
        if e.contains(members.get(i).as_str()) {
            proof {
                assert(members.set().contains(members@[i as int]));
            }
            return true;
        }
        i = i + 1;
    }
    proof {
        if meets(members.set(), e.set()) {
            let m = choose|m: Seq<char>| members.set().contains(m) && e.set().contains(m);
            let j = choose|j: int| 0 <= j < members@.len() && members@[j] == m;
            assert(!e@.contains(members@[j]));
        }
    }
    false
}

fn namespace_members<'a>(module: &'a ModuleFacts, local: &str) -> (r: Option<&'a StrSet>)
    requires
        module.wf(),
    ensures
        match r {
            Some(s) => ns_members(*module, local@) == Some(s.set()) && s.wf(),
            None => ns_members(*module, local@) is None,
        },
{
    set_map_get(&module.namespace_member_usage, local)
}

fn import_target_matches_exec(imported: &ImportTarget, e: &StrSet, module: &ModuleFacts, local: &str) -> (r: bool)
    requires
        e.wf(),
        module.wf(),
    ensures
        r == import_target_matches(*imported, e.set(), *module, local@),
{
    match imported {
        ImportTarget::Name(name) => e.contains(name.as_str()),
        ImportTarget::Default => {
            proof {
                reveal_strlit("default");
                reveal_strlit("*file*");
                assert("default"@ =~= default_name());
                assert("*file*"@ =~= file_marker());
            }
            e.contains("default") || e.contains("*file*") || e.contains(local)
        },
        ImportTarget::Namespace => match namespace_members(module, local) {
            Some(members) => set_meets(members, e),
            None => module.used_locals.contains(local) && set_nonempty(e),
        },
        ImportTarget::SideEffect => set_nonempty(e),
    }
}

fn import_matches_exec(imported: &ImportTarget, e: &StrSet, module: &ModuleFacts, local: &str) -> (r: bool)
    requires
        e.wf(),
        module.wf(),
    ensures
        r == import_matches(*imported, e.set(), *module, local@),
{
    if let ImportTarget::SideEffect = imported {
        return set_nonempty(e);
    }
    if !import_target_matches_exec(imported, e, module, local) {
        return false;
    }
    if module.used_locals.contains(local) {
        return true;
    }
    match namespace_members(module, local) {
        Some(members) => set_meets(members, e),
        None => false,
    }
}

fn reexport_matches_exec(imported: &ReexportTarget, e: &StrSet) -> (r: bool)
    requires
        e.wf(),
    ensures
        r == reexport_matches(*imported, e.set()),
{
    match imported {
        ReexportTarget::Name(name) => e.contains(name.as_str()),
        ReexportTarget::Default => {
            proof {
                reveal_strlit("default");
                assert("default"@ =~= default_name());
            }
            e.contains("default")
        },
        ReexportTarget::Namespace => set_nonempty(e),
        ReexportTarget::All => set_nonempty(e),
    }
}

/// Whether a change to the affected exports `e` passes along `link` to its
/// consumer.
pub fn link_matches_exec(link: &ConsumerLink, e: &StrSet, consumer: &ModuleFacts) -> (r: bool)
    requires
        e.wf(),
        consumer.wf(),
    ensures
        r == link_matches(*link, e.set(), *consumer),
{
    match &link.relation {
        ConsumerRelation::Import { imported, local, .. } => import_matches_exec(imported, e, consumer, local.as_str()),
        ConsumerRelation::LocalExport { imported, local, .. } => import_target_matches_exec(imported, e, consumer, local.as_str()),
        ConsumerRelation::Reexport { imported, .. } => reexport_matches_exec(imported, e),
    }
}

/// The exports a matching `link` affects in its consumer.
pub fn link_adds_exec(link: &ConsumerLink, e: &StrSet, public: &StrSet) -> (r: StrSet)
    requires
        e.wf(),
        public.wf(),
    ensures
        r.wf(),
        r.set() == link_adds(*link, e.set(), public.set()),
{
    match &link.relation {
        ConsumerRelation::Import { .. } => {
            let r = public.copy();
            r
        },
        ConsumerRelation::LocalExport { exported, .. } => {
            let mut r = StrSet::new();
            r.insert(exported.clone());
            proof {
                assert(r.set() =~= set![exported@]);
            }
            r
        },
        ConsumerRelation::Reexport { imported, exported, .. } => {
            if let ReexportTarget::All = imported {
                let r = e.copy();
                return r;
            }
            let mut r = StrSet::new();
            proof {
                reveal_strlit("*");
                assert("*"@ =~= star());
                assert(r.set() =~= Set::<Seq<char>>::empty());
            }
            if !str_eq(exported.as_str(), "*") {
                r.insert(exported.clone());
                proof {
                    assert(r.set() =~= set![exported@]);
                }
            }
            r
        },
    }
}


// ---------------------------------------------------------------------------
// The names that can ever be affected
// ---------------------------------------------------------------------------

/// The union of a sequence of sets.
pub open spec fn union_all(s: Seq<Set<Seq<char>>>) -> Set<Seq<char>>
    decreases s.len(),
{
    if s.len() == 0 {
        Set::empty()
    } else {
        union_all(s.drop_last()).union(s.last())
    }
}

pub proof fn lemma_union_all(s: Seq<Set<Seq<char>>>)
    ensures
        (forall|i: int| 0 <= i < s.len() ==> #[trigger] s[i].finite()) ==> union_all(s).finite(),
        forall|i: int| 0 <= i < s.len() ==> #[trigger] s[i].subset_of(union_all(s)),
    decreases s.len(),
{
    if s.len() > 0 {
        lemma_union_all(s.drop_last());
        assert forall|i: int| 0 <= i < s.len() implies #[trigger] s[i].subset_of(union_all(s)) by {
            if i < s.len() - 1 {
                assert(s.drop_last()[i] == s[i]);
                assert(s.drop_last()[i].subset_of(union_all(s.drop_last())));
            }
            assert forall|x: Seq<char>| s[i].contains(x) implies union_all(s).contains(x) by {
                if i < s.len() - 1 {
                    assert(s.drop_last()[i].contains(x));
                }
            }
        }
        if forall|i: int| 0 <= i < s.len() ==> #[trigger] s[i].finite() {
            assert forall|i: int| 0 <= i < s.drop_last().len() implies #[trigger] s.drop_last()[i].finite() by {
                assert(s[i].finite());
            }
            assert(s[s.len() - 1].finite());
        }
    }
}

/// The names a list of links may add.
pub open spec fn links_names(links: Seq<ConsumerLink>) -> Set<Seq<char>> {
    union_all(links.map_values(|l: ConsumerLink| link_names(l)))
}

/// Every export name the walk can ever mark as affected: the names it starts
/// from, every module's public exports, and the names links export.
pub open spec fn universe(roots: Seq<(usize, StrSet)>, states: Seq<ModuleState>, reverse: Seq<Vec<ConsumerLink>>) -> Set<Seq<char>> {
    union_all(roots.map_values(|r: (usize, StrSet)| r.1.set())).union(
        union_all(states.map_values(|m: ModuleState| m.public_exports.set())),
    ).union(union_all(reverse.map_values(|v: Vec<ConsumerLink>| links_names(v@))))
}

pub proof fn lemma_universe(roots: Seq<(usize, StrSet)>, states: Seq<ModuleState>, reverse: Seq<Vec<ConsumerLink>>)
    ensures
        universe(roots, states, reverse).finite(),
        forall|i: int| 0 <= i < roots.len() ==> #[trigger] roots[i].1.set().subset_of(universe(roots, states, reverse)),
        forall|i: int| 0 <= i < states.len() ==> #[trigger] states[i].public_exports.set().subset_of(universe(roots, states, reverse)),
        forall|f: int, k: int| 0 <= f < reverse.len() && 0 <= k < reverse[f]@.len() ==> #[trigger] link_names(reverse[f]@[k]).subset_of(universe(roots, states, reverse)),
{
    let rs = roots.map_values(|r: (usize, StrSet)| r.1.set());
    let ms = states.map_values(|m: ModuleState| m.public_exports.set());
    let ls = reverse.map_values(|v: Vec<ConsumerLink>| links_names(v@));
    lemma_union_all(rs);
    lemma_union_all(ms);
    lemma_union_all(ls);
    assert forall|i: int| 0 <= i < rs.len() implies #[trigger] rs[i].finite() by {}
    assert forall|i: int| 0 <= i < ms.len() implies #[trigger] ms[i].finite() by {}
    assert forall|f: int| 0 <= f < ls.len() implies #[trigger] ls[f].finite() by {
        let names = reverse[f]@.map_values(|l: ConsumerLink| link_names(l));
        lemma_union_all(names);
        assert forall|k: int| 0 <= k < names.len() implies #[trigger] names[k].finite() by {
            assert(link_names(reverse[f]@[k]).finite());
        }
    }
    assert forall|i: int| 0 <= i < roots.len() implies #[trigger] roots[i].1.set().subset_of(universe(roots, states, reverse)) by {
        assert(rs[i] == roots[i].1.set());
        assert(rs[i].subset_of(union_all(rs)));
        assert forall|x: Seq<char>| rs[i].contains(x) implies universe(roots, states, reverse).contains(x) by {
            assert(union_all(rs).contains(x));
        }
    }
    assert forall|i: int| 0 <= i < states.len() implies #[trigger] states[i].public_exports.set().subset_of(universe(roots, states, reverse)) by {
        assert(ms[i] == states[i].public_exports.set());
        assert(ms[i].subset_of(union_all(ms)));
        assert forall|x: Seq<char>| ms[i].contains(x) implies universe(roots, states, reverse).contains(x) by {
            assert(union_all(ms).contains(x));
        }
    }
    assert forall|f: int, k: int| 0 <= f < reverse.len() && 0 <= k < reverse[f]@.len() implies #[trigger] link_names(reverse[f]@[k]).subset_of(universe(roots, states, reverse)) by {
        let names = reverse[f]@.map_values(|l: ConsumerLink| link_names(l));
        lemma_union_all(names);
        assert(names[k] == link_names(reverse[f]@[k]));
        assert(ls[f] == links_names(reverse[f]@));
        assert(names[k].subset_of(ls[f]));
        assert(ls[f].subset_of(union_all(ls)));
        assert forall|x: Seq<char>| names[k].contains(x) implies universe(roots, states, reverse).contains(x) by {
            assert(ls[f].contains(x));
            assert(union_all(ls).contains(x));
        }
    }
}


// ---------------------------------------------------------------------------
// The state of the walk
// ---------------------------------------------------------------------------

/// What the walk has reached, per module: whether it is affected, its depth
/// (hops from a changed file, 0 for a changed file itself) and its affected
/// exports.
#[derive(Debug)]
pub struct AffectedStates {
    pub present: Vec<bool>,
    pub depth: Vec<usize>,
    pub exports: Vec<StrSet>,
}

impl AffectedStates {
    pub open spec fn wf(&self, n: int) -> bool {
        &&& self.present@.len() == n
        &&& self.depth@.len() == n
        &&& self.exports@.len() == n
        &&& forall|i: int| 0 <= i < n ==> (#[trigger] self.exports@[i]).wf()
        &&& forall|i: int| 0 <= i < n && !(#[trigger] self.present@[i]) ==> self.exports@[i]@.len() == 0
    }

    /// The affected exports of module `i`.
    pub open spec fn affected(&self, i: int) -> Set<Seq<char>> {
        self.exports@[i].set()
    }

    /// Nothing reached yet among `n` modules.
    pub fn new(n: usize) -> (r: AffectedStates)
        ensures
            r.wf(n as int),
            forall|i: int| 0 <= i < n ==> !(#[trigger] r.present@[i]),
    {
        let mut present: Vec<bool> = Vec::new();
        let mut depth: Vec<usize> = Vec::new();
        let mut exports: Vec<StrSet> = Vec::new();
        let mut i: usize = 0;
        while i < n
            invariant
                i <= n,
                present@.len() == i,
                depth@.len() == i,
                exports@.len() == i,
                forall|j: int| 0 <= j < i ==> !(#[trigger] present@[j]),
                forall|j: int| 0 <= j < i ==> (#[trigger] exports@[j])@.len() == 0,
                forall|j: int| 0 <= j < i ==> (#[trigger] exports@[j]).wf(),
            decreases n - i,
        {
            present.push(false);
            depth.push(0);
            exports.push(StrSet::new());
            i = i + 1;
        }
        AffectedStates { present, depth, exports }
    }

    /// Mark module `c` reached at `next_depth` with the exports `added`;
    /// returns whether that changed anything.
    pub fn visit(&mut self, c: usize, next_depth: usize, added: &StrSet) -> (changed: bool)
        requires
            old(self).wf(old(self).present@.len() as int),
            c < old(self).present@.len(),
        ensures
            final(self).wf(old(self).present@.len() as int),
            final(self).present@ == old(self).present@.update(c as int, true),
            final(self).depth@ == old(self).depth@.update(
                c as int,
                if old(self).present@[c as int] && old(self).depth@[c as int] <= next_depth {
                    old(self).depth@[c as int]
                } else {
                    next_depth
                },
            ),
            forall|i: int| 0 <= i < old(self).present@.len() && i != c ==> final(self).exports@[i] == old(self).exports@[i],
            final(self).affected(c as int) == old(self).affected(c as int).union(added.set()),
            final(self).exports@[c as int]@.len() >= old(self).exports@[c as int]@.len(),
            changed == (!old(self).present@[c as int] || next_depth < old(self).depth@[c as int]
                || final(self).exports@[c as int]@.len() > old(self).exports@[c as int]@.len()),
            !changed ==> final(self).affected(c as int) == old(self).affected(c as int),
    {
        let ghost old_set = self.exports@[c as int].set();
        let ghost old_seq = self.exports@[c as int]@;
        let ghost n = self.present@.len() as int;
        let was_present = self.present[c];
        let grown = self.exports[c].extend(added);
        proof {
            if grown == 0 {
                let new_seq = self.exports@[c as int]@;
                crate::collections::lemma_sorted_no_duplicates(old_seq);
                crate::collections::lemma_sorted_no_duplicates(new_seq);
                old_seq.unique_seq_to_set();
                new_seq.unique_seq_to_set();
                vstd::set_lib::lemma_subset_equality(old_set, self.exports@[c as int].set());
            }
        }
        let mut changed = grown > 0;
        if !was_present {
            self.present.set(c, true);
            self.depth.set(c, next_depth);
            changed = true;
        } else if next_depth < self.depth[c] {
            self.depth.set(c, next_depth);
            changed = true;
        }
        proof {
            assert forall|i: int| 0 <= i < n implies (#[trigger] self.exports@[i]).wf() by {}
        }
        changed
    }
}

/// A module's share of the walk's potential: an unreached module weighs more
/// than any reached one, and a reached one weighs less the more exports it
/// has and the nearer it is.
pub open spec fn term(a: AffectedStates, i: int, ub: int, n: int) -> int {
    if a.present@[i] {
        ub - a.exports@[i]@.len() + a.depth@[i]
    } else {
        ub + n + 1
    }
}

/// The potential of the first `k` modules; every change the walk makes
/// lowers it.
pub open spec fn phi(a: AffectedStates, k: nat, ub: int, n: int) -> int
    decreases k,
{
    if k == 0 {
        0
    } else {
        phi(a, (k - 1) as nat, ub, n) + term(a, k - 1, ub, n)
    }
}

/// How many of the first `k` modules are reached.
pub open spec fn reached_count(a: AffectedStates, k: nat) -> int
    decreases k,
{
    if k == 0 {
        0
    } else {
        reached_count(a, (k - 1) as nat) + if a.present@[k - 1] { 1int } else { 0int }
    }
}

pub proof fn lemma_phi_frame(a1: AffectedStates, a2: AffectedStates, c: int, k: nat, ub: int, n: int)
    requires
        0 <= c,
        forall|i: int| 0 <= i < k && i != c ==> term(a1, i, ub, n) == term(a2, i, ub, n),
    ensures
        c < k ==> phi(a2, k, ub, n) == phi(a1, k, ub, n) - term(a1, c, ub, n) + term(a2, c, ub, n),
        c >= k ==> phi(a2, k, ub, n) == phi(a1, k, ub, n),
    decreases k,
{
    if k > 0 {
        lemma_phi_frame(a1, a2, c, (k - 1) as nat, ub, n);
    }
}

pub proof fn lemma_count_frame(a1: AffectedStates, a2: AffectedStates, c: int, k: nat)
    requires
        0 <= c,
        forall|i: int| 0 <= i < k && i != c ==> a1.present@[i] == a2.present@[i],
    ensures
        c < k ==> reached_count(a2, k) == reached_count(a1, k) - (if a1.present@[c] { 1int } else { 0int }) + (
        if a2.present@[c] { 1int } else { 0int }),
        c >= k ==> reached_count(a2, k) == reached_count(a1, k),
    decreases k,
{
    if k > 0 {
        lemma_count_frame(a1, a2, c, (k - 1) as nat);
    }
}

pub proof fn lemma_count_bounds(a: AffectedStates, k: nat, c: int)
    requires
        0 <= c < k,
        !a.present@[c],
    ensures
        reached_count(a, k) <= k - 1,
    decreases k,
{
    lemma_count_le(a, (k - 1) as nat);
    if c < k - 1 {
        lemma_count_bounds(a, (k - 1) as nat, c);
    }
}

pub proof fn lemma_count_le(a: AffectedStates, k: nat)
    ensures
        0 <= reached_count(a, k) <= k,
    decreases k,
{
    if k > 0 {
        lemma_count_le(a, (k - 1) as nat);
    }
}

pub proof fn lemma_phi_nonneg(a: AffectedStates, k: nat, ub: int, n: int)
    requires
        forall|i: int| 0 <= i < k ==> term(a, i, ub, n) >= 0,
    ensures
        phi(a, k, ub, n) >= 0,
    decreases k,
{
    if k > 0 {
        lemma_phi_nonneg(a, (k - 1) as nat, ub, n);
    }
}

/// A well-formed set within a finite universe has at most its size.
pub proof fn lemma_set_len_bound(e: StrSet, u: Set<Seq<char>>)
    requires
        e.wf(),
        u.finite(),
        e.set().subset_of(u),
    ensures
        e@.len() <= u.len(),
{
    crate::collections::lemma_sorted_no_duplicates(e@);
    e@.unique_seq_to_set();
    vstd::set_lib::lemma_len_subset(e.set(), u);
}


// ---------------------------------------------------------------------------
// Node ids and the edges that explain an impact
// ---------------------------------------------------------------------------

/// The graph id of a file.
pub open spec fn file_id_spec(path: Seq<char>) -> Seq<char> {
    replace_char(seq!['f', 'i', 'l', 'e', ':'] + path, '\\', seq!['/'])
}

/// The graph id of an export of a file.
pub open spec fn export_id_spec(path: Seq<char>, export: Seq<char>) -> Seq<char> {
    replace_char(seq!['e', 'x', 'p', 'o', 'r', 't', ':'] + path + seq!['#'] + export, '\\', seq!['/'])
}

/// Node ids embed the file path with `/` separators, so ids are stable
/// across platforms.
pub fn file_id(path: &str) -> (r: String)
    ensures
        r@ == file_id_spec(path@),
{
    proof {
        reveal_strlit("file:");
        assert("file:"@ =~= seq!['f', 'i', 'l', 'e', ':']);
    }
    let s = concat("file:", path);
    normalize_separators(s.as_str())
}

pub fn export_id(path: &str, export: &str) -> (r: String)
    ensures
        r@ == export_id_spec(path@, export@),
{
    proof {
        reveal_strlit("export:");
        reveal_strlit("#");
        assert("export:"@ =~= seq!['e', 'x', 'p', 'o', 'r', 't', ':']);
        assert("#"@ =~= seq!['#']);
    }
    let a = concat("export:", path);
    let b = concat3(a.as_str(), "#", export);
    normalize_separators(b.as_str())
}

/// Whether the module renders the binding `local` as a JSX component.
pub open spec fn is_jsx_usage(module: ModuleFacts, local: Seq<char>) -> bool {
    set_map_view(&module.jsx_namespace_member_usage).contains_key(local) || module.jsx_locals.set().contains(local)
}

/// The kind of edge a matching link draws.
pub open spec fn link_edge_kind(link: ConsumerLink, consumer: ModuleFacts) -> EdgeKind {
    match link.relation {
        ConsumerRelation::Import { local, kind, .. } => if is_jsx_usage(consumer, local@) {
            EdgeKind::UsesJsxComponent
        } else {
            kind
        },
        ConsumerRelation::LocalExport { .. } => EdgeKind::CommonJsExport,
        ConsumerRelation::Reexport { kind, .. } => kind,
    }
}

/// The node a matching link leads to: the consumer file, or the export it
/// passes the change on through.
pub open spec fn link_child_id(link: ConsumerLink, consumer_file: Seq<char>) -> Seq<char> {
    match link.relation {
        ConsumerRelation::Import { .. } => file_id_spec(consumer_file),
        ConsumerRelation::LocalExport { exported, .. } => export_id_spec(consumer_file, exported@),
        ConsumerRelation::Reexport { imported, exported, .. } => match imported {
            ReexportTarget::All => file_id_spec(consumer_file),
            _ => if exported@ == star() { file_id_spec(consumer_file) } else { export_id_spec(consumer_file, exported@) },
        },
    }
}

pub open spec fn link_ambiguous(link: ConsumerLink) -> bool {
    match link.relation {
        ConsumerRelation::Reexport { is_ambiguous, .. } => is_ambiguous,
        _ => false,
    }
}

/// The node a change leaves a file from: a changed file with one affected
/// export leaves from that export (or from the file for a whole-file
/// change); anything else leaves from the file.
pub open spec fn parent_id_spec(file: Seq<char>, depth: int, exports: Seq<Seq<char>>) -> Seq<char> {
    if depth == 0 && exports.len() == 1 {
        if exports[0] == file_marker() {
            file_id_spec(file)
        } else {
            export_id_spec(file, exports[0])
        }
    } else {
        file_id_spec(file)
    }
}

fn is_jsx_usage_exec(module: &ModuleFacts, local: &str) -> (r: bool)
    requires
        module.wf(),
    ensures
        r == is_jsx_usage(*module, local@),
{
    set_map_get(&module.jsx_namespace_member_usage, local).is_some() || module.jsx_locals.contains(local)
}

fn parent_id(file: &str, depth: usize, exports: &StrSet) -> (r: String)
    ensures
        r@ == parent_id_spec(file@, depth as int, exports@),
{
    if depth == 0 && exports.len() == 1 {
        let first = exports.get(0);
        proof {
            reveal_strlit("*file*");
            assert("*file*"@ =~= file_marker());
        }
        if str_eq(first.as_str(), "*file*") {
            file_id(file)
        } else {
            export_id(file, first.as_str())
        }
    } else {
        file_id(file)
    }
}

/// The edge a matching `link` draws from `parent`.
pub fn link_reason(link: &ConsumerLink, consumer: &ModuleFacts, parent: String) -> (r: ImpactReason)
    requires
        consumer.wf(),
    ensures
        r.parent_id@ == parent@,
        r.child_id@ == link_child_id(*link, consumer.file@),
        r.kind == link_edge_kind(*link, *consumer),
        r.is_ambiguous == link_ambiguous(*link),
{
    match &link.relation {
        ConsumerRelation::Import { local, kind, .. } => {
            let kind = if is_jsx_usage_exec(consumer, local.as_str()) {
                EdgeKind::UsesJsxComponent
            } else {
                *kind
            };
            ImpactReason { parent_id: parent, child_id: file_id(consumer.file.as_str()), kind, is_ambiguous: false }
        },
        ConsumerRelation::LocalExport { exported, .. } => ImpactReason {
            parent_id: parent,
            child_id: export_id(consumer.file.as_str(), exported.as_str()),
            kind: EdgeKind::CommonJsExport,
            is_ambiguous: false,
        },
        ConsumerRelation::Reexport { imported, exported, kind, is_ambiguous } => {
            proof {
                reveal_strlit("*");
                assert("*"@ =~= star());
            }
            let child_id = match imported {
                ReexportTarget::All => file_id(consumer.file.as_str()),
                _ => if str_eq(exported.as_str(), "*") {
                    file_id(consumer.file.as_str())
                } else {
                    export_id(consumer.file.as_str(), exported.as_str())
                },
            };
            ImpactReason { parent_id: parent, child_id, kind: *kind, is_ambiguous: *is_ambiguous }
        },
    }
}


// ---------------------------------------------------------------------------
// The walk
// ---------------------------------------------------------------------------

/// The inputs of the walk are consistent: one export state and one list of
/// consumers per module, and links and roots name modules.
pub open spec fn walk_inputs_wf(
    roots: Seq<(usize, StrSet)>,
    modules: Seq<ModuleFacts>,
    states: Seq<ModuleState>,
    reverse: Seq<Vec<ConsumerLink>>,
) -> bool {
    &&& modules.len() == states.len()
    &&& modules.len() == reverse.len()
    &&& forall|i: int| 0 <= i < modules.len() ==> (#[trigger] modules[i]).wf()
    &&& forall|i: int| 0 <= i < states.len() ==> (#[trigger] states[i]).wf()
    &&& forall|f: int, k: int|
        0 <= f < reverse.len() && 0 <= k < reverse[f]@.len() ==> (#[trigger] reverse[f]@[k]).consumer < modules.len()
    &&& forall|r: int| 0 <= r < roots.len() ==> (#[trigger] roots[r]).0 < modules.len() && roots[r].1.wf()
}

/// Module `i` is one of the changed files the walk starts from.
pub open spec fn is_root(roots: Seq<(usize, StrSet)>, i: int) -> bool {
    exists|r: int| 0 <= r < roots.len() && (#[trigger] roots[r]).0 == i
}

pub open spec fn in_queue(queue: Seq<usize>, head: int, f: int) -> bool {
    exists|j: int| head <= j < queue.len() && queue[j] == f
}

/// The `k`-th consumer link of module `f` has passed on what it must: when
/// `f` is affected and its affected exports reach the link, the consumer is
/// affected, at most one hop deeper, with every export the link passes on.
pub open spec fn closed_at(
    a: AffectedStates,
    modules: Seq<ModuleFacts>,
    states: Seq<ModuleState>,
    links: Seq<ConsumerLink>,
    f: int,
    k: int,
) -> bool {
    let l = links[k];
    let c = l.consumer as int;
    (a.present@[f] && link_matches(l, a.affected(f), modules[c])) ==> {
        &&& a.present@[c]
        &&& a.depth@[c] <= a.depth@[f] + 1
        &&& link_adds(l, a.affected(f), states[c].public_exports.set()).subset_of(a.affected(c))
    }
}

/// Every consumer link of module `f` has passed on what it must.
pub open spec fn closed(
    a: AffectedStates,
    modules: Seq<ModuleFacts>,
    states: Seq<ModuleState>,
    reverse: Seq<Vec<ConsumerLink>>,
    f: int,
) -> bool {
    forall|k: int| 0 <= k < reverse[f]@.len() ==> #[trigger] closed_at(a, modules, states, reverse[f]@, f, k)
}

/// Module `i` is in the same state in `a0` and `a`.
pub open spec fn same_at(a0: AffectedStates, a: AffectedStates, i: int) -> bool {
    &&& a.present@[i] == a0.present@[i]
    &&& a.depth@[i] == a0.depth@[i]
    &&& a.affected(i) == a0.affected(i)
}

/// Going from `a0` to `a`, no reached module was lost, got deeper or lost an
/// affected export.
pub open spec fn grows_from(a0: AffectedStates, a: AffectedStates, n: int) -> bool {
    forall|i: int|
        0 <= i < n && #[trigger] a0.present@[i] ==> {
            &&& a.present@[i]
            &&& a.depth@[i] <= a0.depth@[i]
            &&& a0.affected(i).subset_of(a.affected(i))
        }
}

pub proof fn lemma_closed_keep(
    a0: AffectedStates,
    a: AffectedStates,
    modules: Seq<ModuleFacts>,
    states: Seq<ModuleState>,
    reverse: Seq<Vec<ConsumerLink>>,
    f: int,
    n: int,
)
    requires
        0 <= f < n,
        reverse.len() == n,
        forall|k: int| 0 <= k < reverse[f]@.len() ==> (#[trigger] reverse[f]@[k]).consumer < n,
        closed(a0, modules, states, reverse, f),
        same_at(a0, a, f),
        grows_from(a0, a, n),
    ensures
        closed(a, modules, states, reverse, f),
{
    assert forall|k: int| 0 <= k < reverse[f]@.len() implies #[trigger] closed_at(a, modules, states, reverse[f]@, f, k) by {
        lemma_closed_at_keep(a0, a, modules, states, reverse[f]@, f, k, n);
    }
}

pub proof fn lemma_closed_at_keep(
    a0: AffectedStates,
    a: AffectedStates,
    modules: Seq<ModuleFacts>,
    states: Seq<ModuleState>,
    links: Seq<ConsumerLink>,
    f: int,
    k: int,
    n: int,
)
    requires
        0 <= k < links.len(),
        links[k].consumer < n,
        closed_at(a0, modules, states, links, f, k),
        same_at(a0, a, f),
        grows_from(a0, a, n),
    ensures
        closed_at(a, modules, states, links, f, k),
{
    let c = links[k].consumer as int;
    if a.present@[f] && link_matches(links[k], a.affected(f), modules[c]) {
        assert(a0.present@[c]);
    }
}

pub proof fn lemma_union_subset(a: Set<Seq<char>>, b: Set<Seq<char>>, u: Set<Seq<char>>)
    requires
        a.subset_of(u),
        b.subset_of(u),
    ensures
        a.union(b).subset_of(u),
{
    assert forall|x: Seq<char>| a.union(b).contains(x) implies u.contains(x) by {
        if a.contains(x) {
        } else {
            assert(b.contains(x));
        }
    }
}

pub proof fn lemma_count_pos(a: AffectedStates, k: nat, c: int)
    requires
        0 <= c < k,
        a.present@[c],
    ensures
        reached_count(a, k) >= 1,
    decreases k,
{
    lemma_count_le(a, (k - 1) as nat);
    if c < k - 1 {
        lemma_count_pos(a, (k - 1) as nat, c);
    }
}

pub proof fn lemma_phi_ok(a: AffectedStates, u: Set<Seq<char>>, n: nat)
    requires
        a.wf(n as int),
        u.finite(),
        forall|i: int| 0 <= i < n ==> (#[trigger] a.affected(i)).subset_of(u),
    ensures
        phi(a, n, u.len() as int, n as int) >= 0,
{
    assert forall|i: int| 0 <= i < n implies term(a, i, u.len() as int, n as int) >= 0 by {
        assert(a.affected(i).subset_of(u));
        lemma_set_len_bound(a.exports@[i], u);
    }
    lemma_phi_nonneg(a, n, u.len() as int, n as int);
}


/// Module `f` is still waiting in the queue, or has passed on its changes:
/// the module being processed, `cf`, through its first `k` links (and with
/// its state as when it was taken from the queue), any other through all.
pub open spec fn settled_at(
    a: AffectedStates,
    modules: Seq<ModuleFacts>,
    states: Seq<ModuleState>,
    reverse: Seq<Vec<ConsumerLink>>,
    queue: Seq<usize>,
    head: int,
    cf: int,
    cur_depth: int,
    cur_set: Set<Seq<char>>,
    k: int,
    f: int,
) -> bool {
    in_queue(queue, head, f) || (if f == cf {
        &&& a.depth@[f] == cur_depth
        &&& a.affected(f) == cur_set
        &&& forall|k2: int| 0 <= k2 < k ==> #[trigger] closed_at(a, modules, states, reverse[f]@, f, k2)
    } else {
        closed(a, modules, states, reverse, f)
    })
}

pub open spec fn settled(
    a: AffectedStates,
    modules: Seq<ModuleFacts>,
    states: Seq<ModuleState>,
    reverse: Seq<Vec<ConsumerLink>>,
    queue: Seq<usize>,
    head: int,
    cf: int,
    cur_depth: int,
    cur_set: Set<Seq<char>>,
    k: int,
    n: int,
) -> bool {
    forall|f: int| 0 <= f < n ==> #[trigger] settled_at(a, modules, states, reverse, queue, head, cf, cur_depth, cur_set, k, f)
}

/// `parent` names the file `file` or one of its exports.
pub open spec fn parent_ok(parent: Seq<char>, file: Seq<char>) -> bool {
    parent == file_id_spec(file) || exists|e: Seq<char>| parent == #[trigger] export_id_spec(file, e)
}

/// The edge `(parent, child, kind, ambiguity)` explains a consumer link
/// between two reached files: it leaves the file the link starts from (or
/// one of its exports) and arrives where the link's consumer is affected.
pub open spec fn edge_explains(
    a: AffectedStates,
    modules: Seq<ModuleFacts>,
    reverse: Seq<Vec<ConsumerLink>>,
    e: (Seq<char>, Seq<char>, EdgeKind, bool),
) -> bool {
    exists|f: int, k: int|
        #![trigger reverse[f]@[k]]
        {
            &&& 0 <= f < reverse.len()
            &&& f < modules.len()
            &&& 0 <= k < reverse[f]@.len()
            &&& reverse[f]@[k].consumer < modules.len()
            &&& a.present@[f]
            &&& a.present@[reverse[f]@[k].consumer as int]
            &&& parent_ok(e.0, modules[f].file@)
            &&& e.1 == link_child_id(reverse[f]@[k], modules[reverse[f]@[k].consumer as int].file@)
            &&& e.2 == link_edge_kind(reverse[f]@[k], modules[reverse[f]@[k].consumer as int])
            &&& e.3 == link_ambiguous(reverse[f]@[k])
        }
}

pub open spec fn reason_edge(r: ImpactReason) -> (Seq<char>, Seq<char>, EdgeKind, bool) {
    (r.parent_id@, r.child_id@, r.kind, r.is_ambiguous)
}

proof fn lemma_parent_ok(file: Seq<char>, depth: int, exports: Seq<Seq<char>>)
    ensures
        parent_ok(parent_id_spec(file, depth, exports), file),
{
    if depth == 0 && exports.len() == 1 && exports[0] != file_marker() {
        assert(parent_id_spec(file, depth, exports) == export_id_spec(file, exports[0]));
    }
}

proof fn lemma_edges_grow_visit(
    a0: AffectedStates,
    a: AffectedStates,
    modules: Seq<ModuleFacts>,
    reverse: Seq<Vec<ConsumerLink>>,
    rs: Seq<ImpactReason>,
    n: int,
    f: int,
    k: int,
    reason: ImpactReason,
)
    requires
        n == modules.len(),
        reverse.len() == n,
        0 <= f < n,
        0 <= k < reverse[f]@.len(),
        reverse[f]@[k].consumer < n,
        a0.present@.len() == n,
        a.present@ == a0.present@.update(reverse[f]@[k].consumer as int, true),
        a0.present@[f],
        forall|x: int| 0 <= x < rs.len() ==> edge_explains(a0, modules, reverse, reason_edge(#[trigger] rs[x])),
        parent_ok(reason.parent_id@, modules[f].file@),
        reason.child_id@ == link_child_id(reverse[f]@[k], modules[reverse[f]@[k].consumer as int].file@),
        reason.kind == link_edge_kind(reverse[f]@[k], modules[reverse[f]@[k].consumer as int]),
        reason.is_ambiguous == link_ambiguous(reverse[f]@[k]),
    ensures
        forall|x: int| 0 <= x < rs.len() ==> edge_explains(a, modules, reverse, reason_edge(#[trigger] rs[x])),
        edge_explains(a, modules, reverse, reason_edge(reason)),
{
    let c = reverse[f]@[k].consumer as int;
    assert forall|i: int| 0 <= i < n && #[trigger] a0.present@[i] implies a.present@[i] by {}
    assert forall|x: int| 0 <= x < rs.len() implies edge_explains(a, modules, reverse, reason_edge(#[trigger] rs[x])) by {
        let e = reason_edge(rs[x]);
        assert(edge_explains(a0, modules, reverse, e));
        let (g, j) = choose|g: int, j: int|
            #![trigger reverse[g]@[j]]
            {
                &&& 0 <= g < reverse.len()
                &&& g < modules.len()
                &&& 0 <= j < reverse[g]@.len()
                &&& reverse[g]@[j].consumer < modules.len()
                &&& a0.present@[g]
                &&& a0.present@[reverse[g]@[j].consumer as int]
                &&& parent_ok(e.0, modules[g].file@)
                &&& e.1 == link_child_id(reverse[g]@[j], modules[reverse[g]@[j].consumer as int].file@)
                &&& e.2 == link_edge_kind(reverse[g]@[j], modules[reverse[g]@[j].consumer as int])
                &&& e.3 == link_ambiguous(reverse[g]@[j])
            };
        assert(a.present@[g]);
        assert(a.present@[reverse[g]@[j].consumer as int]);
    }
    assert(a.present@[f]);
    assert(a.present@[c]);
}

/// The `k`-th consumer link of module `f` leads into `c`, `f` is reached,
/// and `f`'s affected exports reach the link.
pub open spec fn live_link(
    a: AffectedStates,
    modules: Seq<ModuleFacts>,
    reverse: Seq<Vec<ConsumerLink>>,
    f: int,
    k: int,
    c: int,
) -> bool {
    &&& 0 <= f < reverse.len()
    &&& f < modules.len()
    &&& 0 <= k < reverse[f]@.len()
    &&& reverse[f]@[k].consumer == c
    &&& a.present@[f]
    &&& link_matches(reverse[f]@[k], a.affected(f), modules[c])
}

/// Module `c` is a changed file, or is fed by a live link from a reached
/// file at least one hop shallower.
pub open spec fn reached_below(
    a: AffectedStates,
    roots: Seq<(usize, StrSet)>,
    modules: Seq<ModuleFacts>,
    reverse: Seq<Vec<ConsumerLink>>,
    c: int,
) -> bool {
    is_root(roots, c) || exists|f: int, k: int|
        #![trigger reverse[f]@[k]]
        live_link(a, modules, reverse, f, k, c) && a.depth@[f] + 1 <= a.depth@[c]
}

/// Module `c` is a changed file, or is fed by a live link from a reached
/// file exactly one hop shallower.
pub open spec fn reached_from(
    a: AffectedStates,
    roots: Seq<(usize, StrSet)>,
    modules: Seq<ModuleFacts>,
    reverse: Seq<Vec<ConsumerLink>>,
    c: int,
) -> bool {
    is_root(roots, c) || exists|f: int, k: int|
        #![trigger reverse[f]@[k]]
        live_link(a, modules, reverse, f, k, c) && a.depth@[c] == a.depth@[f] + 1
}

/// Export `x` of module `c` is affected for a reason: `c` is a changed file
/// that changes `x`, or a live link into `c` passes `x` on.
pub open spec fn export_sourced(
    a: AffectedStates,
    roots: Seq<(usize, StrSet)>,
    modules: Seq<ModuleFacts>,
    states: Seq<ModuleState>,
    reverse: Seq<Vec<ConsumerLink>>,
    c: int,
    x: Seq<char>,
) -> bool {
    (exists|r: int| 0 <= r < roots.len() && (#[trigger] roots[r]).0 == c && roots[r].1.set().contains(x)) || exists|f: int, k: int|
        #![trigger reverse[f]@[k]]
        live_link(a, modules, reverse, f, k, c) && link_adds(reverse[f]@[k], a.affected(f), states[c].public_exports.set()).contains(x)
}

/// `r` is an edge into module `c` along one of the links into `c`.
pub open spec fn reason_into(r: ImpactReason, modules: Seq<ModuleFacts>, reverse: Seq<Vec<ConsumerLink>>, c: int) -> bool {
    exists|f: int, k: int|
        #![trigger reverse[f]@[k]]
        0 <= f < reverse.len() && 0 <= k < reverse[f]@.len() && reverse[f]@[k].consumer == c && r.child_id@ == link_child_id(
            reverse[f]@[k],
            modules[c].file@,
        )
}

/// Every reached file that is not a changed file has an edge into it.
pub open spec fn reasons_cover(
    a: AffectedStates,
    roots: Seq<(usize, StrSet)>,
    modules: Seq<ModuleFacts>,
    reverse: Seq<Vec<ConsumerLink>>,
    rs: Seq<ImpactReason>,
) -> bool {
    forall|c: int|
        0 <= c < modules.len() && #[trigger] a.present@[c] && !is_root(roots, c) ==> exists|x: int|
            0 <= x < rs.len() && reason_into(#[trigger] rs[x], modules, reverse, c)
}

/// `r` is the edge for the `k`-th consumer link of module `f`: it leaves
/// `f` (or one of its exports) and carries the link's child, kind and
/// ambiguity.
pub open spec fn reason_for(r: ImpactReason, modules: Seq<ModuleFacts>, reverse: Seq<Vec<ConsumerLink>>, f: int, k: int) -> bool {
    let l = reverse[f]@[k];
    let c = l.consumer as int;
    &&& parent_ok(r.parent_id@, modules[f].file@)
    &&& r.child_id@ == link_child_id(l, modules[c].file@)
    &&& r.kind == link_edge_kind(l, modules[c])
    &&& r.is_ambiguous == link_ambiguous(l)
}

/// If the `k`-th consumer link of module `f` is live, an edge for it is
/// among `rs`.
pub open spec fn reported(
    a: AffectedStates,
    modules: Seq<ModuleFacts>,
    reverse: Seq<Vec<ConsumerLink>>,
    rs: Seq<ImpactReason>,
    f: int,
    k: int,
) -> bool {
    live_link(a, modules, reverse, f, k, reverse[f]@[k].consumer as int) ==> exists|x: int|
        0 <= x < rs.len() && #[trigger] reason_for(rs[x], modules, reverse, f, k)
}

/// Every live consumer link of module `f` has an edge among `rs`.
pub open spec fn all_reported(
    a: AffectedStates,
    modules: Seq<ModuleFacts>,
    reverse: Seq<Vec<ConsumerLink>>,
    rs: Seq<ImpactReason>,
    f: int,
) -> bool {
    forall|k: int| 0 <= k < reverse[f]@.len() ==> #[trigger] reported(a, modules, reverse, rs, f, k)
}

/// Module `f` is still waiting in the queue, or its live links have their
/// edges: the module being processed, `cf`, through its first `k` links.
pub open spec fn reported_at(
    a: AffectedStates,
    modules: Seq<ModuleFacts>,
    reverse: Seq<Vec<ConsumerLink>>,
    rs: Seq<ImpactReason>,
    queue: Seq<usize>,
    head: int,
    cf: int,
    k: int,
    f: int,
) -> bool {
    in_queue(queue, head, f) || (if f == cf {
        forall|k2: int| 0 <= k2 < k ==> #[trigger] reported(a, modules, reverse, rs, f, k2)
    } else {
        all_reported(a, modules, reverse, rs, f)
    })
}

/// The edges of a finished walk: each explains a link between reached
/// files, every live link between reached files has its edge, and every
/// reached file other than a changed one has an edge into it.
pub open spec fn walk_reasons_ok(
    a: AffectedStates,
    roots: Seq<(usize, StrSet)>,
    modules: Seq<ModuleFacts>,
    reverse: Seq<Vec<ConsumerLink>>,
    rs: Seq<ImpactReason>,
) -> bool {
    &&& forall|x: int| 0 <= x < rs.len() ==> edge_explains(a, modules, reverse, reason_edge(#[trigger] rs[x]))
    &&& forall|f: int, k: int| 0 <= f < modules.len() && 0 <= k < reverse[f]@.len() ==> #[trigger] reported(a, modules, reverse, rs, f, k)
    &&& reasons_cover(a, roots, modules, reverse, rs)
}

/// A link's report survives more edges and a walk that left its producer
/// as it was.
proof fn lemma_reported_keep(
    a0: AffectedStates,
    a: AffectedStates,
    modules: Seq<ModuleFacts>,
    reverse: Seq<Vec<ConsumerLink>>,
    rs0: Seq<ImpactReason>,
    rs: Seq<ImpactReason>,
    f: int,
    k: int,
)
    requires
        reported(a0, modules, reverse, rs0, f, k),
        a.present@[f] == a0.present@[f],
        a.affected(f) == a0.affected(f),
        rs0.len() <= rs.len(),
        forall|x: int| 0 <= x < rs0.len() ==> rs[x] == rs0[x],
    ensures
        reported(a, modules, reverse, rs, f, k),
{
    let c = reverse[f]@[k].consumer as int;
    if live_link(a, modules, reverse, f, k, c) {
        assert(live_link(a0, modules, reverse, f, k, c));
        let x = choose|x: int| 0 <= x < rs0.len() && #[trigger] reason_for(rs0[x], modules, reverse, f, k);
        assert(rs[x] == rs0[x]);
        assert(reason_for(rs[x], modules, reverse, f, k));
    }
}

/// The affected exports of module `f` that were added before time `s`.
pub open spec fn below(a: AffectedStates, stamp: Map<(int, Seq<char>), nat>, f: int, s: nat) -> Set<Seq<char>> {
    Set::new(|y: Seq<char>| a.affected(f).contains(y) && stamp[(f, y)] < s)
}

/// Export `x` of module `c`, added at time `stamp[(c, x)]`, is a changed
/// export of a changed file, or a link from a reached file passes it on
/// from exports that file had strictly earlier.
pub open spec fn ranked_source(
    a: AffectedStates,
    stamp: Map<(int, Seq<char>), nat>,
    roots: Seq<(usize, StrSet)>,
    modules: Seq<ModuleFacts>,
    states: Seq<ModuleState>,
    reverse: Seq<Vec<ConsumerLink>>,
    c: int,
    x: Seq<char>,
) -> bool {
    (exists|r: int| 0 <= r < roots.len() && (#[trigger] roots[r]).0 == c && roots[r].1.set().contains(x)) || exists|f: int, k: int|
        #![trigger reverse[f]@[k]]
        {
            &&& 0 <= f < reverse.len()
            &&& f < modules.len()
            &&& 0 <= k < reverse[f]@.len()
            &&& reverse[f]@[k].consumer == c
            &&& a.present@[f]
            &&& link_matches(reverse[f]@[k], below(a, stamp, f, stamp[(c, x)]), modules[c])
            &&& link_adds(reverse[f]@[k], below(a, stamp, f, stamp[(c, x)]), states[c].public_exports.set()).contains(x)
        }
}

/// Every affected export has a time, and is derived from a change or from
/// strictly earlier exports: no export supports itself around a cycle, so
/// the affected exports are the least ones closed under the links.
pub open spec fn ranked(
    a: AffectedStates,
    stamp: Map<(int, Seq<char>), nat>,
    roots: Seq<(usize, StrSet)>,
    modules: Seq<ModuleFacts>,
    states: Seq<ModuleState>,
    reverse: Seq<Vec<ConsumerLink>>,
) -> bool {
    forall|c: int, x: Seq<char>|
        0 <= c < modules.len() && #[trigger] a.affected(c).contains(x) ==> stamp.contains_key((c, x)) && ranked_source(
            a,
            stamp,
            roots,
            modules,
            states,
            reverse,
            c,
            x,
        )
}

/// `stamp` with the exports in `added` that module `c` did not have in
/// `old` given time `clock`.
pub open spec fn restamp(
    stamp: Map<(int, Seq<char>), nat>,
    c: int,
    added: Set<Seq<char>>,
    old: Set<Seq<char>>,
    clock: nat,
) -> Map<(int, Seq<char>), nat> {
    Map::new(
        |p: (int, Seq<char>)| stamp.contains_key(p) || (p.0 == c && added.contains(p.1) && !old.contains(p.1)),
        |p: (int, Seq<char>)| if p.0 == c && added.contains(p.1) && !old.contains(p.1) { clock } else { stamp[p] },
    )
}

/// Adding exports to module `c` at a new time keeps every earlier export's
/// derivation.
proof fn lemma_restamp(
    a0: AffectedStates,
    a: AffectedStates,
    stamp0: Map<(int, Seq<char>), nat>,
    clock0: nat,
    roots: Seq<(usize, StrSet)>,
    modules: Seq<ModuleFacts>,
    states: Seq<ModuleState>,
    reverse: Seq<Vec<ConsumerLink>>,
    c: int,
    added: Set<Seq<char>>,
)
    requires
        0 <= c < modules.len(),
        a0.wf(modules.len() as int),
        a.wf(modules.len() as int),
        forall|i: int| 0 <= i < modules.len() && #[trigger] a0.present@[i] ==> a.present@[i],
        forall|i: int| 0 <= i < modules.len() && i != c ==> a.exports@[i] == a0.exports@[i],
        a.affected(c) == a0.affected(c).union(added),
        forall|c2: int, x: Seq<char>|
            0 <= c2 < modules.len() && #[trigger] a0.affected(c2).contains(x) ==> stamp0.contains_key((c2, x)) && stamp0[(c2, x)] < clock0,
        ranked(a0, stamp0, roots, modules, states, reverse),
    ensures
        ({
            let stamp = restamp(stamp0, c, added, a0.affected(c), clock0);
            &&& forall|c2: int, x: Seq<char>|
                0 <= c2 < modules.len() && #[trigger] a.affected(c2).contains(x) ==> stamp.contains_key((c2, x)) && stamp[(c2, x)] < clock0 + 1
            &&& forall|c2: int, x: Seq<char>|
                0 <= c2 < modules.len() && #[trigger] a0.affected(c2).contains(x) ==> stamp[(c2, x)] == stamp0[(c2, x)] && ranked_source(
                    a,
                    stamp,
                    roots,
                    modules,
                    states,
                    reverse,
                    c2,
                    x,
                )
            &&& forall|x: Seq<char>| #[trigger] added.contains(x) && !a0.affected(c).contains(x) ==> stamp[(c, x)] == clock0
            &&& forall|f: int, s: nat| 0 <= f < modules.len() && s <= clock0 ==> #[trigger] below(a, stamp, f, s) == below(a0, stamp0, f, s)
        }),
{
    let n = modules.len() as int;
    let old = a0.affected(c);
    let stamp = restamp(stamp0, c, added, old, clock0);
    assert forall|f: int, s: nat| 0 <= f < n && s <= clock0 implies #[trigger] below(a, stamp, f, s) == below(a0, stamp0, f, s) by {
        assert forall|y: Seq<char>| below(a, stamp, f, s).contains(y) == below(a0, stamp0, f, s).contains(y) by {
            if f != c {
                assert(a.exports@[f] == a0.exports@[f]);
            }
            if a0.affected(f).contains(y) {
                assert(stamp0.contains_key((f, y)));
                assert(!(f == c && added.contains(y) && !old.contains(y)));
                assert(stamp[(f, y)] == stamp0[(f, y)]);
            } else if a.affected(f).contains(y) {
                assert(f == c && added.contains(y) && !old.contains(y));
                assert(stamp[(f, y)] == clock0);
            }
        }
        assert(below(a, stamp, f, s) =~= below(a0, stamp0, f, s));
    }
    assert forall|c2: int, x: Seq<char>| 0 <= c2 < n && #[trigger] a.affected(c2).contains(x) implies stamp.contains_key((c2, x))
        && stamp[(c2, x)] < clock0 + 1 by {
        if c2 != c {
            assert(a.exports@[c2] == a0.exports@[c2]);
        }
        if a0.affected(c2).contains(x) {
            assert(stamp0.contains_key((c2, x)));
        }
    }
    assert forall|c2: int, x: Seq<char>| 0 <= c2 < n && #[trigger] a0.affected(c2).contains(x) implies stamp[(c2, x)] == stamp0[(c2, x)]
        && ranked_source(a, stamp, roots, modules, states, reverse, c2, x) by {
        assert(stamp0.contains_key((c2, x)));
        assert(!(c2 == c && added.contains(x) && !old.contains(x)));
        let s = stamp0[(c2, x)];
        assert(ranked_source(a0, stamp0, roots, modules, states, reverse, c2, x));
        if !(exists|r: int| 0 <= r < roots.len() && (#[trigger] roots[r]).0 == c2 && roots[r].1.set().contains(x)) {
            let (f, k) = choose|f: int, k: int|
                #![trigger reverse[f]@[k]]
                {
                    &&& 0 <= f < reverse.len()
                    &&& f < modules.len()
                    &&& 0 <= k < reverse[f]@.len()
                    &&& reverse[f]@[k].consumer == c2
                    &&& a0.present@[f]
                    &&& link_matches(reverse[f]@[k], below(a0, stamp0, f, s), modules[c2])
                    &&& link_adds(reverse[f]@[k], below(a0, stamp0, f, s), states[c2].public_exports.set()).contains(x)
                };
            assert(below(a, stamp, f, s) == below(a0, stamp0, f, s));
            assert(a.present@[f]);
        }
    }
}

/// Visiting the consumer of a live link keeps every reached file reached
/// from below and every affected export accounted for.
proof fn lemma_visit_sources(
    a0: AffectedStates,
    a: AffectedStates,
    roots: Seq<(usize, StrSet)>,
    modules: Seq<ModuleFacts>,
    states: Seq<ModuleState>,
    reverse: Seq<Vec<ConsumerLink>>,
    cf: int,
    k: int,
    cur_set: Set<Seq<char>>,
    cur_depth: int,
    added: Set<Seq<char>>,
)
    requires
        walk_inputs_wf(roots, modules, states, reverse),
        a0.wf(modules.len() as int),
        a.wf(modules.len() as int),
        0 <= cf < modules.len(),
        0 <= k < reverse[cf]@.len(),
        a0.present@[cf],
        a0.depth@[cf] <= cur_depth,
        cur_set.subset_of(a0.affected(cf)),
        link_matches(reverse[cf]@[k], cur_set, modules[reverse[cf]@[k].consumer as int]),
        added == link_adds(reverse[cf]@[k], cur_set, states[reverse[cf]@[k].consumer as int].public_exports.set()),
        a.present@ == a0.present@.update(reverse[cf]@[k].consumer as int, true),
        a.depth@ == a0.depth@.update(
            reverse[cf]@[k].consumer as int,
            if a0.present@[reverse[cf]@[k].consumer as int] && a0.depth@[reverse[cf]@[k].consumer as int] <= cur_depth + 1 {
                a0.depth@[reverse[cf]@[k].consumer as int]
            } else {
                (cur_depth + 1) as usize
            },
        ),
        cur_depth + 1 <= usize::MAX,
        forall|i: int| 0 <= i < modules.len() && i != reverse[cf]@[k].consumer ==> a.exports@[i] == a0.exports@[i],
        a.affected(reverse[cf]@[k].consumer as int) == a0.affected(reverse[cf]@[k].consumer as int).union(added),
        forall|c: int| 0 <= c < modules.len() && #[trigger] a0.present@[c] ==> reached_below(a0, roots, modules, reverse, c),
        forall|c: int, x: Seq<char>|
            0 <= c < modules.len() && #[trigger] a0.affected(c).contains(x) ==> export_sourced(a0, roots, modules, states, reverse, c, x),
    ensures
        forall|c: int| 0 <= c < modules.len() && #[trigger] a.present@[c] ==> reached_below(a, roots, modules, reverse, c),
        forall|c: int, x: Seq<char>|
            0 <= c < modules.len() && #[trigger] a.affected(c).contains(x) ==> export_sourced(a, roots, modules, states, reverse, c, x),
{
    let n = modules.len() as int;
    let l = reverse[cf]@[k];
    let c = l.consumer as int;
    assert forall|i: int| 0 <= i < n implies a0.affected(i).subset_of(#[trigger] a.affected(i)) by {
        if i != c {
            assert(a.exports@[i] == a0.exports@[i]);
        }
    }
    assert forall|f: int, k1: int, c2: int| #[trigger] live_link(a0, modules, reverse, f, k1, c2) && 0 <= c2 < n implies live_link(
        a,
        modules,
        reverse,
        f,
        k1,
        c2,
    ) by {
        assert(a0.affected(f).subset_of(a.affected(f)));
        lemma_link_monotonic(reverse[f]@[k1], a0.affected(f), a.affected(f), modules[c2], states[c2].public_exports.set());
    }
    assert(a0.affected(cf).subset_of(a.affected(cf)));
    lemma_link_monotonic(l, cur_set, a0.affected(cf), modules[c], states[c].public_exports.set());
    lemma_link_monotonic(l, a0.affected(cf), a.affected(cf), modules[c], states[c].public_exports.set());
    assert(live_link(a, modules, reverse, cf, k, c));
    assert forall|c2: int| 0 <= c2 < n && #[trigger] a.present@[c2] implies reached_below(a, roots, modules, reverse, c2) by {
        if !is_root(roots, c2) {
            if c2 == c && a.depth@[c] == cur_depth + 1 && (!a0.present@[c] || a0.depth@[c] > cur_depth + 1) {
                assert(cf != c);
                assert(a.depth@[cf] == a0.depth@[cf]);
                assert(live_link(a, modules, reverse, cf, k, c2) && a.depth@[cf] + 1 <= a.depth@[c2]);
            } else {
                assert(a0.present@[c2]);
                assert(reached_below(a0, roots, modules, reverse, c2));
                let (f, k1) = choose|f: int, k1: int|
                    #![trigger reverse[f]@[k1]]
                    live_link(a0, modules, reverse, f, k1, c2) && a0.depth@[f] + 1 <= a0.depth@[c2];
                assert(live_link(a, modules, reverse, f, k1, c2));
                assert(a.depth@[c2] == a0.depth@[c2]);
                assert(a.depth@[f] <= a0.depth@[f]);
                assert(live_link(a, modules, reverse, f, k1, c2) && a.depth@[f] + 1 <= a.depth@[c2]);
            }
        }
    }
    assert forall|c2: int, x: Seq<char>| 0 <= c2 < n && #[trigger] a.affected(c2).contains(x) implies export_sourced(
        a,
        roots,
        modules,
        states,
        reverse,
        c2,
        x,
    ) by {
        if c2 == c && added.contains(x) {
            assert(link_adds(l, a.affected(cf), states[c].public_exports.set()).contains(x));
            assert(live_link(a, modules, reverse, cf, k, c2) && link_adds(
                reverse[cf]@[k],
                a.affected(cf),
                states[c2].public_exports.set(),
            ).contains(x));
        } else {
            if c2 != c {
                assert(a.exports@[c2] == a0.exports@[c2]);
            }
            assert(a0.affected(c2).contains(x));
            assert(export_sourced(a0, roots, modules, states, reverse, c2, x));
            if !(exists|r: int| 0 <= r < roots.len() && (#[trigger] roots[r]).0 == c2 && roots[r].1.set().contains(x)) {
                let (f, k1) = choose|f: int, k1: int|
                    #![trigger reverse[f]@[k1]]
                    live_link(a0, modules, reverse, f, k1, c2) && link_adds(
                        reverse[f]@[k1],
                        a0.affected(f),
                        states[c2].public_exports.set(),
                    ).contains(x);
                assert(live_link(a, modules, reverse, f, k1, c2));
                lemma_link_monotonic(reverse[f]@[k1], a0.affected(f), a.affected(f), modules[c2], states[c2].public_exports.set());
                assert(live_link(a, modules, reverse, f, k1, c2) && link_adds(
                    reverse[f]@[k1],
                    a.affected(f),
                    states[c2].public_exports.set(),
                ).contains(x));
            }
        }
    }
}

/// What a finished walk from `roots` satisfies: its states are closed under
/// the links, the changed files are reached at depth 0 with their changed
/// exports and nothing else is at depth 0, every other reached file is fed
/// by a live link from a reached file exactly one hop shallower (so, with
/// the closure, its depth is the fewest hops along live links), and every
/// affected export is a changed one or passed on by a live link from
/// exports added strictly earlier (so the affected exports are the least
/// ones closed under the links).
pub open spec fn walk_ok(
    a: AffectedStates,
    roots: Seq<(usize, StrSet)>,
    modules: Seq<ModuleFacts>,
    states: Seq<ModuleState>,
    reverse: Seq<Vec<ConsumerLink>>,
) -> bool {
    &&& a.wf(modules.len() as int)
    &&& forall|f: int| 0 <= f < modules.len() ==> closed(a, modules, states, reverse, f)
    &&& forall|i: int|
        0 <= i < roots.len() ==> {
            let f = (#[trigger] roots[i]).0 as int;
            &&& a.present@[f]
            &&& a.depth@[f] == 0
            &&& roots[i].1.set().subset_of(a.affected(f))
        }
    &&& forall|i: int| 0 <= i < modules.len() && a.present@[i] && a.depth@[i] == 0 ==> is_root(roots, i)
    &&& forall|c: int|
        0 <= c < modules.len() && #[trigger] a.present@[c] ==> is_root(roots, c) || exists|f: int, k: int|
            0 <= f < modules.len() && 0 <= k < reverse[f]@.len() && a.present@[f] && (#[trigger] reverse[f]@[k]).consumer == c
    &&& forall|c: int| 0 <= c < modules.len() && #[trigger] a.present@[c] ==> reached_from(a, roots, modules, reverse, c)
    &&& forall|c: int, x: Seq<char>|
        0 <= c < modules.len() && #[trigger] a.affected(c).contains(x) ==> export_sourced(a, roots, modules, states, reverse, c, x)
    &&& exists|stamp: Map<(int, Seq<char>), nat>| #[trigger] ranked(a, stamp, roots, modules, states, reverse)
}

/// The consumer links of module `f`, among its first `k`, that a change to
/// the exports `snap` passes along, in order.
pub open spec fn links_upto(modules: Seq<ModuleFacts>, reverse: Seq<Vec<ConsumerLink>>, f: int, snap: Set<Seq<char>>, k: int) -> Seq<(int, int)>
    decreases k,
{
    if k <= 0 {
        Seq::empty()
    } else {
        let prev = links_upto(modules, reverse, f, snap, k - 1);
        let l = reverse[f]@[k - 1];
        if link_matches(l, snap, modules[l.consumer as int]) {
            prev.push((f, k - 1))
        } else {
            prev
        }
    }
}

/// The links passed along by a sequence of processing steps, each a module
/// and its affected exports when it was taken from the queue, in order.
pub open spec fn trace_links(modules: Seq<ModuleFacts>, reverse: Seq<Vec<ConsumerLink>>, trace: Seq<(int, Set<Seq<char>>)>) -> Seq<(int, int)>
    decreases trace.len(),
{
    if trace.len() == 0 {
        Seq::empty()
    } else {
        let last = trace.last();
        trace_links(modules, reverse, trace.drop_last()) + links_upto(modules, reverse, last.0, last.1, reverse[last.0]@.len() as int)
    }
}

/// The edges `rs` are, in order, exactly one for each link a processing
/// step of `trace` passed along, and each step processed a reached module
/// with exports it still has.
pub open spec fn reasons_in_order(
    a: AffectedStates,
    modules: Seq<ModuleFacts>,
    reverse: Seq<Vec<ConsumerLink>>,
    rs: Seq<ImpactReason>,
    trace: Seq<(int, Set<Seq<char>>)>,
) -> bool {
    let links = trace_links(modules, reverse, trace);
    &&& forall|i: int|
        0 <= i < trace.len() ==> {
            let f = (#[trigger] trace[i]).0;
            &&& 0 <= f < modules.len()
            &&& a.present@[f]
            &&& trace[i].1.subset_of(a.affected(f))
        }
    &&& rs.len() == links.len()
    &&& forall|x: int| 0 <= x < rs.len() ==> #[trigger] reason_for(rs[x], modules, reverse, links[x].0, links[x].1)
}

proof fn lemma_trace_push(modules: Seq<ModuleFacts>, reverse: Seq<Vec<ConsumerLink>>, trace: Seq<(int, Set<Seq<char>>)>, e: (int, Set<Seq<char>>))
    ensures
        trace_links(modules, reverse, trace.push(e)) == trace_links(modules, reverse, trace) + links_upto(
            modules,
            reverse,
            e.0,
            e.1,
            reverse[e.0]@.len() as int,
        ),
{
    assert(trace.push(e).drop_last() =~= trace);
}

/// In a finished walk, every reached file other than a changed file has an
/// edge into it from a reached file exactly one hop shallower, along a link
/// that carries the change.
pub proof fn lemma_reason_one_hop_shallower(
    a: AffectedStates,
    roots: Seq<(usize, StrSet)>,
    modules: Seq<ModuleFacts>,
    states: Seq<ModuleState>,
    reverse: Seq<Vec<ConsumerLink>>,
    rs: Seq<ImpactReason>,
    c: int,
)
    requires
        walk_ok(a, roots, modules, states, reverse),
        walk_reasons_ok(a, roots, modules, reverse, rs),
        0 <= c < modules.len(),
        a.present@[c],
        !is_root(roots, c),
    ensures
        exists|x: int, f: int, k: int|
            #![trigger reason_for(rs[x], modules, reverse, f, k)]
            0 <= x < rs.len() && live_link(a, modules, reverse, f, k, c) && a.depth@[c] == a.depth@[f] + 1 && reason_for(
                rs[x],
                modules,
                reverse,
                f,
                k,
            ),
{
    assert(reached_from(a, roots, modules, reverse, c));
    let (f, k) = choose|f: int, k: int|
        #![trigger reverse[f]@[k]]
        live_link(a, modules, reverse, f, k, c) && a.depth@[c] == a.depth@[f] + 1;
    assert(reported(a, modules, reverse, rs, f, k));
    let x = choose|x: int| 0 <= x < rs.len() && #[trigger] reason_for(rs[x], modules, reverse, f, k);
    assert(reason_for(rs[x], modules, reverse, f, k));
}

/// Walk the reverse-dependency graph from the changed files `roots` (each
/// with the exports it changes), returning what the walk reached and the
/// edges that explain each impact.
///
/// The reached states are closed: every link that an affected module's
/// affected exports reach has made its consumer affected, at most one hop
/// deeper, with the exports the link passes on. Changed files are at depth
/// 0 and nothing else is; every other reached file is reached through such
/// a link from a file exactly one hop shallower, has an edge into it, and
/// has no affected export that neither a change nor a link accounts for.
#[verifier::rlimit(50)]
#[verifier::spinoff_prover]
pub fn run_bfs(
    roots: &Vec<(usize, StrSet)>,
    modules: &Vec<ModuleFacts>,
    module_states: &Vec<ModuleState>,
    reverse: &Vec<Vec<ConsumerLink>>,
) -> (r: (AffectedStates, Vec<ImpactReason>))
    requires
        walk_inputs_wf(roots@, modules@, module_states@, reverse@),
    ensures
        walk_ok(r.0, roots@, modules@, module_states@, reverse@),
        r.0.wf(modules@.len() as int),
        forall|f: int| 0 <= f < modules@.len() ==> closed(r.0, modules@, module_states@, reverse@, f),
        forall|i: int|
            0 <= i < roots@.len() ==> {
                let f = (#[trigger] roots@[i]).0 as int;
                &&& r.0.present@[f]
                &&& r.0.depth@[f] == 0
                &&& roots@[i].1.set().subset_of(r.0.affected(f))
            },
        forall|i: int| 0 <= i < modules@.len() && r.0.present@[i] && r.0.depth@[i] == 0 ==> is_root(roots@, i),
        forall|c: int|
            0 <= c < modules@.len() && #[trigger] r.0.present@[c] ==> is_root(roots@, c) || exists|f: int, k: int|
                0 <= f < modules@.len() && 0 <= k < reverse@[f]@.len() && r.0.present@[f] && (#[trigger] reverse@[f]@[k]).consumer == c,
        forall|x: int| 0 <= x < r.1@.len() ==> edge_explains(r.0, modules@, reverse@, reason_edge(#[trigger] r.1@[x])),
        reasons_cover(r.0, roots@, modules@, reverse@, r.1@),
        walk_reasons_ok(r.0, roots@, modules@, reverse@, r.1@),
        exists|trace: Seq<(int, Set<Seq<char>>)>| #[trigger] reasons_in_order(r.0, modules@, reverse@, r.1@, trace),
{
    let n = modules.len();
    let ghost u = universe(roots@, module_states@, reverse@);
    proof {
        lemma_universe(roots@, module_states@, reverse@);
    }
    let ghost ub = u.len() as int;
    let mut a = AffectedStates::new(n);
    let mut queue: Vec<usize> = Vec::new();
    let mut reasons: Vec<ImpactReason> = Vec::new();
    let mut ri: usize = 0;
    let ghost mut stamp: Map<(int, Seq<char>), nat> = Map::empty();
    let ghost mut clock: nat = 0;
    let ghost mut trace: Seq<(int, Set<Seq<char>>)> = Seq::empty();
    proof {
        assert forall|c: int, x: Seq<char>| 0 <= c < n && #[trigger] a.affected(c).contains(x) implies false by {
            assert(!a.present@[c]);
            assert(a.exports@[c]@ =~= Seq::<Seq<char>>::empty());
            assert(a.affected(c) =~= Set::<Seq<char>>::empty());
        }
        assert forall|i: int| 0 <= i < n implies (#[trigger] a.affected(i)).subset_of(u) by {
            assert(!a.present@[i]);
            assert(a.exports@[i]@ =~= Seq::<Seq<char>>::empty());
            assert(a.affected(i) =~= Set::<Seq<char>>::empty());
        }
        assert forall|c: int, x: Seq<char>| 0 <= c < n && #[trigger] a.affected(c).contains(x) implies exists|r: int|
            0 <= r < roots@.len() && (#[trigger] roots@[r]).0 == c && roots@[r].1.set().contains(x) by {
            assert(!a.present@[c]);
            assert(a.exports@[c]@ =~= Seq::<Seq<char>>::empty());
            assert(a.affected(c) =~= Set::<Seq<char>>::empty());
        }
    }
    while ri < roots.len()
        invariant
            walk_inputs_wf(roots@, modules@, module_states@, reverse@),
            n == modules@.len(),
            ri <= roots@.len(),
            reasons@.len() == 0,
            a.wf(n as int),
            u == universe(roots@, module_states@, reverse@),
            u.finite(),
            forall|j: int| 0 <= j < queue@.len() ==> queue@[j] < n && a.present@[queue@[j] as int],
            forall|i: int| 0 <= i < n && a.present@[i] ==> in_queue(queue@, 0, i),
            forall|i: int| 0 <= i < n ==> (#[trigger] a.affected(i)).subset_of(u),
            forall|i: int| 0 <= i < n && #[trigger] a.present@[i] ==> a.depth@[i] == 0 && is_root(roots@, i),
            forall|i: int| 0 <= i < n && #[trigger] a.present@[i] ==> a.depth@[i] < reached_count(a, n as nat),
            forall|c: int, x: Seq<char>|
                0 <= c < n && #[trigger] a.affected(c).contains(x) ==> exists|r: int|
                    0 <= r < roots@.len() && (#[trigger] roots@[r]).0 == c && roots@[r].1.set().contains(x),
            forall|c: int, x: Seq<char>|
                0 <= c < n && #[trigger] a.affected(c).contains(x) ==> stamp.contains_key((c, x)) && stamp[(c, x)] < clock,
            ranked(a, stamp, roots@, modules@, module_states@, reverse@),
            forall|i: int|
                0 <= i < ri ==> {
                    let f = (#[trigger] roots@[i]).0 as int;
                    &&& a.present@[f]
                    &&& a.depth@[f] == 0
                    &&& roots@[i].1.set().subset_of(a.affected(f))
                },
        decreases roots@.len() - ri,
    {
        let file = roots[ri].0;
        let ghost a0 = a;
        proof {
            assert(a0.affected(file as int).subset_of(u));
        }
        let ghost q0 = queue@;
        a.visit(file, 0, &roots[ri].1);
        queue.push(file);
        proof {
            lemma_universe(roots@, module_states@, reverse@);
            assert(is_root(roots@, file as int)) by {
                assert(roots@[ri as int].0 == file);
            }
            assert forall|i: int| 0 <= i < n implies (#[trigger] a.affected(i)).subset_of(u) by {
                if i == file {
                    assert(roots@[ri as int].1.set().subset_of(u));
                    lemma_union_subset(a0.affected(i), roots@[ri as int].1.set(), u);
                    assert(a.affected(i) == a0.affected(i).union(roots@[ri as int].1.set()));
                } else {
                    assert(a.exports@[i] == a0.exports@[i]);
                    assert(a0.affected(i).subset_of(u));
                }
            }
            lemma_count_frame(a0, a, file as int, n as nat);
            lemma_count_pos(a, n as nat, file as int);
            assert forall|i: int| 0 <= i < n && a.present@[i] implies in_queue(queue@, 0, i) by {
                if i == file {
                    assert(queue@[q0.len() as int] == file);
                } else {
                    let j = choose|j: int| 0 <= j < q0.len() && q0[j] == i;
                    assert(queue@[j] == i);
                }
            }
            assert forall|c: int, x: Seq<char>| 0 <= c < n && #[trigger] a.affected(c).contains(x) implies exists|r: int|
                0 <= r < roots@.len() && (#[trigger] roots@[r]).0 == c && roots@[r].1.set().contains(x) by {
                if c == file && roots@[ri as int].1.set().contains(x) {
                    assert(roots@[ri as int].0 == c);
                } else {
                    if c != file {
                        assert(a.exports@[c] == a0.exports@[c]);
                    }
                    assert(a0.affected(c).contains(x));
                }
            }
            assert forall|i: int| 0 <= i <= ri implies {
                let f = (#[trigger] roots@[i]).0 as int;
                &&& a.present@[f]
                &&& a.depth@[f] == 0
                &&& roots@[i].1.set().subset_of(a.affected(f))
            } by {
                let f = roots@[i].0 as int;
                if f != file {
                    assert(a.exports@[f] == a0.exports@[f]);
                }
            }
        }
        proof {
            let added = roots@[ri as int].1.set();
            lemma_restamp(a0, a, stamp, clock, roots@, modules@, module_states@, reverse@, file as int, added);
            let s2 = restamp(stamp, file as int, added, a0.affected(file as int), clock);
            assert forall|c: int, x: Seq<char>| 0 <= c < n && #[trigger] a.affected(c).contains(x) implies s2.contains_key((c, x))
                && ranked_source(a, s2, roots@, modules@, module_states@, reverse@, c, x) by {
                if !a0.affected(c).contains(x) {
                    if c != file {
                        assert(a.exports@[c] == a0.exports@[c]);
                    }
                    assert(roots@[ri as int].0 == c && roots@[ri as int].1.set().contains(x));
                }
            }
            stamp = s2;
            clock = clock + 1;
        }
        ri = ri + 1;
    }
    let mut head: usize = 0;
    proof {
        assert forall|f: int| 0 <= f < n implies in_queue(queue@, head as int, f) || closed(a, modules@, module_states@, reverse@, f) by {
            if !a.present@[f] {
                assert forall|k: int| 0 <= k < reverse@[f]@.len() implies #[trigger] closed_at(a, modules@, module_states@, reverse@[f]@, f, k) by {}
            }
        }
        assert forall|c: int| 0 <= c < n && #[trigger] a.present@[c] implies is_root(roots@, c) by {}
        assert forall|c: int| 0 <= c < n && #[trigger] a.present@[c] implies reached_below(a, roots@, modules@, reverse@, c) by {}
        assert forall|c: int, x: Seq<char>| 0 <= c < n && #[trigger] a.affected(c).contains(x) implies export_sourced(
            a,
            roots@,
            modules@,
            module_states@,
            reverse@,
            c,
            x,
        ) by {}
        assert(reasons_cover(a, roots@, modules@, reverse@, reasons@));
        assert forall|f: int| 0 <= f < n implies in_queue(queue@, head as int, f) || all_reported(a, modules@, reverse@, reasons@, f) by {
            if !a.present@[f] {
                assert forall|k: int| 0 <= k < reverse@[f]@.len() implies #[trigger] reported(a, modules@, reverse@, reasons@, f, k) by {}
            }
        }
        assert forall|i: int| 0 <= i < roots@.len() implies {
            let f = (#[trigger] roots@[i]).0 as int;
            &&& a.present@[f]
            &&& a.depth@[f] == 0
            &&& roots@[i].1.set().subset_of(a.affected(f))
        } by {}
        lemma_phi_ok(a, u, n as nat);
    }
    while head < queue.len()
        invariant
            walk_inputs_wf(roots@, modules@, module_states@, reverse@),
            n == modules@.len(),
            a.wf(n as int),
            forall|x: int| 0 <= x < reasons@.len() ==> edge_explains(a, modules@, reverse@, reason_edge(#[trigger] reasons@[x])),
            u == universe(roots@, module_states@, reverse@),
            u.finite(),
            ub == u.len(),
            head <= queue@.len(),
            forall|j: int| head <= j < queue@.len() ==> queue@[j] < n && a.present@[queue@[j] as int],
            forall|i: int| 0 <= i < n ==> (#[trigger] a.affected(i)).subset_of(u),
            forall|i: int| 0 <= i < n && #[trigger] a.present@[i] ==> a.depth@[i] < reached_count(a, n as nat),
            forall|f: int| 0 <= f < n ==> in_queue(queue@, head as int, f) || closed(a, modules@, module_states@, reverse@, f),
            forall|i: int|
                0 <= i < roots@.len() ==> {
                    let f = (#[trigger] roots@[i]).0 as int;
                    &&& a.present@[f]
                    &&& a.depth@[f] == 0
                    &&& roots@[i].1.set().subset_of(a.affected(f))
                },
            forall|i: int| 0 <= i < n && a.present@[i] && a.depth@[i] == 0 ==> is_root(roots@, i),
            forall|c: int|
                0 <= c < n && #[trigger] a.present@[c] ==> is_root(roots@, c) || exists|f: int, k: int|
                    0 <= f < n && 0 <= k < reverse@[f]@.len() && a.present@[f] && (#[trigger] reverse@[f]@[k]).consumer == c,
            phi(a, n as nat, ub, n as int) >= 0,
            forall|c: int| 0 <= c < n && #[trigger] a.present@[c] ==> reached_below(a, roots@, modules@, reverse@, c),
            forall|c: int, x: Seq<char>|
                0 <= c < n && #[trigger] a.affected(c).contains(x) ==> export_sourced(a, roots@, modules@, module_states@, reverse@, c, x),
            reasons_cover(a, roots@, modules@, reverse@, reasons@),
            forall|f: int| 0 <= f < n ==> in_queue(queue@, head as int, f) || all_reported(a, modules@, reverse@, reasons@, f),
            reasons_in_order(a, modules@, reverse@, reasons@, trace),
            forall|c: int, x: Seq<char>|
                0 <= c < n && #[trigger] a.affected(c).contains(x) ==> stamp.contains_key((c, x)) && stamp[(c, x)] < clock,
            ranked(a, stamp, roots@, modules@, module_states@, reverse@),
        decreases phi(a, n as nat, ub, n as int), queue@.len() - head,
    {
        let cf = queue[head];
        head = head + 1;
        let cur_depth = a.depth[cf];
        let cur_exports = a.exports[cf].copy();
        let parent = parent_id(modules[cf].file.as_str(), cur_depth, &cur_exports);
        let ghost phi0 = phi(a, n as nat, ub, n as int);
        let ghost qlen0 = queue@.len();
        let consumers = &reverse[cf];
        let mut k: usize = 0;
        let ghost mut origin: Seq<(int, int)> = trace_links(modules@, reverse@, trace);
        proof {
            assert(origin =~= trace_links(modules@, reverse@, trace) + links_upto(modules@, reverse@, cf as int, cur_exports.set(), 0));
            assert(cur_exports.set() == a.affected(cf as int));
            assert forall|f: int| 0 <= f < n implies #[trigger] settled_at(a, modules@, module_states@, reverse@, queue@, head as int, cf as int, cur_depth as int, cur_exports.set(), 0, f) by {
                if f != cf && in_queue(queue@, head - 1, f) {
                    let j = choose|j: int| head - 1 <= j < queue@.len() && queue@[j] == f;
                    assert(j != head - 1);
                }
            }
            assert forall|f: int| 0 <= f < n implies #[trigger] reported_at(a, modules@, reverse@, reasons@, queue@, head as int, cf as int, 0, f) by {
                if f != cf && in_queue(queue@, head - 1, f) {
                    let j = choose|j: int| head - 1 <= j < queue@.len() && queue@[j] == f;
                    assert(j != head - 1);
                }
            }
        }
        while k < consumers.len()
            invariant
                walk_inputs_wf(roots@, modules@, module_states@, reverse@),
                n == modules@.len(),
                a.wf(n as int),
                parent@ == parent_id_spec(modules@[cf as int].file@, cur_depth as int, cur_exports@),
                forall|x: int| 0 <= x < reasons@.len() ==> edge_explains(a, modules@, reverse@, reason_edge(#[trigger] reasons@[x])),
                u == universe(roots@, module_states@, reverse@),
                u.finite(),
                ub == u.len(),
                0 < head <= queue@.len(),
                cf < n,
                a.present@[cf as int],
                *consumers == reverse@[cf as int],
                k <= consumers@.len(),
                cur_exports.wf(),
                cur_exports.set().subset_of(u),
                cur_depth < reached_count(a, n as nat),
                a.depth@[cf as int] <= cur_depth,
                cur_depth == 0 ==> is_root(roots@, cf as int),
                forall|j: int| head <= j < queue@.len() ==> queue@[j] < n && a.present@[queue@[j] as int],
                forall|i: int| 0 <= i < n ==> (#[trigger] a.affected(i)).subset_of(u),
                forall|i: int| 0 <= i < n && #[trigger] a.present@[i] ==> a.depth@[i] < reached_count(a, n as nat),
                settled(a, modules@, module_states@, reverse@, queue@, head as int, cf as int, cur_depth as int, cur_exports.set(), k as int, n as int),
                forall|i: int|
                    0 <= i < roots@.len() ==> {
                        let f = (#[trigger] roots@[i]).0 as int;
                        &&& a.present@[f]
                        &&& a.depth@[f] == 0
                        &&& roots@[i].1.set().subset_of(a.affected(f))
                    },
                forall|i: int| 0 <= i < n && a.present@[i] && a.depth@[i] == 0 ==> is_root(roots@, i),
                forall|c: int|
                    0 <= c < n && #[trigger] a.present@[c] ==> is_root(roots@, c) || exists|f: int, k1: int|
                        0 <= f < n && 0 <= k1 < reverse@[f]@.len() && a.present@[f] && (#[trigger] reverse@[f]@[k1]).consumer == c,
                phi(a, n as nat, ub, n as int) < phi0 || (phi(a, n as nat, ub, n as int) == phi0 && queue@.len() == qlen0),
                phi(a, n as nat, ub, n as int) >= 0,
                cur_exports.set().subset_of(a.affected(cf as int)),
                forall|c: int| 0 <= c < n && #[trigger] a.present@[c] ==> reached_below(a, roots@, modules@, reverse@, c),
                forall|c: int, x: Seq<char>|
                    0 <= c < n && #[trigger] a.affected(c).contains(x) ==> export_sourced(a, roots@, modules@, module_states@, reverse@, c, x),
                reasons_cover(a, roots@, modules@, reverse@, reasons@),
                forall|f: int| 0 <= f < n ==> #[trigger] reported_at(a, modules@, reverse@, reasons@, queue@, head as int, cf as int, k as int, f),
                forall|i: int|
                    0 <= i < trace.len() ==> {
                        let f = (#[trigger] trace[i]).0;
                        &&& 0 <= f < n
                        &&& a.present@[f]
                        &&& trace[i].1.subset_of(a.affected(f))
                    },
                origin == trace_links(modules@, reverse@, trace) + links_upto(modules@, reverse@, cf as int, cur_exports.set(), k as int),
                reasons@.len() == origin.len(),
                forall|x: int| 0 <= x < reasons@.len() ==> #[trigger] reason_for(reasons@[x], modules@, reverse@, origin[x].0, origin[x].1),
                forall|c: int, x: Seq<char>|
                    0 <= c < n && #[trigger] a.affected(c).contains(x) ==> stamp.contains_key((c, x)) && stamp[(c, x)] < clock,
                ranked(a, stamp, roots@, modules@, module_states@, reverse@),
            decreases consumers@.len() - k,
        {
            let link = &consumers[k];
            let c = link.consumer;
            proof {
                assert(reverse@[cf as int]@[k as int] == *link);
            }
            if link_matches_exec(link, &cur_exports, &modules[c]) {
                let added = link_adds_exec(link, &cur_exports, &module_states[c].public_exports);
                let ghost a0 = a;
                proof {
                    lemma_count_le(a, n as nat);
                    assert(a0.affected(c as int).subset_of(u));
                }
                let ghost q0 = queue@;
                let ghost count0 = reached_count(a, n as nat);
                let changed = a.visit(c, cur_depth + 1, &added);
                if changed {
                    queue.push(c);
                }
                let ghost rs0 = reasons@;
                let reason = link_reason(link, &modules[c], parent.clone());
                proof {
                    lemma_parent_ok(modules@[cf as int].file@, cur_depth as int, cur_exports@);
                    assert(reverse@[cf as int]@[k as int] == *link);
                    lemma_edges_grow_visit(a0, a, modules@, reverse@, rs0, n as int, cf as int, k as int, reason);
                }
                reasons.push(reason);
                proof {
                    lemma_visit_sources(
                        a0,
                        a,
                        roots@,
                        modules@,
                        module_states@,
                        reverse@,
                        cf as int,
                        k as int,
                        cur_exports.set(),
                        cur_depth as int,
                        added.set(),
                    );
                    assert(a0.affected(cf as int).subset_of(a.affected(cf as int))) by {
                        if cf != c {
                            assert(a.exports@[cf as int] == a0.exports@[cf as int]);
                        }
                    }
                    assert(reasons_cover(a, roots@, modules@, reverse@, reasons@)) by {
                        assert forall|c2: int| 0 <= c2 < n && #[trigger] a.present@[c2] && !is_root(roots@, c2) implies exists|x: int|
                            0 <= x < reasons@.len() && reason_into(#[trigger] reasons@[x], modules@, reverse@, c2) by {
                            if c2 == c && !a0.present@[c2] {
                                assert(reasons@[rs0.len() as int] == reason);
                                assert(reverse@[cf as int]@[k as int].consumer == c2);
                                assert(reason_into(reasons@[rs0.len() as int], modules@, reverse@, c2));
                            } else {
                                assert(a0.present@[c2]);
                                let x = choose|x: int| 0 <= x < rs0.len() && reason_into(#[trigger] rs0[x], modules@, reverse@, c2);
                                assert(reasons@[x] == rs0[x]);
                            }
                        }
                    }
                    assert forall|x: int| 0 <= x < reasons@.len() implies edge_explains(a, modules@, reverse@, reason_edge(#[trigger] reasons@[x])) by {
                        if x < rs0.len() {
                            assert(reasons@[x] == rs0[x]);
                        } else {
                            assert(reasons@[x] == reason);
                        }
                    }
                    lemma_universe(roots@, module_states@, reverse@);
                    lemma_count_frame(a0, a, c as int, n as nat);
                    if !a0.present@[c as int] {
                        lemma_count_bounds(a0, n as nat, c as int);
                    }
                    assert(added.set().subset_of(u)) by {
                        let l = *link;
                        match l.relation {
                            ConsumerRelation::Import { .. } => {
                                assert(module_states@[c as int].public_exports.set().subset_of(u));
                            },
                            ConsumerRelation::LocalExport { .. } => {
                                assert(link_names(reverse@[cf as int]@[k as int]).subset_of(u));
                            },
                            ConsumerRelation::Reexport { imported, .. } => {
                                assert(link_names(reverse@[cf as int]@[k as int]).subset_of(u));
                            },
                        }
                    }
                    assert forall|i: int| 0 <= i < n implies (#[trigger] a.affected(i)).subset_of(u) by {
                        if i != c {
                            assert(a.exports@[i] == a0.exports@[i]);
                            assert(a0.affected(i).subset_of(u));
                        } else {
                            lemma_union_subset(a0.affected(i), added.set(), u);
                            assert(a.affected(i) == a0.affected(i).union(added.set()));
                        }
                    }
                    assert(grows_from(a0, a, n as int)) by {
                        assert forall|i: int| 0 <= i < n && #[trigger] a0.present@[i] implies {
                            &&& a.present@[i]
                            &&& a.depth@[i] <= a0.depth@[i]
                            &&& a0.affected(i).subset_of(a.affected(i))
                        } by {
                            if i != c {
                                assert(a.exports@[i] == a0.exports@[i]);
                            }
                        }
                    }
                    // The potential.
                    assert forall|i: int| 0 <= i < n && i != c implies term(a0, i, ub, n as int) == term(a, i, ub, n as int) by {
                        assert(a.exports@[i] == a0.exports@[i]);
                    }
                    lemma_phi_frame(a0, a, c as int, n as nat, ub, n as int);
                    lemma_set_len_bound(a.exports@[c as int], u);
                    lemma_phi_ok(a, u, n as nat);
                    // The closure.
                    assert forall|f: int| 0 <= f < n implies #[trigger] settled_at(a, modules@, module_states@, reverse@, queue@, head as int, cf as int, cur_depth as int, cur_exports.set(), k + 1, f) by {
                        assert(settled_at(a0, modules@, module_states@, reverse@, q0, head as int, cf as int, cur_depth as int, cur_exports.set(), k as int, f));
                        if in_queue(q0, head as int, f) {
                            let j = choose|j: int| head <= j < q0.len() && q0[j] == f;
                            assert(queue@[j] == f);
                        } else if f == c && changed {
                            assert(queue@[q0.len() as int] == f);
                        } else {
                            assert(same_at(a0, a, f)) by {
                                if f != c {
                                    assert(a.exports@[f] == a0.exports@[f]);
                                }
                            }
                            if f == cf {
                                assert forall|k2: int| 0 <= k2 < k + 1 implies #[trigger] closed_at(a, modules@, module_states@, reverse@[f]@, f, k2) by {
                                    if k2 < k {
                                        lemma_closed_at_keep(a0, a, modules@, module_states@, reverse@[f]@, f, k2, n as int);
                                    } else {
                                        assert(reverse@[f]@[k2] == *link);
                                        assert(a.affected(f) == cur_exports.set());
                                        assert(link_matches(*link, cur_exports.set(), modules@[c as int]));
                                        assert(a.present@[c as int]);
                                        assert(a.depth@[c as int] <= cur_depth + 1);
                                        assert(added.set() == link_adds(*link, cur_exports.set(), module_states@[c as int].public_exports.set()));
                                        assert(a.affected(c as int) == a0.affected(c as int).union(added.set()));
                                        assert(added.set().subset_of(a.affected(c as int)));
                                    }
                                }
                            } else {
                                lemma_closed_keep(a0, a, modules@, module_states@, reverse@, f, n as int);
                            }
                        }
                    }
                    // The witness of a newly reached consumer.
                    assert forall|x: int| 0 <= x < n && #[trigger] a.present@[x] implies is_root(roots@, x) || exists|f: int, k1: int|
                        0 <= f < n && 0 <= k1 < reverse@[f]@.len() && a.present@[f] && (#[trigger] reverse@[f]@[k1]).consumer == x by {
                        if x == c && !a0.present@[x] {
                            assert(reverse@[cf as int]@[k as int].consumer == x);
                        } else {
                            assert(a0.present@[x]);
                            if !is_root(roots@, x) {
                                let (f, k1) = choose|f: int, k1: int|
                                    0 <= f < n && 0 <= k1 < reverse@[f]@.len() && a0.present@[f] && (#[trigger] reverse@[f]@[k1]).consumer == x;
                                assert(a.present@[f]);
                            }
                        }
                    }
                    assert forall|i: int| 0 <= i < roots@.len() implies {
                        let f = (#[trigger] roots@[i]).0 as int;
                        &&& a.present@[f]
                        &&& a.depth@[f] == 0
                        &&& roots@[i].1.set().subset_of(a.affected(f))
                    } by {
                        let f = roots@[i].0 as int;
                        if f != c {
                            assert(a.exports@[f] == a0.exports@[f]);
                        }
                    }
                    // The edges of the links passed so far.
                    assert(reason_for(reason, modules@, reverse@, cf as int, k as int));
                    assert(reasons@[rs0.len() as int] == reason);
                    assert forall|f: int| 0 <= f < n implies #[trigger] reported_at(a, modules@, reverse@, reasons@, queue@, head as int, cf as int, k + 1, f) by {
                        assert(reported_at(a0, modules@, reverse@, rs0, q0, head as int, cf as int, k as int, f));
                        if in_queue(q0, head as int, f) {
                            let j = choose|j: int| head <= j < q0.len() && q0[j] == f;
                            assert(queue@[j] == f);
                        } else if f == c && changed {
                            assert(queue@[q0.len() as int] == f);
                        } else {
                            assert(a.present@[f] == a0.present@[f]);
                            assert(a.affected(f) == a0.affected(f)) by {
                                if f != c {
                                    assert(a.exports@[f] == a0.exports@[f]);
                                }
                            }
                            if f == cf {
                                assert forall|k2: int| 0 <= k2 < k + 1 implies #[trigger] reported(a, modules@, reverse@, reasons@, f, k2) by {
                                    if k2 < k {
                                        lemma_reported_keep(a0, a, modules@, reverse@, rs0, reasons@, f, k2);
                                    } else {
                                        assert(reason_for(reasons@[rs0.len() as int], modules@, reverse@, f, k2));
                                    }
                                }
                            } else {
                                assert forall|k2: int| 0 <= k2 < reverse@[f]@.len() implies #[trigger] reported(a, modules@, reverse@, reasons@, f, k2) by {
                                    assert(reported(a0, modules@, reverse@, rs0, f, k2));
                                    lemma_reported_keep(a0, a, modules@, reverse@, rs0, reasons@, f, k2);
                                }
                            }
                        }
                    }
                    // The times of the exports added.
                    let cur_set = cur_exports.set();
                    lemma_restamp(a0, a, stamp, clock, roots@, modules@, module_states@, reverse@, c as int, added.set());
                    let s2 = restamp(stamp, c as int, added.set(), a0.affected(c as int), clock);
                    assert(below(a, s2, cf as int, clock) == below(a0, stamp, cf as int, clock));
                    assert(cur_set.subset_of(below(a0, stamp, cf as int, clock))) by {
                        assert forall|y: Seq<char>| cur_set.contains(y) implies below(a0, stamp, cf as int, clock).contains(y) by {
                            assert(a0.affected(cf as int).contains(y));
                        }
                    }
                    lemma_link_monotonic(
                        *link,
                        cur_set,
                        below(a0, stamp, cf as int, clock),
                        modules@[c as int],
                        module_states@[c as int].public_exports.set(),
                    );
                    assert(reverse@[cf as int]@[k as int] == *link);
                    assert forall|c2: int, x: Seq<char>| 0 <= c2 < n && #[trigger] a.affected(c2).contains(x) implies s2.contains_key((c2, x))
                        && ranked_source(a, s2, roots@, modules@, module_states@, reverse@, c2, x) by {
                        if !a0.affected(c2).contains(x) {
                            if c2 != c {
                                assert(a.exports@[c2] == a0.exports@[c2]);
                            }
                            assert(added.set().contains(x));
                            assert(s2[(c2, x)] == clock);
                            assert(a.present@[cf as int]);
                        }
                    }
                    stamp = s2;
                    clock = clock + 1;
                    // The edge just pushed is the next one of this step.
                    let o0 = origin;
                    origin = origin.push((cf as int, k as int));
                    assert(links_upto(modules@, reverse@, cf as int, cur_set, k + 1) == links_upto(
                        modules@,
                        reverse@,
                        cf as int,
                        cur_set,
                        k as int,
                    ).push((cf as int, k as int)));
                    assert(origin =~= trace_links(modules@, reverse@, trace) + links_upto(modules@, reverse@, cf as int, cur_set, k + 1));
                    assert forall|x: int| 0 <= x < reasons@.len() implies #[trigger] reason_for(reasons@[x], modules@, reverse@, origin[x].0, origin[x].1) by {
                        if x < rs0.len() {
                            assert(reasons@[x] == rs0[x]);
                            assert(origin[x] == o0[x]);
                        }
                    }
                    assert forall|i: int| 0 <= i < trace.len() implies {
                        let f = (#[trigger] trace[i]).0;
                        &&& 0 <= f < n
                        &&& a.present@[f]
                        &&& trace[i].1.subset_of(a.affected(f))
                    } by {
                        let f = trace[i].0;
                        assert(a0.present@[f]);
                    }
                }
            } else {
                proof {
                    assert(!link_matches(*link, cur_exports.set(), modules@[c as int]));
                    assert(reverse@[cf as int]@[k as int] == *link);
                    assert(links_upto(modules@, reverse@, cf as int, cur_exports.set(), k + 1) == links_upto(
                        modules@,
                        reverse@,
                        cf as int,
                        cur_exports.set(),
                        k as int,
                    ));
                    assert forall|f: int| 0 <= f < n implies #[trigger] reported_at(a, modules@, reverse@, reasons@, queue@, head as int, cf as int, k + 1, f) by {
                        assert(reported_at(a, modules@, reverse@, reasons@, queue@, head as int, cf as int, k as int, f));
                        assert(settled_at(a, modules@, module_states@, reverse@, queue@, head as int, cf as int, cur_depth as int, cur_exports.set(), k as int, f));
                        if f == cf && !in_queue(queue@, head as int, f) {
                            assert forall|k2: int| 0 <= k2 < k + 1 implies #[trigger] reported(a, modules@, reverse@, reasons@, f, k2) by {
                                if k2 == k {
                                    assert(reverse@[f]@[k2] == *link);
                                }
                            }
                        }
                    }
                    assert forall|f: int| 0 <= f < n implies #[trigger] settled_at(a, modules@, module_states@, reverse@, queue@, head as int, cf as int, cur_depth as int, cur_exports.set(), k + 1, f) by {
                        assert(settled_at(a, modules@, module_states@, reverse@, queue@, head as int, cf as int, cur_depth as int, cur_exports.set(), k as int, f));
                        if f == cf && !in_queue(queue@, head as int, f) {
                            assert forall|k2: int| 0 <= k2 < k + 1 implies #[trigger] closed_at(a, modules@, module_states@, reverse@[f]@, f, k2) by {
                                if k2 == k {
                                    assert(reverse@[f]@[k2] == *link);
                                }
                            }
                        }
                    }
                }
            }
            k = k + 1;
        }
        proof {
            assert forall|f: int| 0 <= f < n implies in_queue(queue@, head as int, f) || closed(a, modules@, module_states@, reverse@, f) by {
                assert(settled_at(a, modules@, module_states@, reverse@, queue@, head as int, cf as int, cur_depth as int, cur_exports.set(), k as int, f));
            }
            assert forall|f: int| 0 <= f < n implies in_queue(queue@, head as int, f) || all_reported(a, modules@, reverse@, reasons@, f) by {
                assert(reported_at(a, modules@, reverse@, reasons@, queue@, head as int, cf as int, k as int, f));
            }
            let step = (cf as int, cur_exports.set());
            lemma_trace_push(modules@, reverse@, trace, step);
            trace = trace.push(step);
            assert(origin == trace_links(modules@, reverse@, trace));
            assert forall|i: int| 0 <= i < trace.len() implies {
                let f = (#[trigger] trace[i]).0;
                &&& 0 <= f < modules@.len()
                &&& a.present@[f]
                &&& trace[i].1.subset_of(a.affected(f))
            } by {
                if i < trace.len() - 1 {
                    assert(trace[i] == trace.drop_last()[i]);
                }
            }
            assert(reasons_in_order(a, modules@, reverse@, reasons@, trace));
        }
    }
    proof {
        assert forall|f: int| 0 <= f < n implies closed(a, modules@, module_states@, reverse@, f) by {
            assert(!in_queue(queue@, head as int, f));
        }
        assert(ranked(a, stamp, roots@, modules@, module_states@, reverse@));
        assert(reasons_in_order(a, modules@, reverse@, reasons@, trace));
        assert forall|f: int, k: int| 0 <= f < n && 0 <= k < reverse@[f]@.len() implies #[trigger] reported(a, modules@, reverse@, reasons@, f, k) by {
            assert(!in_queue(queue@, head as int, f));
            assert(all_reported(a, modules@, reverse@, reasons@, f));
        }
        assert forall|c: int| 0 <= c < n && #[trigger] a.present@[c] implies reached_from(a, roots@, modules@, reverse@, c) by {
            assert(reached_below(a, roots@, modules@, reverse@, c));
            if !is_root(roots@, c) {
                let (f, k) = choose|f: int, k: int|
                    #![trigger reverse@[f]@[k]]
                    live_link(a, modules@, reverse@, f, k, c) && a.depth@[f] + 1 <= a.depth@[c];
                assert(closed(a, modules@, module_states@, reverse@, f));
                assert(closed_at(a, modules@, module_states@, reverse@[f]@, f, k));
                assert(live_link(a, modules@, reverse@, f, k, c) && a.depth@[c] == a.depth@[f] + 1);
            }
        }
    }
    (a, reasons)
}

/// A re-export of the default export passes a change on exactly when the
/// change reaches the default export; a named re-export, exactly when it
/// reaches that name.
pub proof fn lemma_default_reexport_matches(e: Set<Seq<char>>, name: String)
    ensures
        reexport_matches(ReexportTarget::Default, e) <==> e.contains(seq!['d', 'e', 'f', 'a', 'u', 'l', 't']),
        reexport_matches(ReexportTarget::Name(name), e) <==> e.contains(name@),
        reexport_matches(ReexportTarget::All, e) <==> exists|x: Seq<char>| e.contains(x),
        reexport_matches(ReexportTarget::Namespace, e) <==> exists|x: Seq<char>| e.contains(x),
{
}

/// A re-export link of the default export carries a change that reaches the
/// default export.
pub proof fn lemma_default_reexport_link_live(link: ConsumerLink, e: Set<Seq<char>>, consumer: ModuleFacts)
    requires
        link.relation matches ConsumerRelation::Reexport { imported, .. } && imported is Default,
        e.contains(seq!['d', 'e', 'f', 'a', 'u', 'l', 't']),
    ensures
        link_matches(link, e, consumer),
{
}

} // verus!
