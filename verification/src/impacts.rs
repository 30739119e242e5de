//! The blast radius of each changed file on its own, for a run over several
//! files, widest first.
use vstd::prelude::*;

use crate::analyze::{impact_ok, root_impact};
use crate::collections::{str_less, str_lt, StrSet};
use crate::facts::ModuleFacts;
use crate::graph::{workspace_roots, ModuleState, RootImpact, Workspace};
use crate::walk::{run_bfs, walk_inputs_wf, walk_ok, AffectedStates, ConsumerLink};

verus! {

/// `a` comes before `b`: it reaches more files, or as many with a smaller path.
pub open spec fn impact_before(a: RootImpact, b: RootImpact) -> bool {
    a.affected > b.affected || (a.affected == b.affected && str_lt(a.file@, b.file@))
}

/// Widest first, ties by path.
pub open spec fn impacts_ordered(s: Seq<RootImpact>) -> bool {
    forall|i: int, j: int| 0 <= i < j < s.len() ==> !impact_before(#[trigger] s[j], #[trigger] s[i])
}

/// `imp` is the impact of the changed file `file` with the exports `exports`,
/// measured on a walk that starts from that file alone.
pub open spec fn impact_of(
    imp: RootImpact,
    file: usize,
    exports: Seq<Seq<char>>,
    root: Seq<char>,
    modules: Seq<ModuleFacts>,
    states: Seq<ModuleState>,
    reverse: Seq<Vec<ConsumerLink>>,
    ws: Seq<Seq<char>>,
) -> bool {
    exists|a: AffectedStates, one: Seq<(usize, StrSet)>|
        #![trigger walk_ok(a, one, modules, states, reverse)]
        one.len() == 1 && one[0].0 == file && one[0].1@ == exports && walk_ok(a, one, modules, states, reverse)
            && impact_ok(imp, root, modules[file as int].file@, modules, a, reverse, ws)
}

proof fn lemma_before_transitive(a: RootImpact, b: RootImpact, c: RootImpact)
    requires
        impact_before(a, b),
        impact_before(b, c),
    ensures
        impact_before(a, c),
{
    if a.affected == b.affected && b.affected == c.affected {
        crate::collections::lemma_str_lt_transitive(a.file@, b.file@, c.file@);
    }
}

proof fn lemma_before_asymmetric(a: RootImpact, b: RootImpact)
    requires
        impact_before(a, b),
    ensures
        !impact_before(b, a),
{
    if a.affected == b.affected {
        crate::collections::lemma_str_lt_asymmetric(a.file@, b.file@);
    }
}

fn before_exec(a: &RootImpact, b: &RootImpact) -> (r: bool)
    ensures
        r == impact_before(*a, *b),
{
    a.affected > b.affected || (a.affected == b.affected && str_less(a.file.as_str(), b.file.as_str()))
}

/// Put `x` into the ordered `out` after every impact it does not come before.
fn insert_ordered(out: &mut Vec<RootImpact>, x: RootImpact)
    requires
        impacts_ordered(old(out)@),
    ensures
        impacts_ordered(final(out)@),
        final(out)@.to_multiset() == old(out)@.to_multiset().insert(x),
{
    let mut p: usize = 0;
    while p < out.len()
        invariant
            p <= out@.len(),
            forall|k: int| 0 <= k < p ==> !impact_before(x, #[trigger] out@[k]),
        ensures
            p <= out@.len(),
            forall|k: int| 0 <= k < p ==> !impact_before(x, #[trigger] out@[k]),
            p < out@.len() ==> impact_before(x, out@[p as int]),
        decreases out.len() - p,
    {
        if before_exec(&x, &out[p]) {
            break;
        }
        p = p + 1;
    }
    let ghost before = out@;
    proof {
        assert forall|k: int| p <= k < before.len() implies !impact_before(#[trigger] before[k], x) by {
            if impact_before(before[k], x) {
                assert(impact_before(x, before[p as int]));
                if k == p {
                    lemma_before_asymmetric(x, before[k]);
                } else {
                    lemma_before_transitive(before[k], x, before[p as int]);
                }
            }
        }
    }
    out.insert(p, x);
    proof {
        vstd::seq_lib::to_multiset_insert(before, p as int, x);
        let s = out@;
        assert forall|i: int, j: int| 0 <= i < j < s.len() implies !impact_before(#[trigger] s[j], #[trigger] s[i]) by {
            if j < p {
                assert(s[i] == before[i] && s[j] == before[j]);
            } else if j == p {
                assert(s[i] == before[i]);
            } else if i < p {
                assert(s[i] == before[i] && s[j] == before[j - 1]);
            } else if i == p {
                assert(s[j] == before[j - 1]);
            } else {
                assert(s[i] == before[i - 1] && s[j] == before[j - 1]);
            }
        }
    }
}

/// `r` holds the impact of each of the changed files `roots`, each measured
/// on its own walk, widest first and then by path.
pub open spec fn root_impacts_ok(
    r: Seq<RootImpact>,
    roots: Seq<(usize, StrSet)>,
    root: Seq<char>,
    modules: Seq<ModuleFacts>,
    states: Seq<ModuleState>,
    reverse: Seq<Vec<ConsumerLink>>,
    ws: Seq<Seq<char>>,
) -> bool {
    &&& impacts_ordered(r)
    &&& exists|imps: Seq<RootImpact>|
        #![trigger imps.to_multiset()]
        imps.len() == roots.len() && r.to_multiset() == imps.to_multiset() && forall|i: int|
            0 <= i < imps.len() ==> impact_of(#[trigger] imps[i], roots[i].0, roots[i].1@, root, modules, states, reverse, ws)
}

/// Each changed file's own blast radius, from a walk that starts from it
/// alone, ordered widest first and then by path.
pub fn compute_root_impacts(
    roots: &Vec<(usize, StrSet)>,
    modules: &Vec<ModuleFacts>,
    module_states: &Vec<ModuleState>,
    reverse: &Vec<Vec<ConsumerLink>>,
    workspaces: &Vec<Workspace>,
    repo_root: &str,
) -> (r: Vec<RootImpact>)
    requires
        walk_inputs_wf(roots@, modules@, module_states@, reverse@),
    ensures
        root_impacts_ok(r@, roots@, repo_root@, modules@, module_states@, reverse@, workspace_roots(workspaces@)),
{
    let ghost ws = workspace_roots(workspaces@);
    let mut out: Vec<RootImpact> = Vec::new();
    let ghost mut imps: Seq<RootImpact> = Seq::empty();
    let mut i: usize = 0;
    proof {
        assert(out@ =~= Seq::<RootImpact>::empty());
    }
    while i < roots.len()
        invariant
            walk_inputs_wf(roots@, modules@, module_states@, reverse@),
            ws == workspace_roots(workspaces@),
            i <= roots@.len(),
            imps.len() == i,
            impacts_ordered(out@),
            out@.to_multiset() == imps.to_multiset(),
            forall|k: int|
                0 <= k < i ==> impact_of(#[trigger] imps[k], roots@[k].0, roots@[k].1@, repo_root@, modules@, module_states@, reverse@, ws),
        decreases roots.len() - i,
    {
        let file = roots[i].0;
        let exports = roots[i].1.copy();
        let single: Vec<(usize, StrSet)> = vec![(file, exports)];
        proof {
            assert(roots@[i as int].1.wf());
            assert(single@[0].1.wf());
        }
        let (a, _reasons) = run_bfs(&single, modules, module_states, reverse);
        let imp = root_impact(repo_root, file, modules, &a, reverse, workspaces);
        proof {
            assert(impact_of(imp, roots@[i as int].0, roots@[i as int].1@, repo_root@, modules@, module_states@, reverse@, ws)) by {
                assert(walk_ok(a, single@, modules@, module_states@, reverse@));
            }
            vstd::seq_lib::to_multiset_build(imps, imp);
            imps = imps.push(imp);
            assert(imps[i as int] == imp);
        }
        insert_ordered(&mut out, imp);
        i = i + 1;
    }
    proof {
        assert(imps.len() == roots@.len());
        assert(root_impacts_ok(out@, roots@, repo_root@, modules@, module_states@, reverse@, ws));
    }
    out
}

/// The per-file impacts of a multi-file run come widest first: an impact
/// never reaches more files than one listed before it.
pub proof fn lemma_impacts_widest_first(
    r: Seq<RootImpact>,
    roots: Seq<(usize, StrSet)>,
    root: Seq<char>,
    modules: Seq<ModuleFacts>,
    states: Seq<ModuleState>,
    reverse: Seq<Vec<ConsumerLink>>,
    ws: Seq<Seq<char>>,
)
    requires
        root_impacts_ok(r, roots, root, modules, states, reverse, ws),
    ensures
        forall|i: int, j: int| 0 <= i < j < r.len() ==> (#[trigger] r[i]).affected >= (#[trigger] r[j]).affected,
        forall|i: int, j: int|
            0 <= i < j < r.len() && (#[trigger] r[i]).affected == (#[trigger] r[j]).affected ==> !str_lt(r[j].file@, r[i].file@),
{
    assert forall|i: int, j: int| 0 <= i < j < r.len() implies (#[trigger] r[i]).affected >= (#[trigger] r[j]).affected by {
        assert(!impact_before(r[j], r[i]));
    }
    assert forall|i: int, j: int|
        0 <= i < j < r.len() && (#[trigger] r[i]).affected == (#[trigger] r[j]).affected implies !str_lt(r[j].file@, r[i].file@) by {
        assert(!impact_before(r[j], r[i]));
    }
}

} // verus!
