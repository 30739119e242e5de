//! From parsed modules to the blast radius: the export state of each module,
//! the reverse links from each file to its consumers, the walk from the
//! changed files, and the result with its summary.
use vstd::prelude::*;

use crate::collections::{set_at, set_map_get, set_map_view, set_map_wf, str_views, StrMap, StrSet};
use crate::facts::{ExportFact, ExportKind, ImportFact, ImportKind, ImportTarget, ModuleFacts, ReexportFact, ReexportTarget};
use crate::graph::{
    compute_tier, package_key, package_key_spec, normalize_separators, tier_for, workspace_roots, AnalysisMode, AnalysisResult,
    AnalysisTarget, EdgeKind, GraphEdge, GraphNode, ModuleState, NodeKind, RiskTier, RootImpact, RootImpactFile, Summary, Workspace,
};
use crate::resolve::relative_to;
use crate::walk::{export_id, export_id_spec, file_id, file_id_spec, run_bfs, walk_inputs_wf, walk_ok, AffectedStates, ImpactReason};
use crate::language::{resolution_spec, Resolver};
use crate::resolve::Resolution;
use crate::text::{concat, concat3, owned, replace_char, str_eq};
use crate::walk::{ConsumerLink, ConsumerRelation};

verus! {

// ---------------------------------------------------------------------------
// Export state
// ---------------------------------------------------------------------------

/// The public export names a module's facts declare: every export, `default`
/// for a default export, and every named re-export.
pub open spec fn public_names(m: ModuleFacts) -> Set<Seq<char>> {
    exported_names(m.exports@).union(reexported_names(m.reexports@))
}

pub open spec fn exported_names(exports: Seq<ExportFact>) -> Set<Seq<char>>
    decreases exports.len(),
{
    if exports.len() == 0 {
        Set::empty()
    } else {
        let e = exports.last();
        let rest = exported_names(exports.drop_last()).insert(e.exported@);
        if e.kind == ExportKind::Default {
            rest.insert(seq!['d', 'e', 'f', 'a', 'u', 'l', 't'])
        } else {
            rest
        }
    }
}

pub open spec fn reexported_names(reexports: Seq<ReexportFact>) -> Set<Seq<char>>
    decreases reexports.len(),
{
    if reexports.len() == 0 {
        Set::empty()
    } else {
        let r = reexports.last();
        let rest = reexported_names(reexports.drop_last());
        if r.exported@ == seq!['*'] {
            rest
        } else {
            rest.insert(r.exported@)
        }
    }
}

/// Export name to the local bindings it stands for.
pub open spec fn export_locals(exports: Seq<ExportFact>) -> Map<Seq<char>, Set<Seq<char>>>
    decreases exports.len(),
{
    if exports.len() == 0 {
        Map::empty()
    } else {
        let m = export_locals(exports.drop_last());
        let e = exports.last();
        match e.local {
            Some(l) => m.insert(e.exported@, set_at(m, e.exported@).insert(l@)),
            None => m,
        }
    }
}

/// Local binding to the export names that stand for it.
pub open spec fn local_exports(exports: Seq<ExportFact>) -> Map<Seq<char>, Set<Seq<char>>>
    decreases exports.len(),
{
    if exports.len() == 0 {
        Map::empty()
    } else {
        let m = local_exports(exports.drop_last());
        let e = exports.last();
        match e.local {
            Some(l) => m.insert(l@, set_at(m, l@).insert(e.exported@)),
            None => m,
        }
    }
}

/// `s` is the export state the facts `m` describe.
pub open spec fn state_of(s: ModuleState, m: ModuleFacts) -> bool {
    &&& s.wf()
    &&& s.file == m.file
    &&& s.public_exports.set() == public_names(m)
    &&& set_map_view(&s.export_to_locals) == export_locals(m.exports@)
    &&& set_map_view(&s.local_to_exports) == local_exports(m.exports@)
}

fn clone_opt(o: &Option<String>) -> (r: Option<String>)
    ensures
        r == *o,
{
    match o {
        Some(s) => Some(s.clone()),
        None => None,
    }
}

/// The export state of one module.
pub fn module_state(module: &ModuleFacts) -> (r: ModuleState)
    ensures
        state_of(r, *module),
{
    let mut state = ModuleState::new(module.file.clone());
    proof {
        reveal_strlit("default");
        reveal_strlit("*");
        assert("default"@ =~= seq!['d', 'e', 'f', 'a', 'u', 'l', 't']);
        assert("*"@ =~= seq!['*']);
        assert(state.public_exports.set() =~= Set::<Seq<char>>::empty());
    }
    let mut i: usize = 0;
    while i < module.exports.len()
        invariant
            i <= module.exports@.len(),
            state.wf(),
            state.file == module.file,
            "default"@ == seq!['d', 'e', 'f', 'a', 'u', 'l', 't'],
            "*"@ == seq!['*'],
            state.public_exports.set() == exported_names(module.exports@.take(i as int)),
            set_map_view(&state.export_to_locals) == export_locals(module.exports@.take(i as int)),
            set_map_view(&state.local_to_exports) == local_exports(module.exports@.take(i as int)),
        decreases module.exports.len() - i,
    {
        let export = &module.exports[i];
        proof {
            assert(module.exports@.take(i + 1).drop_last() =~= module.exports@.take(i as int));
            assert(module.exports@.take(i + 1).last() == *export);
        }
        state.add_export(export.exported.clone(), clone_opt(&export.local));
        if export.kind == ExportKind::Default {
            state.public_exports.insert(owned("default"));
        }
        i = i + 1;
    }
    proof {
        assert(module.exports@.take(module.exports@.len() as int) =~= module.exports@);
    }
    let ghost exported = state.public_exports.set();
    let mut j: usize = 0;
    proof {
        assert(exported =~= exported.union(reexported_names(module.reexports@.take(0))));
    }
    while j < module.reexports.len()
        invariant
            j <= module.reexports@.len(),
            state.wf(),
            state.file == module.file,
            "*"@ == seq!['*'],
            exported == exported_names(module.exports@),
            state.public_exports.set() == exported.union(reexported_names(module.reexports@.take(j as int))),
            set_map_view(&state.export_to_locals) == export_locals(module.exports@),
            set_map_view(&state.local_to_exports) == local_exports(module.exports@),
        decreases module.reexports.len() - j,
    {
        let reexport = &module.reexports[j];
        proof {
            assert(module.reexports@.take(j + 1).drop_last() =~= module.reexports@.take(j as int));
            assert(module.reexports@.take(j + 1).last() == *reexport);
        }
        if !str_eq(reexport.exported.as_str(), "*") {
            state.add_export(reexport.exported.clone(), None);
            proof {
                assert(state.public_exports.set() =~= exported.union(reexported_names(module.reexports@.take(j + 1))));
            }
        }
        j = j + 1;
    }
    proof {
        assert(module.reexports@.take(module.reexports@.len() as int) =~= module.reexports@);
    }
    state
}

/// The export state of every module, in order.
pub fn build_module_states(modules: &Vec<ModuleFacts>) -> (r: Vec<ModuleState>)
    ensures
        r@.len() == modules@.len(),
        forall|i: int| 0 <= i < modules@.len() ==> state_of(#[trigger] r@[i], modules@[i]),
{
    let mut states: Vec<ModuleState> = Vec::new();
    let mut i: usize = 0;
    while i < modules.len()
        invariant
            i <= modules@.len(),
            states@.len() == i,
            forall|j: int| 0 <= j < i ==> state_of(#[trigger] states@[j], modules@[j]),
        decreases modules.len() - i,
    {
        states.push(module_state(&modules[i]));
        i = i + 1;
    }
    states
}

// ---------------------------------------------------------------------------
// Positions of modules
// ---------------------------------------------------------------------------

/// The first module whose file is `path`.
pub open spec fn module_index(modules: Seq<ModuleFacts>, path: Seq<char>, n: nat) -> Option<int>
    decreases n,
{
    if n == 0 {
        None
    } else {
        match module_index(modules, path, (n - 1) as nat) {
            Some(i) => Some(i),
            None => if modules[n - 1].file@ == path {
                Some(n - 1)
            } else {
                None
            },
        }
    }
}

pub proof fn lemma_module_index_bound(modules: Seq<ModuleFacts>, path: Seq<char>, n: nat)
    ensures
        module_index(modules, path, n) matches Some(i) ==> 0 <= i < n && modules[i].file@ == path,
    decreases n,
{
    if n > 0 {
        lemma_module_index_bound(modules, path, (n - 1) as nat);
    }
}

/// The map from module file to position the lookups use.
pub open spec fn indexes_modules(m: StrMap<usize>, modules: Seq<ModuleFacts>) -> bool {
    &&& m.wf()
    &&& forall|k: Seq<char>| #[trigger] m.as_map().contains_key(k) <==> module_index(modules, k, modules.len()) is Some
    &&& forall|k: Seq<char>| #[trigger] m.as_map().contains_key(k) ==> Some(m.as_map()[k] as int) == module_index(modules, k, modules.len())
}

pub fn build_module_index(modules: &Vec<ModuleFacts>) -> (r: StrMap<usize>)
    ensures
        indexes_modules(r, modules@),
{
    let mut index: StrMap<usize> = StrMap::new();
    let mut i: usize = 0;
    while i < modules.len()
        invariant
            i <= modules@.len(),
            index.wf(),
            forall|k: Seq<char>| #[trigger] index.as_map().contains_key(k) <==> module_index(modules@, k, i as nat) is Some,
            forall|k: Seq<char>| #[trigger] index.as_map().contains_key(k) ==> Some(index.as_map()[k] as int) == module_index(
                modules@,
                k,
                i as nat,
            ),
        decreases modules.len() - i,
    {
        let file = &modules[i].file;
        if index.find(file.as_str()).is_none() {
            let ghost old_map = index.as_map();
            index.set(file.clone(), i);
            proof {
                assert forall|k: Seq<char>| #[trigger] index.as_map().contains_key(k) <==> module_index(modules@, k, (i + 1) as nat) is Some by {
                    assert(old_map.contains_key(k) <==> module_index(modules@, k, i as nat) is Some);
                }
                assert forall|k: Seq<char>| #[trigger] index.as_map().contains_key(k) implies Some(index.as_map()[k] as int)
                    == module_index(modules@, k, (i + 1) as nat) by {
                    if k != file@ {
                        assert(old_map.contains_key(k));
                    } else {
                        assert(!old_map.contains_key(k));
                        assert(module_index(modules@, k, i as nat) is None);
                        assert(index.as_map()[k] == i);
                    }
                }
            }
        } else {
            proof {
                assert(index.as_map().contains_key(file@));
                assert forall|k: Seq<char>| #[trigger] index.as_map().contains_key(k) <==> module_index(modules@, k, (i + 1) as nat) is Some by {
                    assert(index.as_map().contains_key(k) <==> module_index(modules@, k, i as nat) is Some);
                }
                assert forall|k: Seq<char>| #[trigger] index.as_map().contains_key(k) implies Some(index.as_map()[k] as int)
                    == module_index(modules@, k, (i + 1) as nat) by {
                    assert(Some(index.as_map()[k] as int) == module_index(modules@, k, i as nat));
                }
            }
        }
        i = i + 1;
    }
    index
}


// ---------------------------------------------------------------------------
// Memoised resolution
// ---------------------------------------------------------------------------

/// Resolutions already made, by importer and specifier.
pub struct ResolutionCache {
    resolver: Resolver,
    entries: StrMap<StrMap<Resolution>>,
}

impl ResolutionCache {
    /// The repository index resolution reads.
    pub closed spec fn ctx(&self) -> crate::resolve::ResolveCtx {
        self.resolver.ctx
    }

    /// Every remembered resolution is what the resolver gives.
    pub closed spec fn wf(&self) -> bool {
        &&& self.resolver.wf()
        &&& self.entries.wf()
        &&& forall|k: Seq<char>| #[trigger] self.entries.as_map().contains_key(k) ==> {
            let inner = self.entries.as_map()[k];
            &&& inner.wf()
            &&& forall|s: Seq<char>| #[trigger] inner.as_map().contains_key(s) ==> inner.as_map()[s].path() == resolution_spec(
                self.resolver.ctx,
                k,
                s,
            )
        }
    }

    /// The (importer, specifier) pairs whose resolution is remembered.
    pub closed spec fn stored(&self) -> Set<(Seq<char>, Seq<char>)> {
        Set::new(
            |p: (Seq<char>, Seq<char>)|
                self.entries.as_map().contains_key(p.0) && self.entries.as_map()[p.0].as_map().contains_key(p.1),
        )
    }

    pub fn new(resolver: Resolver) -> (r: ResolutionCache)
        requires
            resolver.wf(),
        ensures
            r.wf(),
            r.ctx() == resolver.ctx,
            r.stored() == Set::<(Seq<char>, Seq<char>)>::empty(),
    {
        let r = ResolutionCache { resolver, entries: StrMap::new() };
        proof {
            assert(r.stored() =~= Set::<(Seq<char>, Seq<char>)>::empty());
        }
        r
    }

    /// What `specifier`, imported by `importer`, resolves to, resolving it
    /// at most once.
    pub fn resolve(&mut self, importer: &str, specifier: &str) -> (r: Resolution)
        requires
            old(self).wf(),
        ensures
            final(self).wf(),
            final(self).ctx() == old(self).ctx(),
            r.path() == resolution_spec(old(self).ctx(), importer@, specifier@),
            final(self).stored() == old(self).stored().insert((importer@, specifier@)),
    {
        let ghost old_stored = self.stored();
        match self.entries.find(importer) {
            Some(i) => {
                proof {
                    crate::collections::lemma_sorted_no_duplicates(self.entries.keys());
                    assert(self.entries.as_map().contains_key(importer@));
                    assert(self.entries.keys().index_of(importer@) == i);
                }
                match self.entries.val_at(i).get(specifier) {
                    Some(found) => {
                        proof {
                            assert(self.stored() =~= old_stored.insert((importer@, specifier@)));
                        }
                        return found.copy();
                    },
                    None => {},
                }
                let resolution = self.resolver.resolve(importer, specifier);
                let ghost old_entries = self.entries;
                let inner = self.entries.val_mut(i);
                inner.set(String::from_str(specifier), resolution.copy());
                proof {
                    assert forall|k: Seq<char>| #[trigger] self.entries.as_map().contains_key(k) implies {
                        let m = self.entries.as_map()[k];
                        &&& m.wf()
                        &&& forall|s: Seq<char>| #[trigger] m.as_map().contains_key(s) ==> m.as_map()[s].path() == resolution_spec(
                            self.resolver.ctx,
                            k,
                            s,
                        )
                    } by {
                        assert(old_entries.as_map().contains_key(k));
                        if k == importer@ {
                            assert(self.entries.keys().index_of(k) == i);
                        } else {
                            let j = self.entries.keys().index_of(k);
                            assert(self.entries.keys()[j] == k);
                            assert(j != i);
                        }
                    }
                    assert forall|p: (Seq<char>, Seq<char>)| #[trigger] self.stored().contains(p) == old_stored.insert(
                        (importer@, specifier@),
                    ).contains(p) by {
                        if self.entries.as_map().contains_key(p.0) {
                            if p.0 == importer@ {
                                assert(self.entries.keys().index_of(p.0) == i);
                                assert(old_entries.keys().index_of(p.0) == i);
                            } else {
                                let j = self.entries.keys().index_of(p.0);
                                assert(self.entries.keys()[j] == p.0);
                                assert(j != i);
                                assert(old_entries.keys().index_of(p.0) == j);
                            }
                        }
                    }
                    assert(self.stored() =~= old_stored.insert((importer@, specifier@)));
                }
                resolution
            },
            None => {
                let resolution = self.resolver.resolve(importer, specifier);
                let mut inner: StrMap<Resolution> = StrMap::new();
                inner.set(String::from_str(specifier), resolution.copy());
                let ghost old_entries = self.entries.as_map();
                self.entries.set(String::from_str(importer), inner);
                proof {
                    assert forall|k: Seq<char>| #[trigger] self.entries.as_map().contains_key(k) implies {
                        let m = self.entries.as_map()[k];
                        &&& m.wf()
                        &&& forall|s: Seq<char>| #[trigger] m.as_map().contains_key(s) ==> m.as_map()[s].path() == resolution_spec(
                            self.resolver.ctx,
                            k,
                            s,
                        )
                    } by {
                        if k != importer@ {
                            assert(old_entries.contains_key(k));
                        }
                    }
                    assert(!old_entries.contains_key(importer@));
                    assert forall|p: (Seq<char>, Seq<char>)| #[trigger] self.stored().contains(p) == old_stored.insert(
                        (importer@, specifier@),
                    ).contains(p) by {
                        if p.0 == importer@ {
                            assert(inner.as_map().contains_key(p.1) == (p.1 == specifier@));
                        }
                    }
                    assert(self.stored() =~= old_stored.insert((importer@, specifier@)));
                }
                resolution
            },
        }
    }

    pub fn is_internal_specifier(&self, importer: &str, specifier: &str) -> (r: bool)
        requires
            self.wf(),
        ensures
            r == crate::language::internal_spec(self.ctx(), importer@, specifier@),
    {
        self.resolver.is_internal_specifier(importer, specifier)
    }
}


// ---------------------------------------------------------------------------
// Reverse links
// ---------------------------------------------------------------------------

/// A link as plain values: (relation tag, consumer, import target, re-export
/// target, local binding, exported name, edge kind, ambiguity).
pub type LinkView = (u8, usize, Option<ImportTarget>, Option<ReexportTarget>, Seq<char>, Seq<char>, EdgeKind, bool);

pub open spec fn link_view(l: ConsumerLink) -> LinkView {
    match l.relation {
        ConsumerRelation::Import { imported, local, kind } => (0u8, l.consumer, Some(imported), None, local@, Seq::empty(), kind, false),
        ConsumerRelation::LocalExport { imported, local, exported } => (
            1u8,
            l.consumer,
            Some(imported),
            None,
            local@,
            exported@,
            EdgeKind::CommonJsExport,
            false,
        ),
        ConsumerRelation::Reexport { imported, exported, kind, is_ambiguous } => (
            2u8,
            l.consumer,
            None,
            Some(imported),
            Seq::empty(),
            exported@,
            kind,
            is_ambiguous,
        ),
    }
}

/// The kind of edge an import draws.
pub open spec fn import_edge_kind(imp: ImportFact) -> EdgeKind {
    match imp.kind {
        ImportKind::CommonJs => EdgeKind::RequiresModule,
        ImportKind::Dynamic => EdgeKind::ImportsDynamic,
        ImportKind::Mock => EdgeKind::MocksModule,
        ImportKind::Esm => match imp.imported {
            ImportTarget::Default => EdgeKind::ImportsDefault,
            ImportTarget::Name(_) => EdgeKind::ImportsNamed,
            ImportTarget::Namespace => EdgeKind::ImportsNamespace,
            ImportTarget::SideEffect => EdgeKind::ImportsSideEffect,
        },
    }
}

/// The module a specifier of module `c` resolves to.
pub open spec fn target_of(ctx: crate::resolve::ResolveCtx, modules: Seq<ModuleFacts>, c: int, source: Seq<char>) -> Option<int> {
    match resolution_spec(ctx, modules[c].file@, source) {
        Some(p) => module_index(modules, p, modules.len()),
        None => None,
    }
}

/// The export names a module gives the local binding `local`, in order.
pub open spec fn exports_of_local(st: ModuleState, local: Seq<char>) -> Seq<Seq<char>> {
    if st.local_to_exports.as_map().contains_key(local) {
        st.local_to_exports.as_map()[local]@
    } else {
        Seq::empty()
    }
}

/// The (target, link) pairs one import of module `c` contributes: a link
/// to the imported module, and one for each export that re-exports the
/// imported binding.
pub open spec fn one_import_pairs(
    ctx: crate::resolve::ResolveCtx,
    modules: Seq<ModuleFacts>,
    states: Seq<ModuleState>,
    c: int,
    imp: ImportFact,
) -> Seq<(int, LinkView)> {
    match target_of(ctx, modules, c, imp.source@) {
        None => Seq::empty(),
        Some(t) => seq![(t, (0u8, c as usize, Some(imp.imported), None, imp.local@, Seq::empty(), import_edge_kind(imp), false))]
            + local_export_pairs(t, c as usize, imp, exports_of_local(states[c], imp.local@)),
    }
}

/// One link for each export name that re-exports the imported binding.
pub open spec fn local_export_pairs(t: int, c: usize, imp: ImportFact, names: Seq<Seq<char>>) -> Seq<(int, LinkView)>
    decreases names.len(),
{
    if names.len() == 0 {
        Seq::empty()
    } else {
        local_export_pairs(t, c, imp, names.drop_last()).push(
            (t, (1u8, c, Some(imp.imported), None, imp.local@, names.last(), EdgeKind::CommonJsExport, false)),
        )
    }
}

pub open spec fn import_pairs(
    ctx: crate::resolve::ResolveCtx,
    modules: Seq<ModuleFacts>,
    states: Seq<ModuleState>,
    c: int,
    imports: Seq<ImportFact>,
) -> Seq<(int, LinkView)>
    decreases imports.len(),
{
    if imports.len() == 0 {
        Seq::empty()
    } else {
        import_pairs(ctx, modules, states, c, imports.drop_last()) + one_import_pairs(ctx, modules, states, c, imports.last())
    }
}

/// How many `export *` a module has.
pub open spec fn star_count(reexports: Seq<ReexportFact>) -> nat
    decreases reexports.len(),
{
    if reexports.len() == 0 {
        0
    } else {
        star_count(reexports.drop_last()) + if reexports.last().imported is All {
            1nat
        } else {
            0nat
        }
    }
}

/// A re-export is ambiguous when it is one of several `export *`, or when
/// the parser found it so.
pub open spec fn reexport_ambiguous(r: ReexportFact, stars: nat) -> bool {
    match r.imported {
        ReexportTarget::All => stars > 1,
        _ => r.is_ambiguous,
    }
}

pub open spec fn reexport_kind(r: ReexportFact) -> EdgeKind {
    match r.imported {
        ReexportTarget::All => EdgeKind::ReexportsStar,
        _ => EdgeKind::ReexportsNamed,
    }
}

pub open spec fn reexport_pairs(
    ctx: crate::resolve::ResolveCtx,
    modules: Seq<ModuleFacts>,
    c: int,
    reexports: Seq<ReexportFact>,
    stars: nat,
) -> Seq<(int, LinkView)>
    decreases reexports.len(),
{
    if reexports.len() == 0 {
        Seq::empty()
    } else {
        let r = reexports.last();
        reexport_pairs(ctx, modules, c, reexports.drop_last(), stars) + match target_of(ctx, modules, c, r.source@) {
            None => Seq::empty(),
            Some(t) => seq![(t, (2u8, c as usize, None, Some(r.imported), Seq::empty(), r.exported@, reexport_kind(r), reexport_ambiguous(r, stars)))],
        }
    }
}

/// Everything module `c` contributes, imports first.
pub open spec fn consumer_pairs(ctx: crate::resolve::ResolveCtx, modules: Seq<ModuleFacts>, states: Seq<ModuleState>, c: int) -> Seq<(int, LinkView)> {
    import_pairs(ctx, modules, states, c, modules[c].imports@) + reexport_pairs(
        ctx,
        modules,
        c,
        modules[c].reexports@,
        star_count(modules[c].reexports@),
    )
}

/// What the first `n` modules contribute, in module order.
pub open spec fn all_pairs(ctx: crate::resolve::ResolveCtx, modules: Seq<ModuleFacts>, states: Seq<ModuleState>, n: nat) -> Seq<(int, LinkView)>
    decreases n,
{
    if n == 0 {
        Seq::empty()
    } else {
        all_pairs(ctx, modules, states, (n - 1) as nat) + consumer_pairs(ctx, modules, states, n - 1)
    }
}

/// The links of `pairs` that lead to module `t`, in order.
pub open spec fn links_to(pairs: Seq<(int, LinkView)>, t: int) -> Seq<LinkView>
    decreases pairs.len(),
{
    if pairs.len() == 0 {
        Seq::empty()
    } else {
        links_to(pairs.drop_last(), t) + if pairs.last().0 == t {
            seq![pairs.last().1]
        } else {
            Seq::empty()
        }
    }
}

pub open spec fn views_of(links: Seq<ConsumerLink>) -> Seq<LinkView> {
    links.map_values(|l: ConsumerLink| link_view(l))
}

pub open spec fn reverse_ok(reverse: Seq<Vec<ConsumerLink>>, pairs: Seq<(int, LinkView)>, n: int) -> bool {
    &&& reverse.len() == n
    &&& forall|t: int| 0 <= t < n ==> views_of(#[trigger] reverse[t]@) == links_to(pairs, t)
    &&& forall|t: int, k: int| 0 <= t < n && 0 <= k < reverse[t]@.len() ==> (#[trigger] reverse[t]@[k]).consumer < n
}

fn push_link(reverse: &mut Vec<Vec<ConsumerLink>>, t: usize, link: ConsumerLink, Ghost(pairs): Ghost<Seq<(int, LinkView)>>, Ghost(n): Ghost<int>)
    requires
        reverse_ok(old(reverse)@, pairs, n),
        t < n,
        link.consumer < n,
    ensures
        reverse_ok(final(reverse)@, pairs.push((t as int, link_view(link))), n),
{
    let ghost v = link_view(link);
    let ghost before = reverse@;
    reverse[t].push(link);
    proof {
        let p2 = pairs.push((t as int, v));
        assert(p2.drop_last() =~= pairs);
        assert forall|u: int| 0 <= u < n implies views_of(#[trigger] reverse@[u]@) == links_to(p2, u) by {
            if u == t {
                assert(views_of(reverse@[u]@) =~= views_of(before[u]@).push(v));
            } else {
                assert(reverse@[u] == before[u]);
                assert(links_to(p2, u) =~= links_to(pairs, u) + Seq::<LinkView>::empty());
            }
        }
        assert forall|u: int, k: int| 0 <= u < n && 0 <= k < reverse@[u]@.len() implies (#[trigger] reverse@[u]@[k]).consumer < n by {
            if u == t && k == before[u]@.len() {
            } else if u == t {
                assert(reverse@[u]@[k] == before[u]@[k]);
            } else {
                assert(reverse@[u] == before[u]);
            }
        }
    }
}

fn clone_import_target(t: &ImportTarget) -> (r: ImportTarget)
    ensures
        r == *t,
{
    match t {
        ImportTarget::Name(n) => ImportTarget::Name(n.clone()),
        ImportTarget::Default => ImportTarget::Default,
        ImportTarget::Namespace => ImportTarget::Namespace,
        ImportTarget::SideEffect => ImportTarget::SideEffect,
    }
}

fn clone_reexport_target(t: &ReexportTarget) -> (r: ReexportTarget)
    ensures
        r == *t,
{
    match t {
        ReexportTarget::Name(n) => ReexportTarget::Name(n.clone()),
        ReexportTarget::Default => ReexportTarget::Default,
        ReexportTarget::Namespace => ReexportTarget::Namespace,
        ReexportTarget::All => ReexportTarget::All,
    }
}

fn edge_kind_of_import(imp: &ImportFact) -> (r: EdgeKind)
    ensures
        r == import_edge_kind(*imp),
{
    match imp.kind {
        ImportKind::CommonJs => EdgeKind::RequiresModule,
        ImportKind::Dynamic => EdgeKind::ImportsDynamic,
        ImportKind::Mock => EdgeKind::MocksModule,
        ImportKind::Esm => match &imp.imported {
            ImportTarget::Default => EdgeKind::ImportsDefault,
            ImportTarget::Name(_) => EdgeKind::ImportsNamed,
            ImportTarget::Namespace => EdgeKind::ImportsNamespace,
            ImportTarget::SideEffect => EdgeKind::ImportsSideEffect,
        },
    }
}

pub(crate) fn count_stars(reexports: &Vec<ReexportFact>) -> (r: usize)
    ensures
        r == star_count(reexports@),
{
    let mut n: usize = 0;
    let mut i: usize = 0;
    while i < reexports.len()
        invariant
            i <= reexports@.len(),
            n == star_count(reexports@.take(i as int)),
            n <= i,
        decreases reexports.len() - i,
    {
        proof {
            assert(reexports@.take(i + 1).drop_last() =~= reexports@.take(i as int));
        }
        if let ReexportTarget::All = reexports[i].imported {
            n = n + 1;
        }
        i = i + 1;
    }
    proof {
        assert(reexports@.take(reexports@.len() as int) =~= reexports@);
    }
    n
}

/// The module a specifier of `module` resolves to, by position.
fn target_index(cache: &mut ResolutionCache, index: &StrMap<usize>, modules: &Vec<ModuleFacts>, c: usize, source: &str) -> (r: Option<usize>)
    requires
        old(cache).wf(),
        indexes_modules(*index, modules@),
        c < modules@.len(),
    ensures
        final(cache).wf(),
        final(cache).ctx() == old(cache).ctx(),
        match r {
            Some(t) => target_of(old(cache).ctx(), modules@, c as int, source@) == Some(t as int) && t < modules@.len(),
            None => target_of(old(cache).ctx(), modules@, c as int, source@) is None,
        },
{
    match cache.resolve(modules[c].file.as_str(), source) {
        Resolution::Resolved(path) => match index.get(path.as_str()) {
            Some(t) => {
                proof {
                    lemma_module_index_bound(modules@, path@, modules@.len());
                }
                Some(*t)
            },
            None => None,
        },
        Resolution::Unresolved => None,
    }
}

/// Add the links one import of module `c` contributes.
fn link_import(
    reverse: &mut Vec<Vec<ConsumerLink>>,
    cache: &mut ResolutionCache,
    index: &StrMap<usize>,
    modules: &Vec<ModuleFacts>,
    module_states: &Vec<ModuleState>,
    c: usize,
    import: &ImportFact,
    Ghost(before): Ghost<Seq<(int, LinkView)>>,
)
    requires
        old(cache).wf(),
        indexes_modules(*index, modules@),
        c < modules@.len(),
        module_states@.len() == modules@.len(),
        state_of(module_states@[c as int], modules@[c as int]),
        reverse_ok(old(reverse)@, before, modules@.len() as int),
    ensures
        final(cache).wf(),
        final(cache).ctx() == old(cache).ctx(),
        reverse_ok(final(reverse)@, before + one_import_pairs(old(cache).ctx(), modules@, module_states@, c as int, *import), modules@.len() as int),
{
    let ghost ctx = cache.ctx();
    let n = modules.len();
    match target_index(cache, index, modules, c, import.source.as_str()) {
        Some(tgt) => {
            let link = ConsumerLink {
                consumer: c,
                relation: ConsumerRelation::Import {
                    imported: clone_import_target(&import.imported),
                    local: import.local.clone(),
                    kind: edge_kind_of_import(import),
                },
            };
            push_link(reverse, tgt, link, Ghost(before), Ghost(n as int));
            let ghost after_import = before.push((tgt as int, (0u8, c, Some(import.imported), None, import.local@, Seq::<char>::empty(), import_edge_kind(*import), false)));
            let state = &module_states[c];
            proof {
                assert(state_of(module_states@[c as int], modules@[c as int]));
            }
            match state.local_to_exports.get(import.local.as_str()) {
                Some(names) => {
                    let ghost ns = names@;
                    let mut j: usize = 0;
                    proof {
                        assert(exports_of_local(*state, import.local@) == ns);
                        assert(after_import + local_export_pairs(tgt as int, c, *import, ns.take(0)) =~= after_import);
                    }
                    while j < names.len()
                        invariant
                            j <= ns.len(),
                            ns == names@,
                            c < n,
                            tgt < n,
                            reverse_ok(reverse@, after_import + local_export_pairs(tgt as int, c, *import, ns.take(j as int)), n as int),
                        decreases ns.len() - j,
                    {
                        let ghost prev = after_import + local_export_pairs(tgt as int, c, *import, ns.take(j as int));
                        let exported = names.get(j).clone();
                        let link = ConsumerLink {
                            consumer: c,
                            relation: ConsumerRelation::LocalExport {
                                imported: clone_import_target(&import.imported),
                                local: import.local.clone(),
                                exported,
                            },
                        };
                        push_link(reverse, tgt, link, Ghost(prev), Ghost(n as int));
                        proof {
                            assert(ns.take(j + 1).drop_last() =~= ns.take(j as int));
                            assert(after_import + local_export_pairs(tgt as int, c, *import, ns.take(j + 1)) =~= prev.push(
                                (tgt as int, (1u8, c, Some(import.imported), None, import.local@, ns[j as int], EdgeKind::CommonJsExport, false))));
                        }
                        j = j + 1;
                    }
                    proof {
                        assert(ns.take(ns.len() as int) =~= ns);
                        assert(before + one_import_pairs(ctx, modules@, module_states@, c as int, *import) =~= after_import + local_export_pairs(tgt as int, c, *import, ns));
                    }
                },
                None => {
                    proof {
                        assert(exports_of_local(*state, import.local@) =~= Seq::<Seq<char>>::empty());
                        assert(local_export_pairs(tgt as int, c, *import, Seq::<Seq<char>>::empty()) =~= Seq::<(int, LinkView)>::empty());
                        assert(before + one_import_pairs(ctx, modules@, module_states@, c as int, *import) =~= after_import);
                    }
                },
            }
        },
        None => {
            proof {
                assert(before + one_import_pairs(ctx, modules@, module_states@, c as int, *import) =~= before);
            }
        },
    }
}

/// Add the links module `c` contributes.
/// Add the links the re-exports of module `c` contribute.
fn link_reexports(
    reverse: &mut Vec<Vec<ConsumerLink>>,
    cache: &mut ResolutionCache,
    index: &StrMap<usize>,
    modules: &Vec<ModuleFacts>,
    c: usize,
    stars: usize,
    Ghost(with_imports): Ghost<Seq<(int, LinkView)>>,
)
    requires
        old(cache).wf(),
        indexes_modules(*index, modules@),
        c < modules@.len(),
        stars == star_count(modules@[c as int].reexports@),
        reverse_ok(old(reverse)@, with_imports, modules@.len() as int),
    ensures
        final(cache).wf(),
        final(cache).ctx() == old(cache).ctx(),
        reverse_ok(
            final(reverse)@,
            with_imports + reexport_pairs(old(cache).ctx(), modules@, c as int, modules@[c as int].reexports@, stars as nat),
            modules@.len() as int,
        ),
{
    let ghost ctx = cache.ctx();
    let n = modules.len();
    let module = &modules[c];
    let mut k: usize = 0;
    proof {
        assert(with_imports + reexport_pairs(ctx, modules@, c as int, module.reexports@.take(0), stars as nat) =~= with_imports);
    }
    while k < module.reexports.len()
        invariant
            k <= module.reexports@.len(),
            c < n,
            n == modules@.len(),
            *module == modules@[c as int],
            stars == star_count(module.reexports@),
            indexes_modules(*index, modules@),
            cache.wf(),
            cache.ctx() == ctx,
            reverse_ok(reverse@, with_imports + reexport_pairs(ctx, modules@, c as int, module.reexports@.take(k as int), stars as nat), n as int),
        decreases module.reexports.len() - k,
    {
        let reexport = &module.reexports[k];
        let ghost before = with_imports + reexport_pairs(ctx, modules@, c as int, module.reexports@.take(k as int), stars as nat);
        proof {
            assert(module.reexports@.take(k + 1).drop_last() =~= module.reexports@.take(k as int));
            assert(module.reexports@.take(k + 1).last() == *reexport);
        }
        match target_index(cache, index, modules, c, reexport.source.as_str()) {
            Some(tgt) => {
                let kind = match reexport.imported {
                    ReexportTarget::All => EdgeKind::ReexportsStar,
                    _ => EdgeKind::ReexportsNamed,
                };
                let is_ambiguous = match reexport.imported {
                    ReexportTarget::All => stars > 1,
                    _ => reexport.is_ambiguous,
                };
                let link = ConsumerLink {
                    consumer: c,
                    relation: ConsumerRelation::Reexport {
                        imported: clone_reexport_target(&reexport.imported),
                        exported: reexport.exported.clone(),
                        kind,
                        is_ambiguous,
                    },
                };
                push_link(reverse, tgt, link, Ghost(before), Ghost(n as int));
                proof {
                    assert(with_imports + reexport_pairs(ctx, modules@, c as int, module.reexports@.take(k + 1), stars as nat) =~= before.push(
                        (tgt as int, (2u8, c, None, Some(reexport.imported), Seq::<char>::empty(), reexport.exported@, reexport_kind(*reexport), reexport_ambiguous(*reexport, stars as nat)))));
                }
            },
            None => {
                proof {
                    assert(with_imports + reexport_pairs(ctx, modules@, c as int, module.reexports@.take(k + 1), stars as nat) =~= before);
                }
            },
        }
        k = k + 1;
    }
    proof {
        assert(module.reexports@.take(module.reexports@.len() as int) =~= module.reexports@);
    }
}

fn link_module(
    reverse: &mut Vec<Vec<ConsumerLink>>,
    cache: &mut ResolutionCache,
    index: &StrMap<usize>,
    modules: &Vec<ModuleFacts>,
    module_states: &Vec<ModuleState>,
    c: usize,
    Ghost(base): Ghost<Seq<(int, LinkView)>>,
)
    requires
        old(cache).wf(),
        indexes_modules(*index, modules@),
        c < modules@.len(),
        module_states@.len() == modules@.len(),
        state_of(module_states@[c as int], modules@[c as int]),
        reverse_ok(old(reverse)@, base, modules@.len() as int),
    ensures
        final(cache).wf(),
        final(cache).ctx() == old(cache).ctx(),
        reverse_ok(final(reverse)@, base + consumer_pairs(old(cache).ctx(), modules@, module_states@, c as int), modules@.len() as int),
{
    let ghost ctx = cache.ctx();
    let n = modules.len();
    let module = &modules[c];
    let mut i: usize = 0;
    proof {
        assert(base + import_pairs(ctx, modules@, module_states@, c as int, module.imports@.take(0)) =~= base);
    }
    while i < module.imports.len()
        invariant
            i <= module.imports@.len(),
            c < n,
            n == modules@.len(),
            module_states@.len() == n,
            *module == modules@[c as int],
            state_of(module_states@[c as int], modules@[c as int]),
            indexes_modules(*index, modules@),
            cache.wf(),
            cache.ctx() == ctx,
            reverse_ok(reverse@, base + import_pairs(ctx, modules@, module_states@, c as int, module.imports@.take(i as int)), n as int),
        decreases module.imports.len() - i,
    {
        let import = &module.imports[i];
        let ghost before = base + import_pairs(ctx, modules@, module_states@, c as int, module.imports@.take(i as int));
        proof {
            assert(module.imports@.take(i + 1).drop_last() =~= module.imports@.take(i as int));
            assert(module.imports@.take(i + 1).last() == *import);
        }
        link_import(reverse, cache, &index, modules, module_states, c, import, Ghost(before));
        proof {
            assert(base + import_pairs(ctx, modules@, module_states@, c as int, module.imports@.take(i + 1)) =~= before
                + one_import_pairs(ctx, modules@, module_states@, c as int, *import));
        }
        i = i + 1;
    }
    proof {
        assert(module.imports@.take(module.imports@.len() as int) =~= module.imports@);
    }
    let stars = count_stars(&module.reexports);
    let ghost with_imports = base + import_pairs(ctx, modules@, module_states@, c as int, module.imports@);
    link_reexports(reverse, cache, index, modules, c, stars, Ghost(with_imports));
    proof {
        assert(base + consumer_pairs(ctx, modules@, module_states@, c as int) =~= with_imports + reexport_pairs(ctx, modules@, c as int, module.reexports@, stars as nat));
    }
}

/// For every module, the consumers that import or re-export it: each
/// import that resolves to a module links it back to the importer (with a
/// further link for each export that re-exports the imported binding), and
/// each re-export likewise, in module order.
pub fn build_reverse_links(modules: &Vec<ModuleFacts>, module_states: &Vec<ModuleState>, cache: &mut ResolutionCache) -> (r: Vec<Vec<ConsumerLink>>)
    requires
        old(cache).wf(),
        module_states@.len() == modules@.len(),
        forall|i: int| 0 <= i < modules@.len() ==> state_of(#[trigger] module_states@[i], modules@[i]),
    ensures
        final(cache).wf(),
        final(cache).ctx() == old(cache).ctx(),
        reverse_ok(r@, all_pairs(old(cache).ctx(), modules@, module_states@, modules@.len()), modules@.len() as int),
{
    let ghost ctx = cache.ctx();
    let n = modules.len();
    let index = build_module_index(modules);
    let mut reverse: Vec<Vec<ConsumerLink>> = Vec::new();
    let mut t: usize = 0;
    while t < n
        invariant
            t <= n,
            reverse@.len() == t,
            forall|u: int| 0 <= u < t ==> (#[trigger] reverse@[u])@.len() == 0,
        decreases n - t,
    {
        reverse.push(Vec::new());
        t = t + 1;
    }
    proof {
        assert forall|u: int| 0 <= u < n implies views_of(#[trigger] reverse@[u]@) == links_to(Seq::<(int, LinkView)>::empty(), u) by {
            assert(views_of(reverse@[u]@) =~= Seq::<LinkView>::empty());
        }
    }
    let mut c: usize = 0;
    while c < n
        invariant
            c <= n,
            n == modules@.len(),
            module_states@.len() == n,
            forall|i: int| 0 <= i < n ==> state_of(#[trigger] module_states@[i], modules@[i]),
            indexes_modules(index, modules@),
            cache.wf(),
            cache.ctx() == ctx,
            reverse_ok(reverse@, all_pairs(ctx, modules@, module_states@, c as nat), n as int),
        decreases n - c,
    {
        let ghost base = all_pairs(ctx, modules@, module_states@, c as nat);
        proof {
            assert(state_of(module_states@[c as int], modules@[c as int]));
        }
        link_module(&mut reverse, cache, &index, modules, module_states, c, Ghost(base));
        proof {
            assert(all_pairs(ctx, modules@, module_states@, (c + 1) as nat) =~= base + consumer_pairs(ctx, modules@, module_states@, c as int));
        }
        c = c + 1;
    }
    reverse
}


// ---------------------------------------------------------------------------
// Labels
// ---------------------------------------------------------------------------

/// A path relative to the repository root, always with `/` separators.
pub open spec fn relative_label_spec(root: Seq<char>, path: Seq<char>) -> Seq<char> {
    replace_char(relative_to(path, root), '\\', seq!['/'])
}

pub fn relative_label(repo_root: &str, path: &str) -> (r: String)
    ensures
        r@ == relative_label_spec(repo_root@, path@),
{
    let rel = match crate::paths::strip_prefix_path(path, repo_root) {
        Some(r) => r,
        None => owned(path),
    };
    normalize_separators(rel.as_str())
}

// ---------------------------------------------------------------------------
// The result graph
// ---------------------------------------------------------------------------

/// A node as plain values: (id, label, file, symbol, kind, depth).
pub type NodeView = (Seq<char>, Seq<char>, Seq<char>, Option<Seq<char>>, NodeKind, usize);

pub open spec fn node_view(n: GraphNode) -> NodeView {
    (n.id@, n.label@, n.file@, match n.symbol {
        Some(s) => Some(s@),
        None => None,
    }, n.kind, n.depth)
}

pub open spec fn node_views(ns: Seq<GraphNode>) -> Seq<NodeView> {
    ns.map_values(|n: GraphNode| node_view(n))
}

/// The export nodes of an affected file: each affected export that the file
/// really exposes, in order.
pub open spec fn export_nodes(root: Seq<char>, file: Seq<char>, depth: usize, exports: Seq<Seq<char>>, public: Set<Seq<char>>) -> Seq<NodeView>
    decreases exports.len(),
{
    if exports.len() == 0 {
        Seq::empty()
    } else {
        let e = exports.last();
        export_nodes(root, file, depth, exports.drop_last(), public) + if public.contains(e) {
            seq![(export_id_spec(file, e), relative_label_spec(root, file) + seq!['#'] + e, file, Some(e), NodeKind::Export, depth)]
        } else {
            Seq::empty()
        }
    }
}

/// The nodes the first `n` modules propose: for each affected file, its
/// file node then its export nodes.
pub open spec fn candidate_nodes(root: Seq<char>, modules: Seq<ModuleFacts>, states: Seq<ModuleState>, a: AffectedStates, n: nat) -> Seq<NodeView>
    decreases n,
{
    if n == 0 {
        Seq::empty()
    } else {
        let i = n - 1;
        let rest = candidate_nodes(root, modules, states, a, (n - 1) as nat);
        if a.present@[i] {
            let file = modules[i].file@;
            rest + seq![(file_id_spec(file), relative_label_spec(root, file), file, None, NodeKind::File, a.depth@[i])] + export_nodes(
                root,
                file,
                a.depth@[i],
                a.exports@[i]@,
                states[i].public_exports.set(),
            )
        } else {
            rest
        }
    }
}

/// The nodes with ids not seen before, in order.
pub open spec fn first_by_id(ns: Seq<NodeView>) -> Seq<NodeView>
    decreases ns.len(),
{
    if ns.len() == 0 {
        Seq::empty()
    } else {
        let rest = first_by_id(ns.drop_last());
        if ids(rest).contains(ns.last().0) {
            rest
        } else {
            rest.push(ns.last())
        }
    }
}

pub open spec fn ids(ns: Seq<NodeView>) -> Seq<Seq<char>> {
    ns.map_values(|v: NodeView| v.0)
}

/// The name `{:?}` gives an edge kind.
pub open spec fn edge_kind_name(k: EdgeKind) -> Seq<char> {
    match k {
        EdgeKind::ImportsNamed => seq!['I', 'm', 'p', 'o', 'r', 't', 's', 'N', 'a', 'm', 'e', 'd'],
        EdgeKind::ImportsDefault => seq!['I', 'm', 'p', 'o', 'r', 't', 's', 'D', 'e', 'f', 'a', 'u', 'l', 't'],
        EdgeKind::ImportsNamespace => seq!['I', 'm', 'p', 'o', 'r', 't', 's', 'N', 'a', 'm', 'e', 's', 'p', 'a', 'c', 'e'],
        EdgeKind::ImportsDynamic => seq!['I', 'm', 'p', 'o', 'r', 't', 's', 'D', 'y', 'n', 'a', 'm', 'i', 'c'],
        EdgeKind::ImportsSideEffect => seq!['I', 'm', 'p', 'o', 'r', 't', 's', 'S', 'i', 'd', 'e', 'E', 'f', 'f', 'e', 'c', 't'],
        EdgeKind::MocksModule => seq!['M', 'o', 'c', 'k', 's', 'M', 'o', 'd', 'u', 'l', 'e'],
        EdgeKind::ReexportsNamed => seq!['R', 'e', 'e', 'x', 'p', 'o', 'r', 't', 's', 'N', 'a', 'm', 'e', 'd'],
        EdgeKind::ReexportsStar => seq!['R', 'e', 'e', 'x', 'p', 'o', 'r', 't', 's', 'S', 't', 'a', 'r'],
        EdgeKind::UsesJsxComponent => seq!['U', 's', 'e', 's', 'J', 's', 'x', 'C', 'o', 'm', 'p', 'o', 'n', 'e', 'n', 't'],
        EdgeKind::RequiresModule => seq!['R', 'e', 'q', 'u', 'i', 'r', 'e', 's', 'M', 'o', 'd', 'u', 'l', 'e'],
        EdgeKind::CommonJsExport => seq!['C', 'o', 'm', 'm', 'o', 'n', 'J', 's', 'E', 'x', 'p', 'o', 'r', 't'],
    }
}

pub fn edge_kind_name_exec(k: EdgeKind) -> (r: String)
    ensures
        r@ == edge_kind_name(k),
{
    proof {
        reveal_strlit("ImportsNamed");
        reveal_strlit("ImportsDefault");
        reveal_strlit("ImportsNamespace");
        reveal_strlit("ImportsDynamic");
        reveal_strlit("ImportsSideEffect");
        reveal_strlit("MocksModule");
        reveal_strlit("ReexportsNamed");
        reveal_strlit("ReexportsStar");
        reveal_strlit("UsesJsxComponent");
        reveal_strlit("RequiresModule");
        reveal_strlit("CommonJsExport");
    }
    let r = match k {
        EdgeKind::ImportsNamed => owned("ImportsNamed"),
        EdgeKind::ImportsDefault => owned("ImportsDefault"),
        EdgeKind::ImportsNamespace => owned("ImportsNamespace"),
        EdgeKind::ImportsDynamic => owned("ImportsDynamic"),
        EdgeKind::ImportsSideEffect => owned("ImportsSideEffect"),
        EdgeKind::MocksModule => owned("MocksModule"),
        EdgeKind::ReexportsNamed => owned("ReexportsNamed"),
        EdgeKind::ReexportsStar => owned("ReexportsStar"),
        EdgeKind::UsesJsxComponent => owned("UsesJsxComponent"),
        EdgeKind::RequiresModule => owned("RequiresModule"),
        EdgeKind::CommonJsExport => owned("CommonJsExport"),
    };
    proof {
        assert(r@ =~= edge_kind_name(k));
    }
    r
}

pub open spec fn bool_text(b: bool) -> Seq<char> {
    if b {
        seq!['t', 'r', 'u', 'e']
    } else {
        seq!['f', 'a', 'l', 's', 'e']
    }
}

/// The key that identifies an edge: `from->to:kind:ambiguous`.
pub open spec fn edge_key(r: ImpactReason) -> Seq<char> {
    r.parent_id@ + seq!['-', '>'] + r.child_id@ + seq![':'] + edge_kind_name(r.kind) + seq![':'] + bool_text(r.is_ambiguous)
}

/// An edge as plain values: (from, to, kind, ambiguity).
pub type EdgeView = (Seq<char>, Seq<char>, EdgeKind, bool);

pub open spec fn edge_view(e: GraphEdge) -> EdgeView {
    (e.from@, e.to@, e.kind, e.is_ambiguous)
}

pub open spec fn reason_view(r: ImpactReason) -> EdgeView {
    (r.parent_id@, r.child_id@, r.kind, r.is_ambiguous)
}

/// The edges of the reasons whose key was not seen before, in order.
pub open spec fn first_by_key(rs: Seq<ImpactReason>) -> Seq<EdgeView>
    decreases rs.len(),
{
    if rs.len() == 0 {
        Seq::empty()
    } else {
        let rest = first_by_key(rs.drop_last());
        if rs.drop_last().map_values(|r: ImpactReason| edge_key(r)).contains(edge_key(rs.last())) {
            rest
        } else {
            rest.push(reason_view(rs.last()))
        }
    }
}

/// Every edge kept is the edge of one of the reasons.
pub proof fn lemma_first_by_key_from(rs: Seq<ImpactReason>)
    ensures
        forall|j: int|
            0 <= j < first_by_key(rs).len() ==> exists|x: int| 0 <= x < rs.len() && #[trigger] first_by_key(rs)[j] == reason_view(rs[x]),
    decreases rs.len(),
{
    if rs.len() > 0 {
        let d = rs.drop_last();
        lemma_first_by_key_from(d);
        let f = first_by_key(rs);
        assert forall|j: int| 0 <= j < f.len() implies exists|x: int| 0 <= x < rs.len() && #[trigger] f[j] == reason_view(rs[x]) by {
            if j < first_by_key(d).len() {
                assert(f[j] == first_by_key(d)[j]);
                let x = choose|x: int| 0 <= x < d.len() && #[trigger] first_by_key(d)[j] == reason_view(d[x]);
                assert(d[x] == rs[x]);
            } else {
                assert(f[j] == reason_view(rs.last()));
                assert(rs.last() == rs[rs.len() - 1]);
            }
        }
    }
}

fn edge_key_exec(r: &ImpactReason) -> (k: String)
    ensures
        k@ == edge_key(*r),
{
    proof {
        reveal_strlit("->");
        reveal_strlit(":");
        reveal_strlit("true");
        reveal_strlit("false");
        assert("->"@ =~= seq!['-', '>']);
        assert(":"@ =~= seq![':']);
        assert("true"@ =~= seq!['t', 'r', 'u', 'e']);
        assert("false"@ =~= seq!['f', 'a', 'l', 's', 'e']);
    }
    let a = concat3(r.parent_id.as_str(), "->", r.child_id.as_str());
    let kind = edge_kind_name_exec(r.kind);
    let b = concat3(a.as_str(), ":", kind.as_str());
    let c = concat3(b.as_str(), ":", if r.is_ambiguous { "true" } else { "false" });
    proof {
        assert(c@ =~= edge_key(*r));
    }
    c
}

/// The graph edges of the impact reasons, each distinct edge once.
pub fn dedupe_edges(reasons: Vec<ImpactReason>) -> (r: Vec<GraphEdge>)
    ensures
        r@.map_values(|e: GraphEdge| edge_view(e)) == first_by_key(reasons@),
{
    let ghost rs = reasons@;
    let mut seen = StrSet::new();
    let mut edges: Vec<GraphEdge> = Vec::new();
    let mut i: usize = 0;
    while i < reasons.len()
        invariant
            i <= reasons@.len(),
            rs == reasons@,
            seen.wf(),
            seen.set() == rs.take(i as int).map_values(|r: ImpactReason| edge_key(r)).to_set(),
            edges@.map_values(|e: GraphEdge| edge_view(e)) == first_by_key(rs.take(i as int)),
        decreases reasons.len() - i,
    {
        let reason = &reasons[i];
        let key = edge_key_exec(reason);
        let ghost keys = rs.take(i as int).map_values(|r: ImpactReason| edge_key(r));
        proof {
            assert(rs.take(i + 1).drop_last() =~= rs.take(i as int));
            assert(rs.take(i + 1).last() == *reason);
            assert(keys.to_set().contains(key@) == keys.contains(key@));
            assert(rs.take(i + 1).map_values(|r: ImpactReason| edge_key(r)) =~= keys.push(key@));
            keys.lemma_push_to_set_commute(key@);
        }
        let ghost before = edges@.map_values(|e: GraphEdge| edge_view(e));
        if seen.insert(key) {
            edges.push(GraphEdge {
                from: reason.parent_id.clone(),
                to: reason.child_id.clone(),
                kind: reason.kind,
                is_ambiguous: reason.is_ambiguous,
            });
            proof {
                assert(edges@.map_values(|e: GraphEdge| edge_view(e)) =~= before.push(reason_view(*reason)));
            }
        }
        i = i + 1;
    }
    proof {
        assert(rs.take(reasons@.len() as int) =~= rs);
    }
    edges
}


/// Propose `v` as the next node: kept unless its id was seen.
fn offer_node(nodes: &mut Vec<GraphNode>, seen: &mut StrSet, node: GraphNode, Ghost(cands): Ghost<Seq<NodeView>>)
    requires
        old(seen).wf(),
        node_views(old(nodes)@) == first_by_id(cands),
        old(seen).set() == ids(first_by_id(cands)).to_set(),
    ensures
        final(seen).wf(),
        node_views(final(nodes)@) == first_by_id(cands.push(node_view(node))),
        final(seen).set() == ids(first_by_id(cands.push(node_view(node)))).to_set(),
{
    let ghost v = node_view(node);
    let ghost prev = first_by_id(cands);
    proof {
        assert(cands.push(v).drop_last() =~= cands);
        assert(ids(prev).to_set().contains(v.0) == ids(prev).contains(v.0));
    }
    if seen.insert(node.id.clone()) {
        nodes.push(node);
        proof {
            assert(node_views(nodes@) =~= prev.push(v));
            assert(ids(prev.push(v)) =~= ids(prev).push(v.0));
            ids(prev).lemma_push_to_set_commute(v.0);
        }
    }
}

/// The graph nodes of the reached files: each affected file, then each of
/// its affected exports that it really exposes, each id once.
pub fn build_nodes(repo_root: &str, modules: &Vec<ModuleFacts>, module_states: &Vec<ModuleState>, a: &AffectedStates) -> (r: Vec<GraphNode>)
    requires
        a.wf(modules@.len() as int),
        module_states@.len() == modules@.len(),
        forall|i: int| 0 <= i < modules@.len() ==> (#[trigger] module_states@[i]).wf(),
    ensures
        node_views(r@) == first_by_id(candidate_nodes(repo_root@, modules@, module_states@, *a, modules@.len())),
{
    let n = modules.len();
    let mut nodes: Vec<GraphNode> = Vec::new();
    let mut seen = StrSet::new();
    let mut i: usize = 0;
    proof {
        assert(node_views(nodes@) =~= Seq::<NodeView>::empty());
        assert(ids(Seq::<NodeView>::empty()).to_set() =~= Set::<Seq<char>>::empty());
    }
    while i < n
        invariant
            i <= n,
            n == modules@.len(),
            a.wf(n as int),
            module_states@.len() == n,
            forall|x: int| 0 <= x < n ==> (#[trigger] module_states@[x]).wf(),
            seen.wf(),
            node_views(nodes@) == first_by_id(candidate_nodes(repo_root@, modules@, module_states@, *a, i as nat)),
            seen.set() == ids(first_by_id(candidate_nodes(repo_root@, modules@, module_states@, *a, i as nat))).to_set(),
        decreases n - i,
    {
        let ghost before = candidate_nodes(repo_root@, modules@, module_states@, *a, i as nat);
        if a.present[i] {
            let file = &modules[i].file;
            let depth = a.depth[i];
            let label = relative_label(repo_root, file.as_str());
            let file_node = GraphNode {
                id: file_id(file.as_str()),
                label: label.clone(),
                file: file.clone(),
                symbol: None,
                kind: NodeKind::File,
                depth,
            };
            let ghost with_file = before.push(node_view(file_node));
            offer_node(&mut nodes, &mut seen, file_node, Ghost(before));
            let exports = &a.exports[i];
            let public = &module_states[i].public_exports;
            proof {
                assert(module_states@[i as int].wf());
                reveal_strlit("#");
                assert("#"@ =~= seq!['#']);
            }
            let mut j: usize = 0;
            proof {
                assert(with_file + export_nodes(repo_root@, file@, depth, exports@.take(0), public.set()) =~= with_file);
            }
            while j < exports.len()
                invariant
                    j <= exports@.len(),
                    public.wf(),
                    seen.wf(),
                    label@ == relative_label_spec(repo_root@, file@),
                    "#"@ == seq!['#'],
                    node_views(nodes@) == first_by_id(with_file + export_nodes(repo_root@, file@, depth, exports@.take(j as int), public.set())),
                    seen.set() == ids(first_by_id(with_file + export_nodes(repo_root@, file@, depth, exports@.take(j as int), public.set()))).to_set(),
                decreases exports@.len() - j,
            {
                let ghost prev = with_file + export_nodes(repo_root@, file@, depth, exports@.take(j as int), public.set());
                let e = exports.get(j);
                proof {
                    assert(exports@.take(j + 1).drop_last() =~= exports@.take(j as int));
                    assert(exports@.take(j + 1).last() == e@);
                }
                if public.contains(e.as_str()) {
                    let node = GraphNode {
                        id: export_id(file.as_str(), e.as_str()),
                        label: concat3(label.as_str(), "#", e.as_str()),
                        file: file.clone(),
                        symbol: Some(e.clone()),
                        kind: NodeKind::Export,
                        depth,
                    };
                    offer_node(&mut nodes, &mut seen, node, Ghost(prev));
                    proof {
                        assert(with_file + export_nodes(repo_root@, file@, depth, exports@.take(j + 1), public.set()) =~= prev.push(
                            (export_id_spec(file@, e@), relative_label_spec(repo_root@, file@) + seq!['#'] + e@, file@, Some(e@), NodeKind::Export, depth)));
                    }
                } else {
                    proof {
                        assert(with_file + export_nodes(repo_root@, file@, depth, exports@.take(j + 1), public.set()) =~= prev);
                    }
                }
                j = j + 1;
            }
            proof {
                assert(exports@.take(exports@.len() as int) =~= exports@);
                assert(candidate_nodes(repo_root@, modules@, module_states@, *a, (i + 1) as nat) =~= with_file + export_nodes(
                    repo_root@, file@, depth, exports@, public.set()));
            }
        }
        i = i + 1;
    }
    nodes
}

// ---------------------------------------------------------------------------
// The summary
// ---------------------------------------------------------------------------

/// How many of the first `n` modules were reached at a depth in `lo..=hi`.
pub open spec fn count_depths(a: AffectedStates, n: nat, lo: usize, hi: usize) -> nat
    decreases n,
{
    if n == 0 {
        0
    } else {
        let i = n - 1;
        count_depths(a, (n - 1) as nat, lo, hi) + if a.present@[i] && lo <= a.depth@[i] <= hi {
            1nat
        } else {
            0nat
        }
    }
}

/// The packages the downstream files (depth 1 and over) of the first `n`
/// modules live in.
pub open spec fn affected_packages(root: Seq<char>, modules: Seq<ModuleFacts>, a: AffectedStates, roots: Seq<Seq<char>>, n: nat) -> Set<Seq<char>>
    decreases n,
{
    if n == 0 {
        Set::empty()
    } else {
        let i = n - 1;
        let rest = affected_packages(root, modules, a, roots, (n - 1) as nat);
        if a.present@[i] && a.depth@[i] >= 1 {
            rest.insert(package_key_spec(relative_label_spec(root, modules[i].file@), roots))
        } else {
            rest
        }
    }
}

/// A count of reached files is at most the number of files looked at.
pub proof fn lemma_count_depths_bound(a: AffectedStates, n: nat, lo: usize, hi: usize)
    ensures
        count_depths(a, n, lo, hi) <= n,
    decreases n,
{
    if n > 0 {
        lemma_count_depths_bound(a, (n - 1) as nat, lo, hi);
    }
}

/// The downstream files split into the direct consumers (depth 1) and the
/// transitive ones (deeper).
pub proof fn lemma_downstream_split(a: AffectedStates, n: nat)
    ensures
        count_depths(a, n, 1, usize::MAX) == count_depths(a, n, 1, 1) + count_depths(a, n, 2, usize::MAX),
    decreases n,
{
    if n > 0 {
        lemma_downstream_split(a, (n - 1) as nat);
    }
}

fn count_depths_exec(a: &AffectedStates, n: usize, lo: usize, hi: usize) -> (r: usize)
    requires
        a.wf(n as int),
    ensures
        r == count_depths(*a, n as nat, lo, hi),
{
    let mut count: usize = 0;
    let mut i: usize = 0;
    while i < n
        invariant
            i <= n,
            a.wf(n as int),
            count == count_depths(*a, i as nat, lo, hi),
        decreases n - i,
    {
        proof {
            lemma_count_depths_bound(*a, i as nat, lo, hi);
        }
        if a.present[i] && lo <= a.depth[i] && a.depth[i] <= hi {
            count = count + 1;
        }
        i = i + 1;
    }
    count
}

fn affected_package_set(repo_root: &str, modules: &Vec<ModuleFacts>, a: &AffectedStates, workspaces: &Vec<Workspace>) -> (r: StrSet)
    requires
        a.wf(modules@.len() as int),
    ensures
        r.wf(),
        r.set() == affected_packages(repo_root@, modules@, *a, workspace_roots(workspaces@), modules@.len()),
{
    let mut keys = StrSet::new();
    let mut i: usize = 0;
    proof {
        assert(keys.set() =~= Set::<Seq<char>>::empty());
    }
    while i < modules.len()
        invariant
            i <= modules@.len(),
            a.wf(modules@.len() as int),
            keys.wf(),
            keys.set() == affected_packages(repo_root@, modules@, *a, workspace_roots(workspaces@), i as nat),
        decreases modules.len() - i,
    {
        if a.present[i] && a.depth[i] >= 1 {
            let label = relative_label(repo_root, modules[i].file.as_str());
            keys.insert(package_key(label.as_str(), workspaces.as_slice()));
        }
        i = i + 1;
    }
    keys
}

pub proof fn lemma_strset_len(s: StrSet)
    requires
        s.wf(),
    ensures
        s@.len() == s.set().len(),
{
    crate::collections::lemma_sorted_no_duplicates(s@);
    s@.unique_seq_to_set();
}

/// What a run knows beyond the walk itself.
pub struct ResultMetadata {
    pub mode: AnalysisMode,
    pub target: AnalysisTarget,
    pub warnings: Vec<String>,
    pub parse_failures: usize,
    pub unresolved_imports: usize,
    pub ambiguous_edges: usize,
    pub skipped_inputs: usize,
    pub workspaces: Vec<Workspace>,
    pub root_impacts: Vec<RootImpact>,
}

/// The analysis result of a walk: the reached files and exports as nodes,
/// the distinct explaining edges, and the summary: downstream files (the
/// changed files themselves excluded), split into direct and transitive,
/// and the risk verdict from their number and the packages they span.
pub fn build_result(
    repo_root: &String,
    source_file_count: usize,
    modules: &Vec<ModuleFacts>,
    module_states: &Vec<ModuleState>,
    a: AffectedStates,
    reasons: Vec<ImpactReason>,
    metadata: ResultMetadata,
) -> (r: AnalysisResult)
    requires
        a.wf(modules@.len() as int),
        module_states@.len() == modules@.len(),
        forall|i: int| 0 <= i < modules@.len() ==> (#[trigger] module_states@[i]).wf(),
    ensures
        r.mode == metadata.mode,
        r.target == metadata.target,
        r.repo_root == *repo_root,
        r.source_file_count == source_file_count,
        node_views(r.nodes@) == first_by_id(candidate_nodes(repo_root@, modules@, module_states@, a, modules@.len())),
        r.edges@.map_values(|e: GraphEdge| edge_view(e)) == first_by_key(reasons@),
        r.summary.total_affected_files == count_depths(a, modules@.len(), 1, usize::MAX),
        r.summary.directly_affected_files == count_depths(a, modules@.len(), 1, 1),
        r.summary.transitively_affected_files == count_depths(a, modules@.len(), 2, usize::MAX),
        r.summary.total_affected_files == r.summary.directly_affected_files + r.summary.transitively_affected_files,
        r.summary.unresolved_imports == metadata.unresolved_imports,
        r.summary.ambiguous_edges == metadata.ambiguous_edges,
        r.summary.parse_failures == metadata.parse_failures,
        r.summary.skipped_inputs == metadata.skipped_inputs,
        r.summary.risk_tier == tier_for(
            count_depths(a, modules@.len(), 1, usize::MAX),
            affected_packages(repo_root@, modules@, a, workspace_roots(metadata.workspaces@), modules@.len()).len(),
        ),
        r.workspaces == metadata.workspaces,
        r.roots == metadata.root_impacts,
        r.warnings == metadata.warnings,
{
    let n = modules.len();
    let nodes = build_nodes(repo_root.as_str(), modules, module_states, &a);
    let edges = dedupe_edges(reasons);
    let total = count_depths_exec(&a, n, 1, usize::MAX);
    let direct = count_depths_exec(&a, n, 1, 1);
    let transitive = count_depths_exec(&a, n, 2, usize::MAX);
    let packages = affected_package_set(repo_root.as_str(), modules, &a, &metadata.workspaces);
    proof {
        lemma_downstream_split(a, n as nat);
        lemma_strset_len(packages);
    }
    let risk_tier = compute_tier(total, packages.len());
    AnalysisResult {
        mode: metadata.mode,
        target: metadata.target,
        repo_root: repo_root.clone(),
        source_file_count,
        summary: Summary {
            directly_affected_files: direct,
            transitively_affected_files: transitive,
            total_affected_files: total,
            unresolved_imports: metadata.unresolved_imports,
            ambiguous_edges: metadata.ambiguous_edges,
            parse_failures: metadata.parse_failures,
            skipped_inputs: metadata.skipped_inputs,
            risk_tier,
        },
        workspaces: metadata.workspaces,
        roots: metadata.root_impacts,
        nodes,
        edges,
        warnings: metadata.warnings,
    }
}


// ---------------------------------------------------------------------------
// The impact of each changed file
// ---------------------------------------------------------------------------

/// The deepest depth among the downstream files of the first `n` modules.
pub open spec fn max_depth_of(a: AffectedStates, n: nat) -> usize
    decreases n,
{
    if n == 0 {
        0
    } else {
        let i = n - 1;
        let m = max_depth_of(a, (n - 1) as nat);
        if a.present@[i] && a.depth@[i] >= 1 && a.depth@[i] > m {
            a.depth@[i]
        } else {
            m
        }
    }
}

/// A reached file is an endpoint when no downstream file consumes it.
pub open spec fn is_endpoint(a: AffectedStates, links: Seq<ConsumerLink>) -> bool {
    forall|k: int| 0 <= k < links.len() ==> !(a.present@[#[trigger] links[k].consumer as int] && a.depth@[links[k].consumer as int] >= 1)
}

/// The downstream files of the first `n` modules by repo-relative path:
/// (endpoint, depth).
pub open spec fn impacted_files(root: Seq<char>, modules: Seq<ModuleFacts>, a: AffectedStates, reverse: Seq<Vec<ConsumerLink>>, n: nat) -> Map<
    Seq<char>,
    (bool, usize),
>
    decreases n,
{
    if n == 0 {
        Map::empty()
    } else {
        let i = n - 1;
        let rest = impacted_files(root, modules, a, reverse, (n - 1) as nat);
        if a.present@[i] && a.depth@[i] >= 1 {
            rest.insert(relative_label_spec(root, modules[i].file@), (is_endpoint(a, reverse[i]@), a.depth@[i]))
        } else {
            rest
        }
    }
}

pub open spec fn impact_file_view(f: RootImpactFile) -> (Seq<char>, bool, usize) {
    (f.path@, f.endpoint, f.depth)
}

/// The impact of one changed file, given the walk from it alone: its
/// downstream files split into direct and indirect, the deepest depth, the
/// packages they span, and each file (by path, in path order) with whether
/// it is an endpoint.
pub open spec fn impact_ok(
    r: RootImpact,
    root: Seq<char>,
    file: Seq<char>,
    modules: Seq<ModuleFacts>,
    a: AffectedStates,
    reverse: Seq<Vec<ConsumerLink>>,
    ws: Seq<Seq<char>>,
) -> bool {
    let n = modules.len();
    let files = impacted_files(root, modules, a, reverse, n);
    &&& r.file@ == relative_label_spec(root, file)
    &&& r.direct == count_depths(a, n, 1, 1)
    &&& r.indirect == count_depths(a, n, 2, usize::MAX)
    &&& r.affected == r.direct + r.indirect
    &&& r.max_depth == max_depth_of(a, n)
    &&& r.packages == affected_packages(root, modules, a, ws, n).len()
    &&& crate::collections::sorted(r.files@.map_values(|f: RootImpactFile| f.path@))
    &&& r.files@.map_values(|f: RootImpactFile| f.path@).to_set() == files.dom()
    &&& forall|j: int| 0 <= j < r.files@.len() ==> files[#[trigger] r.files@[j].path@] == (r.files@[j].endpoint, r.files@[j].depth)
}

fn endpoint_exec(a: &AffectedStates, links: &Vec<ConsumerLink>) -> (r: bool)
    requires
        forall|k: int| 0 <= k < links@.len() ==> (#[trigger] links@[k]).consumer < a.present@.len(),
        a.present@.len() == a.depth@.len(),
    ensures
        r == is_endpoint(*a, links@),
{
    let mut k: usize = 0;
    while k < links.len()
        invariant
            k <= links@.len(),
            forall|x: int| 0 <= x < links@.len() ==> (#[trigger] links@[x]).consumer < a.present@.len(),
            a.present@.len() == a.depth@.len(),
            forall|x: int| 0 <= x < k ==> !(a.present@[#[trigger] links@[x].consumer as int] && a.depth@[links@[x].consumer as int] >= 1),
        decreases links.len() - k,
    {
        let c = links[k].consumer;
        if a.present[c] && a.depth[c] >= 1 {
            return false;
        }
        k = k + 1;
    }
    true
}

/// The impact of the changed file `file` from the walk `a` from it alone.
pub fn root_impact(
    repo_root: &str,
    file: usize,
    modules: &Vec<ModuleFacts>,
    a: &AffectedStates,
    reverse: &Vec<Vec<ConsumerLink>>,
    workspaces: &Vec<Workspace>,
) -> (r: RootImpact)
    requires
        file < modules@.len(),
        a.wf(modules@.len() as int),
        reverse@.len() == modules@.len(),
        forall|f: int, k: int| 0 <= f < reverse@.len() && 0 <= k < reverse@[f]@.len() ==> (#[trigger] reverse@[f]@[k]).consumer < modules@.len(),
    ensures
        impact_ok(r, repo_root@, modules@[file as int].file@, modules@, *a, reverse@, workspace_roots(workspaces@)),
{
    let n = modules.len();
    let direct = count_depths_exec(a, n, 1, 1);
    let indirect = count_depths_exec(a, n, 2, usize::MAX);
    let packages = affected_package_set(repo_root, modules, a, workspaces);
    proof {
        lemma_strset_len(packages);
        lemma_downstream_split(*a, n as nat);
        lemma_count_depths_bound(*a, n as nat, 1, usize::MAX);
    }
    let mut max_depth: usize = 0;
    let mut files: StrMap<(bool, usize)> = StrMap::new();
    let mut i: usize = 0;
    proof {
        assert(files.as_map() =~= Map::<Seq<char>, (bool, usize)>::empty());
    }
    while i < n
        invariant
            i <= n,
            n == modules@.len(),
            a.wf(n as int),
            reverse@.len() == n,
            forall|f: int, k: int| 0 <= f < reverse@.len() && 0 <= k < reverse@[f]@.len() ==> (#[trigger] reverse@[f]@[k]).consumer < n,
            max_depth == max_depth_of(*a, i as nat),
            files.wf(),
            files.as_map() == impacted_files(repo_root@, modules@, *a, reverse@, i as nat),
        decreases n - i,
    {
        if a.present[i] && a.depth[i] >= 1 {
            if a.depth[i] > max_depth {
                max_depth = a.depth[i];
            }
            let label = relative_label(repo_root, modules[i].file.as_str());
            let endpoint = endpoint_exec(a, &reverse[i]);
            files.set(label, (endpoint, a.depth[i]));
        }
        i = i + 1;
    }
    let mut list: Vec<RootImpactFile> = Vec::new();
    let m = files.len();
    let mut j: usize = 0;
    while j < m
        invariant
            j <= m,
            files.wf(),
            m == files.keys().len(),
            list@.len() == j,
            forall|x: int| 0 <= x < j ==> (#[trigger] list@[x]).path@ == files.keys()[x] && (list@[x].endpoint, list@[x].depth) == files.vals()[x],
        decreases m - j,
    {
        let (endpoint, depth) = *files.val_at(j);
        list.push(RootImpactFile { path: files.key_at(j).clone(), endpoint, depth });
        j = j + 1;
    }
    proof {
        let paths = list@.map_values(|f: RootImpactFile| f.path@);
        assert(paths =~= files.keys());
        crate::collections::lemma_sorted_no_duplicates(files.keys());
        assert forall|x: int| 0 <= x < list@.len() implies files.as_map()[#[trigger] list@[x].path@] == (list@[x].endpoint, list@[x].depth) by {
            assert(files.keys().index_of(files.keys()[x]) == x);
        }
        assert(paths.to_set() =~= files.as_map().dom());
    }
    RootImpact {
        file: relative_label(repo_root, modules[file].file.as_str()),
        affected: direct + indirect,
        direct,
        indirect,
        max_depth,
        packages: packages.len(),
        files: list,
    }
}

} // verus!
