//! The languages the analysis knows: which files each owns, and how each
//! resolves its imports. JavaScript/TypeScript comes first and owns every
//! file no other language claims.
use vstd::prelude::*;

use crate::collections::{contains_str, opt_str, str_views, StrMap};
use crate::config::RepoContext;
use crate::java::{java_import_spec, resolve_java_import};
use crate::javascript::{
    is_internal_javascript_specifier, javascript_import_spec, javascript_internal_spec, js_extension_list, js_extensions,
    resolve_javascript_import,
};
use crate::manifest::PackageManifest;
use crate::paths::{clean, extension, extension_spec};
use crate::python::{is_internal_python_specifier, python_import_spec, python_internal_spec, resolve_python_import};
use crate::resolve::{Resolution, ResolveCtx};
use crate::ruby::{is_internal_ruby_specifier, resolve_ruby_import, ruby_import_spec};
use crate::rust_lang::{is_internal_rust_specifier, resolve_rust_import, rust_import_spec, rust_internal_spec};
use crate::text::owned;

verus! {

/// A supported language.
#[derive(Debug, Clone, Copy, PartialEq, Eq, Structural)]
pub enum Language {
    JavaScript,
    Python,
    Rust,
    Vue,
    Svelte,
    Ruby,
    Java,
}

/// The languages in the order they claim files.
pub open spec fn registry_spec() -> Seq<Language> {
    seq![Language::JavaScript, Language::Python, Language::Rust, Language::Vue, Language::Svelte, Language::Ruby, Language::Java]
}

impl Language {
    /// The extensions the language owns, in resolution preference order.
    pub open spec fn extensions_spec(self) -> Seq<Seq<char>> {
        match self {
            Language::JavaScript => js_extensions(),
            Language::Python => seq![seq!['p', 'y']],
            Language::Rust => seq![seq!['r', 's']],
            Language::Vue => seq![seq!['v', 'u', 'e']],
            Language::Svelte => seq![seq!['s', 'v', 'e', 'l', 't', 'e']],
            Language::Ruby => seq![seq!['r', 'b']],
            Language::Java => seq![seq!['j', 'a', 'v', 'a']],
        }
    }

    pub fn extensions(&self) -> (r: Vec<String>)
        ensures
            str_views(r@) == self.extensions_spec(),
    {
        proof {
            reveal_strlit("py");
            reveal_strlit("rs");
            reveal_strlit("vue");
            reveal_strlit("svelte");
            reveal_strlit("rb");
            reveal_strlit("java");
            assert("py"@ =~= seq!['p', 'y']);
            assert("rs"@ =~= seq!['r', 's']);
            assert("vue"@ =~= seq!['v', 'u', 'e']);
            assert("svelte"@ =~= seq!['s', 'v', 'e', 'l', 't', 'e']);
            assert("rb"@ =~= seq!['r', 'b']);
            assert("java"@ =~= seq!['j', 'a', 'v', 'a']);
        }
        let r = match self {
            Language::JavaScript => js_extension_list(),
            Language::Python => vec![owned("py")],
            Language::Rust => vec![owned("rs")],
            Language::Vue => vec![owned("vue")],
            Language::Svelte => vec![owned("svelte")],
            Language::Ruby => vec![owned("rb")],
            Language::Java => vec![owned("java")],
        };
        proof {
            assert(str_views(r@) =~= self.extensions_spec());
        }
        r
    }

    /// The language owns files with this path's extension.
    pub open spec fn handles_spec(self, path: Seq<char>) -> bool {
        match extension_spec(path) {
            Some(e) => self.extensions_spec().contains(e),
            None => false,
        }
    }

    pub fn handles(&self, path: &str) -> (r: bool)
        ensures
            r == self.handles_spec(path@),
    {
        match extension(path) {
            Some(e) => contains_str(&self.extensions(), e.as_str()),
            None => false,
        }
    }
}

pub fn registry() -> (r: Vec<Language>)
    ensures
        r@ == registry_spec(),
{
    let r = vec![
        Language::JavaScript,
        Language::Python,
        Language::Rust,
        Language::Vue,
        Language::Svelte,
        Language::Ruby,
        Language::Java,
    ];
    proof {
        assert(r@ =~= registry_spec());
    }
    r
}

/// The first of `langs` that handles `path`.
pub open spec fn first_handler(langs: Seq<Language>, path: Seq<char>) -> Option<Language>
    decreases langs.len(),
{
    if langs.len() == 0 {
        None
    } else if langs[0].handles_spec(path) {
        Some(langs[0])
    } else {
        first_handler(langs.subrange(1, langs.len() as int), path)
    }
}

/// The language that owns `path`, JavaScript/TypeScript for any extension
/// no other language claims.
pub open spec fn language_of(path: Seq<char>) -> Language {
    match first_handler(registry_spec(), path) {
        Some(l) => l,
        None => Language::JavaScript,
    }
}

pub fn adapter_for(path: &str) -> (r: Language)
    ensures
        r == language_of(path@),
{
    let langs = registry();
    let mut i: usize = 0;
    proof {
        assert(langs@.subrange(0, langs@.len() as int) =~= langs@);
    }
    while i < langs.len()
        invariant
            i <= langs@.len(),
            langs@ == registry_spec(),
            first_handler(langs@, path@) == first_handler(langs@.subrange(i as int, langs@.len() as int), path@),
        decreases langs.len() - i,
    {
        let ghost rest = langs@.subrange(i as int, langs@.len() as int);
        proof {
            assert(rest[0] == langs@[i as int]);
            assert(rest.subrange(1, rest.len() as int) =~= langs@.subrange(i + 1, langs@.len() as int));
        }
        if langs[i].handles(path) {
            return langs[i];
        }
        i = i + 1;
    }
    Language::JavaScript
}

/// Every source extension, language by language.
pub open spec fn source_extensions_spec() -> Seq<Seq<char>> {
    registry_spec().map_values(|l: Language| l.extensions_spec()).flatten()
}

pub fn source_extensions() -> (r: Vec<String>)
    ensures
        str_views(r@) == source_extensions_spec(),
{
    let langs = registry();
    let ghost per = langs@.map_values(|l: Language| l.extensions_spec());
    let mut out: Vec<String> = Vec::new();
    let mut i: usize = 0;
    while i < langs.len()
        invariant
            i <= langs@.len(),
            langs@ == registry_spec(),
            per == langs@.map_values(|l: Language| l.extensions_spec()),
            str_views(out@) == per.take(i as int).flatten(),
        decreases langs.len() - i,
    {
        let exts = langs[i].extensions();
        let ghost before = str_views(out@);
        let mut j: usize = 0;
        while j < exts.len()
            invariant
                j <= exts@.len(),
                str_views(out@) == before + str_views(exts@).take(j as int),
            decreases exts.len() - j,
        {
            let ghost b2 = str_views(out@);
            out.push(exts[j].clone());
            proof {
                assert(str_views(out@) =~= b2.push(exts@[j as int]@));
                assert(str_views(exts@).take(j + 1) =~= str_views(exts@).take(j as int).push(exts@[j as int]@));
            }
            j = j + 1;
        }
        proof {
            assert(str_views(exts@).take(exts@.len() as int) =~= str_views(exts@));
            assert(per.take(i + 1) =~= per.take(i as int).push(per[i as int]));
            per.take(i as int).lemma_flatten_push(per[i as int]);
        }
        i = i + 1;
    }
    proof {
        assert(per.take(langs@.len() as int) =~= per);
    }
    out
}

/// Whether `ext` belongs to any language.
pub fn is_source_extension(ext: &str) -> (r: bool)
    ensures
        r == source_extensions_spec().contains(ext@),
{
    contains_str(&source_extensions(), ext)
}

/// Whether a path is a source file of some language.
pub fn is_source_file(path: &str) -> (r: bool)
    ensures
        r == match extension_spec(path@) {
            Some(e) => source_extensions_spec().contains(e),
            None => false,
        },
{
    match extension(path) {
        Some(e) => is_source_extension(e.as_str()),
        None => false,
    }
}

impl Language {
    /// Where an import of a file of this language resolves.
    pub open spec fn resolve_spec(self, ctx: ResolveCtx, importer: Seq<char>, specifier: Seq<char>) -> Option<Seq<char>> {
        match self {
            Language::Python => python_import_spec(ctx, importer, specifier),
            Language::Rust => rust_import_spec(ctx, importer, specifier),
            Language::Ruby => ruby_import_spec(ctx, importer, specifier),
            Language::Java => java_import_spec(ctx, specifier),
            _ => javascript_import_spec(ctx, importer, specifier),
        }
    }

    /// Whether an import of a file of this language refers into the
    /// repository.
    pub open spec fn internal_spec(self, ctx: ResolveCtx, importer: Seq<char>, specifier: Seq<char>) -> bool {
        match self {
            Language::Python => python_internal_spec(ctx, specifier),
            Language::Rust => rust_internal_spec(ctx, importer, specifier),
            Language::Ruby => (specifier.len() > 0 && specifier[0] == '.') || ruby_import_spec(ctx, importer, specifier) is Some,
            Language::Java => java_import_spec(ctx, specifier) is Some,
            _ => javascript_internal_spec(ctx, importer, specifier),
        }
    }

    pub fn resolve(&self, ctx: &ResolveCtx, importer: &str, specifier: &str) -> (r: Resolution)
        requires
            ctx.wf(),
        ensures
            r.path() == self.resolve_spec(*ctx, importer@, specifier@),
    {
        match self {
            Language::Python => Resolution::from_option(resolve_python_import(ctx, importer, specifier)),
            Language::Rust => Resolution::from_option(resolve_rust_import(ctx, importer, specifier)),
            Language::Ruby => Resolution::from_option(resolve_ruby_import(ctx, importer, specifier)),
            Language::Java => Resolution::from_option(resolve_java_import(ctx, specifier)),
            _ => resolve_javascript_import(ctx, importer, specifier),
        }
    }

    pub fn is_internal(&self, ctx: &ResolveCtx, importer: &str, specifier: &str) -> (r: bool)
        requires
            ctx.wf(),
        ensures
            r == self.internal_spec(*ctx, importer@, specifier@),
    {
        match self {
            Language::Python => is_internal_python_specifier(ctx, specifier),
            Language::Rust => is_internal_rust_specifier(ctx, importer, specifier),
            Language::Ruby => is_internal_ruby_specifier(ctx, importer, specifier),
            Language::Java => resolve_java_import(ctx, specifier).is_some(),
            _ => is_internal_javascript_specifier(ctx, importer, specifier),
        }
    }
}

/// Resolves import specifiers to repository source files through the
/// language that owns the importing file.
#[derive(Debug)]
pub struct Resolver {
    pub ctx: ResolveCtx,
}

/// Where `specifier`, imported by `importer`, resolves.
pub open spec fn resolution_spec(ctx: ResolveCtx, importer: Seq<char>, specifier: Seq<char>) -> Option<Seq<char>> {
    let file = clean(importer);
    language_of(file).resolve_spec(ctx, file, specifier)
}

/// Whether `specifier`, imported by `importer`, refers into the repository.
pub open spec fn internal_spec(ctx: ResolveCtx, importer: Seq<char>, specifier: Seq<char>) -> bool {
    let file = clean(importer);
    language_of(file).internal_spec(ctx, file, specifier)
}

/// Every specifier that an import of a JavaScript, TypeScript, Vue,
/// Svelte, Ruby or Java file resolves to a repository file is one the
/// resolver classifies as internal.
pub proof fn lemma_resolved_is_internal(ctx: ResolveCtx, importer: Seq<char>, specifier: Seq<char>)
    requires
        ctx.wf(),
        !(language_of(clean(importer)) is Python),
        !(language_of(clean(importer)) is Rust),
        resolution_spec(ctx, importer, specifier) is Some,
    ensures
        internal_spec(ctx, importer, specifier),
{
    let file = clean(importer);
    match language_of(file) {
        Language::Ruby => {},
        Language::Java => {},
        Language::Python => {},
        Language::Rust => {},
        _ => {
            crate::javascript::lemma_javascript_resolved_internal(ctx, file, specifier);
        },
    }
}

impl Resolver {
    pub open spec fn wf(&self) -> bool {
        self.ctx.wf()
    }

    /// A resolver over the repository, its parsed package manifests, and
    /// the Cargo manifests found by crate directory.
    pub fn new(context: &RepoContext, manifests: &Vec<PackageManifest>, cargo_manifests: StrMap<String>) -> (r: Resolver)
        requires
            cargo_manifests.wf(),
            forall|i: int| 0 <= i < context.tsconfigs@.len() ==> (#[trigger] context.tsconfigs@[i]).compiler_options.wf(),
        ensures
            r.wf(),
            r.ctx.repo_root@ == context.repo_root@,
            crate::resolve::ctx_indexes_repo(r.ctx, *context, manifests@, cargo_manifests),
    {
        Resolver { ctx: ResolveCtx::new(context, manifests, cargo_manifests) }
    }

    /// Resolve `specifier` as imported by the source file `importer`.
    pub fn resolve(&self, importer: &str, specifier: &str) -> (r: Resolution)
        requires
            self.wf(),
        ensures
            r.path() == resolution_spec(self.ctx, importer@, specifier@),
    {
        let file = crate::paths::clean_path(importer);
        adapter_for(file.as_str()).resolve(&self.ctx, file.as_str(), specifier)
    }

    /// Whether `specifier`, imported by `importer`, refers into the
    /// repository rather than to an outside package.
    pub fn is_internal_specifier(&self, importer: &str, specifier: &str) -> (r: bool)
        requires
            self.wf(),
        ensures
            r == internal_spec(self.ctx, importer@, specifier@),
    {
        let file = crate::paths::clean_path(importer);
        adapter_for(file.as_str()).is_internal(&self.ctx, file.as_str(), specifier)
    }
}

} // verus!
