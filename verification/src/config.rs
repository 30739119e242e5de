//! What repository discovery hands the analysis: the source files, the
//! TypeScript configurations with their path aliases, the package manifests,
//! and the merging of `extends` chains of `tsconfig` files.
use vstd::prelude::*;

use crate::collections::{copy_opt, lists_view, opt_str, str_views, StrMap};
use crate::manifest::JsonValue;
use crate::paths::{join_clean, join_clean_spec};
use crate::text::{concat, ends_with, owned, str_ends_with, str_eq};

verus! {

/// A repository as discovery found it.
#[derive(Debug)]
pub struct RepoContext {
    pub repo_root: String,
    pub source_files: Vec<String>,
    pub tsconfigs: Vec<TsConfigPath>,
    pub package_jsons: Vec<String>,
    /// Import-specifier substrings the repo asks not to count as unresolved
    /// (generated/virtual modules its tooling produces).
    pub ignore_unresolved: Vec<String>,
    pub warnings: Vec<String>,
}

/// A `tsconfig` file and its compiler options after following `extends`.
#[derive(Debug)]
pub struct TsConfigPath {
    pub path: String,
    pub compiler_options: TsCompilerOptions,
}

/// Compiler options after following `extends` chains. Directory-relative
/// fields are resolved against the config file that declared them.
#[derive(Debug)]
pub struct TsCompilerOptions {
    /// The directory `baseUrl` points at, when declared.
    pub base_dir: Option<String>,
    pub paths: StrMap<Vec<String>>,
    /// The directory relative `paths` targets resolve against when no
    /// `baseUrl` is in effect: that of the config declaring `paths`.
    pub paths_dir: Option<String>,
}

impl TsCompilerOptions {
    pub open spec fn wf(&self) -> bool {
        self.paths.wf()
    }

    /// The options declare path aliases or a base URL.
    pub open spec fn aliased(&self) -> bool {
        self.base_dir is Some || self.paths.keys().len() > 0
    }

    /// No base URL and no path aliases.
    pub fn empty() -> (r: TsCompilerOptions)
        ensures
            r.wf(),
            r.base_dir is None,
            r.paths_dir is None,
            r.paths.keys().len() == 0,
    {
        TsCompilerOptions { base_dir: None, paths: StrMap::new(), paths_dir: None }
    }

    pub fn has_aliases(&self) -> (r: bool)
        requires
            self.wf(),
        ensures
            r == self.aliased(),
    {
        self.base_dir.is_some() || self.paths.len() > 0
    }
}

/// The `compilerOptions` a `tsconfig` file declares itself.
#[derive(Debug)]
pub struct RawCompilerOptions {
    pub base_url: Option<String>,
    pub paths: Option<StrMap<Vec<String>>>,
}

/// The `extends` specifiers of a `tsconfig`: a string, or the strings of an
/// array.
pub open spec fn extends_spec(value: Option<JsonValue>) -> Seq<Seq<char>> {
    match value {
        Some(JsonValue::Str(s)) => seq![s@],
        Some(JsonValue::Array(items)) => strings_of(items@),
        _ => Seq::empty(),
    }
}

/// The string members of a list, in order.
pub open spec fn strings_of(items: Seq<JsonValue>) -> Seq<Seq<char>>
    decreases items.len(),
{
    if items.len() == 0 {
        Seq::empty()
    } else {
        let rest = strings_of(items.drop_last());
        match items.last() {
            JsonValue::Str(s) => rest.push(s@),
            _ => rest,
        }
    }
}

pub fn extends_specifiers(value: Option<&JsonValue>) -> (r: Vec<String>)
    ensures
        str_views(r@) == extends_spec(
            match value {
                Some(v) => Some(*v),
                None => None,
            },
        ),
{
    match value {
        Some(JsonValue::Str(s)) => {
            let r = vec![s.clone()];
            proof {
                assert(str_views(r@) =~= seq![s@]);
            }
            r
        },
        Some(JsonValue::Array(items)) => {
            let mut out: Vec<String> = Vec::new();
            let mut i: usize = 0;
            while i < items.len()
                invariant
                    i <= items.len(),
                    str_views(out@) == strings_of(items@.take(i as int)),
                decreases items.len() - i,
            {
                proof {
                    assert(items@.take(i + 1).drop_last() =~= items@.take(i as int));
                    assert(items@.take(i + 1).last() == items@[i as int]);
                }
                if let JsonValue::Str(s) = &items[i] {
                    let ghost before = str_views(out@);
                    out.push(s.clone());
                    proof {
                        assert(str_views(out@) =~= before.push(s@));
                    }
                }
                i = i + 1;
            }
            proof {
                assert(items@.take(items.len() as int) =~= items@);
            }
            out
        },
        _ => {
            let r: Vec<String> = Vec::new();
            proof {
                assert(str_views(r@) =~= Seq::<Seq<char>>::empty());
            }
            r
        },
    }
}

/// The base URL directory inherited from the extended configs: that of the
/// last one declaring one.
pub open spec fn inherited_base(parents: Seq<TsCompilerOptions>) -> Option<Seq<char>>
    decreases parents.len(),
{
    if parents.len() == 0 {
        None
    } else if parents.last().base_dir is Some {
        opt_str(parents.last().base_dir)
    } else {
        inherited_base(parents.drop_last())
    }
}

/// The extended config whose `paths` are inherited: the last one declaring
/// them (paths are replaced wholesale, never merged).
pub open spec fn inherited_paths(parents: Seq<TsCompilerOptions>) -> Option<int>
    decreases parents.len(),
{
    if parents.len() == 0 {
        None
    } else if parents.last().paths_dir is Some {
        Some(parents.len() - 1)
    } else {
        inherited_paths(parents.drop_last())
    }
}

/// The options of a config in directory `dir` that declares `raw` itself
/// and extends configs with the options `parents`, in order: its own
/// fields override the inherited ones; its `baseUrl` and `paths` resolve
/// against `dir`.
pub fn merge_compiler_options(parents: Vec<TsCompilerOptions>, raw: RawCompilerOptions, dir: &str) -> (r: TsCompilerOptions)
    requires
        forall|i: int| 0 <= i < parents@.len() ==> (#[trigger] parents@[i]).wf(),
        raw.paths matches Some(p) ==> p.wf(),
    ensures
        r.wf(),
        opt_str(r.base_dir) == match raw.base_url {
            Some(u) => Some(join_clean_spec(dir@, u@)),
            None => inherited_base(parents@),
        },
        match raw.paths {
            Some(p) => r.paths == p && opt_str(r.paths_dir) == Some(dir@),
            None => match inherited_paths(parents@) {
                Some(i) => r.paths == parents@[i].paths && r.paths_dir == parents@[i].paths_dir,
                None => r.paths_dir is None && r.paths.keys().len() == 0,
            },
        },
{
    let ghost all = parents@;
    let mut base: Option<String> = None;
    let mut paths_from: Option<usize> = None;
    let mut i: usize = 0;
    while i < parents.len()
        invariant
            i <= parents@.len(),
            all == parents@,
            forall|x: int| 0 <= x < parents@.len() ==> (#[trigger] parents@[x]).wf(),
            opt_str(base) == inherited_base(all.take(i as int)),
            match paths_from {
                Some(j) => j < i && inherited_paths(all.take(i as int)) == Some(j as int),
                None => inherited_paths(all.take(i as int)) is None,
            },
        decreases parents.len() - i,
    {
        proof {
            assert(all.take(i + 1).drop_last() =~= all.take(i as int));
            assert(all.take(i + 1).last() == all[i as int]);
        }
        match &parents[i].base_dir {
            Some(b) => {
                base = Some(b.clone());
            },
            None => {},
        }
        if parents[i].paths_dir.is_some() {
            paths_from = Some(i);
        }
        i = i + 1;
    }
    proof {
        assert(all.take(parents@.len() as int) =~= all);
    }
    let mut merged = TsCompilerOptions::empty();
    match raw.base_url {
        Some(u) => {
            merged.base_dir = Some(join_clean(dir, u.as_str()));
        },
        None => {
            merged.base_dir = base;
        },
    }
    match raw.paths {
        Some(p) => {
            merged.paths = p;
            merged.paths_dir = Some(owned(dir));
        },
        None => {
            if let Some(j) = paths_from {
                let mut parents = parents;
                let chosen = parents.remove(j);
                merged.paths = chosen.paths;
                merged.paths_dir = chosen.paths_dir;
            }
        },
    }
    merged
}


/// Two configurations say the same: same file, same base URL, same paths.
pub open spec fn same_config(a: TsConfigPath, b: TsConfigPath) -> bool {
    &&& a.path@ == b.path@
    &&& opt_str(a.compiler_options.base_dir) == opt_str(b.compiler_options.base_dir)
    &&& opt_str(a.compiler_options.paths_dir) == opt_str(b.compiler_options.paths_dir)
    &&& a.compiler_options.paths.keys() == b.compiler_options.paths.keys()
    &&& lists_view(a.compiler_options.paths) == lists_view(b.compiler_options.paths)
}

impl TsConfigPath {
    /// An independent copy.
    pub fn copy(&self) -> (r: TsConfigPath)
        requires
            self.compiler_options.wf(),
        ensures
            same_config(r, *self),
            r.compiler_options.wf(),
    {
        TsConfigPath {
            path: self.path.clone(),
            compiler_options: TsCompilerOptions {
                base_dir: copy_opt(&self.compiler_options.base_dir),
                paths: self.compiler_options.paths.copy_lists(),
                paths_dir: copy_opt(&self.compiler_options.paths_dir),
            },
        }
    }
}

/// Directories the repository walk never enters: version control,
/// installed packages, and build and tool output.
pub open spec fn skipped_dir_spec(name: Seq<char>) -> bool {
    name == ".git"@ || name == "node_modules"@ || name == "dist"@ || name == "build"@ || name == "coverage"@
        || name == ".next"@ || name == ".turbo"@
}

/// Whether the repository walk skips a directory entry named `name`.
pub fn is_skipped_dir(name: &str) -> (r: bool)
    ensures
        r == skipped_dir_spec(name@),
{
    str_eq(name, ".git") || str_eq(name, "node_modules") || str_eq(name, "dist") || str_eq(name, "build")
        || str_eq(name, "coverage") || str_eq(name, ".next") || str_eq(name, ".turbo")
}

/// What a file found by the repository walk is to the run, by its name.
#[derive(Debug, Clone, Copy, PartialEq, Eq, Structural)]
pub enum ConfigFileKind {
    TsConfig,
    PackageJson,
    CargoManifest,
    Other,
}

pub open spec fn config_file_kind_spec(name: Seq<char>) -> ConfigFileKind {
    if name == "tsconfig.json"@ {
        ConfigFileKind::TsConfig
    } else if name == "package.json"@ {
        ConfigFileKind::PackageJson
    } else if name == "Cargo.toml"@ {
        ConfigFileKind::CargoManifest
    } else {
        ConfigFileKind::Other
    }
}

/// The kind of configuration a file named `name` holds.
pub fn config_file_kind(name: &str) -> (r: ConfigFileKind)
    ensures
        r == config_file_kind_spec(name@),
{
    if str_eq(name, "tsconfig.json") {
        ConfigFileKind::TsConfig
    } else if str_eq(name, "package.json") {
        ConfigFileKind::PackageJson
    } else if str_eq(name, "Cargo.toml") {
        ConfigFileKind::CargoManifest
    } else {
        ConfigFileKind::Other
    }
}

/// The files an `extends` specifier may name, relative to the extending
/// config's directory, in the order they are tried: the specifier itself,
/// then with `.json` appended when it lacks it.
pub open spec fn extends_file_names_spec(specifier: Seq<char>) -> Seq<Seq<char>> {
    if ends_with(specifier, ".json"@) {
        seq![specifier]
    } else {
        seq![specifier, specifier + ".json"@]
    }
}

pub fn extends_file_names(specifier: &str) -> (r: Vec<String>)
    ensures
        str_views(r@) == extends_file_names_spec(specifier@),
{
    let mut r: Vec<String> = Vec::new();
    r.push(owned(specifier));
    if !str_ends_with(specifier, ".json") {
        r.push(concat(specifier, ".json"));
    }
    proof {
        assert(str_views(r@) =~= extends_file_names_spec(specifier@));
    }
    r
}

/// The sibling configs (Nx and Vite layouts) looked at beside a
/// `tsconfig.json` whose own options declare no aliases, in order; none
/// beside one that does.
pub open spec fn sibling_tsconfig_names_spec(options: TsCompilerOptions) -> Seq<Seq<char>> {
    if options.aliased() {
        Seq::empty()
    } else {
        seq!["tsconfig.base.json"@, "tsconfig.app.json"@]
    }
}

pub fn sibling_tsconfig_names(options: &TsCompilerOptions) -> (r: Vec<String>)
    requires
        options.wf(),
    ensures
        str_views(r@) == sibling_tsconfig_names_spec(*options),
{
    let mut r: Vec<String> = Vec::new();
    if !options.has_aliases() {
        r.push(owned("tsconfig.base.json"));
        r.push(owned("tsconfig.app.json"));
    }
    proof {
        assert(str_views(r@) =~= sibling_tsconfig_names_spec(*options));
    }
    r
}

} // verus!
