//! What parsing one source file yields: its exports, imports and re-exports,
//! and which imported bindings its body actually uses.
use vstd::prelude::*;

use crate::collections::{set_map_is_wf, set_map_wf, StrMap, StrSet};

verus! {

#[derive(Debug)]
pub struct ModuleFacts {
    pub file: String,
    pub exports: Vec<ExportFact>,
    pub imports: Vec<ImportFact>,
    pub reexports: Vec<ReexportFact>,
    pub used_locals: StrSet,
    pub jsx_locals: StrSet,
    pub namespace_member_usage: StrMap<StrSet>,
    pub jsx_namespace_member_usage: StrMap<StrSet>,
    pub warnings: Vec<String>,
}

impl ModuleFacts {
    pub open spec fn wf(&self) -> bool {
        &&& self.used_locals.wf()
        &&& self.jsx_locals.wf()
        &&& set_map_wf(&self.namespace_member_usage)
        &&& set_map_wf(&self.jsx_namespace_member_usage)
    }

    /// Whether the facts are well formed.
    pub fn is_wf(&self) -> (r: bool)
        ensures
            r == self.wf(),
    {
        self.used_locals.is_wf() && self.jsx_locals.is_wf() && set_map_is_wf(&self.namespace_member_usage)
            && set_map_is_wf(&self.jsx_namespace_member_usage)
    }

    /// Facts of a file that exports, imports and uses nothing.
    pub fn empty(file: String) -> (r: ModuleFacts)
        ensures
            r.wf(),
            r.file == file,
            r.exports@.len() == 0,
            r.imports@.len() == 0,
            r.reexports@.len() == 0,
            r.used_locals@.len() == 0,
            r.jsx_locals@.len() == 0,
            r.namespace_member_usage.keys().len() == 0,
            r.jsx_namespace_member_usage.keys().len() == 0,
            r.warnings@.len() == 0,
    {
        let r = ModuleFacts {
            file,
            exports: Vec::new(),
            imports: Vec::new(),
            reexports: Vec::new(),
            used_locals: StrSet::new(),
            jsx_locals: StrSet::new(),
            namespace_member_usage: StrMap::new(),
            jsx_namespace_member_usage: StrMap::new(),
            warnings: Vec::new(),
        };
        proof {
            assert(set_map_wf(&r.namespace_member_usage));
            assert(set_map_wf(&r.jsx_namespace_member_usage));
        }
        r
    }
}

#[derive(Debug)]
pub struct ExportFact {
    pub exported: String,
    pub local: Option<String>,
    pub kind: ExportKind,
}

#[derive(Debug, Clone, Copy, PartialEq, Eq, Structural)]
pub enum ExportKind {
    Local,
    Default,
    Reexport,
    CommonJs,
}

#[derive(Debug)]
pub struct ImportFact {
    pub source: String,
    pub local: String,
    pub imported: ImportTarget,
    pub kind: ImportKind,
    pub type_only: bool,
}

#[derive(Debug)]
pub enum ImportTarget {
    Name(String),
    Default,
    Namespace,
    /// The whole module, evaluated for its effects (`import './x'`, a bare
    /// `require('./x')`, a test runner's mock of the module).
    SideEffect,
}

#[derive(Debug, Clone, Copy, PartialEq, Eq, Structural)]
pub enum ImportKind {
    Esm,
    CommonJs,
    /// A dynamic `import("...")` call, e.g. a lazy route or code-split component.
    Dynamic,
    /// A test runner's `vi.mock(...)` / `jest.mock(...)` of the module.
    Mock,
}

#[derive(Debug)]
pub struct ReexportFact {
    pub source: String,
    pub imported: ReexportTarget,
    pub exported: String,
    pub is_ambiguous: bool,
}

#[derive(Debug)]
pub enum ReexportTarget {
    Name(String),
    Default,
    Namespace,
    All,
}

} // verus!
