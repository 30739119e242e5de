//! Reading a JavaScript or TypeScript source text with swc: the grammar the
//! file's extension asks for, and each top-level item of the module as the
//! library describes it.
use vstd::prelude::*;

use swc_common::{sync::Lrc, FileName, SourceMap};
use swc_ecma_ast::{
    AssignTarget, Decl, DefaultDecl, EsVersion, ExportSpecifier, Expr, ImportDecl, ImportSpecifier, MemberExpr, MemberProp, Module,
    ModuleDecl, ModuleExportName, ModuleItem, NamedExport, ObjectPatProp, Pat, Prop, PropName, PropOrSpread, SimpleAssignTarget,
    Stmt, Str, TsImportEqualsDecl, TsModuleRef,
};
use swc_ecma_parser::{lexer::Lexer, EsSyntax, Parser, StringInput, Syntax, TsSyntax};

use crate::js_facts::{
    syntax_for_path, syntax_spec, JsDecl, JsExportSpecifier, JsImportDecl, JsImportSpecifier, JsItem, JsNamedExport, JsPat, JsPatProp,
    ScriptSyntax,
};

verus! {

#[verifier::external_type_specification]
#[verifier::external_body]
pub struct ExSwcModule(Module);

#[verifier::external_type_specification]
#[verifier::external_body]
pub struct ExSwcModuleItem(ModuleItem);

#[verifier::external_type_specification]
#[verifier::external_body]
pub struct ExSwcModuleDecl(ModuleDecl);

#[verifier::external_type_specification]
#[verifier::external_body]
pub struct ExSwcStmt(Stmt);

#[verifier::external_type_specification]
#[verifier::external_body]
pub struct ExSwcExpr(Expr);

#[verifier::external_type_specification]
#[verifier::external_body]
pub struct ExSwcPat(Pat);

#[verifier::external_type_specification]
#[verifier::external_body]
pub struct ExSwcObjectPatProp(ObjectPatProp);

#[verifier::external_type_specification]
#[verifier::external_body]
pub struct ExSwcPropName(PropName);

#[verifier::external_type_specification]
#[verifier::external_body]
pub struct ExSwcProp(Prop);

#[verifier::external_type_specification]
#[verifier::external_body]
pub struct ExSwcPropOrSpread(PropOrSpread);

#[verifier::external_type_specification]
#[verifier::external_body]
pub struct ExSwcMemberExpr(MemberExpr);

#[verifier::external_type_specification]
#[verifier::external_body]
pub struct ExSwcStr(Str);

#[verifier::external_type_specification]
#[verifier::external_body]
pub struct ExSwcModuleExportName(ModuleExportName);

#[verifier::external_type_specification]
#[verifier::external_body]
pub struct ExSwcImportSpecifier(ImportSpecifier);

#[verifier::external_type_specification]
#[verifier::external_body]
pub struct ExSwcExportSpecifier(ExportSpecifier);

#[verifier::external_type_specification]
#[verifier::external_body]
pub struct ExSwcImportDecl(ImportDecl);

#[verifier::external_type_specification]
#[verifier::external_body]
pub struct ExSwcNamedExport(NamedExport);

#[verifier::external_type_specification]
#[verifier::external_body]
pub struct ExSwcDecl(Decl);

#[verifier::external_type_specification]
#[verifier::external_body]
pub struct ExSwcDefaultDecl(DefaultDecl);

#[verifier::external_type_specification]
#[verifier::external_body]
pub struct ExSwcTsImportEqualsDecl(TsImportEqualsDecl);

#[verifier::external_type_specification]
#[verifier::external_body]
pub struct ExSwcAssignTarget(AssignTarget);

#[verifier::external_type_specification]
#[verifier::external_body]
pub struct ExSwcSyntax(Syntax);

/// The swc grammar for a script grammar: TypeScript with or without JSX,
/// or JavaScript with JSX, decorators and `export v from`.
#[verifier::external_body]
fn swc_syntax(syntax: ScriptSyntax) -> Syntax {
    match syntax {
        ScriptSyntax::TypeScript => Syntax::Typescript(TsSyntax { tsx: false, decorators: true, ..Default::default() }),
        ScriptSyntax::Tsx => Syntax::Typescript(TsSyntax { tsx: true, decorators: true, ..Default::default() }),
        ScriptSyntax::EcmaScript => Syntax::Es(EsSyntax { jsx: true, decorators: true, export_default_from: true, ..Default::default() }),
    }
}

/// A string literal's value; nothing is stated of it.
#[verifier::external_body]
fn swc_str(value: &Str) -> String {
    value.value.to_string_lossy().to_string()
}

/// An export name, identifier or string; nothing is stated of it.
#[verifier::external_body]
fn swc_export_name(name: &ModuleExportName) -> String {
    match name {
        ModuleExportName::Ident(ident) => ident.sym.to_string(),
        ModuleExportName::Str(value) => swc_str(value),
    }
}

/// The identifier an expression is, if it is one; nothing is stated of it.
#[verifier::external_body]
fn swc_expr_ident(expr: &Expr) -> Option<String> {
    match expr {
        Expr::Ident(ident) => Some(ident.sym.to_string()),
        _ => None,
    }
}

/// An import specifier as the library's; nothing is stated of it.
#[verifier::external_body]
fn swc_import_specifier(s: &ImportSpecifier) -> JsImportSpecifier {
    match s {
        ImportSpecifier::Named(n) => JsImportSpecifier::Named {
            local: n.local.sym.to_string(),
            imported: n.imported.as_ref().map(swc_export_name),
            type_only: n.is_type_only,
        },
        ImportSpecifier::Default(d) => JsImportSpecifier::Default { local: d.local.sym.to_string() },
        ImportSpecifier::Namespace(n) => JsImportSpecifier::Namespace { local: n.local.sym.to_string() },
    }
}

/// An import declaration as the library's; nothing is stated of it.
#[verifier::external_body]
fn swc_import(d: &ImportDecl) -> JsImportDecl {
    JsImportDecl {
        source: swc_str(&d.src),
        type_only: d.type_only,
        specifiers: d.specifiers.iter().map(swc_import_specifier).collect(),
    }
}

/// An export specifier as the library's; nothing is stated of it.
#[verifier::external_body]
fn swc_export_specifier(s: &ExportSpecifier) -> JsExportSpecifier {
    match s {
        ExportSpecifier::Named(n) => JsExportSpecifier::Named {
            orig: swc_export_name(&n.orig),
            exported: n.exported.as_ref().map(swc_export_name),
        },
        ExportSpecifier::Namespace(n) => JsExportSpecifier::Namespace { name: swc_export_name(&n.name) },
        ExportSpecifier::Default(d) => JsExportSpecifier::Default { exported: d.exported.sym.to_string() },
    }
}

/// A named export as the library's; nothing is stated of it.
#[verifier::external_body]
fn swc_named_export(n: &NamedExport) -> JsNamedExport {
    JsNamedExport {
        source: n.src.as_ref().map(|s| swc_str(s)),
        specifiers: n.specifiers.iter().map(swc_export_specifier).collect(),
    }
}

/// An exported declaration as the library's; nothing is stated of it.
#[verifier::external_body]
fn swc_decl(d: &Decl) -> JsDecl {
    match d {
        Decl::Fn(f) => JsDecl::Fn(f.ident.sym.to_string()),
        Decl::Class(c) => JsDecl::Class(c.ident.sym.to_string()),
        Decl::Var(v) => JsDecl::Var(v.decls.iter().map(|d| swc_pat(&d.name)).collect()),
        _ => JsDecl::Other,
    }
}

/// The name of a default-exported class or function, if it has one;
/// nothing is stated of it.
#[verifier::external_body]
fn swc_default_decl(d: &DefaultDecl) -> Option<String> {
    match d {
        DefaultDecl::Class(c) => c.ident.as_ref().map(|i| i.sym.to_string()),
        DefaultDecl::Fn(f) => f.ident.as_ref().map(|i| i.sym.to_string()),
        _ => None,
    }
}

/// `import x = require('m')` as the library's, any other `import x = ..`
/// as `Other`; nothing is stated of it.
#[verifier::external_body]
fn swc_import_equals(d: &TsImportEqualsDecl) -> JsItem {
    match &d.module_ref {
        TsModuleRef::TsExternalModuleRef(r) => {
            JsItem::ImportEquals { source: swc_str(&r.expr), local: d.id.sym.to_string(), type_only: d.is_type_only }
        },
        _ => JsItem::Other,
    }
}

/// A module declaration as the library's; nothing is stated of it.
#[verifier::external_body]
fn swc_module_decl(d: &ModuleDecl) -> JsItem {
    match d {
        ModuleDecl::Import(i) => JsItem::Import(swc_import(i)),
        ModuleDecl::ExportDecl(e) => JsItem::ExportDecl(swc_decl(&e.decl)),
        ModuleDecl::ExportNamed(n) => JsItem::NamedExport(swc_named_export(n)),
        ModuleDecl::ExportDefaultDecl(e) => JsItem::ExportDefault(swc_default_decl(&e.decl)),
        ModuleDecl::ExportDefaultExpr(e) => JsItem::ExportDefault(swc_expr_ident(&e.expr)),
        ModuleDecl::ExportAll(a) => JsItem::ExportAll(swc_str(&a.src)),
        ModuleDecl::TsImportEquals(i) => swc_import_equals(i),
        ModuleDecl::TsExportAssignment(a) => JsItem::ExportDefault(swc_expr_ident(&a.expr)),
        _ => JsItem::Other,
    }
}

/// A top-level item as the library's; nothing is stated of it.
#[verifier::external_body]
fn swc_item(item: &ModuleItem) -> JsItem {
    match item {
        ModuleItem::ModuleDecl(d) => swc_module_decl(d),
        ModuleItem::Stmt(s) => swc_stmt(s),
    }
}

/// A statement as the library's: an expression statement assigning to a
/// member path, any other as `Other`; nothing is stated of it.
#[verifier::external_body]
fn swc_stmt(stmt: &Stmt) -> JsItem {
    match stmt {
        Stmt::Expr(e) => swc_assign(&e.expr),
        _ => JsItem::Other,
    }
}

/// An assignment to a member path as the library's, with the property
/// names of an assigned object literal; any other expression as `Other`;
/// nothing is stated of it.
#[verifier::external_body]
fn swc_assign(expr: &Expr) -> JsItem {
    match expr {
        Expr::Assign(a) => match swc_target_path(&a.left) {
            Some(path) => JsItem::Assign { path, object_props: swc_object_props(&a.right) },
            None => JsItem::Other,
        },
        _ => JsItem::Other,
    }
}

/// The member path an assignment target is, if it is one; nothing is
/// stated of it.
#[verifier::external_body]
fn swc_target_path(target: &AssignTarget) -> Option<Vec<String>> {
    match target {
        AssignTarget::Simple(SimpleAssignTarget::Member(m)) => swc_member_path(m),
        _ => None,
    }
}

/// `a.b.c` as `[a, b, c]`, when every part is a plain name; nothing is
/// stated of it.
#[verifier::external_body]
fn swc_member_path(m: &MemberExpr) -> Option<Vec<String>> {
    let prop = match &m.prop {
        MemberProp::Ident(i) => i.sym.to_string(),
        _ => return None,
    };
    let mut path = match &*m.obj {
        Expr::Ident(i) => vec![i.sym.to_string()],
        Expr::Member(p) => swc_member_path(p)?,
        _ => return None,
    };
    path.push(prop);
    Some(path)
}

/// The property names of an object literal (a spread as `None`), if the
/// expression is one; nothing is stated of it.
#[verifier::external_body]
fn swc_object_props(expr: &Expr) -> Option<Vec<Option<String>>> {
    match expr {
        Expr::Object(o) => Some(o.props.iter().map(swc_prop_or_spread).collect()),
        _ => None,
    }
}

/// A property's name, or `None` for a spread; nothing is stated of it.
#[verifier::external_body]
fn swc_prop_or_spread(p: &PropOrSpread) -> Option<String> {
    match p {
        PropOrSpread::Prop(p) => swc_prop(p),
        PropOrSpread::Spread(_) => None,
    }
}

/// A property's name, when it has a plain one; nothing is stated of it.
#[verifier::external_body]
fn swc_prop(prop: &Prop) -> Option<String> {
    match prop {
        Prop::Shorthand(i) => Some(i.sym.to_string()),
        Prop::KeyValue(k) => swc_prop_name(&k.key),
        Prop::Method(m) => swc_prop_name(&m.key),
        Prop::Getter(g) => swc_prop_name(&g.key),
        Prop::Setter(s) => swc_prop_name(&s.key),
        Prop::Assign(a) => Some(a.key.sym.to_string()),
    }
}

/// A property key's name, when it is a name, string or number; nothing is
/// stated of it.
#[verifier::external_body]
fn swc_prop_name(p: &PropName) -> Option<String> {
    match p {
        PropName::Ident(i) => Some(i.sym.to_string()),
        PropName::Str(s) => Some(swc_str(s)),
        PropName::Num(n) => Some(n.value.to_string()),
        _ => None,
    }
}

/// A binding pattern as the library's (an array hole as `Other`); nothing
/// is stated of it.
#[verifier::external_body]
fn swc_pat(pat: &Pat) -> JsPat {
    match pat {
        Pat::Ident(i) => JsPat::Ident(i.id.sym.to_string()),
        Pat::Array(a) => JsPat::Array(a.elems.iter().map(|e| e.as_ref().map_or(JsPat::Other, swc_pat)).collect()),
        Pat::Object(o) => JsPat::Object(o.props.iter().map(swc_pat_prop).collect()),
        Pat::Rest(r) => JsPat::Rest(Box::new(swc_pat(&r.arg))),
        Pat::Assign(a) => JsPat::Assign(Box::new(swc_pat(&a.left))),
        _ => JsPat::Other,
    }
}

/// An object pattern property as the library's; nothing is stated of it.
#[verifier::external_body]
fn swc_pat_prop(p: &ObjectPatProp) -> JsPatProp {
    match p {
        ObjectPatProp::Assign(a) => JsPatProp::Assign(a.key.sym.to_string()),
        ObjectPatProp::KeyValue(k) => JsPatProp::KeyValue(swc_prop_name(&k.key), swc_pat(&k.value)),
        ObjectPatProp::Rest(r) => JsPatProp::Rest(swc_pat(&r.arg)),
    }
}

/// The top-level items swc reads from a source text with a grammar, as the
/// library describes them, or `None` when it rejects the text.
pub uninterp spec fn spec_javascript_items(syntax: ScriptSyntax, source: Seq<char>) -> Option<Seq<JsItem>>;

/// Parses `source` as a module with swc's parser and the grammar `syntax`,
/// and describes each top-level item; the module is handed back too, for a
/// walk of its body. The items are named (a function of the grammar and the
/// text); the error message is not stated.
#[verifier::external_body]
fn parse_javascript_text(path: &str, source: &str, syntax: ScriptSyntax) -> (r: Result<(Vec<JsItem>, Module), String>)
    ensures
        match r {
            Ok(p) => spec_javascript_items(syntax, source@) == Some(p.0@),
            Err(_) => spec_javascript_items(syntax, source@) is None,
        },
{
    let cm: Lrc<SourceMap> = Default::default();
    let fm = cm.new_source_file(FileName::Real(std::path::PathBuf::from(path)).into(), source.to_string());
    let lexer = Lexer::new(swc_syntax(syntax), EsVersion::Es2022, StringInput::from(&*fm), None);
    match Parser::new_from(lexer).parse_module() {
        Ok(module) => Ok((module.body.iter().map(swc_item).collect(), module)),
        Err(error) => Err(format!("failed to parse module {path}: {error:?}")),
    }
}

/// Parses the script `source` of the file `path` with the grammar its
/// extension asks for: its top-level items and the module, or an error
/// exactly when swc rejects the text.
pub fn read_javascript_items(path: &str, source: &str) -> (r: Result<(Vec<JsItem>, Module), String>)
    ensures
        ({
            let syntax = syntax_spec(crate::paths::extension_spec(path@));
            match r {
                Ok(p) => spec_javascript_items(syntax, source@) == Some(p.0@),
                Err(_) => spec_javascript_items(syntax, source@) is None,
            }
        }),
{
    parse_javascript_text(path, source, syntax_for_path(path))
}

} // verus!
