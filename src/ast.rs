//! The declaration tree of one Spec IR unit.
use vstd::prelude::*;

verus! {

/// An `import` directive as written: a package name, optionally with an alias.
#[derive(Debug, Clone)]
pub struct ImportDecl {
    pub target: String,
    pub alias: Option<String>,
}

/// A `require` directive: the module that every module of the unit depends on.
#[derive(Debug, Clone)]
pub struct RequireDecl {
    pub target: String,
}

#[derive(Debug, Clone)]
pub struct MetaSection {
    pub name: String,
    pub version: String,
    pub description: String,
}

/// A schema declaration. `kind` is one of `node`, `edge`, `boundary`, `space`;
/// `from`/`to` are the ends of an edge, `over` what a boundary spans.
#[derive(Debug, Clone)]
pub struct SchemaSection {
    pub name: String,
    pub kind: String,
    pub role: String,
    pub data_type: String,
    pub from: String,
    pub to: String,
    pub base: String,
    pub label: String,
    pub fields: Vec<(String, String)>,
    pub over: Vec<String>,
    pub impl_bind: Option<String>,
    pub impl_lang: Option<String>,
    pub impl_path: Option<String>,
}

/// A function declaration with the schema references it consumes and produces.
#[derive(Debug, Clone)]
pub struct FuncSection {
    pub name: String,
    pub intent: String,
    pub input: Vec<String>,
    pub output: Vec<String>,
    pub design_notes: String,
    pub impl_bind: Option<String>,
    pub impl_lang: Option<String>,
    pub impl_path: Option<String>,
}

/// A module declaration: the schemas and funcs it groups and its ordered pipeline.
#[derive(Debug, Clone)]
pub struct ModSection {
    pub name: String,
    pub purpose: String,
    pub schemas: Vec<String>,
    pub funcs: Vec<String>,
    pub pipeline: Vec<String>,
}

/// Progress bookkeeping of a unit; no checker reads it.
#[derive(Debug, Clone)]
pub struct StatusSection {
    pub name: String,
    pub updated_at: String,
}

#[derive(Debug, Clone)]
pub enum Section {
    Meta(MetaSection),
    Schema(SchemaSection),
    Func(FuncSection),
    Mod(ModSection),
    Status(StatusSection),
}

/// One parsed Spec IR unit.
#[derive(Debug, Clone)]
pub struct SurvFile {
    pub package: Option<String>,
    pub namespace: Option<String>,
    pub imports: Vec<ImportDecl>,
    pub requires: Vec<RequireDecl>,
    pub sections: Vec<Section>,
}

/// The characters of an optional string.
pub open spec fn opt_view(o: Option<String>) -> Option<Seq<char>> {
    match o {
        Some(s) => Some(s@),
        None => None,
    }
}

/// A copy of an optional string with the same characters.
pub fn copy_opt(o: &Option<String>) -> (r: Option<String>)
    ensures
        opt_view(r) == opt_view(*o),
{
    match o {
        Some(s) => Some(s.clone()),
        None => None,
    }
}

} // verus!
