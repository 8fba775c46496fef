//! Import directives resolved into the scope context of each unit.
use vstd::prelude::*;

use crate::ast::{copy_opt, opt_view, ImportDecl, SurvFile};
use crate::diagnostic::{error_finding, findings, join3, new_error, Diagnostic, Finding};
use crate::manifest::Manifest;
use crate::package::PackageAssignment;
use crate::symbol::{package_for, unit_package};
use crate::text::{same_text, split_words, words};

verus! {

/// An import that survived resolution: the imported package and its alias, if any.
#[derive(Debug, Clone)]
pub struct ImportEntry {
    pub package: String,
    pub alias: Option<String>,
}

/// What the reference resolver needs of one unit: its own package, its namespace
/// and the packages it imports, in declared order.
#[derive(Debug, Clone)]
pub struct FileImportContext {
    pub file_path: String,
    pub self_package: String,
    pub namespace: Option<String>,
    pub imports: Vec<ImportEntry>,
}

/// The package that a reference prefix names in a unit: its own package, its
/// namespace (standing for its own package), or the first import whose alias
/// or package name it is.
pub open spec fn prefix_package(ctx: FileImportContext, prefix: Seq<char>) -> Option<Seq<char>> {
    if prefix == ctx.self_package@ {
        Some(prefix)
    } else if opt_view(ctx.namespace) == Some(prefix) {
        Some(ctx.self_package@)
    } else {
        import_prefix_package(ctx.imports@, prefix, ctx.imports@.len() as int)
    }
}

/// The package of the first of the first `n` imports that `prefix` names.
pub open spec fn import_prefix_package(imports: Seq<ImportEntry>, prefix: Seq<char>, n: int) -> Option<Seq<char>>
    decreases n,
{
    if n <= 0 {
        None
    } else {
        match import_prefix_package(imports, prefix, n - 1) {
            Some(p) => Some(p),
            None => if opt_view(imports[n - 1].alias) == Some(prefix) || imports[n - 1].package@
                == prefix {
                Some(imports[n - 1].package@)
            } else {
                None
            },
        }
    }
}

/// The keyword `as`, in any ASCII case.
pub open spec fn is_as(k: Seq<char>) -> bool {
    k.len() == 2 && (k[0] == 'a' || k[0] == 'A') && (k[1] == 's' || k[1] == 'S')
}

/// What an import directive says: `<package>` or `<package> as <alias>`.
pub enum ImportSyntax {
    Plain(Seq<char>),
    Aliased(Seq<char>, Seq<char>),
    Malformed,
}

pub open spec fn import_syntax(raw: Seq<char>) -> ImportSyntax {
    let w = words(raw);
    if w.len() == 1 {
        ImportSyntax::Plain(w[0])
    } else if w.len() == 3 && is_as(w[1]) {
        ImportSyntax::Aliased(w[0], w[2])
    } else {
        ImportSyntax::Malformed
    }
}

/// Splits an import directive into its package and alias; `E_IMPORT_SYNTAX` when it
/// is neither `<package>` nor `<package> as <alias>`.
fn parse_import_entry(raw: &str) -> (r: Result<(String, Option<String>), String>)
    ensures
        match import_syntax(raw@) {
            ImportSyntax::Plain(p) => r matches Ok((q, None)) && q@ == p,
            ImportSyntax::Aliased(p, a) => r matches Ok((q, Some(b))) && q@ == p && b@ == a,
            ImportSyntax::Malformed => r matches Err(e) && e@ == "E_IMPORT_SYNTAX"@,
        },
{
    let parts = split_words(raw);
    proof {
        assert(parts@.map_values(|w: String| w@).len() == parts@.len());
    }
    if parts.len() == 1 {
        proof {
            assert(parts@.map_values(|w: String| w@)[0] == parts@[0]@);
        }
        return Ok((parts[0].clone(), None));
    }
    if parts.len() == 3 {
        let k = parts[1].as_str();
        let is_kw = k.unicode_len() == 2 && (k.get_char(0) == 'a' || k.get_char(0) == 'A') && (
        k.get_char(1) == 's' || k.get_char(1) == 'S');
        proof {
            assert(parts@.map_values(|w: String| w@)[0] == parts@[0]@);
            assert(parts@.map_values(|w: String| w@)[1] == parts@[1]@);
            assert(parts@.map_values(|w: String| w@)[2] == parts@[2]@);
        }
        if is_kw {
            return Ok((parts[0].clone(), Some(parts[2].clone())));
        }
    }
    Err(String::from_str("E_IMPORT_SYNTAX"))
}

/// The names of the manifest's packages.
pub open spec fn known_package(m: Manifest, x: Seq<char>) -> bool {
    exists|i: int| 0 <= i < m.packages@.len() && #[trigger] m.packages@[i].0@ == x
}

/// The import entries (package, alias) that the first `n` directives of a unit keep.
pub open spec fn kept_imports(m: Manifest, decls: Seq<ImportDecl>, n: int) -> Seq<(Seq<char>, Option<Seq<char>>)>
    decreases n,
{
    if n <= 0 {
        Seq::empty()
    } else {
        let d = decls[n - 1];
        kept_imports(m, decls, n - 1) + match import_syntax(d.target@) {
            ImportSyntax::Plain(p) => if m.packages@.len() > 0 && !known_package(m, p) {
                Seq::empty()
            } else {
                seq![(p, opt_view(d.alias))]
            },
            ImportSyntax::Aliased(p, a) => if m.packages@.len() > 0 && !known_package(m, p) {
                Seq::empty()
            } else {
                seq![(p, Some(a))]
            },
            ImportSyntax::Malformed => Seq::empty(),
        }
    }
}

/// The errors of the first `n` directives of the unit at `path`.
pub open spec fn import_findings(m: Manifest, path: Seq<char>, decls: Seq<ImportDecl>, n: int) -> Seq<Finding>
    decreases n,
{
    if n <= 0 {
        Seq::empty()
    } else {
        let d = decls[n - 1];
        let unknown = |p: Seq<char>| seq![
            error_finding("E_IMPORT_UNKNOWN_PACKAGE"@, "Unknown import package '"@ + p + "'"@, path),
        ];
        import_findings(m, path, decls, n - 1) + match import_syntax(d.target@) {
            ImportSyntax::Plain(p) => if m.packages@.len() > 0 && !known_package(m, p) {
                unknown(p)
            } else {
                Seq::empty()
            },
            ImportSyntax::Aliased(p, a) => if m.packages@.len() > 0 && !known_package(m, p) {
                unknown(p)
            } else {
                Seq::empty()
            },
            ImportSyntax::Malformed => seq![
                error_finding(
                    "E_IMPORT_SYNTAX"@,
                    "Invalid import syntax '"@ + d.target@ + "'"@,
                    path,
                ),
            ],
        }
    }
}

pub open spec fn entries_view(v: Seq<ImportEntry>) -> Seq<(Seq<char>, Option<Seq<char>>)> {
    v.map_values(|e: ImportEntry| (e.package@, opt_view(e.alias)))
}

/// The errors of the imports of the first `n` units.
pub open spec fn all_import_findings(m: Manifest, files: Seq<(String, SurvFile)>, n: int) -> Seq<Finding>
    decreases n,
{
    if n <= 0 {
        Seq::empty()
    } else {
        let (path, file) = files[n - 1];
        all_import_findings(m, files, n - 1) + import_findings(
            m,
            path@,
            file.imports@,
            file.imports@.len() as int,
        )
    }
}

fn is_known(m: &Manifest, x: &str) -> (r: bool)
    ensures
        r == known_package(*m, x@),
{
    let mut i: usize = 0;
    while i < m.packages.len()
        invariant
            i <= m.packages@.len(),
            forall|k: int| 0 <= k < i ==> #[trigger] m.packages@[k].0@ != x@,
        decreases m.packages@.len() - i,
    {
        if same_text(m.packages[i].0.as_str(), x) {
            return true;
        }
        i += 1;
    }
    false
}

/// Resolves the import directives of each unit into its context: its package (from
/// `assignments`, else the one it declares, else `default`), its namespace, and the
/// imports it keeps. A malformed directive is `E_IMPORT_SYNTAX`; one naming a package
/// that a manifest with packages lacks is `E_IMPORT_UNKNOWN_PACKAGE` and is dropped.
pub fn parse_imports_with_alias(
    manifest: &Manifest,
    assignments: &Vec<PackageAssignment>,
    files: &Vec<(String, SurvFile)>,
) -> (r: (Vec<FileImportContext>, Vec<Diagnostic>))
    ensures
        r.0@.len() == files@.len(),
        forall|i: int|
            0 <= i < files@.len() ==> {
                let c = #[trigger] r.0@[i];
                let (path, file) = files@[i];
                &&& c.file_path@ == path@
                &&& c.self_package@ == unit_package(assignments@, path@, file)
                &&& opt_view(c.namespace) == opt_view(file.namespace)
                &&& entries_view(c.imports@) == kept_imports(
                    *manifest,
                    file.imports@,
                    file.imports@.len() as int,
                )
            },
        findings(r.1@) == all_import_findings(*manifest, files@, files@.len() as int),
{
    let mut ctxs: Vec<FileImportContext> = Vec::new();
    let mut diags: Vec<Diagnostic> = Vec::new();
    let has_packages = manifest.packages.len() > 0;
    let mut i: usize = 0;
    proof {
        assert(findings(diags@) =~= all_import_findings(*manifest, files@, 0));
    }
    while i < files.len()
        invariant
            i <= files@.len(),
            has_packages == (manifest.packages@.len() > 0),
            ctxs@.len() == i,
            forall|q: int|
                0 <= q < i ==> {
                    let c = #[trigger] ctxs@[q];
                    let (path, file) = files@[q];
                    &&& c.file_path@ == path@
                    &&& c.self_package@ == unit_package(assignments@, path@, file)
                    &&& opt_view(c.namespace) == opt_view(file.namespace)
                    &&& entries_view(c.imports@) == kept_imports(
                        *manifest,
                        file.imports@,
                        file.imports@.len() as int,
                    )
                },
            findings(diags@) == all_import_findings(*manifest, files@, i as int),
        decreases files@.len() - i,
    {
        let path = &files[i].0;
        let file = &files[i].1;
        let self_package = package_for(assignments, path.as_str(), file);
        let mut imports: Vec<ImportEntry> = Vec::new();
        let ghost d0 = findings(diags@);
        let mut k: usize = 0;
        proof {
            assert(entries_view(imports@) =~= kept_imports(*manifest, file.imports@, 0));
            assert(findings(diags@) =~= d0 + import_findings(*manifest, path@, file.imports@, 0));
        }
        while k < file.imports.len()
            invariant
                k <= file.imports@.len(),
                has_packages == (manifest.packages@.len() > 0),
                entries_view(imports@) == kept_imports(*manifest, file.imports@, k as int),
                findings(diags@) == d0 + import_findings(*manifest, path@, file.imports@, k as int),
            decreases file.imports@.len() - k,
        {
            let raw = &file.imports[k];
            let ghost e0 = entries_view(imports@);
            let ghost f0 = findings(diags@);
            match parse_import_entry(raw.target.as_str()) {
                Ok((package, alias)) => {
                    if has_packages && !is_known(manifest, package.as_str()) {
                        let msg = join3("Unknown import package '", package.as_str(), "'");
                        let dg = new_error("E_IMPORT_UNKNOWN_PACKAGE", msg, path.clone());
                        diags.push(dg);
                        proof {
                            assert(findings(diags@) =~= f0.push(dg@));
                        }
                    } else {
                        let alias = match alias {
                            Some(a) => Some(a),
                            None => copy_opt(&raw.alias),
                        };
                        let ghost ev = (package@, opt_view(alias));
                        imports.push(ImportEntry { package, alias });
                        proof {
                            assert(entries_view(imports@) =~= e0.push(ev));
                        }
                    }
                },
                Err(_) => {
                    let msg = join3("Invalid import syntax '", raw.target.as_str(), "'");
                    let dg = new_error("E_IMPORT_SYNTAX", msg, path.clone());
                    diags.push(dg);
                    proof {
                        assert(findings(diags@) =~= f0.push(dg@));
                    }
                },
            }
            proof {
                assert(entries_view(imports@) =~= kept_imports(*manifest, file.imports@, k + 1));
                assert(findings(diags@) =~= d0 + import_findings(*manifest, path@, file.imports@, k + 1));
            }
            k += 1;
        }
        ctxs.push(
            FileImportContext {
                file_path: path.clone(),
                self_package,
                namespace: copy_opt(&file.namespace),
                imports,
            },
        );
        proof {
            assert(findings(diags@) =~= all_import_findings(*manifest, files@, i + 1));
        }
        i += 1;
    }
    (ctxs, diags)
}

} // verus!
