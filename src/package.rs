//! Assignment of each unit to the package that owns it.
use vstd::prelude::*;

use crate::ast::SurvFile;
use crate::diagnostic::{error_finding, findings, new_error, Diagnostic, Finding};
use crate::manifest::{Manifest, PackageSection};
use crate::text::{join_with, same_text, sep_list};

verus! {

/// The package that owns the unit at `file_path`.
#[derive(Debug, Clone)]
pub struct PackageAssignment {
    pub file_path: String,
    pub package: String,
}

/// The path that `std::path::Path::join` makes of `base` and `rel`.
pub uninterp spec fn path_joined(base: Seq<char>, rel: Seq<char>) -> Seq<char>;

/// Whether `std::path::Path::starts_with` finds the path `root` at the start of `path`.
pub uninterp spec fn path_under(path: Seq<char>, root: Seq<char>) -> bool;

/// Relies on `std::path::Path::join`: `rel` appended to `base`, or `rel` itself when
/// it is absolute; the result depends on the two paths alone.
#[verifier::external_body]
fn join_path(base: &str, rel: &str) -> (r: String)
    ensures
        r@ == path_joined(base@, rel@),
{
    std::path::Path::new(base).join(rel).to_string_lossy().into_owned()
}

/// Relies on `std::path::Path::starts_with`: whole components of `root` begin `path`;
/// the result depends on the two paths alone.
#[verifier::external_body]
fn starts_with_path(path: &str, root: &str) -> (r: bool)
    ensures
        r == path_under(path@, root@),
{
    std::path::Path::new(path).starts_with(root)
}

/// The root of a package: its `root` taken relative to the project root.
pub open spec fn package_root(project_root: Seq<char>, pkg: PackageSection) -> Seq<char> {
    path_joined(project_root, pkg.root@)
}

fn resolve_package_root(project_root: &str, pkg: &PackageSection) -> (r: String)
    ensures
        r@ == package_root(project_root@, *pkg),
{
    join_path(project_root, pkg.root.as_str())
}

/// The first of the first `n` packages named `x`.
pub open spec fn package_named(pkgs: Seq<(String, PackageSection)>, x: Seq<char>, n: int) -> Option<PackageSection>
    decreases n,
{
    if n <= 0 {
        None
    } else {
        match package_named(pkgs, x, n - 1) {
            Some(p) => Some(p),
            None => if pkgs[n - 1].0@ == x {
                Some(pkgs[n - 1].1)
            } else {
                None
            },
        }
    }
}

/// Names of the first `n` packages whose root holds `path`.
pub open spec fn roots_holding(
    pkgs: Seq<(String, PackageSection)>,
    project_root: Seq<char>,
    path: Seq<char>,
    n: int,
) -> Seq<Seq<char>>
    decreases n,
{
    if n <= 0 {
        Seq::empty()
    } else {
        roots_holding(pkgs, project_root, path, n - 1) + if path_under(
            path,
            package_root(project_root, pkgs[n - 1].1),
        ) {
            seq![pkgs[n - 1].0@]
        } else {
            Seq::empty()
        }
    }
}

/// How one unit is assigned: to a package, or not at all, with the error saying why.
pub enum Placement {
    Assigned(Seq<char>),
    Refused(Finding),
}

/// The placement of the unit at `path` in a manifest that declares packages.
pub open spec fn placement(m: Manifest, project_root: Seq<char>, path: Seq<char>, file: SurvFile) -> Placement {
    let pkgs = m.packages@;
    match file.package {
        Some(d) => match package_named(pkgs, d@, pkgs.len() as int) {
            Some(p) => if path_under(path, package_root(project_root, p)) {
                Placement::Assigned(d@)
            } else {
                Placement::Refused(
                    error_finding(
                        "E_PACKAGE_ROOT_MISMATCH"@,
                        "file "@ + path + " is not inside the root of package '"@ + d@ + "'"@,
                        path,
                    ),
                )
            },
            None => Placement::Refused(
                error_finding(
                    "E_PACKAGE_UNKNOWN"@,
                    "file "@ + path + " declares unknown package '"@ + d@ + "'"@,
                    path,
                ),
            ),
        },
        None => {
            let hits = roots_holding(pkgs, project_root, path, pkgs.len() as int);
            if hits.len() == 1 {
                Placement::Assigned(hits[0])
            } else if hits.len() == 0 {
                Placement::Refused(
                    error_finding(
                        "E_PACKAGE_UNASSIGNED"@,
                        "file "@ + path
                            + " does not fall under any package root and has no package header"@,
                        path,
                    ),
                )
            } else {
                Placement::Refused(
                    error_finding(
                        "E_PACKAGE_AMBIGUOUS"@,
                        "file "@ + path + " matches multiple package roots: "@ + sep_list(
                            hits,
                            ", "@,
                        ),
                        path,
                    ),
                )
            }
        },
    }
}

/// `(path, package)` of each of the first `n` units that is assigned.
pub open spec fn assigned(m: Manifest, project_root: Seq<char>, files: Seq<(String, SurvFile)>, n: int) -> Seq<
    (Seq<char>, Seq<char>),
>
    decreases n,
{
    if n <= 0 {
        Seq::empty()
    } else {
        let (path, file) = files[n - 1];
        assigned(m, project_root, files, n - 1) + if m.packages@.len() == 0 {
            seq![(path@, "default"@)]
        } else {
            match placement(m, project_root, path@, file) {
                Placement::Assigned(p) => seq![(path@, p)],
                Placement::Refused(_) => Seq::empty(),
            }
        }
    }
}

/// The error of each of the first `n` units that is not assigned.
pub open spec fn refusals(m: Manifest, project_root: Seq<char>, files: Seq<(String, SurvFile)>, n: int) -> Seq<
    Finding,
>
    decreases n,
{
    if n <= 0 {
        Seq::empty()
    } else {
        let (path, file) = files[n - 1];
        refusals(m, project_root, files, n - 1) + if m.packages@.len() == 0 {
            Seq::empty()
        } else {
            match placement(m, project_root, path@, file) {
                Placement::Assigned(_) => Seq::empty(),
                Placement::Refused(f) => seq![f],
            }
        }
    }
}

pub open spec fn assignments_view(v: Seq<PackageAssignment>) -> Seq<(Seq<char>, Seq<char>)> {
    v.map_values(|a: PackageAssignment| (a.file_path@, a.package@))
}

fn find_package<'a>(pkgs: &'a Vec<(String, PackageSection)>, x: &str) -> (r: Option<&'a PackageSection>)
    ensures
        match r {
            Some(p) => package_named(pkgs@, x@, pkgs@.len() as int) == Some(*p),
            None => package_named(pkgs@, x@, pkgs@.len() as int) == None::<PackageSection>,
        },
{
    let mut i: usize = 0;
    while i < pkgs.len()
        invariant
            i <= pkgs@.len(),
            package_named(pkgs@, x@, i as int) == None::<PackageSection>,
        decreases pkgs@.len() - i,
    {
        if same_text(pkgs[i].0.as_str(), x) {
            proof {
                lemma_package_named_stays(pkgs@, x@, i + 1, pkgs@.len() as int);
            }
            return Some(&pkgs[i].1);
        }
        i += 1;
    }
    None
}

proof fn lemma_package_named_stays(pkgs: Seq<(String, PackageSection)>, x: Seq<char>, n: int, n2: int)
    requires
        n <= n2,
        package_named(pkgs, x, n) is Some,
    ensures
        package_named(pkgs, x, n2) == package_named(pkgs, x, n),
    decreases n2 - n,
{
    if n2 > n {
        lemma_package_named_stays(pkgs, x, n, n2 - 1);
    }
}

fn holding_roots(pkgs: &Vec<(String, PackageSection)>, project_root: &str, path: &str) -> (r: Vec<String>)
    ensures
        r@.map_values(|s: String| s@) == roots_holding(pkgs@, project_root@, path@, pkgs@.len() as int),
{
    let mut r: Vec<String> = Vec::new();
    let mut i: usize = 0;
    proof {
        assert(r@.map_values(|s: String| s@) =~= roots_holding(pkgs@, project_root@, path@, 0));
    }
    while i < pkgs.len()
        invariant
            i <= pkgs@.len(),
            r@.map_values(|s: String| s@) == roots_holding(pkgs@, project_root@, path@, i as int),
        decreases pkgs@.len() - i,
    {
        let root = resolve_package_root(project_root, &pkgs[i].1);
        if starts_with_path(path, root.as_str()) {
            r.push(pkgs[i].0.clone());
        }
        proof {
            assert(r@.map_values(|s: String| s@) =~= roots_holding(pkgs@, project_root@, path@, i + 1));
        }
        i += 1;
    }
    r
}

/// Assigns each unit to its package: every unit to `default` when the manifest
/// declares no package; otherwise a unit declaring a package gets it when the package
/// exists and its root holds the unit, and a unit declaring none gets the one package
/// whose root holds it. Every other unit is refused with one error saying why.
pub fn assign_packages_to_files(
    manifest: &Manifest,
    project_root: &str,
    files: &Vec<(String, SurvFile)>,
) -> (r: (Vec<PackageAssignment>, Vec<Diagnostic>))
    ensures
        assignments_view(r.0@) == assigned(*manifest, project_root@, files@, files@.len() as int),
        findings(r.1@) == refusals(*manifest, project_root@, files@, files@.len() as int),
{
    let mut out: Vec<PackageAssignment> = Vec::new();
    let mut diags: Vec<Diagnostic> = Vec::new();
    let pkgs = &manifest.packages;
    let mut i: usize = 0;
    proof {
        assert(assignments_view(out@) =~= assigned(*manifest, project_root@, files@, 0));
        assert(findings(diags@) =~= refusals(*manifest, project_root@, files@, 0));
    }
    while i < files.len()
        invariant
            i <= files@.len(),
            pkgs == &manifest.packages,
            assignments_view(out@) == assigned(*manifest, project_root@, files@, i as int),
            findings(diags@) == refusals(*manifest, project_root@, files@, i as int),
        decreases files@.len() - i,
    {
        let path = &files[i].0;
        let file = &files[i].1;
        let ghost a0 = assignments_view(out@);
        let ghost f0 = findings(diags@);
        if pkgs.len() == 0 {
            out.push(PackageAssignment { file_path: path.clone(), package: String::from_str("default") });
            proof {
                assert(assignments_view(out@) =~= a0.push((path@, "default"@)));
            }
        } else {
            match &file.package {
                Some(d) => {
                    match find_package(pkgs, d.as_str()) {
                        Some(p) => {
                            let root = resolve_package_root(project_root, p);
                            if starts_with_path(path.as_str(), root.as_str()) {
                                out.push(PackageAssignment { file_path: path.clone(), package: d.clone() });
                                proof {
                                    assert(assignments_view(out@) =~= a0.push((path@, d@)));
                                }
                            } else {
                                let mut msg = String::from_str("file ");
                                msg.append(path.as_str());
                                msg.append(" is not inside the root of package '");
                                msg.append(d.as_str());
                                msg.append("'");
                                diags.push(new_error("E_PACKAGE_ROOT_MISMATCH", msg, path.clone()));
                            }
                        },
                        None => {
                            let mut msg = String::from_str("file ");
                            msg.append(path.as_str());
                            msg.append(" declares unknown package '");
                            msg.append(d.as_str());
                            msg.append("'");
                            diags.push(new_error("E_PACKAGE_UNKNOWN", msg, path.clone()));
                        },
                    }
                },
                None => {
                    let hits = holding_roots(pkgs, project_root, path.as_str());
                    if hits.len() == 1 {
                        out.push(PackageAssignment { file_path: path.clone(), package: hits[0].clone() });
                        proof {
                            assert(assignments_view(out@) =~= a0.push((path@, hits@[0]@)));
                        }
                    } else if hits.len() == 0 {
                        let mut msg = String::from_str("file ");
                        msg.append(path.as_str());
                        msg.append(" does not fall under any package root and has no package header");
                        diags.push(new_error("E_PACKAGE_UNASSIGNED", msg, path.clone()));
                    } else {
                        let mut msg = String::from_str("file ");
                        msg.append(path.as_str());
                        msg.append(" matches multiple package roots: ");
                        let list = join_with(&hits, ", ");
                        msg.append(list.as_str());
                        diags.push(new_error("E_PACKAGE_AMBIGUOUS", msg, path.clone()));
                    }
                },
            }
        }
        proof {
            assert(assignments_view(out@) =~= assigned(*manifest, project_root@, files@, i + 1));
            assert(findings(diags@) =~= refusals(*manifest, project_root@, files@, i + 1));
        }
        i += 1;
    }
    (out, diags)
}

} // verus!
