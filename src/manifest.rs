//! The project manifest: the project's name, where its units live, and its packages.
use vstd::prelude::*;

verus! {

#[derive(Debug, Clone)]
pub struct ProjectSection {
    pub name: String,
}

#[derive(Debug, Clone)]
pub struct PathsSection {
    pub ir_root: String,
}

/// A package: its root directory (relative to the project root unless absolute),
/// its namespace, and the packages it depends on (advisory only).
#[derive(Debug, Clone)]
pub struct PackageSection {
    pub root: String,
    pub namespace: Option<String>,
    pub depends: Vec<String>,
}

/// The manifest; `packages` pairs each package name with its section. Where a name
/// repeats, the first entry of that name counts.
#[derive(Debug, Clone)]
pub struct Manifest {
    pub project: ProjectSection,
    pub paths: PathsSection,
    pub packages: Vec<(String, PackageSection)>,
}

} // verus!
