//! The symbol table: every declared schema, func and module, keyed by
//! (kind, package, namespace, local name), with duplicates kept and reported.
use vstd::prelude::*;

use crate::ast::{copy_opt, opt_view, Section, SurvFile};
use crate::diagnostic::{findings, new_warning, warning_finding, Diagnostic, Finding};
use crate::package::PackageAssignment;
use crate::project::ProjectAST;

verus! {

#[derive(Debug, Clone, Copy, PartialEq, Eq, Structural, Hash)]
pub enum SymbolKind {
    Schema,
    Func,
    Mod,
}

/// One declared symbol with its fully-qualified name and the unit that declares it.
#[derive(Debug, Clone)]
pub struct SymbolEntry {
    pub kind: SymbolKind,
    pub package: String,
    pub fq_name: String,
    pub local_name: String,
    pub namespace: Option<String>,
    pub file: String,
}

/// The mathematical value of a [`SymbolEntry`].
pub struct SymbolView {
    pub kind: SymbolKind,
    pub package: Seq<char>,
    pub fq_name: Seq<char>,
    pub local_name: Seq<char>,
    pub namespace: Option<Seq<char>>,
    pub file: Seq<char>,
}

impl View for SymbolEntry {
    type V = SymbolView;

    open spec fn view(&self) -> SymbolView {
        SymbolView {
            kind: self.kind,
            package: self.package@,
            fq_name: self.fq_name@,
            local_name: self.local_name@,
            namespace: opt_view(self.namespace),
            file: self.file@,
        }
    }
}

/// All symbols of a project, in declaration order; colliding entries are all kept.
#[derive(Debug, Clone)]
pub struct SymbolTable {
    pub entries: Vec<SymbolEntry>,
}

impl SymbolTable {
    pub fn new(entries: Vec<SymbolEntry>) -> (r: SymbolTable)
        ensures
            r.entries@ == entries@,
    {
        SymbolTable { entries }
    }

    /// The values of the entries, in order.
    pub open spec fn views(&self) -> Seq<SymbolView> {
        self.entries@.map_values(|e: SymbolEntry| e@)
    }
}

/// The tag that names a kind in references and fully-qualified names.
pub open spec fn kind_tag(k: SymbolKind) -> Seq<char> {
    match k {
        SymbolKind::Schema => "schema"@,
        SymbolKind::Func => "func"@,
        SymbolKind::Mod => "mod"@,
    }
}

pub fn kind_tag_str(k: SymbolKind) -> (r: &'static str)
    ensures
        r@ == kind_tag(k),
{
    match k {
        SymbolKind::Schema => "schema",
        SymbolKind::Func => "func",
        SymbolKind::Mod => "mod",
    }
}

/// `pkg.<package>.<kind>.<namespace or "global">.<local name>`.
pub open spec fn fq_name(
    kind: SymbolKind,
    package: Seq<char>,
    namespace: Option<Seq<char>>,
    local: Seq<char>,
) -> Seq<char> {
    let ns = match namespace {
        Some(n) => n,
        None => "global"@,
    };
    "pkg."@ + package + "."@ + kind_tag(kind) + "."@ + ns + "."@ + local
}

fn build_fq_name(kind: SymbolKind, package: &str, namespace: &Option<String>, local: &str) -> (r:
    String)
    ensures
        r@ == fq_name(kind, package@, opt_view(*namespace), local@),
{
    let mut r = String::from_str("pkg.");
    r.append(package);
    r.append(".");
    r.append(kind_tag_str(kind));
    r.append(".");
    match namespace {
        Some(n) => r.append(n.as_str()),
        None => r.append("global"),
    }
    r.append(".");
    r.append(local);
    r
}

/// The entry that a declaration of `kind` named `local` in a unit yields.
pub open spec fn entry_view(
    kind: SymbolKind,
    package: Seq<char>,
    namespace: Option<Seq<char>>,
    local: Seq<char>,
    file: Seq<char>,
) -> SymbolView {
    SymbolView {
        kind,
        package,
        fq_name: fq_name(kind, package, namespace, local),
        local_name: local,
        namespace,
        file,
    }
}

fn make_entry(
    kind: SymbolKind,
    package: &str,
    namespace: &Option<String>,
    local: &String,
    path: &str,
) -> (r: SymbolEntry)
    ensures
        r@ == entry_view(kind, package@, opt_view(*namespace), local@, path@),
{
    SymbolEntry {
        kind,
        package: String::from_str(package),
        fq_name: build_fq_name(kind, package, namespace, local.as_str()),
        local_name: local.clone(),
        namespace: copy_opt(namespace),
        file: String::from_str(path),
    }
}

/// The entry that a section declares, if it declares a symbol.
pub open spec fn section_entry(
    path: Seq<char>,
    package: Seq<char>,
    namespace: Option<Seq<char>>,
    sec: Section,
) -> Option<SymbolView> {
    match sec {
        Section::Schema(s) => Some(entry_view(SymbolKind::Schema, package, namespace, s.name@, path)),
        Section::Func(f) => Some(entry_view(SymbolKind::Func, package, namespace, f.name@, path)),
        Section::Mod(m) => Some(entry_view(SymbolKind::Mod, package, namespace, m.name@, path)),
        _ => None,
    }
}

/// The entries that the first `n` sections of a unit declare.
pub open spec fn unit_entries(
    path: Seq<char>,
    package: Seq<char>,
    namespace: Option<Seq<char>>,
    secs: Seq<Section>,
    n: int,
) -> Seq<SymbolView>
    decreases n,
{
    if n <= 0 {
        Seq::empty()
    } else {
        let prev = unit_entries(path, package, namespace, secs, n - 1);
        match section_entry(path, package, namespace, secs[n - 1]) {
            Some(e) => prev.push(e),
            None => prev,
        }
    }
}

/// The package of the first assignment of the first `n` for `path`.
pub open spec fn assignment_of(assigns: Seq<PackageAssignment>, path: Seq<char>, n: int) -> Option<
    Seq<char>,
>
    decreases n,
{
    if n <= 0 {
        None
    } else {
        match assignment_of(assigns, path, n - 1) {
            Some(p) => Some(p),
            None => if assigns[n - 1].file_path@ == path {
                Some(assigns[n - 1].package@)
            } else {
                None
            },
        }
    }
}

/// The package a unit belongs to: its assignment, else the package it declares, else `default`.
pub open spec fn unit_package(assigns: Seq<PackageAssignment>, path: Seq<char>, file: SurvFile) -> Seq<
    char,
> {
    match assignment_of(assigns, path, assigns.len() as int) {
        Some(p) => p,
        None => match file.package {
            Some(p) => p@,
            None => "default"@,
        },
    }
}

/// The entries that the first `n` units declare, in order.
pub open spec fn table_entries(
    files: Seq<(String, SurvFile)>,
    assigns: Seq<PackageAssignment>,
    n: int,
) -> Seq<SymbolView>
    decreases n,
{
    if n <= 0 {
        Seq::empty()
    } else {
        let (path, file) = files[n - 1];
        table_entries(files, assigns, n - 1) + unit_entries(
            path@,
            unit_package(assigns, path@, file),
            opt_view(file.namespace),
            file.sections@,
            file.sections@.len() as int,
        )
    }
}

pub open spec fn same_key(a: SymbolView, b: SymbolView) -> bool {
    a.kind == b.kind && a.package == b.package && a.namespace == b.namespace && a.local_name
        == b.local_name
}

/// The first of the first `m` entries with the key of entry `j`.
pub open spec fn first_same_key(es: Seq<SymbolView>, j: int, m: int) -> Option<int>
    decreases m,
{
    if m <= 0 {
        None
    } else {
        match first_same_key(es, j, m - 1) {
            Some(i) => Some(i),
            None => if same_key(es[m - 1], es[j]) {
                Some(m - 1)
            } else {
                None
            },
        }
    }
}

/// The warning for entry `j` whose key the entry `i` declared first.
pub open spec fn duplicate_finding(first: SymbolView, e: SymbolView) -> Finding {
    warning_finding(
        "W_AMBIGUOUS_NAME"@,
        "Symbol '"@ + e.fq_name + "' is defined in both "@ + first.file + " and "@ + e.file,
        e.file,
    )
}

/// One warning for each of the first `n` entries whose key an earlier entry holds.
pub open spec fn duplicate_findings(es: Seq<SymbolView>, n: int) -> Seq<Finding>
    decreases n,
{
    if n <= 0 {
        Seq::empty()
    } else {
        let prev = duplicate_findings(es, n - 1);
        match first_same_key(es, n - 1, n - 1) {
            Some(i) => prev.push(duplicate_finding(es[i], es[n - 1])),
            None => prev,
        }
    }
}

fn same_opt(a: &Option<String>, b: &Option<String>) -> (r: bool)
    ensures
        r == (opt_view(*a) == opt_view(*b)),
{
    match (a, b) {
        (Some(x), Some(y)) => *x == *y,
        (None, None) => true,
        _ => false,
    }
}

fn same_key_exec(a: &SymbolEntry, b: &SymbolEntry) -> (r: bool)
    ensures
        r == same_key(a@, b@),
{
    a.kind == b.kind && a.package == b.package && same_opt(&a.namespace, &b.namespace)
        && a.local_name == b.local_name
}

/// The first entry of `entries` with the key of `entry`.
fn find_same_key(entries: &Vec<SymbolEntry>, entry: &SymbolEntry) -> (r: Option<usize>)
    ensures
        ({
            let es1 = entries@.map_values(|e: SymbolEntry| e@).push(entry@);
            let n = entries@.len() as int;
            match r {
                Some(k) => k < n && first_same_key(es1, n, n) == Some(k as int),
                None => first_same_key(es1, n, n) == None::<int>,
            }
        }),
{
    let ghost es1 = entries@.map_values(|e: SymbolEntry| e@).push(entry@);
    let ghost n = entries@.len() as int;
    let mut i: usize = 0;
    while i < entries.len()
        invariant
            i <= entries@.len(),
            entries@.len() == n,
            es1 == entries@.map_values(|e: SymbolEntry| e@).push(entry@),
            first_same_key(es1, n, i as int) == None::<int>,
        decreases entries@.len() - i,
    {
        proof {
            assert(es1[i as int] == entries@[i as int]@);
            assert(es1[n] == entry@);
        }
        if same_key_exec(&entries[i], entry) {
            proof {
                lemma_first_same_key_stable(es1, n, i + 1, n);
            }
            return Some(i);
        }
        i += 1;
    }
    None
}

/// Appends `entry` to `entries`, first reporting it when an earlier entry has its key.
fn add_entry(entries: &mut Vec<SymbolEntry>, diags: &mut Vec<Diagnostic>, entry: SymbolEntry)
    requires
        findings(old(diags)@) == duplicate_findings(
            old(entries)@.map_values(|e: SymbolEntry| e@),
            old(entries)@.len() as int,
        ),
    ensures
        final(entries)@ == old(entries)@.push(entry),
        findings(final(diags)@) == duplicate_findings(
            final(entries)@.map_values(|e: SymbolEntry| e@),
            final(entries)@.len() as int,
        ),
{
    let ghost es0 = entries@.map_values(|e: SymbolEntry| e@);
    let ghost n = entries@.len() as int;
    let ghost es1 = es0.push(entry@);
    let found = find_same_key(entries, &entry);
    proof {
        lemma_duplicate_findings_prefix(es0, es1, n);
    }
    match found {
        Some(k) => {
            let mut msg = String::from_str("Symbol '");
            msg.append(entry.fq_name.as_str());
            msg.append("' is defined in both ");
            msg.append(entries[k].file.as_str());
            msg.append(" and ");
            msg.append(entry.file.as_str());
            let d = new_warning("W_AMBIGUOUS_NAME", msg, entry.file.clone());
            diags.push(d);
            proof {
                assert(es1[k as int] == entries@[k as int]@);
                assert(es1[n] == entry@);
            }
        },
        None => {},
    }
    entries.push(entry);
    proof {
        assert(entries@.map_values(|e: SymbolEntry| e@) =~= es1);
        assert(findings(diags@) =~= duplicate_findings(es1, n + 1));
    }
}

proof fn lemma_first_same_key_stable(es: Seq<SymbolView>, j: int, m: int, m2: int)
    requires
        m <= m2,
        first_same_key(es, j, m) is Some,
    ensures
        first_same_key(es, j, m2) == first_same_key(es, j, m),
    decreases m2 - m,
{
    if m2 > m {
        lemma_first_same_key_stable(es, j, m, m2 - 1);
    }
}

proof fn lemma_first_same_key_prefix(es0: Seq<SymbolView>, es1: Seq<SymbolView>, j: int, m: int)
    requires
        0 <= j < es0.len(),
        m <= es0.len(),
        es0.len() <= es1.len(),
        forall|k: int| 0 <= k < es0.len() ==> es0[k] == es1[k],
    ensures
        first_same_key(es0, j, m) == first_same_key(es1, j, m),
        match first_same_key(es0, j, m) {
            Some(i) => 0 <= i < m,
            None => true,
        },
    decreases m,
{
    if m > 0 {
        lemma_first_same_key_prefix(es0, es1, j, m - 1);
    }
}

proof fn lemma_duplicate_findings_prefix(es0: Seq<SymbolView>, es1: Seq<SymbolView>, m: int)
    requires
        m <= es0.len(),
        es0.len() <= es1.len(),
        forall|k: int| 0 <= k < es0.len() ==> es0[k] == es1[k],
    ensures
        duplicate_findings(es0, m) == duplicate_findings(es1, m),
    decreases m,
{
    if m > 0 {
        lemma_duplicate_findings_prefix(es0, es1, m - 1);
        lemma_first_same_key_prefix(es0, es1, m - 1, m - 1);
        assert(es0[m - 1] == es1[m - 1]);
    }
}

fn assignment_for<'a>(assigns: &'a Vec<PackageAssignment>, path: &str) -> (r: Option<&'a String>)
    ensures
        match r {
            Some(p) => assignment_of(assigns@, path@, assigns@.len() as int) == Some(p@),
            None => assignment_of(assigns@, path@, assigns@.len() as int) == None::<Seq<char>>,
        },
{
    let mut i: usize = 0;
    while i < assigns.len()
        invariant
            i <= assigns@.len(),
            assignment_of(assigns@, path@, i as int) == None::<Seq<char>>,
        decreases assigns@.len() - i,
    {
        if crate::text::same_text(assigns[i].file_path.as_str(), path) {
            proof {
                lemma_assignment_stable(assigns@, path@, i + 1, assigns@.len() as int);
            }
            return Some(&assigns[i].package);
        }
        i += 1;
    }
    None
}

proof fn lemma_assignment_stable(assigns: Seq<PackageAssignment>, path: Seq<char>, m: int, m2: int)
    requires
        m <= m2,
        assignment_of(assigns, path, m) is Some,
    ensures
        assignment_of(assigns, path, m2) == assignment_of(assigns, path, m),
    decreases m2 - m,
{
    if m2 > m {
        lemma_assignment_stable(assigns, path, m, m2 - 1);
    }
}

/// The package that owns the unit at `path`.
pub fn package_for(assigns: &Vec<PackageAssignment>, path: &str, file: &SurvFile) -> (r: String)
    ensures
        r@ == unit_package(assigns@, path@, *file),
{
    match assignment_for(assigns, path) {
        Some(p) => p.clone(),
        None => match &file.package {
            Some(p) => p.clone(),
            None => String::from_str("default"),
        },
    }
}

/// Builds the symbol table of `files`, each unit in the package that `assignments`
/// gives it (else the package it declares, else `default`). Every declaration becomes
/// an entry, in order; each one whose key an earlier entry holds is also reported
/// once as `W_AMBIGUOUS_NAME`.
pub fn build_symbol_table_with_packages(
    files: &Vec<(String, SurvFile)>,
    assignments: &Vec<PackageAssignment>,
) -> (r: (SymbolTable, Vec<Diagnostic>))
    ensures
        r.0.views() == table_entries(files@, assignments@, files@.len() as int),
        findings(r.1@) == duplicate_findings(r.0.views(), r.0.entries@.len() as int),
{
    let mut entries: Vec<SymbolEntry> = Vec::new();
    let mut diags: Vec<Diagnostic> = Vec::new();
    let mut i: usize = 0;
    proof {
        assert(entries@.map_values(|e: SymbolEntry| e@) =~= Seq::<SymbolView>::empty());
        assert(findings(diags@) =~= Seq::<Finding>::empty());
    }
    while i < files.len()
        invariant
            i <= files@.len(),
            entries@.map_values(|e: SymbolEntry| e@) == table_entries(
                files@,
                assignments@,
                i as int,
            ),
            findings(diags@) == duplicate_findings(
                entries@.map_values(|e: SymbolEntry| e@),
                entries@.len() as int,
            ),
        decreases files@.len() - i,
    {
        let path = files[i].0.as_str();
        let file = &files[i].1;
        let package = package_for(assignments, path, file);
        let ghost base = entries@.map_values(|e: SymbolEntry| e@);
        let ghost ns = opt_view(file.namespace);
        let mut j: usize = 0;
        proof {
            assert(base + unit_entries(path@, package@, ns, file.sections@, 0) =~= base);
        }
        while j < file.sections.len()
            invariant
                j <= file.sections@.len(),
                file == &files@[i as int].1,
                path@ == files@[i as int].0@,
                entries@.map_values(|e: SymbolEntry| e@) == base + unit_entries(
                    path@,
                    package@,
                    ns,
                    file.sections@,
                    j as int,
                ),
                ns == opt_view(file.namespace),
                findings(diags@) == duplicate_findings(
                    entries@.map_values(|e: SymbolEntry| e@),
                    entries@.len() as int,
                ),
            decreases file.sections@.len() - j,
        {
            let ghost before = entries@.map_values(|e: SymbolEntry| e@);
            match &file.sections[j] {
                Section::Schema(sc) => {
                    let e = make_entry(SymbolKind::Schema, package.as_str(), &file.namespace, &sc.name, path);
                    let ghost ev = e@;
                    add_entry(&mut entries, &mut diags, e);
                    proof {
                        assert(entries@.map_values(|e: SymbolEntry| e@) =~= before.push(ev));
                    }
                },
                Section::Func(f) => {
                    let e = make_entry(SymbolKind::Func, package.as_str(), &file.namespace, &f.name, path);
                    let ghost ev = e@;
                    add_entry(&mut entries, &mut diags, e);
                    proof {
                        assert(entries@.map_values(|e: SymbolEntry| e@) =~= before.push(ev));
                    }
                },
                Section::Mod(m) => {
                    let e = make_entry(SymbolKind::Mod, package.as_str(), &file.namespace, &m.name, path);
                    let ghost ev = e@;
                    add_entry(&mut entries, &mut diags, e);
                    proof {
                        assert(entries@.map_values(|e: SymbolEntry| e@) =~= before.push(ev));
                    }
                },
                _ => {},
            }
            proof {
                assert(entries@.map_values(|e: SymbolEntry| e@) =~= base + unit_entries(
                    path@,
                    package@,
                    ns,
                    file.sections@,
                    j + 1,
                ));
            }
            j += 1;
        }
        proof {
            assert(file.sections@.len() == j);
        }
        i += 1;
    }
    let table = SymbolTable::new(entries);
    (table, diags)
}

/// Builds the symbol table of a project, each unit in the package it declares
/// (else `default`).
pub fn build_symbol_table(project: &ProjectAST) -> (r: (SymbolTable, Vec<Diagnostic>))
    ensures
        r.0.views() == table_entries(project.files@, Seq::empty(), project.files@.len() as int),
        findings(r.1@) == duplicate_findings(r.0.views(), r.0.entries@.len() as int),
{
    let none: Vec<PackageAssignment> = Vec::new();
    proof {
        assert(none@ =~= Seq::<PackageAssignment>::empty());
    }
    build_symbol_table_with_packages(&project.files, &none)
}

} // verus!
