//! The reference resolver: turns a textual reference into the symbol-table entries
//! it names, under the scoping rules of a unit's import context.
use vstd::prelude::*;

use crate::ast::{opt_view, Section, SurvFile};
use crate::project::ProjectAST;
use crate::diagnostic::{error_finding, findings, new_error, new_warning, warning_finding, Diagnostic, Finding};
use crate::imports::{import_prefix_package, prefix_package, FileImportContext, ImportEntry};
use crate::diagnostic::count_kind;
use crate::symbol::{
    duplicate_finding, duplicate_findings, first_same_key, kind_tag, kind_tag_str, same_key, SymbolEntry,
    SymbolKind, SymbolTable, SymbolView,
};
use crate::text::{after_dot, after_dot_text, find_char, first_pos, same_text, trim_text, trimmed};

verus! {

/// A lookup accepts an entry of the kind and local name asked for, in the package
/// asked for (any package when `None`) and the namespace asked for (any when `None`).
pub open spec fn accepts(
    e: SymbolView,
    kind: SymbolKind,
    package: Option<Seq<char>>,
    namespace: Option<Option<Seq<char>>>,
    local: Seq<char>,
) -> bool {
    &&& e.kind == kind
    &&& e.local_name == local
    &&& match package {
        Some(p) => e.package == p,
        None => true,
    }
    &&& match namespace {
        Some(n) => e.namespace == n,
        None => true,
    }
}

/// Positions, in order, of the first `n` entries that the lookup accepts.
pub open spec fn picked(
    es: Seq<SymbolView>,
    kind: SymbolKind,
    package: Option<Seq<char>>,
    namespace: Option<Option<Seq<char>>>,
    local: Seq<char>,
    n: int,
) -> Seq<usize>
    decreases n,
{
    if n <= 0 {
        Seq::empty()
    } else {
        let prev = picked(es, kind, package, namespace, local, n - 1);
        if accepts(es[n - 1], kind, package, namespace, local) {
            prev.push((n - 1) as usize)
        } else {
            prev
        }
    }
}

/// Positions, in order, of all entries that the lookup accepts.
pub open spec fn lookup(
    es: Seq<SymbolView>,
    kind: SymbolKind,
    package: Option<Seq<char>>,
    namespace: Option<Option<Seq<char>>>,
    local: Seq<char>,
) -> Seq<usize> {
    picked(es, kind, package, namespace, local, es.len() as int)
}

/// Entries of `package`, those in `namespace` when there are any, else all of them.
pub open spec fn lookup_preferring(
    es: Seq<SymbolView>,
    kind: SymbolKind,
    package: Seq<char>,
    namespace: Option<Seq<char>>,
    local: Seq<char>,
) -> Seq<usize> {
    let all = lookup(es, kind, Some(package), None, local);
    match namespace {
        Some(n) => {
            let exact = lookup(es, kind, Some(package), Some(Some(n)), local);
            if exact.len() > 0 {
                exact
            } else {
                all
            }
        },
        None => all,
    }
}

/// State of the walk over a unit's imports.
pub enum ImportScan {
    /// An import held several matches: resolution stops with them.
    Halted(Seq<usize>),
    /// The single matches of the imports walked so far.
    Singles(Seq<usize>),
}

/// The walk over the first `n` imports.
pub open spec fn import_scan(
    es: Seq<SymbolView>,
    kind: SymbolKind,
    imports: Seq<ImportEntry>,
    local: Seq<char>,
    n: int,
) -> ImportScan
    decreases n,
{
    if n <= 0 {
        ImportScan::Singles(Seq::empty())
    } else {
        match import_scan(es, kind, imports, local, n - 1) {
            ImportScan::Halted(c) => ImportScan::Halted(c),
            ImportScan::Singles(m) => {
                let found = lookup(es, kind, Some(imports[n - 1].package@), None, local);
                if found.len() == 1 {
                    ImportScan::Singles(m.push(found[0]))
                } else if found.len() > 1 {
                    ImportScan::Halted(found)
                } else {
                    ImportScan::Singles(m)
                }
            },
        }
    }
}

/// The outcome of resolving one reference.
pub enum Resolution {
    /// The reference is empty: nothing to resolve.
    Skipped,
    /// The package prefix names no package visible from the unit.
    UnknownPrefix(Seq<char>),
    /// No rule found a candidate.
    Missing,
    /// The candidates of the first rule that found any (ambiguous when two or more).
    Matched(Seq<usize>),
}

/// Rules 2 to 4: the unit's own package and namespace, then its imports, then everything.
pub open spec fn unprefixed_resolution(
    es: Seq<SymbolView>,
    kind: SymbolKind,
    ctx: FileImportContext,
    local: Seq<char>,
) -> Resolution {
    let own = lookup(es, kind, Some(ctx.self_package@), Some(opt_view(ctx.namespace)), local);
    if own.len() > 0 {
        Resolution::Matched(own)
    } else {
        match import_scan(es, kind, ctx.imports@, local, ctx.imports@.len() as int) {
            ImportScan::Halted(c) => Resolution::Matched(c),
            ImportScan::Singles(m) => if m.len() > 0 {
                Resolution::Matched(m)
            } else {
                let global = lookup(es, kind, None, None, local);
                if global.len() > 0 {
                    Resolution::Matched(global)
                } else {
                    Resolution::Missing
                }
            },
        }
    }
}

/// How `reference` resolves for `kind` in the unit of `ctx`. A head segment other
/// than `schema`/`func` names a package (rule 1); otherwise rules 2 to 4 apply.
pub open spec fn resolution(
    es: Seq<SymbolView>,
    kind: SymbolKind,
    ctx: FileImportContext,
    reference: Seq<char>,
) -> Resolution {
    if reference.len() == 0 {
        Resolution::Skipped
    } else {
        let r = trimmed(reference);
        let d = first_pos(r, '.');
        if d < r.len() {
            let head = r.take(d);
            let local = after_dot(r.skip(d + 1));
            if head != "schema"@ && head != "func"@ {
                match prefix_package(ctx, head) {
                    None => Resolution::UnknownPrefix(head),
                    Some(p) => {
                        let c = lookup_preferring(es, kind, p, opt_view(ctx.namespace), local);
                        if c.len() > 0 {
                            Resolution::Matched(c)
                        } else {
                            Resolution::Missing
                        }
                    },
                }
            } else {
                unprefixed_resolution(es, kind, ctx, local)
            }
        } else {
            unprefixed_resolution(es, kind, ctx, r)
        }
    }
}

pub open spec fn undefined_code(kind: SymbolKind) -> Seq<char> {
    match kind {
        SymbolKind::Schema => "E_UNDEFINED_SCHEMA"@,
        SymbolKind::Func => "E_UNDEFINED_FUNC"@,
        SymbolKind::Mod => "E_UNDEFINED_MOD"@,
    }
}

/// The fully-qualified names of the candidates, separated by `, `.
pub open spec fn candidate_list(es: Seq<SymbolView>, c: Seq<usize>) -> Seq<char>
    decreases c.len(),
{
    if c.len() == 0 {
        Seq::empty()
    } else if c.len() == 1 {
        es[c[0] as int].fq_name
    } else {
        candidate_list(es, c.drop_last()) + ", "@ + es[c.last() as int].fq_name
    }
}

/// What resolving `reference` reports: an error when it is unresolved, a
/// `W_AMBIGUOUS_NAME` warning when it has several candidates, nothing otherwise.
pub open spec fn resolution_findings(
    es: Seq<SymbolView>,
    kind: SymbolKind,
    res: Resolution,
    reference: Seq<char>,
    location: Seq<char>,
) -> Seq<Finding> {
    match res {
        Resolution::Skipped => Seq::empty(),
        Resolution::UnknownPrefix(p) => seq![
            error_finding("E_UNDEFINED_PREFIX"@, "Unknown reference prefix '"@ + p + "'"@, location),
        ],
        Resolution::Missing => seq![
            error_finding(
                undefined_code(kind),
                "Reference '"@ + trimmed(reference) + "' is undefined"@,
                location,
            ),
        ],
        Resolution::Matched(c) => if c.len() >= 2 {
            seq![
                warning_finding(
                    "W_AMBIGUOUS_NAME"@,
                    "Ambiguous "@ + kind_tag(kind) + " reference '"@ + trimmed(reference)
                        + "'; candidates: "@ + candidate_list(es, c),
                    location,
                ),
            ]
        } else {
            Seq::empty()
        },
    }
}

/// What resolving `reference` for `kind` in the unit of `ctx` reports at `location`.
pub open spec fn reference_findings(
    es: Seq<SymbolView>,
    kind: SymbolKind,
    ctx: FileImportContext,
    reference: Seq<char>,
    location: Seq<char>,
) -> Seq<Finding> {
    resolution_findings(es, kind, resolution(es, kind, ctx, reference), reference, location)
}

pub open spec fn str_opt(o: Option<&str>) -> Option<Seq<char>> {
    match o {
        Some(s) => Some(s@),
        None => None,
    }
}

pub open spec fn ns_opt(o: Option<&Option<String>>) -> Option<Option<Seq<char>>> {
    match o {
        Some(n) => Some(opt_view(*n)),
        None => None,
    }
}

pub open spec fn all_below(c: Seq<usize>, n: int) -> bool {
    forall|k: int| 0 <= k < c.len() ==> #[trigger] c[k] < n
}

proof fn lemma_picked_below(
    es: Seq<SymbolView>,
    kind: SymbolKind,
    package: Option<Seq<char>>,
    namespace: Option<Option<Seq<char>>>,
    local: Seq<char>,
    n: int,
)
    requires
        n <= es.len(),
    ensures
        all_below(picked(es, kind, package, namespace, local, n), es.len() as int),
    decreases n,
{
    if n > 0 {
        lemma_picked_below(es, kind, package, namespace, local, n - 1);
    }
}

fn opt_equal(a: &Option<String>, b: &Option<String>) -> (r: bool)
    ensures
        r == (opt_view(*a) == opt_view(*b)),
{
    match (a, b) {
        (Some(x), Some(y)) => *x == *y,
        (None, None) => true,
        _ => false,
    }
}

fn accepts_exec(
    e: &SymbolEntry,
    kind: SymbolKind,
    package: Option<&str>,
    namespace: Option<&Option<String>>,
    local: &str,
) -> (r: bool)
    ensures
        r == accepts(e@, kind, str_opt(package), ns_opt(namespace), local@),
{
    if e.kind != kind || !same_text(e.local_name.as_str(), local) {
        return false;
    }
    let pkg_ok = match package {
        Some(p) => same_text(e.package.as_str(), p),
        None => true,
    };
    let ns_ok = match namespace {
        Some(n) => opt_equal(&e.namespace, n),
        None => true,
    };
    pkg_ok && ns_ok
}

/// Positions of the entries that the lookup accepts.
fn pick(
    entries: &Vec<SymbolEntry>,
    kind: SymbolKind,
    package: Option<&str>,
    namespace: Option<&Option<String>>,
    local: &str,
) -> (r: Vec<usize>)
    ensures
        r@ == lookup(
            entries@.map_values(|e: SymbolEntry| e@),
            kind,
            str_opt(package),
            ns_opt(namespace),
            local@,
        ),
        all_below(r@, entries@.len() as int),
{
    let ghost es = entries@.map_values(|e: SymbolEntry| e@);
    let mut r: Vec<usize> = Vec::new();
    let mut i: usize = 0;
    while i < entries.len()
        invariant
            i <= entries@.len(),
            es == entries@.map_values(|e: SymbolEntry| e@),
            r@ == picked(es, kind, str_opt(package), ns_opt(namespace), local@, i as int),
        decreases entries@.len() - i,
    {
        proof {
            assert(es[i as int] == entries@[i as int]@);
        }
        if accepts_exec(&entries[i], kind, package, namespace, local) {
            r.push(i);
        }
        i += 1;
    }
    proof {
        lemma_picked_below(es, kind, str_opt(package), ns_opt(namespace), local@, es.len() as int);
    }
    r
}

/// Rule 1's lookup inside the package that a prefix named.
fn pick_preferring(
    entries: &Vec<SymbolEntry>,
    kind: SymbolKind,
    package: &str,
    namespace: &Option<String>,
    local: &str,
) -> (r: Vec<usize>)
    ensures
        r@ == lookup_preferring(
            entries@.map_values(|e: SymbolEntry| e@),
            kind,
            package@,
            opt_view(*namespace),
            local@,
        ),
        all_below(r@, entries@.len() as int),
{
    let all = pick(entries, kind, Some(package), None, local);
    match namespace {
        Some(_) => {
            let exact = pick(entries, kind, Some(package), Some(namespace), local);
            if exact.len() > 0 {
                exact
            } else {
                all
            }
        },
        None => all,
    }
}

/// The walk over the imports: `(true, c)` when it halted on `c`, `(false, m)` otherwise.
fn scan_imports(
    entries: &Vec<SymbolEntry>,
    kind: SymbolKind,
    imports: &Vec<ImportEntry>,
    local: &str,
) -> (r: (bool, Vec<usize>))
    ensures
        ({
            let es = entries@.map_values(|e: SymbolEntry| e@);
            match import_scan(es, kind, imports@, local@, imports@.len() as int) {
                ImportScan::Halted(c) => r.0 && r.1@ == c,
                ImportScan::Singles(m) => !r.0 && r.1@ == m,
            }
        }),
        all_below(r.1@, entries@.len() as int),
{
    let ghost es = entries@.map_values(|e: SymbolEntry| e@);
    let mut m: Vec<usize> = Vec::new();
    let mut i: usize = 0;
    while i < imports.len()
        invariant
            i <= imports@.len(),
            es == entries@.map_values(|e: SymbolEntry| e@),
            import_scan(es, kind, imports@, local@, i as int) == ImportScan::Singles(m@),
            all_below(m@, entries@.len() as int),
        decreases imports@.len() - i,
    {
        let found = pick(entries, kind, Some(imports[i].package.as_str()), None, local);
        if found.len() == 1 {
            m.push(found[0]);
        } else if found.len() > 1 {
            proof {
                lemma_scan_halted_stays(es, kind, imports@, local@, i + 1, imports@.len() as int);
            }
            return (true, found);
        }
        i += 1;
    }
    (false, m)
}

proof fn lemma_scan_halted_stays(
    es: Seq<SymbolView>,
    kind: SymbolKind,
    imports: Seq<ImportEntry>,
    local: Seq<char>,
    n: int,
    n2: int,
)
    requires
        n <= n2,
        import_scan(es, kind, imports, local, n) is Halted,
    ensures
        import_scan(es, kind, imports, local, n2) == import_scan(es, kind, imports, local, n),
    decreases n2 - n,
{
    if n2 > n {
        lemma_scan_halted_stays(es, kind, imports, local, n, n2 - 1);
    }
}

/// The exec counterpart of [`Resolution`].
pub enum Outcome {
    Skipped,
    UnknownPrefix(String),
    Missing,
    Matched(Vec<usize>),
}

impl View for Outcome {
    type V = Resolution;

    open spec fn view(&self) -> Resolution {
        match self {
            Outcome::Skipped => Resolution::Skipped,
            Outcome::UnknownPrefix(p) => Resolution::UnknownPrefix(p@),
            Outcome::Missing => Resolution::Missing,
            Outcome::Matched(c) => Resolution::Matched(c@),
        }
    }
}

pub open spec fn outcome_in_range(o: Outcome, n: int) -> bool {
    match o {
        Outcome::Matched(c) => all_below(c@, n),
        _ => true,
    }
}

fn resolve_unprefixed(
    entries: &Vec<SymbolEntry>,
    kind: SymbolKind,
    ctx: &FileImportContext,
    local: &str,
) -> (r: Outcome)
    ensures
        r@ == unprefixed_resolution(entries@.map_values(|e: SymbolEntry| e@), kind, *ctx, local@),
        outcome_in_range(r, entries@.len() as int),
{
    let own = pick(entries, kind, Some(ctx.self_package.as_str()), Some(&ctx.namespace), local);
    if own.len() > 0 {
        return Outcome::Matched(own);
    }
    let (halted, c) = scan_imports(entries, kind, &ctx.imports, local);
    if halted || c.len() > 0 {
        return Outcome::Matched(c);
    }
    let global = pick(entries, kind, None, None, local);
    if global.len() > 0 {
        Outcome::Matched(global)
    } else {
        Outcome::Missing
    }
}

/// The package that `prefix` names in the unit of `ctx`.
fn resolve_prefix(prefix: &str, ctx: &FileImportContext) -> (r: Option<String>)
    ensures
        opt_view(r) == prefix_package(*ctx, prefix@),
{
    if same_text(prefix, ctx.self_package.as_str()) {
        return Some(String::from_str(prefix));
    }
    match &ctx.namespace {
        Some(n) => {
            if same_text(n.as_str(), prefix) {
                return Some(ctx.self_package.clone());
            }
        },
        None => {},
    }
    let mut i: usize = 0;
    while i < ctx.imports.len()
        invariant
            i <= ctx.imports@.len(),
            prefix@ != ctx.self_package@,
            opt_view(ctx.namespace) != Some(prefix@),
            import_prefix_package(ctx.imports@, prefix@, i as int) == None::<Seq<char>>,
        decreases ctx.imports@.len() - i,
    {
        let imp = &ctx.imports[i];
        let alias_hit = match &imp.alias {
            Some(a) => same_text(a.as_str(), prefix),
            None => false,
        };
        if alias_hit || same_text(prefix, imp.package.as_str()) {
            proof {
                assert(ctx.imports@[i as int] == *imp);
                assert(import_prefix_package(ctx.imports@, prefix@, i + 1) == Some(imp.package@));
                lemma_prefix_stays(ctx.imports@, prefix@, i + 1, ctx.imports@.len() as int);
            }
            return Some(imp.package.clone());
        }
        i += 1;
    }
    None
}

proof fn lemma_prefix_stays(imports: Seq<ImportEntry>, prefix: Seq<char>, n: int, n2: int)
    requires
        n <= n2,
        import_prefix_package(imports, prefix, n) is Some,
    ensures
        import_prefix_package(imports, prefix, n2) == import_prefix_package(imports, prefix, n),
    decreases n2 - n,
{
    if n2 > n {
        lemma_prefix_stays(imports, prefix, n, n2 - 1);
    }
}

/// How `reference` resolves for `kind` in the unit of `ctx`.
pub fn resolve_outcome(
    table: &SymbolTable,
    kind: SymbolKind,
    reference: &str,
    ctx: &FileImportContext,
) -> (r: Outcome)
    ensures
        r@ == resolution(table.views(), kind, *ctx, reference@),
        outcome_in_range(r, table.entries@.len() as int),
{
    if reference.unicode_len() == 0 {
        return Outcome::Skipped;
    }
    let r = trim_text(reference);
    let n = r.unicode_len();
    match find_char(r, '.') {
        Some(d) => {
            let head = r.substring_char(0, d);
            let base = r.substring_char(d + 1, n);
            proof {
                assert(head@ =~= r@.take(d as int));
                assert(base@ =~= r@.skip(d + 1));
            }
            let local = after_dot_text(base);
            if !same_text(head, "schema") && !same_text(head, "func") {
                match resolve_prefix(head, ctx) {
                    None => Outcome::UnknownPrefix(String::from_str(head)),
                    Some(p) => {
                        let c = pick_preferring(&table.entries, kind, p.as_str(), &ctx.namespace, local);
                        if c.len() > 0 {
                            Outcome::Matched(c)
                        } else {
                            Outcome::Missing
                        }
                    },
                }
            } else {
                resolve_unprefixed(&table.entries, kind, ctx, local)
            }
        },
        None => resolve_unprefixed(&table.entries, kind, ctx, r),
    }
}

fn undefined_code_str(kind: SymbolKind) -> (r: &'static str)
    ensures
        r@ == undefined_code(kind),
{
    match kind {
        SymbolKind::Schema => "E_UNDEFINED_SCHEMA",
        SymbolKind::Func => "E_UNDEFINED_FUNC",
        SymbolKind::Mod => "E_UNDEFINED_MOD",
    }
}

fn candidates_text(entries: &Vec<SymbolEntry>, c: &Vec<usize>) -> (r: String)
    requires
        all_below(c@, entries@.len() as int),
    ensures
        r@ == candidate_list(entries@.map_values(|e: SymbolEntry| e@), c@),
{
    let ghost es = entries@.map_values(|e: SymbolEntry| e@);
    let mut r = String::new();
    let mut i: usize = 0;
    proof {
        assert(c@.take(0) =~= Seq::<usize>::empty());
    }
    while i < c.len()
        invariant
            i <= c@.len(),
            all_below(c@, entries@.len() as int),
            es == entries@.map_values(|e: SymbolEntry| e@),
            r@ == candidate_list(es, c@.take(i as int)),
        decreases c@.len() - i,
    {
        let k = c[i];
        assert(k < entries@.len());
        if i > 0 {
            r.append(", ");
        }
        r.append(entries[k].fq_name.as_str());
        proof {
            assert(c@.take(i + 1).drop_last() =~= c@.take(i as int));
            assert(es[k as int] == entries@[k as int]@);
        }
        i += 1;
    }
    proof {
        assert(c@.take(c@.len() as int) =~= c@);
    }
    r
}

/// Resolves `reference` for `kind` in the unit of `ctx` and appends what that
/// reports, located at `location`.
pub fn resolve_reference(
    table: &SymbolTable,
    kind: SymbolKind,
    reference: &str,
    ctx: &FileImportContext,
    location: &str,
    diags: &mut Vec<Diagnostic>,
)
    ensures
        findings(final(diags)@) == findings(old(diags)@) + reference_findings(
            table.views(),
            kind,
            *ctx,
            reference@,
            location@,
        ),
{
    let out = resolve_outcome(table, kind, reference, ctx);
    let ghost d0 = findings(diags@);
    match out {
        Outcome::Skipped => {},
        Outcome::UnknownPrefix(p) => {
            let mut msg = String::from_str("Unknown reference prefix '");
            msg.append(p.as_str());
            msg.append("'");
            diags.push(new_error("E_UNDEFINED_PREFIX", msg, String::from_str(location)));
        },
        Outcome::Missing => {
            let mut msg = String::from_str("Reference '");
            msg.append(trim_text(reference));
            msg.append("' is undefined");
            diags.push(new_error(undefined_code_str(kind), msg, String::from_str(location)));
        },
        Outcome::Matched(c) => {
            if c.len() >= 2 {
                let mut msg = String::from_str("Ambiguous ");
                msg.append(kind_tag_str(kind));
                msg.append(" reference '");
                msg.append(trim_text(reference));
                msg.append("'; candidates: ");
                let list = candidates_text(&table.entries, &c);
                msg.append(list.as_str());
                diags.push(new_warning("W_AMBIGUOUS_NAME", msg, String::from_str(location)));
            }
        },
    }
    proof {
        assert(findings(diags@) =~= d0 + reference_findings(
            table.views(),
            kind,
            *ctx,
            reference@,
            location@,
        ));
    }
}

/// The local name that rules 2 to 4 look up for `reference`, when it carries no
/// package prefix (no dot, or a `schema`/`func` head segment).
pub open spec fn unprefixed_local(reference: Seq<char>) -> Option<Seq<char>> {
    let r = trimmed(reference);
    let d = first_pos(r, '.');
    if reference.len() == 0 {
        None
    } else if d < r.len() {
        let head = r.take(d);
        if head != "schema"@ && head != "func"@ {
            None
        } else {
            Some(after_dot(r.skip(d + 1)))
        }
    } else {
        Some(r)
    }
}

/// Resolution order: a reference without a package prefix that the unit's own
/// package and namespace resolve to exactly one entry resolves to that entry,
/// whatever the imported packages hold, and reports nothing.
pub proof fn lemma_self_package_wins(
    es: Seq<SymbolView>,
    kind: SymbolKind,
    ctx: FileImportContext,
    reference: Seq<char>,
    location: Seq<char>,
)
    requires
        unprefixed_local(reference) is Some,
        lookup(
            es,
            kind,
            Some(ctx.self_package@),
            Some(opt_view(ctx.namespace)),
            unprefixed_local(reference)->0,
        ).len() == 1,
    ensures
        resolution(es, kind, ctx, reference) == Resolution::Matched(
            lookup(
                es,
                kind,
                Some(ctx.self_package@),
                Some(opt_view(ctx.namespace)),
                unprefixed_local(reference)->0,
            ),
        ),
        reference_findings(es, kind, ctx, reference, location) == Seq::<Finding>::empty(),
{
}

/// What resolving each of the first `n` references of `refs` reports; the location of
/// reference `x` is `<path>: <lead>x)`.
pub open spec fn list_findings(
    es: Seq<SymbolView>,
    kind: SymbolKind,
    ctx: FileImportContext,
    path: Seq<char>,
    lead: Seq<char>,
    refs: Seq<String>,
    n: int,
) -> Seq<Finding>
    decreases n,
{
    if n <= 0 {
        Seq::empty()
    } else {
        list_findings(es, kind, ctx, path, lead, refs, n - 1) + reference_findings(
            es,
            kind,
            ctx,
            refs[n - 1]@,
            path + ": "@ + lead + refs[n - 1]@ + ")"@,
        )
    }
}

pub open spec fn all_list_findings(
    es: Seq<SymbolView>,
    kind: SymbolKind,
    ctx: FileImportContext,
    path: Seq<char>,
    lead: Seq<char>,
    refs: Seq<String>,
) -> Seq<Finding> {
    list_findings(es, kind, ctx, path, lead, refs, refs.len() as int)
}

/// What resolving the references of one section reports: a func's inputs and outputs,
/// an edge's ends, a boundary's `over` list, a module's schemas, funcs and pipeline.
pub open spec fn section_findings(
    es: Seq<SymbolView>,
    ctx: FileImportContext,
    path: Seq<char>,
    sec: Section,
) -> Seq<Finding> {
    match sec {
        Section::Func(f) => all_list_findings(
            es,
            SymbolKind::Schema,
            ctx,
            path,
            "func."@ + f.name@ + ".input("@,
            f.input@,
        ) + all_list_findings(
            es,
            SymbolKind::Schema,
            ctx,
            path,
            "func."@ + f.name@ + ".output("@,
            f.output@,
        ),
        Section::Schema(sc) => if sc.kind@ == "edge"@ {
            reference_findings(
                es,
                SymbolKind::Schema,
                ctx,
                sc.from@,
                path + ": "@ + "schema."@ + sc.name@ + ".from("@ + sc.from@ + ")"@,
            ) + reference_findings(
                es,
                SymbolKind::Schema,
                ctx,
                sc.to@,
                path + ": "@ + "schema."@ + sc.name@ + ".to("@ + sc.to@ + ")"@,
            )
        } else if sc.kind@ == "boundary"@ {
            all_list_findings(
                es,
                SymbolKind::Schema,
                ctx,
                path,
                "schema."@ + sc.name@ + ".over("@,
                sc.over@,
            )
        } else {
            Seq::empty()
        },
        Section::Mod(m) => all_list_findings(
            es,
            SymbolKind::Schema,
            ctx,
            path,
            "mod."@ + m.name@ + ".schemas("@,
            m.schemas@,
        ) + all_list_findings(
            es,
            SymbolKind::Func,
            ctx,
            path,
            "mod."@ + m.name@ + ".funcs("@,
            m.funcs@,
        ) + all_list_findings(
            es,
            SymbolKind::Func,
            ctx,
            path,
            "mod."@ + m.name@ + ".pipeline("@,
            m.pipeline@,
        ),
        _ => Seq::empty(),
    }
}

/// What resolving the first `n` sections of a unit reports.
pub open spec fn unit_findings(
    es: Seq<SymbolView>,
    ctx: FileImportContext,
    path: Seq<char>,
    secs: Seq<Section>,
    n: int,
) -> Seq<Finding>
    decreases n,
{
    if n <= 0 {
        Seq::empty()
    } else {
        unit_findings(es, ctx, path, secs, n - 1) + section_findings(es, ctx, path, secs[n - 1])
    }
}

/// The first of the first `n` contexts for the unit at `path`.
pub open spec fn context_of(ctxs: Seq<FileImportContext>, path: Seq<char>, n: int) -> Option<
    FileImportContext,
>
    decreases n,
{
    if n <= 0 {
        None
    } else {
        match context_of(ctxs, path, n - 1) {
            Some(c) => Some(c),
            None => if ctxs[n - 1].file_path@ == path {
                Some(ctxs[n - 1])
            } else {
                None
            },
        }
    }
}

/// What resolving the first `n` units reports; a unit without a context is skipped.
pub open spec fn names_findings(
    es: Seq<SymbolView>,
    files: Seq<(String, SurvFile)>,
    ctxs: Seq<FileImportContext>,
    n: int,
) -> Seq<Finding>
    decreases n,
{
    if n <= 0 {
        Seq::empty()
    } else {
        let (path, file) = files[n - 1];
        names_findings(es, files, ctxs, n - 1) + match context_of(
            ctxs,
            path@,
            ctxs.len() as int,
        ) {
            Some(ctx) => unit_findings(es, ctx, path@, file.sections@, file.sections@.len() as int),
            None => Seq::empty(),
        }
    }
}

fn resolve_list(
    table: &SymbolTable,
    kind: SymbolKind,
    refs: &Vec<String>,
    ctx: &FileImportContext,
    path: &str,
    lead: &str,
    diags: &mut Vec<Diagnostic>,
)
    ensures
        findings(final(diags)@) == findings(old(diags)@) + all_list_findings(
            table.views(),
            kind,
            *ctx,
            path@,
            lead@,
            refs@,
        ),
{
    let ghost d0 = findings(diags@);
    let mut i: usize = 0;
    while i < refs.len()
        invariant
            i <= refs@.len(),
            findings(diags@) == d0 + list_findings(
                table.views(),
                kind,
                *ctx,
                path@,
                lead@,
                refs@,
                i as int,
            ),
        decreases refs@.len() - i,
    {
        let mut loc = String::from_str(path);
        loc.append(": ");
        loc.append(lead);
        loc.append(refs[i].as_str());
        loc.append(")");
        resolve_reference(table, kind, refs[i].as_str(), ctx, loc.as_str(), diags);
        proof {
            assert(loc@ =~= path@ + ": "@ + lead@ + refs@[i as int]@ + ")"@);
        }
        i += 1;
    }
}

fn resolve_section(
    table: &SymbolTable,
    ctx: &FileImportContext,
    path: &str,
    sec: &Section,
    diags: &mut Vec<Diagnostic>,
)
    ensures
        findings(final(diags)@) == findings(old(diags)@) + section_findings(
            table.views(),
            *ctx,
            path@,
            *sec,
        ),
{
    let ghost d0 = findings(diags@);
    match sec {
        Section::Func(f) => {
            let lead = crate::diagnostic::join3("func.", f.name.as_str(), ".input(");
            resolve_list(table, SymbolKind::Schema, &f.input, ctx, path, lead.as_str(), diags);
            let lead = crate::diagnostic::join3("func.", f.name.as_str(), ".output(");
            resolve_list(table, SymbolKind::Schema, &f.output, ctx, path, lead.as_str(), diags);
        },
        Section::Schema(sc) => {
            if same_text(sc.kind.as_str(), "edge") {
                let mut loc = String::from_str(path);
                loc.append(": ");
                loc.append("schema.");
                loc.append(sc.name.as_str());
                loc.append(".from(");
                loc.append(sc.from.as_str());
                loc.append(")");
                resolve_reference(table, SymbolKind::Schema, sc.from.as_str(), ctx, loc.as_str(), diags);
                proof {
                    assert(loc@ =~= path@ + ": "@ + "schema."@ + sc.name@ + ".from("@ + sc.from@ + ")"@);
                }
                let mut loc = String::from_str(path);
                loc.append(": ");
                loc.append("schema.");
                loc.append(sc.name.as_str());
                loc.append(".to(");
                loc.append(sc.to.as_str());
                loc.append(")");
                resolve_reference(table, SymbolKind::Schema, sc.to.as_str(), ctx, loc.as_str(), diags);
                proof {
                    assert(loc@ =~= path@ + ": "@ + "schema."@ + sc.name@ + ".to("@ + sc.to@ + ")"@);
                }
            } else if same_text(sc.kind.as_str(), "boundary") {
                let lead = crate::diagnostic::join3("schema.", sc.name.as_str(), ".over(");
                resolve_list(table, SymbolKind::Schema, &sc.over, ctx, path, lead.as_str(), diags);
            }
        },
        Section::Mod(m) => {
            let lead = crate::diagnostic::join3("mod.", m.name.as_str(), ".schemas(");
            resolve_list(table, SymbolKind::Schema, &m.schemas, ctx, path, lead.as_str(), diags);
            let lead = crate::diagnostic::join3("mod.", m.name.as_str(), ".funcs(");
            resolve_list(table, SymbolKind::Func, &m.funcs, ctx, path, lead.as_str(), diags);
            let lead = crate::diagnostic::join3("mod.", m.name.as_str(), ".pipeline(");
            resolve_list(table, SymbolKind::Func, &m.pipeline, ctx, path, lead.as_str(), diags);
        },
        _ => {},
    }
    proof {
        assert(findings(diags@) =~= d0 + section_findings(table.views(), *ctx, path@, *sec));
    }
}

fn context_for<'a>(ctxs: &'a Vec<FileImportContext>, path: &str) -> (r: Option<&'a FileImportContext>)
    ensures
        match r {
            Some(c) => context_of(ctxs@, path@, ctxs@.len() as int) == Some(*c),
            None => context_of(ctxs@, path@, ctxs@.len() as int) == None::<FileImportContext>,
        },
{
    let mut i: usize = 0;
    while i < ctxs.len()
        invariant
            i <= ctxs@.len(),
            context_of(ctxs@, path@, i as int) == None::<FileImportContext>,
        decreases ctxs@.len() - i,
    {
        if same_text(ctxs[i].file_path.as_str(), path) {
            proof {
                lemma_context_stays(ctxs@, path@, i + 1, ctxs@.len() as int);
            }
            return Some(&ctxs[i]);
        }
        i += 1;
    }
    None
}

proof fn lemma_context_stays(ctxs: Seq<FileImportContext>, path: Seq<char>, n: int, n2: int)
    requires
        n <= n2,
        context_of(ctxs, path, n) is Some,
    ensures
        context_of(ctxs, path, n2) == context_of(ctxs, path, n),
    decreases n2 - n,
{
    if n2 > n {
        lemma_context_stays(ctxs, path, n, n2 - 1);
    }
}

/// Resolves every reference of every unit against `symbols`, each unit in the
/// context of `import_contexts` for its path; a unit without one is skipped.
pub fn resolve_names_with_packages(
    files: &Vec<(String, SurvFile)>,
    symbols: &SymbolTable,
    import_contexts: &Vec<FileImportContext>,
) -> (r: Vec<Diagnostic>)
    ensures
        findings(r@) == names_findings(
            symbols.views(),
            files@,
            import_contexts@,
            files@.len() as int,
        ),
{
    let mut diags: Vec<Diagnostic> = Vec::new();
    let mut i: usize = 0;
    proof {
        assert(findings(diags@) =~= Seq::<Finding>::empty());
    }
    while i < files.len()
        invariant
            i <= files@.len(),
            findings(diags@) == names_findings(symbols.views(), files@, import_contexts@, i as int),
        decreases files@.len() - i,
    {
        let path = files[i].0.as_str();
        let file = &files[i].1;
        match context_for(import_contexts, path) {
            Some(ctx) => {
                let ghost d0 = findings(diags@);
                let mut j: usize = 0;
                while j < file.sections.len()
                    invariant
                        j <= file.sections@.len(),
                        findings(diags@) == d0 + unit_findings(
                            symbols.views(),
                            *ctx,
                            path@,
                            file.sections@,
                            j as int,
                        ),
                    decreases file.sections@.len() - j,
                {
                    resolve_section(symbols, ctx, path, &file.sections[j], &mut diags);
                    proof {
                        assert(findings(diags@) =~= d0 + unit_findings(
                            symbols.views(),
                            *ctx,
                            path@,
                            file.sections@,
                            j + 1,
                        ));
                    }
                    j += 1;
                }
            },
            None => {},
        }
        proof {
            assert(findings(diags@) =~= names_findings(symbols.views(), files@, import_contexts@, i + 1));
        }
        i += 1;
    }
    diags
}

/// Number of the first `n` entries whose key an earlier entry holds.
pub open spec fn repeats(es: Seq<SymbolView>, n: int) -> nat
    decreases n,
{
    if n <= 0 {
        0
    } else {
        repeats(es, n - 1) + if first_same_key(es, n - 1, n - 1) is Some {
            1nat
        } else {
            0nat
        }
    }
}

proof fn lemma_duplicate_count(es: Seq<SymbolView>, n: int)
    ensures
        count_kind(duplicate_findings(es, n), "W_AMBIGUOUS_NAME"@) == repeats(es, n),
    decreases n,
{
    if n > 0 {
        lemma_duplicate_count(es, n - 1);
        let prev = duplicate_findings(es, n - 1);
        match first_same_key(es, n - 1, n - 1) {
            Some(i) => {
                let f = duplicate_finding(es[i], es[n - 1]);
                assert(prev.push(f).drop_last() =~= prev);
            },
            None => {},
        }
    }
}

proof fn lemma_picked_contains(
    es: Seq<SymbolView>,
    kind: SymbolKind,
    package: Option<Seq<char>>,
    namespace: Option<Option<Seq<char>>>,
    local: Seq<char>,
    n: int,
    k: int,
)
    requires
        0 <= k < n <= es.len(),
        accepts(es[k], kind, package, namespace, local),
    ensures
        picked(es, kind, package, namespace, local, n).contains(k as usize),
    decreases n,
{
    let prev = picked(es, kind, package, namespace, local, n - 1);
    if k == n - 1 {
        assert(prev.push(k as usize)[prev.len() as int] == k as usize);
    } else {
        lemma_picked_contains(es, kind, package, namespace, local, n - 1, k);
        let j = choose|j: int| 0 <= j < prev.len() && prev[j] == k as usize;
        if accepts(es[n - 1], kind, package, namespace, local) {
            assert(prev.push((n - 1) as usize)[j] == k as usize);
        }
    }
}

/// Duplicate tolerance: when entries `i < j` of a table share a key, a lookup of
/// that key still yields both, and the table's construction warns exactly once per
/// entry whose key an earlier entry holds (for a name declared twice, once).
pub proof fn lemma_duplicates_tolerated(es: Seq<SymbolView>, i: int, j: int)
    requires
        0 <= i < j < es.len(),
        same_key(es[i], es[j]),
    ensures
        lookup(es, es[i].kind, Some(es[i].package), Some(es[i].namespace), es[i].local_name).contains(
            i as usize,
        ),
        lookup(es, es[i].kind, Some(es[i].package), Some(es[i].namespace), es[i].local_name).contains(
            j as usize,
        ),
        count_kind(duplicate_findings(es, es.len() as int), "W_AMBIGUOUS_NAME"@) == repeats(
            es,
            es.len() as int,
        ),
        repeats(es, es.len() as int) >= 1,
{
    let e = es[i];
    lemma_picked_contains(es, e.kind, Some(e.package), Some(e.namespace), e.local_name, es.len() as int, i);
    lemma_picked_contains(es, e.kind, Some(e.package), Some(e.namespace), e.local_name, es.len() as int, j);
    lemma_duplicate_count(es, es.len() as int);
    lemma_first_key_found(es, j, i);
    lemma_repeats_positive(es, j + 1, es.len() as int);
}

proof fn lemma_first_key_found(es: Seq<SymbolView>, j: int, i: int)
    requires
        0 <= i < j < es.len(),
        same_key(es[i], es[j]),
    ensures
        first_same_key(es, j, j) is Some,
    decreases j - i,
{
    lemma_first_key_within(es, j, i + 1, j);
}

proof fn lemma_first_key_within(es: Seq<SymbolView>, j: int, m: int, m2: int)
    requires
        0 < m <= m2 <= j < es.len(),
        same_key(es[m - 1], es[j]),
    ensures
        first_same_key(es, j, m2) is Some,
    decreases m2 - m,
{
    if m2 > m {
        lemma_first_key_within(es, j, m, m2 - 1);
    }
}

proof fn lemma_repeats_positive(es: Seq<SymbolView>, m: int, n: int)
    requires
        0 < m <= n,
        first_same_key(es, m - 1, m - 1) is Some,
    ensures
        repeats(es, n) >= 1,
    decreases n - m,
{
    if n > m {
        lemma_repeats_positive(es, m, n - 1);
    }
}

/// `c` is the context that a unit gives itself: its declared package (else
/// `default`), its namespace, and its imports as written.
pub open spec fn own_context(path: String, file: SurvFile, c: FileImportContext) -> bool {
    &&& c.file_path@ == path@
    &&& c.self_package@ == match file.package {
        Some(p) => p@,
        None => "default"@,
    }
    &&& opt_view(c.namespace) == opt_view(file.namespace)
    &&& c.imports@.len() == file.imports@.len()
    &&& forall|k: int|
        0 <= k < c.imports@.len() ==> #[trigger] c.imports@[k].package@ == file.imports@[k].target@
            && opt_view(c.imports@[k].alias) == opt_view(file.imports@[k].alias)
}

fn own_context_of(path: &String, file: &SurvFile) -> (c: FileImportContext)
    ensures
        own_context(*path, *file, c),
{
    let mut imports: Vec<ImportEntry> = Vec::new();
    let mut k: usize = 0;
    while k < file.imports.len()
        invariant
            k <= file.imports@.len(),
            imports@.len() == k,
            forall|q: int|
                0 <= q < k ==> #[trigger] imports@[q].package@ == file.imports@[q].target@
                    && opt_view(imports@[q].alias) == opt_view(file.imports@[q].alias),
        decreases file.imports@.len() - k,
    {
        let imp = &file.imports[k];
        imports.push(ImportEntry { package: imp.target.clone(), alias: crate::ast::copy_opt(&imp.alias) });
        k += 1;
    }
    let self_package = match &file.package {
        Some(p) => p.clone(),
        None => String::from_str("default"),
    };
    FileImportContext {
        file_path: path.clone(),
        self_package,
        namespace: crate::ast::copy_opt(&file.namespace),
        imports,
    }
}

/// Resolves every reference of the project's units, each unit in the context it
/// gives itself (its declared package, else `default`, and its imports as written).
pub fn resolve_schema_and_func_references(project: &ProjectAST, symbols: &SymbolTable) -> (r: Vec<
    Diagnostic,
>)
    ensures
        exists|ctxs: Seq<FileImportContext>|
            ctxs.len() == project.files@.len() && (forall|i: int|
                0 <= i < ctxs.len() ==> own_context(
                    project.files@[i].0,
                    project.files@[i].1,
                    #[trigger] ctxs[i],
                )) && findings(r@) == #[trigger] names_findings(
                symbols.views(),
                project.files@,
                ctxs,
                project.files@.len() as int,
            ),
{
    let files = &project.files;
    let mut ctxs: Vec<FileImportContext> = Vec::new();
    let mut i: usize = 0;
    while i < files.len()
        invariant
            i <= files@.len(),
            ctxs@.len() == i,
            forall|q: int| 0 <= q < i ==> own_context(files@[q].0, files@[q].1, #[trigger] ctxs@[q]),
        decreases files@.len() - i,
    {
        let c = own_context_of(&files[i].0, &files[i].1);
        ctxs.push(c);
        i += 1;
    }
    resolve_names_with_packages(files, symbols, &ctxs)
}

proof fn lemma_first_same_key_none(es: Seq<SymbolView>, j: int, m: int)
    requires
        m <= es.len(),
        forall|t: int| 0 <= t < m ==> !same_key(#[trigger] es[t], es[j]),
    ensures
        first_same_key(es, j, m) is None,
    decreases m,
{
    if m > 0 {
        lemma_first_same_key_none(es, j, m - 1);
    }
}

proof fn lemma_one_repeat(es: Seq<SymbolView>, i: int, j: int, n: int)
    requires
        0 <= i < j < es.len(),
        0 <= n <= es.len(),
        same_key(es[i], es[j]),
        forall|a: int, b: int|
            0 <= a < b < es.len() && (a != i || b != j) ==> !same_key(#[trigger] es[a], #[trigger] es[b]),
    ensures
        repeats(es, n) == if j < n {
            1nat
        } else {
            0nat
        },
    decreases n,
{
    if n > 0 {
        lemma_one_repeat(es, i, j, n - 1);
        let k = n - 1;
        if k == j {
            lemma_first_key_found(es, j, i);
        } else {
            assert forall|t: int| 0 <= t < k implies !same_key(#[trigger] es[t], es[k]) by {}
            lemma_first_same_key_none(es, k, k);
        }
    }
}

/// Duplicate tolerance, exactly: when two entries of a table share a key and no other
/// two entries do, the table's construction reports exactly one `W_AMBIGUOUS_NAME`.
pub proof fn lemma_single_duplicate_warns_once(es: Seq<SymbolView>, i: int, j: int)
    requires
        0 <= i < j < es.len(),
        same_key(es[i], es[j]),
        forall|a: int, b: int|
            0 <= a < b < es.len() && (a != i || b != j) ==> !same_key(#[trigger] es[a], #[trigger] es[b]),
    ensures
        count_kind(duplicate_findings(es, es.len() as int), "W_AMBIGUOUS_NAME"@) == 1,
        duplicate_findings(es, es.len() as int).len() == 1,
{
    lemma_duplicate_count(es, es.len() as int);
    lemma_one_repeat(es, i, j, es.len() as int);
    lemma_duplicate_len(es, es.len() as int);
}

proof fn lemma_duplicate_len(es: Seq<SymbolView>, n: int)
    ensures
        duplicate_findings(es, n).len() == repeats(es, n),
    decreases n,
{
    if n > 0 {
        lemma_duplicate_len(es, n - 1);
    }
}

} // verus!
