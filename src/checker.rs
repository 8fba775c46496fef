//! The unit checker: internal consistency of one Spec IR unit.
use vstd::prelude::*;

use crate::ast::{FuncSection, ModSection, SchemaSection, Section, SurvFile};
use crate::diagnostic::{
    error_finding, findings, join2, join3, new_error, new_warning, warning_finding, Diagnostic,
    Finding,
};
use crate::order::{index_by_key, key_index, keys_view, positions};
use crate::symbol::SymbolKind;
use crate::text::same_text;

verus! {

pub open spec fn schema_id(s: SchemaSection) -> Seq<char> {
    "schema."@ + s.name@
}

pub open spec fn func_id(f: FuncSection) -> Seq<char> {
    "func."@ + f.name@
}

pub open spec fn mod_id(m: ModSection) -> Seq<char> {
    "mod."@ + m.name@
}

fn schema_id_exec(s: &SchemaSection) -> (r: String)
    ensures
        r@ == schema_id(*s),
{
    join2("schema.", s.name.as_str())
}

fn func_id_exec(f: &FuncSection) -> (r: String)
    ensures
        r@ == func_id(*f),
{
    join2("func.", f.name.as_str())
}

fn mod_id_exec(m: &ModSection) -> (r: String)
    ensures
        r@ == mod_id(*m),
{
    join2("mod.", m.name.as_str())
}

/// Section `sec` declares the schema (`schemas`) or func (otherwise) with id `r`.
pub open spec fn declares_id(sec: Section, schemas: bool, r: Seq<char>) -> bool {
    match sec {
        Section::Schema(s) => schemas && schema_id(s) == r,
        Section::Func(f) => !schemas && func_id(f) == r,
        _ => false,
    }
}

/// The unit declares the schema (`schemas`) or func (otherwise) with id `r`.
pub open spec fn declared(secs: Seq<Section>, schemas: bool, r: Seq<char>) -> bool {
    exists|i: int| 0 <= i < secs.len() && declares_id(#[trigger] secs[i], schemas, r)
}

fn declares(secs: &Vec<Section>, schemas: bool, r: &str) -> (b: bool)
    ensures
        b == declared(secs@, schemas, r@),
{
    let mut i: usize = 0;
    while i < secs.len()
        invariant
            i <= secs@.len(),
            forall|k: int| 0 <= k < i ==> !declares_id(#[trigger] secs@[k], schemas, r@),
        decreases secs@.len() - i,
    {
        let hit = match &secs[i] {
            Section::Schema(s) => schemas && same_text(schema_id_exec(s).as_str(), r),
            Section::Func(f) => !schemas && same_text(func_id_exec(f).as_str(), r),
            _ => false,
        };
        if hit {
            assert(declares_id(secs@[i as int], schemas, r@));
            return true;
        }
        i += 1;
    }
    false
}

/// The id that section `sec` declares for `kind`, if it declares one of that kind.
pub open spec fn decl_key(sec: Section, kind: SymbolKind) -> Option<Seq<char>> {
    match sec {
        Section::Schema(s) => if kind == SymbolKind::Schema {
            Some(schema_id(s))
        } else {
            None
        },
        Section::Func(f) => if kind == SymbolKind::Func {
            Some(func_id(f))
        } else {
            None
        },
        Section::Mod(m) => if kind == SymbolKind::Mod {
            Some(mod_id(m))
        } else {
            None
        },
        _ => None,
    }
}

pub open spec fn decl_keys(secs: Seq<Section>, kind: SymbolKind) -> Seq<Option<Seq<char>>> {
    secs.map_values(|sec: Section| decl_key(sec, kind))
}

/// The unit's declarations of `kind` in id order, one per id (the last one declared),
/// as positions of `secs`.
pub open spec fn id_index(secs: Seq<Section>, kind: SymbolKind) -> Seq<int> {
    key_index(decl_keys(secs, kind), secs.len() as int)
}

fn decl_key_exec(sec: &Section, kind: SymbolKind) -> (r: Option<String>)
    ensures
        keys_view(seq![r])[0] == decl_key(*sec, kind),
{
    match sec {
        Section::Schema(s) => if kind == SymbolKind::Schema {
            Some(schema_id_exec(s))
        } else {
            None
        },
        Section::Func(f) => if kind == SymbolKind::Func {
            Some(func_id_exec(f))
        } else {
            None
        },
        Section::Mod(m) => if kind == SymbolKind::Mod {
            Some(mod_id_exec(m))
        } else {
            None
        },
        _ => None,
    }
}

/// The positions of the unit's declarations of `kind`, in id order, one per id.
fn index_of(secs: &Vec<Section>, kind: SymbolKind) -> (r: Vec<usize>)
    ensures
        positions(r@) == id_index(secs@, kind),
        forall|j: int| 0 <= j < r@.len() ==> #[trigger] r@[j] < secs@.len(),
{
    let mut keys: Vec<Option<String>> = Vec::new();
    let mut i: usize = 0;
    while i < secs.len()
        invariant
            i <= secs@.len(),
            keys@.len() == i,
            forall|j: int| 0 <= j < i ==> #[trigger] keys_view(keys@)[j] == decl_key(secs@[j], kind),
        decreases secs@.len() - i,
    {
        let k = decl_key_exec(&secs[i], kind);
        let ghost k0 = keys@;
        keys.push(k);
        proof {
            assert forall|j: int| 0 <= j < i + 1 implies #[trigger] keys_view(keys@)[j] == decl_key(secs@[j], kind) by {
                if j < i {
                    assert(keys@[j] == k0[j]);
                    assert(keys_view(k0)[j] == decl_key(secs@[j], kind));
                } else {
                    assert(keys@[j] == k);
                }
            }
        }
        i += 1;
    }
    proof {
        assert(keys_view(keys@) =~= decl_keys(secs@, kind));
    }
    index_by_key(&keys)
}

/// One error `code` for each of the first `n` references of `refs` that the unit does
/// not declare; the message of reference `x` is `<lead>x is not defined`, its
/// location `<at>x)`.
pub open spec fn missing_findings(
    secs: Seq<Section>,
    schemas: bool,
    refs: Seq<String>,
    code: Seq<char>,
    lead: Seq<char>,
    at: Seq<char>,
    n: int,
) -> Seq<Finding>
    decreases n,
{
    if n <= 0 {
        Seq::empty()
    } else {
        let prev = missing_findings(secs, schemas, refs, code, lead, at, n - 1);
        let x = refs[n - 1]@;
        if declared(secs, schemas, x) {
            prev
        } else {
            prev.push(error_finding(code, lead + x + " is not defined"@, at + x + ")"@))
        }
    }
}

pub open spec fn all_missing(
    secs: Seq<Section>,
    schemas: bool,
    refs: Seq<String>,
    code: Seq<char>,
    lead: Seq<char>,
    at: Seq<char>,
) -> Seq<Finding> {
    missing_findings(secs, schemas, refs, code, lead, at, refs.len() as int)
}

fn report_missing(
    secs: &Vec<Section>,
    schemas: bool,
    refs: &Vec<String>,
    code: &str,
    lead: &str,
    at: &str,
    diags: &mut Vec<Diagnostic>,
)
    ensures
        findings(final(diags)@) == findings(old(diags)@) + all_missing(
            secs@,
            schemas,
            refs@,
            code@,
            lead@,
            at@,
        ),
{
    let ghost d0 = findings(diags@);
    let mut i: usize = 0;
    proof {
        assert(findings(diags@) =~= d0 + missing_findings(secs@, schemas, refs@, code@, lead@, at@, 0));
    }
    while i < refs.len()
        invariant
            i <= refs@.len(),
            findings(diags@) == d0 + missing_findings(
                secs@,
                schemas,
                refs@,
                code@,
                lead@,
                at@,
                i as int,
            ),
        decreases refs@.len() - i,
    {
        let x = refs[i].as_str();
        let ghost before = diags@;
        if !declares(secs, schemas, x) {
            let msg = join3(lead, x, " is not defined");
            let loc = join3(at, x, ")");
            let d = new_error(code, msg, loc);
            diags.push(d);
            proof {
                assert(findings(diags@) =~= findings(before).push(d@));
            }
        }
        proof {
            assert(findings(diags@) =~= d0 + missing_findings(
                secs@,
                schemas,
                refs@,
                code@,
                lead@,
                at@,
                i + 1,
            ));
        }
        i += 1;
    }
}

/// Func↔schema existence over the first `n` sections.
pub open spec fn func_schema_findings(secs: Seq<Section>, ix: Seq<int>, n: int) -> Seq<Finding>
    decreases n,
{
    if n <= 0 {
        Seq::empty()
    } else {
        func_schema_findings(secs, ix, n - 1) + match secs[ix[n - 1]] {
            Section::Func(f) => all_missing(
                secs,
                true,
                f.input@,
                "UndefinedSchema"@,
                "func "@ + func_id(f) + ": input schema "@,
                func_id(f) + ".input("@,
            ) + all_missing(
                secs,
                true,
                f.output@,
                "UndefinedSchema"@,
                "func "@ + func_id(f) + ": output schema "@,
                func_id(f) + ".output("@,
            ),
            _ => Seq::empty(),
        }
    }
}

/// Module references over the first `n` sections.
pub open spec fn mod_ref_findings(secs: Seq<Section>, ix: Seq<int>, n: int) -> Seq<Finding>
    decreases n,
{
    if n <= 0 {
        Seq::empty()
    } else {
        mod_ref_findings(secs, ix, n - 1) + match secs[ix[n - 1]] {
            Section::Mod(m) => all_missing(
                secs,
                true,
                m.schemas@,
                "UndefinedSchemaInMod"@,
                "mod "@ + mod_id(m) + ": schema "@,
                mod_id(m) + ".schemas("@,
            ) + all_missing(
                secs,
                false,
                m.funcs@,
                "UndefinedFuncInMod"@,
                "mod "@ + mod_id(m) + ": func "@,
                mod_id(m) + ".funcs("@,
            ) + all_missing(
                secs,
                false,
                m.pipeline@,
                "UndefinedFuncInPipeline"@,
                "mod "@ + mod_id(m) + ": pipeline step "@,
                mod_id(m) + ".pipeline("@,
            ),
            _ => Seq::empty(),
        }
    }
}

/// The error for an edge end `x` that is set but not declared.
pub open spec fn edge_end_findings(
    secs: Seq<Section>,
    s: SchemaSection,
    x: Seq<char>,
    code: Seq<char>,
    end: Seq<char>,
) -> Seq<Finding> {
    if x.len() > 0 && !declared(secs, true, x) {
        seq![
            error_finding(
                code,
                "schema "@ + schema_id(s) + ": edge."@ + end + " "@ + x + " is not defined"@,
                schema_id(s) + "."@ + end + "("@ + x + ")"@,
            ),
        ]
    } else {
        Seq::empty()
    }
}

/// Schema link shape over the first `n` sections.
pub open spec fn link_findings(secs: Seq<Section>, ix: Seq<int>, n: int) -> Seq<Finding>
    decreases n,
{
    if n <= 0 {
        Seq::empty()
    } else {
        link_findings(secs, ix, n - 1) + match secs[ix[n - 1]] {
            Section::Schema(s) => if s.kind@ == "edge"@ {
                edge_end_findings(secs, s, s.from@, "UndefinedSchemaInEdgeFrom"@, "from"@)
                    + edge_end_findings(secs, s, s.to@, "UndefinedSchemaInEdgeTo"@, "to"@)
            } else if s.kind@ == "boundary"@ {
                all_missing(
                    secs,
                    true,
                    s.over@,
                    "UndefinedSchemaInBoundary"@,
                    "schema "@ + schema_id(s) + ": boundary.over "@,
                    schema_id(s) + ".over("@,
                )
            } else {
                Seq::empty()
            },
            _ => Seq::empty(),
        }
    }
}

fn report_edge_end(
    secs: &Vec<Section>,
    s: &SchemaSection,
    x: &str,
    code: &str,
    end: &str,
    diags: &mut Vec<Diagnostic>,
)
    ensures
        findings(final(diags)@) == findings(old(diags)@) + edge_end_findings(
            secs@,
            *s,
            x@,
            code@,
            end@,
        ),
{
    let ghost d0 = findings(diags@);
    if x.unicode_len() > 0 && !declares(secs, true, x) {
        let sid = schema_id_exec(s);
        let mut msg = String::from_str("schema ");
        msg.append(sid.as_str());
        msg.append(": edge.");
        msg.append(end);
        msg.append(" ");
        msg.append(x);
        msg.append(" is not defined");
        let mut loc = sid.clone();
        loc.append(".");
        loc.append(end);
        loc.append("(");
        loc.append(x);
        loc.append(")");
        diags.push(new_error(code, msg, loc));
    }
    proof {
        assert(findings(diags@) =~= d0 + edge_end_findings(secs@, *s, x@, code@, end@));
    }
}

/// Whether `x` appears among the first `n` entries of `v`.
pub open spec fn listed(v: Seq<String>, x: Seq<char>, n: int) -> bool {
    exists|k: int| 0 <= k < n && k < v.len() && #[trigger] v[k]@ == x
}

fn is_listed(v: &Vec<String>, x: &str) -> (r: bool)
    ensures
        r == listed(v@, x@, v@.len() as int),
{
    let mut i: usize = 0;
    while i < v.len()
        invariant
            i <= v@.len(),
            !listed(v@, x@, i as int),
        decreases v@.len() - i,
    {
        if same_text(v[i].as_str(), x) {
            return true;
        }
        i += 1;
    }
    false
}

/// The output of one func and the input of the next share a schema reference.
pub open spec fn share_schema(a: Seq<String>, b: Seq<String>) -> bool {
    exists|i: int, j: int| 0 <= i < a.len() && 0 <= j < b.len() && #[trigger] a[i]@ == #[trigger] b[j]@
}

fn has_common_schema(a: &Vec<String>, b: &Vec<String>) -> (r: bool)
    ensures
        r == share_schema(a@, b@),
{
    let mut j: usize = 0;
    while j < b.len()
        invariant
            j <= b@.len(),
            forall|i: int, k: int| 0 <= i < a@.len() && 0 <= k < j ==> #[trigger] a@[i]@ != #[trigger] b@[k]@,
        decreases b@.len() - j,
    {
        if is_listed(a, b[j].as_str()) {
            return true;
        }
        j += 1;
    }
    false
}

/// The last func of the first `n` sections with id `r`.
pub open spec fn func_named(secs: Seq<Section>, r: Seq<char>, n: int) -> Option<FuncSection>
    decreases n,
{
    if n <= 0 {
        None
    } else {
        match secs[n - 1] {
            Section::Func(f) => if func_id(f) == r {
                Some(f)
            } else {
                func_named(secs, r, n - 1)
            },
            _ => func_named(secs, r, n - 1),
        }
    }
}

fn find_func<'a>(secs: &'a Vec<Section>, r: &str) -> (o: Option<&'a FuncSection>)
    ensures
        match o {
            Some(f) => func_named(secs@, r@, secs@.len() as int) == Some(*f),
            None => func_named(secs@, r@, secs@.len() as int) == None::<FuncSection>,
        },
{
    let mut found: Option<&'a FuncSection> = None;
    let mut i: usize = 0;
    while i < secs.len()
        invariant
            i <= secs@.len(),
            match found {
                Some(f) => func_named(secs@, r@, i as int) == Some(*f),
                None => func_named(secs@, r@, i as int) == None::<FuncSection>,
            },
        decreases secs@.len() - i,
    {
        match &secs[i] {
            Section::Func(f) => {
                if same_text(func_id_exec(f).as_str(), r) {
                    found = Some(f);
                }
            },
            _ => {},
        }
        i += 1;
    }
    found
}

/// `PipelineCycle` for each of the first `n` steps that repeats an earlier step.
pub open spec fn repeat_findings(m: ModSection, n: int) -> Seq<Finding>
    decreases n,
{
    if n <= 0 {
        Seq::empty()
    } else {
        let prev = repeat_findings(m, n - 1);
        let step = m.pipeline@[n - 1]@;
        if listed(m.pipeline@, step, n - 1) {
            prev.push(
                error_finding(
                    "PipelineCycle"@,
                    "mod "@ + mod_id(m) + ": pipeline has a cycle involving "@ + step
                        + " (appears multiple times)"@,
                    mod_id(m) + ".pipeline"@,
                ),
            )
        } else {
            prev
        }
    }
}

/// `PipelineTypeMismatch` for the adjacent pair of steps ending at step `k`.
pub open spec fn pair_findings(secs: Seq<Section>, m: ModSection, k: int) -> Seq<Finding> {
    let f1 = m.pipeline@[k - 1]@;
    let f2 = m.pipeline@[k]@;
    match (func_named(secs, f1, secs.len() as int), func_named(secs, f2, secs.len() as int)) {
        (Some(a), Some(b)) => if share_schema(a.output@, b.input@) {
            Seq::empty()
        } else {
            seq![
                warning_finding(
                    "PipelineTypeMismatch"@,
                    "mod "@ + mod_id(m) + ": pipeline step "@ + f1 + " -> "@ + f2
                        + " has no shared schema between output and input"@,
                    mod_id(m) + ".pipeline("@ + f1 + "->"@ + f2 + ")"@,
                ),
            ]
        },
        _ => Seq::empty(),
    }
}

/// Flow findings of the pairs ending at steps `1..n`.
pub open spec fn flow_findings(secs: Seq<Section>, m: ModSection, n: int) -> Seq<Finding>
    decreases n,
{
    if n <= 1 {
        Seq::empty()
    } else {
        flow_findings(secs, m, n - 1) + pair_findings(secs, m, n - 1)
    }
}

/// Pipeline semantics over the first `n` sections.
pub open spec fn pipeline_findings(secs: Seq<Section>, ix: Seq<int>, n: int) -> Seq<Finding>
    decreases n,
{
    if n <= 0 {
        Seq::empty()
    } else {
        pipeline_findings(secs, ix, n - 1) + match secs[ix[n - 1]] {
            Section::Mod(m) => repeat_findings(m, m.pipeline@.len() as int) + flow_findings(
                secs,
                m,
                m.pipeline@.len() as int,
            ),
            _ => Seq::empty(),
        }
    }
}

fn check_one_pipeline(secs: &Vec<Section>, m: &ModSection, diags: &mut Vec<Diagnostic>)
    ensures
        findings(final(diags)@) == findings(old(diags)@) + repeat_findings(
            *m,
            m.pipeline@.len() as int,
        ) + flow_findings(secs@, *m, m.pipeline@.len() as int),
{
    let ghost d0 = findings(diags@);
    let mid = mod_id_exec(m);
    let n = m.pipeline.len();
    let mut i: usize = 0;
    while i < n
        invariant
            i <= n,
            n == m.pipeline@.len(),
            mid@ == mod_id(*m),
            findings(diags@) == d0 + repeat_findings(*m, i as int),
        decreases n - i,
    {
        let step = m.pipeline[i].as_str();
        let mut seen = false;
        let mut j: usize = 0;
        while j < i
            invariant
                j <= i,
                i < n,
                n == m.pipeline@.len(),
                step@ == m.pipeline@[i as int]@,
                seen == listed(m.pipeline@, step@, j as int),
            decreases i - j,
        {
            if same_text(m.pipeline[j].as_str(), step) {
                seen = true;
            }
            proof {
                if !seen {
                    assert(!listed(m.pipeline@, step@, j + 1));
                }
            }
            j += 1;
        }
        if seen {
            let mut msg = String::from_str("mod ");
            msg.append(mid.as_str());
            msg.append(": pipeline has a cycle involving ");
            msg.append(step);
            msg.append(" (appears multiple times)");
            let loc = join2(mid.as_str(), ".pipeline");
            let ghost before = diags@;
            let d = new_error("PipelineCycle", msg, loc);
            diags.push(d);
            proof {
                assert(findings(diags@) =~= findings(before).push(d@));
            }
        }
        proof {
            assert(findings(diags@) =~= d0 + repeat_findings(*m, i + 1));
        }
        i += 1;
    }
    let ghost d1 = findings(diags@);
    let mut k: usize = 1;
    proof {
        assert(findings(diags@) =~= d1 + flow_findings(secs@, *m, 1));
    }
    while k < n
        invariant
            1 <= k,
            k <= n || (n == 0 && k == 1),
            n == m.pipeline@.len(),
            mid@ == mod_id(*m),
            d1 == d0 + repeat_findings(*m, n as int),
            findings(diags@) == d1 + flow_findings(secs@, *m, k as int),
        decreases n - k,
    {
        let f1 = m.pipeline[k - 1].as_str();
        let f2 = m.pipeline[k].as_str();
        let ghost before = findings(diags@);
        match (find_func(secs, f1), find_func(secs, f2)) {
            (Some(a), Some(b)) => {
                if !has_common_schema(&a.output, &b.input) {
                    let mut msg = String::from_str("mod ");
                    msg.append(mid.as_str());
                    msg.append(": pipeline step ");
                    msg.append(f1);
                    msg.append(" -> ");
                    msg.append(f2);
                    msg.append(" has no shared schema between output and input");
                    let mut loc = mid.clone();
                    loc.append(".pipeline(");
                    loc.append(f1);
                    loc.append("->");
                    loc.append(f2);
                    loc.append(")");
                    diags.push(new_warning("PipelineTypeMismatch", msg, loc));
                }
            },
            _ => {},
        }
        proof {
            assert(findings(diags@) =~= before + pair_findings(secs@, *m, k as int));
            assert(findings(diags@) =~= d1 + flow_findings(secs@, *m, k + 1));
        }
        k += 1;
    }
    proof {
        if n == 0 {
            assert(flow_findings(secs@, *m, 0) =~= Seq::<Finding>::empty());
            assert(flow_findings(secs@, *m, 1) =~= Seq::<Finding>::empty());
        } else {
            assert(k == n);
        }
        assert(findings(diags@) =~= d0 + repeat_findings(*m, n as int) + flow_findings(
            secs@,
            *m,
            n as int,
        ));
    }
}

/// Section `sec` uses schema id `x`: as a func input or output, in a module's
/// `schemas`, or as a schema's `from`, `to` or `over` entry.
pub open spec fn uses_schema(sec: Section, x: Seq<char>) -> bool {
    match sec {
        Section::Func(f) => listed(f.input@, x, f.input@.len() as int) || listed(
            f.output@,
            x,
            f.output@.len() as int,
        ),
        Section::Mod(m) => listed(m.schemas@, x, m.schemas@.len() as int),
        Section::Schema(s) => (s.from@.len() > 0 && s.from@ == x) || (s.to@.len() > 0 && s.to@
            == x) || listed(s.over@, x, s.over@.len() as int),
        _ => false,
    }
}

/// Section `sec` uses func id `x`: in a module's `funcs` or `pipeline`.
pub open spec fn uses_func(sec: Section, x: Seq<char>) -> bool {
    match sec {
        Section::Mod(m) => listed(m.funcs@, x, m.funcs@.len() as int) || listed(
            m.pipeline@,
            x,
            m.pipeline@.len() as int,
        ),
        _ => false,
    }
}

/// Some declaration of the index uses schema id `x`.
pub open spec fn index_uses_schema(secs: Seq<Section>, ix: Seq<int>, x: Seq<char>) -> bool {
    exists|k: int| 0 <= k < ix.len() && uses_schema(secs[#[trigger] ix[k]], x)
}

/// Some module of the index uses func id `x`.
pub open spec fn index_uses_func(secs: Seq<Section>, ix: Seq<int>, x: Seq<char>) -> bool {
    exists|k: int| 0 <= k < ix.len() && uses_func(secs[#[trigger] ix[k]], x)
}

/// Schema id `x` is used by one of the unit's indexed funcs, modules or schemas.
pub open spec fn schema_used(secs: Seq<Section>, x: Seq<char>) -> bool {
    index_uses_schema(secs, id_index(secs, SymbolKind::Func), x) || index_uses_schema(
        secs,
        id_index(secs, SymbolKind::Mod),
        x,
    ) || index_uses_schema(secs, id_index(secs, SymbolKind::Schema), x)
}

/// Func id `x` is listed by one of the unit's indexed modules.
pub open spec fn func_used(secs: Seq<Section>, x: Seq<char>) -> bool {
    index_uses_func(secs, id_index(secs, SymbolKind::Mod), x)
}

fn uses_in_index(secs: &Vec<Section>, ix: &Vec<usize>, x: &str, schemas: bool) -> (r: bool)
    requires
        forall|t: int| 0 <= t < ix@.len() ==> #[trigger] ix@[t] < secs@.len(),
    ensures
        schemas ==> r == index_uses_schema(secs@, positions(ix@), x@),
        !schemas ==> r == index_uses_func(secs@, positions(ix@), x@),
{
    let ghost pv = positions(ix@);
    let mut i: usize = 0;
    while i < ix.len()
        invariant
            i <= ix@.len(),
            pv == positions(ix@),
            forall|t: int| 0 <= t < ix@.len() ==> #[trigger] ix@[t] < secs@.len(),
            schemas ==> forall|k: int| 0 <= k < i ==> !uses_schema(secs@[#[trigger] pv[k]], x@),
            !schemas ==> forall|k: int| 0 <= k < i ==> !uses_func(secs@[#[trigger] pv[k]], x@),
        decreases ix@.len() - i,
    {
        assert(pv[i as int] == ix@[i as int] as int);
        let hit = match &secs[ix[i]] {
            Section::Func(f) => schemas && (is_listed(&f.input, x) || is_listed(&f.output, x)),
            Section::Mod(m) => if schemas {
                is_listed(&m.schemas, x)
            } else {
                is_listed(&m.funcs, x) || is_listed(&m.pipeline, x)
            },
            Section::Schema(s) => schemas && ((s.from.unicode_len() > 0 && same_text(s.from.as_str(), x))
                || (s.to.unicode_len() > 0 && same_text(s.to.as_str(), x)) || is_listed(&s.over, x)),
            _ => false,
        };
        if hit {
            return true;
        }
        i += 1;
    }
    false
}

/// `UnusedSchema` for each of the first `n` sections that is a schema nothing uses.
pub open spec fn unused_schema_findings(secs: Seq<Section>, ix: Seq<int>, n: int) -> Seq<Finding>
    decreases n,
{
    if n <= 0 {
        Seq::empty()
    } else {
        unused_schema_findings(secs, ix, n - 1) + match secs[ix[n - 1]] {
            Section::Schema(s) => if schema_used(secs, schema_id(s)) {
                Seq::empty()
            } else {
                seq![
                    warning_finding(
                        "UnusedSchema"@,
                        "schema "@ + schema_id(s) + " is defined but never referenced"@,
                        schema_id(s),
                    ),
                ]
            },
            _ => Seq::empty(),
        }
    }
}

/// `UnusedFunc` for each of the first `n` sections that is a func no module lists.
pub open spec fn unused_func_findings(secs: Seq<Section>, ix: Seq<int>, n: int) -> Seq<Finding>
    decreases n,
{
    if n <= 0 {
        Seq::empty()
    } else {
        unused_func_findings(secs, ix, n - 1) + match secs[ix[n - 1]] {
            Section::Func(f) => if func_used(secs, func_id(f)) {
                Seq::empty()
            } else {
                seq![
                    warning_finding(
                        "UnusedFunc"@,
                        "func "@ + func_id(f) + " is defined but never referenced in any mod"@,
                        func_id(f),
                    ),
                ]
            },
            _ => Seq::empty(),
        }
    }
}

/// Everything the unit checker reports on a unit, pass after pass; each pass visits
/// the declarations it is about in id order, one per id (the last one declared).
pub open spec fn unit_check_findings(secs: Seq<Section>) -> Seq<Finding> {
    let si = id_index(secs, SymbolKind::Schema);
    let fi = id_index(secs, SymbolKind::Func);
    let mi = id_index(secs, SymbolKind::Mod);
    func_schema_findings(secs, fi, fi.len() as int) + mod_ref_findings(secs, mi, mi.len() as int)
        + link_findings(secs, si, si.len() as int) + pipeline_findings(secs, mi, mi.len() as int)
        + unused_schema_findings(secs, si, si.len() as int) + unused_func_findings(
        secs,
        fi,
        fi.len() as int,
    )
}

fn check_func_schemas(secs: &Vec<Section>, ix: &Vec<usize>, diags: &mut Vec<Diagnostic>)
    requires
        forall|t: int| 0 <= t < ix@.len() ==> #[trigger] ix@[t] < secs@.len(),
    ensures
        findings(final(diags)@) == findings(old(diags)@) + func_schema_findings(secs@, positions(ix@), ix@.len() as int),
{
    let ghost d0 = findings(diags@);
    let mut i: usize = 0;
    proof {
        assert(findings(diags@) =~= d0 + func_schema_findings(secs@, positions(ix@), 0));
    }
    while i < ix.len()
        invariant
            i <= ix@.len(),
            forall|t: int| 0 <= t < ix@.len() ==> #[trigger] ix@[t] < secs@.len(),
            findings(diags@) == d0 + func_schema_findings(secs@, positions(ix@), i as int),
        decreases ix@.len() - i,
    {
        let ghost before = findings(diags@);
        match &secs[ix[i]] {
            Section::Func(f) => {
                let fid = func_id_exec(f);
                let lead = join3("func ", fid.as_str(), ": input schema ");
                let at = join2(fid.as_str(), ".input(");
                report_missing(secs, true, &f.input, "UndefinedSchema", lead.as_str(), at.as_str(), diags);
                let lead = join3("func ", fid.as_str(), ": output schema ");
                let at = join2(fid.as_str(), ".output(");
                report_missing(secs, true, &f.output, "UndefinedSchema", lead.as_str(), at.as_str(), diags);
            },
            _ => {},
        }
        proof {
            assert(findings(diags@) =~= d0 + func_schema_findings(secs@, positions(ix@), i + 1));
        }
        i += 1;
    }
}

fn check_mod_references(secs: &Vec<Section>, ix: &Vec<usize>, diags: &mut Vec<Diagnostic>)
    requires
        forall|t: int| 0 <= t < ix@.len() ==> #[trigger] ix@[t] < secs@.len(),
    ensures
        findings(final(diags)@) == findings(old(diags)@) + mod_ref_findings(secs@, positions(ix@), ix@.len() as int),
{
    let ghost d0 = findings(diags@);
    let mut i: usize = 0;
    proof {
        assert(findings(diags@) =~= d0 + mod_ref_findings(secs@, positions(ix@), 0));
    }
    while i < ix.len()
        invariant
            i <= ix@.len(),
            forall|t: int| 0 <= t < ix@.len() ==> #[trigger] ix@[t] < secs@.len(),
            findings(diags@) == d0 + mod_ref_findings(secs@, positions(ix@), i as int),
        decreases ix@.len() - i,
    {
        match &secs[ix[i]] {
            Section::Mod(m) => {
                let mid = mod_id_exec(m);
                let lead = join3("mod ", mid.as_str(), ": schema ");
                let at = join2(mid.as_str(), ".schemas(");
                report_missing(secs, true, &m.schemas, "UndefinedSchemaInMod", lead.as_str(), at.as_str(), diags);
                let lead = join3("mod ", mid.as_str(), ": func ");
                let at = join2(mid.as_str(), ".funcs(");
                report_missing(secs, false, &m.funcs, "UndefinedFuncInMod", lead.as_str(), at.as_str(), diags);
                let lead = join3("mod ", mid.as_str(), ": pipeline step ");
                let at = join2(mid.as_str(), ".pipeline(");
                report_missing(
                    secs,
                    false,
                    &m.pipeline,
                    "UndefinedFuncInPipeline",
                    lead.as_str(),
                    at.as_str(),
                    diags,
                );
            },
            _ => {},
        }
        proof {
            assert(findings(diags@) =~= d0 + mod_ref_findings(secs@, positions(ix@), i + 1));
        }
        i += 1;
    }
}

fn check_schema_links(secs: &Vec<Section>, ix: &Vec<usize>, diags: &mut Vec<Diagnostic>)
    requires
        forall|t: int| 0 <= t < ix@.len() ==> #[trigger] ix@[t] < secs@.len(),
    ensures
        findings(final(diags)@) == findings(old(diags)@) + link_findings(secs@, positions(ix@), ix@.len() as int),
{
    let ghost d0 = findings(diags@);
    let mut i: usize = 0;
    proof {
        assert(findings(diags@) =~= d0 + link_findings(secs@, positions(ix@), 0));
    }
    while i < ix.len()
        invariant
            i <= ix@.len(),
            forall|t: int| 0 <= t < ix@.len() ==> #[trigger] ix@[t] < secs@.len(),
            findings(diags@) == d0 + link_findings(secs@, positions(ix@), i as int),
        decreases ix@.len() - i,
    {
        match &secs[ix[i]] {
            Section::Schema(s) => {
                if same_text(s.kind.as_str(), "edge") {
                    report_edge_end(secs, s, s.from.as_str(), "UndefinedSchemaInEdgeFrom", "from", diags);
                    report_edge_end(secs, s, s.to.as_str(), "UndefinedSchemaInEdgeTo", "to", diags);
                } else if same_text(s.kind.as_str(), "boundary") {
                    let sid = schema_id_exec(s);
                    let lead = join3("schema ", sid.as_str(), ": boundary.over ");
                    let at = join2(sid.as_str(), ".over(");
                    report_missing(
                        secs,
                        true,
                        &s.over,
                        "UndefinedSchemaInBoundary",
                        lead.as_str(),
                        at.as_str(),
                        diags,
                    );
                }
            },
            _ => {},
        }
        proof {
            assert(findings(diags@) =~= d0 + link_findings(secs@, positions(ix@), i + 1));
        }
        i += 1;
    }
}

fn check_pipeline_semantics(secs: &Vec<Section>, ix: &Vec<usize>, diags: &mut Vec<Diagnostic>)
    requires
        forall|t: int| 0 <= t < ix@.len() ==> #[trigger] ix@[t] < secs@.len(),
    ensures
        findings(final(diags)@) == findings(old(diags)@) + pipeline_findings(secs@, positions(ix@), ix@.len() as int),
{
    let ghost d0 = findings(diags@);
    let mut i: usize = 0;
    proof {
        assert(findings(diags@) =~= d0 + pipeline_findings(secs@, positions(ix@), 0));
    }
    while i < ix.len()
        invariant
            i <= ix@.len(),
            forall|t: int| 0 <= t < ix@.len() ==> #[trigger] ix@[t] < secs@.len(),
            findings(diags@) == d0 + pipeline_findings(secs@, positions(ix@), i as int),
        decreases ix@.len() - i,
    {
        match &secs[ix[i]] {
            Section::Mod(m) => {
                check_one_pipeline(secs, m, diags);
            },
            _ => {},
        }
        proof {
            assert(findings(diags@) =~= d0 + pipeline_findings(secs@, positions(ix@), i + 1));
        }
        i += 1;
    }
}

fn check_unused_definitions(
    secs: &Vec<Section>,
    si: &Vec<usize>,
    fi: &Vec<usize>,
    mi: &Vec<usize>,
    diags: &mut Vec<Diagnostic>,
)
    requires
        positions(si@) == id_index(secs@, SymbolKind::Schema),
        positions(fi@) == id_index(secs@, SymbolKind::Func),
        positions(mi@) == id_index(secs@, SymbolKind::Mod),
        forall|t: int| 0 <= t < si@.len() ==> #[trigger] si@[t] < secs@.len(),
        forall|t: int| 0 <= t < fi@.len() ==> #[trigger] fi@[t] < secs@.len(),
        forall|t: int| 0 <= t < mi@.len() ==> #[trigger] mi@[t] < secs@.len(),
    ensures
        findings(final(diags)@) == findings(old(diags)@) + unused_schema_findings(
            secs@,
            positions(si@),
            si@.len() as int,
        ) + unused_func_findings(secs@, positions(fi@), fi@.len() as int),
{
    let ghost d0 = findings(diags@);
    let mut i: usize = 0;
    proof {
        assert(findings(diags@) =~= d0 + unused_schema_findings(secs@, positions(si@), 0));
    }
    while i < si.len()
        invariant
            i <= si@.len(),
            positions(si@) == id_index(secs@, SymbolKind::Schema),
            positions(fi@) == id_index(secs@, SymbolKind::Func),
            positions(mi@) == id_index(secs@, SymbolKind::Mod),
            forall|t: int| 0 <= t < si@.len() ==> #[trigger] si@[t] < secs@.len(),
            forall|t: int| 0 <= t < fi@.len() ==> #[trigger] fi@[t] < secs@.len(),
            forall|t: int| 0 <= t < mi@.len() ==> #[trigger] mi@[t] < secs@.len(),
            findings(diags@) == d0 + unused_schema_findings(secs@, positions(si@), i as int),
        decreases si@.len() - i,
    {
        assert(positions(si@)[i as int] == si@[i as int] as int);
        match &secs[si[i]] {
            Section::Schema(s) => {
                let sid = schema_id_exec(s);
                let used = uses_in_index(secs, fi, sid.as_str(), true) || uses_in_index(
                    secs,
                    mi,
                    sid.as_str(),
                    true,
                ) || uses_in_index(secs, si, sid.as_str(), true);
                if !used {
                    let msg = join3("schema ", sid.as_str(), " is defined but never referenced");
                    let ghost before = diags@;
                    let d = new_warning("UnusedSchema", msg, sid);
                    diags.push(d);
                    proof {
                        assert(findings(diags@) =~= findings(before).push(d@));
                    }
                }
            },
            _ => {},
        }
        proof {
            assert(findings(diags@) =~= d0 + unused_schema_findings(secs@, positions(si@), i + 1));
        }
        i += 1;
    }
    let ghost d1 = findings(diags@);
    let mut i: usize = 0;
    proof {
        assert(findings(diags@) =~= d1 + unused_func_findings(secs@, positions(fi@), 0));
    }
    while i < fi.len()
        invariant
            i <= fi@.len(),
            positions(fi@) == id_index(secs@, SymbolKind::Func),
            positions(mi@) == id_index(secs@, SymbolKind::Mod),
            forall|t: int| 0 <= t < fi@.len() ==> #[trigger] fi@[t] < secs@.len(),
            forall|t: int| 0 <= t < mi@.len() ==> #[trigger] mi@[t] < secs@.len(),
            findings(diags@) == d1 + unused_func_findings(secs@, positions(fi@), i as int),
        decreases fi@.len() - i,
    {
        assert(positions(fi@)[i as int] == fi@[i as int] as int);
        match &secs[fi[i]] {
            Section::Func(f) => {
                let fid = func_id_exec(f);
                if !uses_in_index(secs, mi, fid.as_str(), false) {
                    let msg = join3(
                        "func ",
                        fid.as_str(),
                        " is defined but never referenced in any mod",
                    );
                    let ghost before = diags@;
                    let d = new_warning("UnusedFunc", msg, fid);
                    diags.push(d);
                    proof {
                        assert(findings(diags@) =~= findings(before).push(d@));
                    }
                }
            },
            _ => {},
        }
        proof {
            assert(findings(diags@) =~= d1 + unused_func_findings(secs@, positions(fi@), i + 1));
        }
        i += 1;
    }
}

/// Checks one unit: func↔schema existence, module references, schema link shape,
/// pipeline repetition and flow, and unused definitions, in that order. Each pass
/// visits its declarations in id order, one per id (the last one declared).
pub fn check_surv_file(file: &SurvFile) -> (r: Vec<Diagnostic>)
    ensures
        findings(r@) == unit_check_findings(file.sections@),
{
    let secs = &file.sections;
    let si = index_of(secs, SymbolKind::Schema);
    let fi = index_of(secs, SymbolKind::Func);
    let mi = index_of(secs, SymbolKind::Mod);
    let mut diags: Vec<Diagnostic> = Vec::new();
    proof {
        assert(findings(diags@) =~= Seq::<Finding>::empty());
    }
    check_func_schemas(secs, &fi, &mut diags);
    check_mod_references(secs, &mi, &mut diags);
    check_schema_links(secs, &si, &mut diags);
    check_pipeline_semantics(secs, &mi, &mut diags);
    check_unused_definitions(secs, &si, &fi, &mi, &mut diags);
    proof {
        assert(findings(diags@) =~= unit_check_findings(secs@));
    }
    diags
}

/// Same as [`check_surv_file`].
pub fn check_surv_ast(file: &SurvFile) -> (r: Vec<Diagnostic>)
    ensures
        findings(r@) == unit_check_findings(file.sections@),
{
    check_surv_file(file)
}

proof fn lemma_unused_schema_locations(secs: Seq<Section>, ix: Seq<int>, n: int)
    ensures
        forall|i: int|
            0 <= i < unused_schema_findings(secs, ix, n).len() ==> !schema_used(
                secs,
                #[trigger] unused_schema_findings(secs, ix, n)[i].location,
            ),
    decreases n,
{
    if n > 0 {
        lemma_unused_schema_locations(secs, ix, n - 1);
        let prev = unused_schema_findings(secs, ix, n - 1);
        let all = unused_schema_findings(secs, ix, n);
        assert forall|i: int| 0 <= i < all.len() implies !schema_used(
            secs,
            #[trigger] all[i].location,
        ) by {
            if i < prev.len() {
                assert(all[i] == prev[i]);
            }
        }
    }
}

/// Unused audit: a schema that an indexed schema declaration (the last one of its id)
/// names as its `from` end is used, so the audit reports no `UnusedSchema` at its id,
/// however else it is referenced.
pub proof fn lemma_edge_from_counts_as_use(secs: Seq<Section>, k: int, x: Seq<char>)
    requires
        0 <= k < id_index(secs, SymbolKind::Schema).len(),
        secs[id_index(secs, SymbolKind::Schema)[k]] is Schema,
        secs[id_index(secs, SymbolKind::Schema)[k]]->Schema_0.from@ == x,
        x.len() > 0,
    ensures
        schema_used(secs, x),
        forall|i: int|
            0 <= i < unused_schema_findings(secs, id_index(secs, SymbolKind::Schema), id_index(secs, SymbolKind::Schema).len() as int).len()
                ==> (#[trigger] unused_schema_findings(secs, id_index(secs, SymbolKind::Schema), id_index(secs, SymbolKind::Schema).len() as int)[i]).location != x,
{
    let si = id_index(secs, SymbolKind::Schema);
    assert(uses_schema(secs[si[k]], x));
    lemma_unused_schema_locations(secs, si, si.len() as int);
}

/// Pipeline repetition: a pipeline `[a, b, a]` with `a` and `b` distinct yields exactly
/// one `PipelineCycle`, located at the module's pipeline and naming `a`.
pub proof fn lemma_repeated_step_reported_once(m: ModSection)
    requires
        m.pipeline@.len() == 3,
        m.pipeline@[0]@ == m.pipeline@[2]@,
        m.pipeline@[0]@ != m.pipeline@[1]@,
    ensures
        repeat_findings(m, 3) == seq![
            error_finding(
                "PipelineCycle"@,
                "mod "@ + mod_id(m) + ": pipeline has a cycle involving "@ + m.pipeline@[0]@
                    + " (appears multiple times)"@,
                mod_id(m) + ".pipeline"@,
            ),
        ],
{
    let p = m.pipeline@;
    assert(!listed(p, p[0]@, 0));
    assert(!listed(p, p[1]@, 1));
    assert(p[0]@ == p[2]@);
    assert(listed(p, p[2]@, 2));
    assert(repeat_findings(m, 0) =~= Seq::<Finding>::empty());
    assert(repeat_findings(m, 1) =~= Seq::<Finding>::empty());
    assert(repeat_findings(m, 2) =~= Seq::<Finding>::empty());
    assert(repeat_findings(m, 3) =~= seq![
        error_finding(
            "PipelineCycle"@,
            "mod "@ + mod_id(m) + ": pipeline has a cycle involving "@ + p[0]@
                + " (appears multiple times)"@,
            mod_id(m) + ".pipeline"@,
        ),
    ]);
}

/// Pipeline flow: a pipeline `[a, b]` of two distinct declared funcs whose output and
/// input share no schema yields no `PipelineCycle` and exactly one
/// `PipelineTypeMismatch`, a warning.
pub proof fn lemma_disjoint_pair_mismatch(secs: Seq<Section>, m: ModSection)
    requires
        m.pipeline@.len() == 2,
        m.pipeline@[0]@ != m.pipeline@[1]@,
        func_named(secs, m.pipeline@[0]@, secs.len() as int) is Some,
        func_named(secs, m.pipeline@[1]@, secs.len() as int) is Some,
        !share_schema(
            func_named(secs, m.pipeline@[0]@, secs.len() as int)->0.output@,
            func_named(secs, m.pipeline@[1]@, secs.len() as int)->0.input@,
        ),
    ensures
        repeat_findings(m, 2) == Seq::<Finding>::empty(),
        flow_findings(secs, m, 2).len() == 1,
        flow_findings(secs, m, 2)[0].kind == "PipelineTypeMismatch"@,
        flow_findings(secs, m, 2)[0].severity == "warning"@,
{
    let p = m.pipeline@;
    assert(!listed(p, p[0]@, 0));
    assert(!listed(p, p[1]@, 1));
    assert(repeat_findings(m, 0) =~= Seq::<Finding>::empty());
    assert(repeat_findings(m, 1) =~= Seq::<Finding>::empty());
    assert(repeat_findings(m, 2) =~= Seq::<Finding>::empty());
    assert(flow_findings(secs, m, 1) =~= Seq::<Finding>::empty());
    assert(flow_findings(secs, m, 2) =~= pair_findings(secs, m, 1));
}

} // verus!
