//! The deploy checker: references, job-graph cycles and reachability, secret
//! scoping, production safety and side-effect policy of one Deploy IR unit.
use vstd::prelude::*;

use crate::deploy::ast::{find_named, has_named, lookup_named, DeployFile, Gate, Job, Named, Release};
use crate::diagnostic::{
    error_finding, finding, findings, has_kind, join2, join3, new_error, new_warning, warning_finding,
    Diagnostic, Finding,
};
use crate::graph::{arrow_path, arrow_text, cycles_view, named_cycles, names_view, pairs_view, valid_cycles};
use crate::text::{same_text, starts_with_text, strip_or_keep, strip_or_keep_text};

verus! {

/// `"Job '" + name + "'"`, the opening of most job messages.
pub open spec fn job_lead(j: Job) -> Seq<char> {
    "Job '"@ + j.name@ + "'"@
}

/// One finding for each of the first `n` references of `refs` whose name (after
/// `prefix`) `v` lacks; an empty reference counts only when `keep_empty`.
/// The message of reference `x` is `lead + x + "'"`.
pub open spec fn absent_findings<T: Named>(
    v: Seq<T>,
    refs: Seq<String>,
    prefix: Seq<char>,
    keep_empty: bool,
    severity: Seq<char>,
    code: Seq<char>,
    lead: Seq<char>,
    location: Seq<char>,
    n: int,
) -> Seq<Finding>
    decreases n,
{
    if n <= 0 {
        Seq::empty()
    } else {
        let prev = absent_findings(v, refs, prefix, keep_empty, severity, code, lead, location, n - 1);
        let x = refs[n - 1]@;
        if (keep_empty || x.len() > 0) && !has_named(v, strip_or_keep(x, prefix)) {
            prev.push(finding(severity, code, lead + x + "'"@, location))
        } else {
            prev
        }
    }
}

pub open spec fn all_absent<T: Named>(
    v: Seq<T>,
    refs: Seq<String>,
    prefix: Seq<char>,
    keep_empty: bool,
    severity: Seq<char>,
    code: Seq<char>,
    lead: Seq<char>,
    location: Seq<char>,
) -> Seq<Finding> {
    absent_findings(v, refs, prefix, keep_empty, severity, code, lead, location, refs.len() as int)
}

/// The error for a single reference `x` that is set but names nothing of `v`.
pub open spec fn absent_one<T: Named>(
    v: Seq<T>,
    x: Seq<char>,
    prefix: Seq<char>,
    code: Seq<char>,
    lead: Seq<char>,
    location: Seq<char>,
) -> Seq<Finding> {
    if x.len() > 0 && !has_named(v, strip_or_keep(x, prefix)) {
        seq![error_finding(code, lead + x + "'"@, location)]
    } else {
        Seq::empty()
    }
}

fn report_absent<T: Named>(
    v: &Vec<T>,
    refs: &Vec<String>,
    prefix: &str,
    keep_empty: bool,
    error: bool,
    code: &str,
    lead: &str,
    location: &str,
    diags: &mut Vec<Diagnostic>,
)
    ensures
        findings(final(diags)@) == findings(old(diags)@) + all_absent(
            v@,
            refs@,
            prefix@,
            keep_empty,
            if error {
                "error"@
            } else {
                "warning"@
            },
            code@,
            lead@,
            location@,
        ),
{
    let ghost sev = if error {
        "error"@
    } else {
        "warning"@
    };
    let ghost d0 = findings(diags@);
    let mut i: usize = 0;
    proof {
        assert(findings(diags@) =~= d0 + absent_findings(
            v@,
            refs@,
            prefix@,
            keep_empty,
            sev,
            code@,
            lead@,
            location@,
            0,
        ));
    }
    while i < refs.len()
        invariant
            i <= refs@.len(),
            sev == if error {
                "error"@
            } else {
                "warning"@
            },
            findings(diags@) == d0 + absent_findings(
                v@,
                refs@,
                prefix@,
                keep_empty,
                sev,
                code@,
                lead@,
                location@,
                i as int,
            ),
        decreases refs@.len() - i,
    {
        let x = refs[i].as_str();
        let ghost before = diags@;
        if (keep_empty || x.unicode_len() > 0) && find_named(v, strip_or_keep_text(x, prefix)).is_none() {
            let msg = join3(lead, x, "'");
            assert(x@ == refs@[i as int]@);
            assert(msg@ == lead@ + refs@[i as int]@ + "'"@);
            let loc = String::from_str(location);
            let d = if error {
                new_error(code, msg, loc)
            } else {
                new_warning(code, msg, loc)
            };
            assert(d@ == finding(sev, code@, lead@ + refs@[i as int]@ + "'"@, location@));
            diags.push(d);
            proof {
                assert(findings(diags@) =~= findings(before).push(d@));
            }
        }
        proof {
            assert(findings(diags@) =~= d0 + absent_findings(
                v@,
                refs@,
                prefix@,
                keep_empty,
                sev,
                code@,
                lead@,
                location@,
                i + 1,
            ));
        }
        i += 1;
    }
}

fn report_absent_one<T: Named>(
    v: &Vec<T>,
    x: &str,
    prefix: &str,
    code: &str,
    lead: &str,
    location: &str,
    diags: &mut Vec<Diagnostic>,
)
    ensures
        findings(final(diags)@) == findings(old(diags)@) + absent_one(
            v@,
            x@,
            prefix@,
            code@,
            lead@,
            location@,
        ),
{
    let ghost d0 = findings(diags@);
    if x.unicode_len() > 0 && find_named(v, strip_or_keep_text(x, prefix)).is_none() {
        let msg = join3(lead, x, "'");
        diags.push(new_error(code, msg, String::from_str(location)));
    }
    proof {
        assert(findings(diags@) =~= d0 + absent_one(v@, x@, prefix@, code@, lead@, location@));
    }
}

/// `deploy.job.<name>`.
pub open spec fn job_path(j: Job) -> Seq<char> {
    "deploy.job."@ + j.name@
}

/// `deploy.job.<name>` followed by `rest`.
pub open spec fn job_at(j: Job, rest: Seq<char>) -> Seq<char> {
    "deploy.job."@ + j.name@ + rest
}

/// Reference validation of one job.
pub open spec fn job_ref_findings(d: DeployFile, j: Job) -> Seq<Finding> {
    all_absent(
        d.jobs@,
        j.requires@,
        "job."@,
        false,
        "error"@,
        "UndefinedJobReference"@,
        job_lead(j) + " requires undefined job '"@,
        job_at(j, ".requires"@),
    ) + absent_one(
        d.targets@,
        j.uses_target@,
        "target."@,
        "UndefinedTargetReference"@,
        job_lead(j) + " references undefined target '"@,
        job_at(j, ".uses_target"@),
    ) + all_absent(
        d.secrets@,
        j.needs_secrets@,
        "secret."@,
        true,
        "error"@,
        "UndefinedSecretReference"@,
        job_lead(j) + " references undefined secret '"@,
        job_at(j, ".needs_secrets"@),
    ) + absent_one(
        d.perms@,
        j.uses_perm@,
        "perm."@,
        "UndefinedPermReference"@,
        job_lead(j) + " references undefined permission '"@,
        job_at(j, ".uses_perm"@),
    ) + all_absent(
        d.artifacts@,
        j.produces@,
        "artifact."@,
        true,
        "warning"@,
        "UndefinedArtifactReference"@,
        job_lead(j) + " produces undefined artifact '"@,
        job_at(j, ".produces"@),
    )
}

/// What a per-job pass reports over the first `n` jobs.
pub open spec fn per_job(d: DeployFile, pass: spec_fn(DeployFile, Job) -> Seq<Finding>, n: int) -> Seq<
    Finding,
>
    decreases n,
{
    if n <= 0 {
        Seq::empty()
    } else {
        per_job(d, pass, n - 1) + pass(d, d.jobs@[n - 1])
    }
}

fn job_text(j: &Job, rest: &str) -> (r: String)
    ensures
        r@ == job_at(*j, rest@),
{
    join3("deploy.job.", j.name.as_str(), rest)
}

fn job_lead_text(j: &Job, rest: &str) -> (r: String)
    ensures
        r@ == job_lead(*j) + rest@,
{
    join4("Job '", j.name.as_str(), "'", rest)
}

use crate::diagnostic::join4;

fn check_job_refs(d: &DeployFile, j: &Job, diags: &mut Vec<Diagnostic>)
    ensures
        findings(final(diags)@) == findings(old(diags)@) + job_ref_findings(*d, *j),
{
    let ghost d0 = findings(diags@);
    let lead = job_lead_text(j, " requires undefined job '");
    let loc = job_text(j, ".requires");
    report_absent(&d.jobs, &j.requires, "job.", false, true, "UndefinedJobReference", lead.as_str(), loc.as_str(), diags);
    let lead = job_lead_text(j, " references undefined target '");
    let loc = job_text(j, ".uses_target");
    report_absent_one(&d.targets, j.uses_target.as_str(), "target.", "UndefinedTargetReference", lead.as_str(), loc.as_str(), diags);
    let lead = job_lead_text(j, " references undefined secret '");
    let loc = job_text(j, ".needs_secrets");
    report_absent(&d.secrets, &j.needs_secrets, "secret.", true, true, "UndefinedSecretReference", lead.as_str(), loc.as_str(), diags);
    let lead = job_lead_text(j, " references undefined permission '");
    let loc = job_text(j, ".uses_perm");
    report_absent_one(&d.perms, j.uses_perm.as_str(), "perm.", "UndefinedPermReference", lead.as_str(), loc.as_str(), diags);
    let lead = job_lead_text(j, " produces undefined artifact '");
    let loc = job_text(j, ".produces");
    report_absent(&d.artifacts, &j.produces, "artifact.", true, false, "UndefinedArtifactReference", lead.as_str(), loc.as_str(), diags);
    proof {
        assert(findings(diags@) =~= d0 + job_ref_findings(*d, *j));
    }
}

/// The edges of the job graph: each job to each job it requires (without `job.`).
pub open spec fn job_pairs(jobs: Seq<Job>, n: int) -> Seq<(Seq<char>, Seq<char>)>
    decreases n,
{
    if n <= 0 {
        Seq::empty()
    } else {
        job_pairs(jobs, n - 1) + jobs[n - 1].requires@.map_values(
            |r: String| (jobs[n - 1].name@, strip_or_keep(r@, "job."@)),
        )
    }
}

pub open spec fn all_job_pairs(d: DeployFile) -> Seq<(Seq<char>, Seq<char>)> {
    job_pairs(d.jobs@, d.jobs@.len() as int)
}

fn build_job_graph(d: &DeployFile) -> (r: Vec<(String, String)>)
    ensures
        pairs_view(r@) == all_job_pairs(*d),
{
    let mut r: Vec<(String, String)> = Vec::new();
    let mut i: usize = 0;
    proof {
        assert(pairs_view(r@) =~= job_pairs(d.jobs@, 0));
    }
    while i < d.jobs.len()
        invariant
            i <= d.jobs@.len(),
            pairs_view(r@) == job_pairs(d.jobs@, i as int),
        decreases d.jobs@.len() - i,
    {
        let j = &d.jobs[i];
        let ghost base = pairs_view(r@);
        let ghost tail = j.requires@.map_values(|q: String| (j.name@, strip_or_keep(q@, "job."@)));
        let mut k: usize = 0;
        while k < j.requires.len()
            invariant
                k <= j.requires@.len(),
                tail == j.requires@.map_values(|q: String| (j.name@, strip_or_keep(q@, "job."@))),
                pairs_view(r@) == base + tail.take(k as int),
            decreases j.requires@.len() - k,
        {
            let to = String::from_str(strip_or_keep_text(j.requires[k].as_str(), "job."));
            let ghost r0 = r@;
            r.push((j.name.clone(), to));
            proof {
                assert(pairs_view(r@) =~= pairs_view(r0).push(tail[k as int]));
                assert(tail.take(k + 1) =~= tail.take(k as int).push(tail[k as int]));
            }
            k += 1;
        }
        proof {
            assert(tail.take(k as int) =~= tail);
            assert(d.jobs@[i as int] == *j);
        }
        i += 1;
    }
    r
}

/// `DeployCycle` for each of the first `n` cycles.
pub open spec fn deploy_cycle_findings(cs: Seq<Seq<Seq<char>>>, n: int) -> Seq<Finding>
    decreases n,
{
    if n <= 0 {
        Seq::empty()
    } else {
        let c = cs[n - 1];
        deploy_cycle_findings(cs, n - 1).push(
            error_finding(
                "DeployCycle"@,
                "Deploy DAG contains a cycle: "@ + arrow_path(c) + " -> "@ + c[0],
                "deploy.job"@,
            ),
        )
    }
}

fn check_dag_structure(d: &DeployFile, diags: &mut Vec<Diagnostic>) -> (cs: Ghost<Seq<Seq<Seq<char>>>>)
    ensures
        valid_cycles(all_job_pairs(*d), cs@),
        findings(final(diags)@) == findings(old(diags)@) + deploy_cycle_findings(
            cs@,
            cs@.len() as int,
        ),
{
    let ghost d0 = findings(diags@);
    let pairs = build_job_graph(d);
    let cycles = named_cycles(&pairs);
    let ghost cs = cycles_view(cycles@);
    let mut i: usize = 0;
    while i < cycles.len()
        invariant
            i <= cycles@.len(),
            cs == cycles_view(cycles@),
            forall|q: int| 0 <= q < cycles@.len() ==> (#[trigger] names_view(cycles@[q]@)).len() >= 1,
            findings(diags@) == d0 + deploy_cycle_findings(cs, i as int),
        decreases cycles@.len() - i,
    {
        let c = &cycles[i];
        assert(names_view(c@).len() >= 1);
        let mut msg = String::from_str("Deploy DAG contains a cycle: ");
        let path = arrow_text(c);
        msg.append(path.as_str());
        msg.append(" -> ");
        msg.append(c[0].as_str());
        let ghost before = diags@;
        let dg = new_error("DeployCycle", msg, String::from_str("deploy.job"));
        diags.push(dg);
        proof {
            assert(cs[i as int] == names_view(c@));
            assert(findings(diags@) =~= findings(before).push(dg@));
            assert(findings(diags@) =~= d0 + deploy_cycle_findings(cs, i + 1));
        }
        i += 1;
    }
    Ghost(cs)
}

/// Names of the jobs reachable from the entry points in at most `k` steps along
/// "is required by" edges.
pub open spec fn reached(jobs: Seq<Job>, k: nat) -> Set<Seq<char>>
    decreases k,
{
    if k == 0 {
        Set::new(|x: Seq<char>| exists|i: int| 0 <= i < jobs.len() && jobs[i].requires@.len() == 0 && #[trigger] jobs[i].name@ == x)
    } else {
        let prev = reached(jobs, (k - 1) as nat);
        prev.union(
            Set::new(
                |x: Seq<char>|
                    exists|i: int, r: int|
                        0 <= i < jobs.len() && #[trigger] jobs[i].name@ == x && 0 <= r
                            < jobs[i].requires@.len() && prev.contains(
                            strip_or_keep(#[trigger] jobs[i].requires@[r]@, "job."@),
                        ),
            ),
        )
    }
}

/// Reachability findings: `NoEntryPoint` when jobs exist but none is an entry point,
/// else `UnreachableJob` for each job outside the reachable set.
pub open spec fn reach_findings(d: DeployFile) -> Seq<Finding> {
    let jobs = d.jobs@;
    if jobs.len() == 0 {
        Seq::empty()
    } else if forall|i: int| 0 <= i < jobs.len() ==> #[trigger] jobs[i].requires@.len() > 0 {
        seq![
            error_finding(
                "NoEntryPoint"@,
                "No entry point jobs found (all jobs have dependencies)"@,
                "deploy.job"@,
            ),
        ]
    } else {
        unreachable_findings(jobs, reached(jobs, jobs.len() as nat), jobs.len() as int)
    }
}

pub open spec fn unreachable_findings(jobs: Seq<Job>, reach: Set<Seq<char>>, n: int) -> Seq<Finding>
    decreases n,
{
    if n <= 0 {
        Seq::empty()
    } else {
        let j = jobs[n - 1];
        unreachable_findings(jobs, reach, n - 1) + if reach.contains(j.name@) {
            Seq::empty()
        } else {
            seq![
                warning_finding(
                    "UnreachableJob"@,
                    job_lead(j) + " is unreachable (no path from any entry point)"@,
                    job_path(j),
                ),
            ]
        }
    }
}

/// Whether some job named like job `i` has a flag up.
fn name_flagged(jobs: &Vec<Job>, flags: &Vec<bool>, x: &str) -> (r: bool)
    requires
        flags@.len() == jobs@.len(),
    ensures
        r == exists|q: int| 0 <= q < jobs@.len() && flags@[q] && #[trigger] jobs@[q].name@ == x@,
{
    let mut q: usize = 0;
    while q < jobs.len()
        invariant
            q <= jobs@.len(),
            flags@.len() == jobs@.len(),
            forall|p: int| 0 <= p < q ==> !(flags@[p] && #[trigger] jobs@[p].name@ == x@),
        decreases jobs@.len() - q,
    {
        if flags[q] && same_text(jobs[q].name.as_str(), x) {
            return true;
        }
        q += 1;
    }
    false
}

/// One more step of reachability: the flags of `reached(k + 1)` from those of `reached(k)`.
fn reach_step(jobs: &Vec<Job>, flags: &Vec<bool>, k: Ghost<nat>) -> (r: Vec<bool>)
    requires
        flags@.len() == jobs@.len(),
        forall|i: int| 0 <= i < jobs@.len() ==> (#[trigger] flags@[i] <==> reached(jobs@, k@).contains(jobs@[i].name@)),
    ensures
        r@.len() == jobs@.len(),
        forall|i: int| 0 <= i < jobs@.len() ==> (#[trigger] r@[i] <==> reached(jobs@, k@ + 1).contains(jobs@[i].name@)),
{
    let ghost prev = reached(jobs@, k@);
    // a name is in `prev` exactly when some job of that name is flagged
    proof {
        assert forall|x: Seq<char>| prev.contains(x) implies exists|q: int| 0 <= q < jobs@.len() && flags@[q] && #[trigger] jobs@[q].name@ == x by {
            lemma_reached_names(jobs@, k@, x);
            let q = choose|q: int| 0 <= q < jobs@.len() && jobs@[q].name@ == x;
            assert(flags@[q]);
        }
    }
    // jobs with a flagged requirement
    let mut grows: Vec<bool> = Vec::new();
    let mut i: usize = 0;
    while i < jobs.len()
        invariant
            i <= jobs@.len(),
            grows@.len() == i,
            flags@.len() == jobs@.len(),
            prev == reached(jobs@, k@),
            forall|q: int| 0 <= q < jobs@.len() ==> (#[trigger] flags@[q] <==> prev.contains(jobs@[q].name@)),
            forall|x: Seq<char>| prev.contains(x) ==> exists|q: int| 0 <= q < jobs@.len() && flags@[q] && #[trigger] jobs@[q].name@ == x,
            forall|p: int| 0 <= p < i ==> (#[trigger] grows@[p] <==> exists|r: int| 0 <= r < jobs@[p].requires@.len() && prev.contains(strip_or_keep(#[trigger] jobs@[p].requires@[r]@, "job."@))),
        decreases jobs@.len() - i,
    {
        let j = &jobs[i];
        let mut hit = false;
        let mut r: usize = 0;
        while r < j.requires.len() && !hit
            invariant
                r <= j.requires@.len(),
                *j == jobs@[i as int],
                flags@.len() == jobs@.len(),
                forall|q: int| 0 <= q < jobs@.len() ==> (#[trigger] flags@[q] <==> prev.contains(jobs@[q].name@)),
                forall|x: Seq<char>| prev.contains(x) ==> exists|q: int| 0 <= q < jobs@.len() && flags@[q] && #[trigger] jobs@[q].name@ == x,
                hit <==> exists|rr: int| 0 <= rr < r && prev.contains(strip_or_keep(#[trigger] j.requires@[rr]@, "job."@)),
            decreases j.requires@.len() - r + if hit { 0int } else { 1int },
        {
            let target = strip_or_keep_text(j.requires[r].as_str(), "job.");
            if name_flagged(jobs, flags, target) {
                hit = true;
            }
            r += 1;
        }
        grows.push(hit);
        i += 1;
    }
    // a job is reached in the next step when its name is reached now or is the name
    // of a job that grows
    let mut out: Vec<bool> = Vec::new();
    let mut i: usize = 0;
    while i < jobs.len()
        invariant
            i <= jobs@.len(),
            out@.len() == i,
            grows@.len() == jobs@.len(),
            flags@.len() == jobs@.len(),
            prev == reached(jobs@, k@),
            forall|q: int| 0 <= q < jobs@.len() ==> (#[trigger] flags@[q] <==> prev.contains(jobs@[q].name@)),
            forall|p: int| 0 <= p < jobs@.len() ==> (#[trigger] grows@[p] <==> exists|r: int| 0 <= r < jobs@[p].requires@.len() && prev.contains(strip_or_keep(#[trigger] jobs@[p].requires@[r]@, "job."@))),
            forall|p: int| 0 <= p < i ==> (#[trigger] out@[p] <==> reached(jobs@, k@ + 1).contains(jobs@[p].name@)),
        decreases jobs@.len() - i,
    {
        let name = jobs[i].name.as_str();
        let mut v = flags[i];
        let mut q: usize = 0;
        while q < jobs.len() && !v
            invariant
                q <= jobs@.len(),
                grows@.len() == jobs@.len(),
                flags@.len() == jobs@.len(),
                name@ == jobs@[i as int].name@,
                v <==> (flags@[i as int] || exists|p: int| 0 <= p < q && grows@[p] && #[trigger] jobs@[p].name@ == name@),
            decreases jobs@.len() - q + if v { 0int } else { 1int },
        {
            if grows[q] && same_text(jobs[q].name.as_str(), name) {
                v = true;
            }
            q += 1;
        }
        proof {
            let nx = reached(jobs@, k@ + 1);
            assert(nx == prev.union(
                Set::new(
                    |x: Seq<char>|
                        exists|p: int, r: int|
                            0 <= p < jobs@.len() && #[trigger] jobs@[p].name@ == x && 0 <= r
                                < jobs@[p].requires@.len() && prev.contains(
                                strip_or_keep(#[trigger] jobs@[p].requires@[r]@, "job."@),
                            ),
                ),
            ));
            if v && !flags@[i as int] {
                let p = choose|p: int| 0 <= p < jobs@.len() && grows@[p] && #[trigger] jobs@[p].name@ == name@;
                assert(grows@[p]);
                let r = choose|r: int| 0 <= r < jobs@[p].requires@.len() && prev.contains(strip_or_keep(#[trigger] jobs@[p].requires@[r]@, "job."@));
                assert(nx.contains(name@));
            }
            if nx.contains(name@) && !prev.contains(name@) {
                let (p, r) = choose|p: int, r: int|
                    0 <= p < jobs@.len() && #[trigger] jobs@[p].name@ == name@ && 0 <= r
                        < jobs@[p].requires@.len() && prev.contains(
                        strip_or_keep(#[trigger] jobs@[p].requires@[r]@, "job."@),
                    );
                assert(grows@[p]);
                if !v {
                    assert(q == jobs@.len());
                    assert(!(grows@[p] && jobs@[p].name@ == name@));
                }
            }
        }
        out.push(v);
        i += 1;
    }
    out
}

proof fn lemma_reached_names(jobs: Seq<Job>, k: nat, x: Seq<char>)
    requires
        reached(jobs, k).contains(x),
    ensures
        exists|q: int| 0 <= q < jobs.len() && #[trigger] jobs[q].name@ == x,
    decreases k,
{
    if k > 0 {
        if reached(jobs, (k - 1) as nat).contains(x) {
            lemma_reached_names(jobs, (k - 1) as nat, x);
        }
    }
}

fn check_unreachable_jobs(d: &DeployFile, diags: &mut Vec<Diagnostic>)
    ensures
        findings(final(diags)@) == findings(old(diags)@) + reach_findings(*d),
{
    let ghost d0 = findings(diags@);
    let jobs = &d.jobs;
    let n = jobs.len();
    if n == 0 {
        proof {
            assert(findings(diags@) =~= d0 + reach_findings(*d));
        }
        return;
    }
    let mut flags: Vec<bool> = Vec::new();
    let mut any_entry = false;
    let mut i: usize = 0;
    while i < n
        invariant
            n == jobs@.len(),
            i <= n,
            flags@.len() == i,
            forall|p: int| 0 <= p < i ==> (#[trigger] flags@[p] <==> reached(jobs@, 0).contains(jobs@[p].name@)),
            any_entry <==> exists|p: int| 0 <= p < i && #[trigger] jobs@[p].requires@.len() == 0,
        decreases n - i,
    {
        let name = jobs[i].name.as_str();
        let mut v = false;
        let mut q: usize = 0;
        while q < n && !v
            invariant
                n == jobs@.len(),
                q <= n,
                name@ == jobs@[i as int].name@,
                v <==> exists|p: int| 0 <= p < q && jobs@[p].requires@.len() == 0 && #[trigger] jobs@[p].name@ == name@,
            decreases n - q + if v { 0int } else { 1int },
        {
            if jobs[q].requires.len() == 0 && same_text(jobs[q].name.as_str(), name) {
                v = true;
            }
            q += 1;
        }
        proof {
            if reached(jobs@, 0).contains(name@) && !v {
                let p = choose|p: int| 0 <= p < jobs@.len() && jobs@[p].requires@.len() == 0 && #[trigger] jobs@[p].name@ == name@;
                assert(q == n);
            }
        }
        if jobs[i].requires.len() == 0 {
            any_entry = true;
        }
        flags.push(v);
        i += 1;
    }
    if !any_entry {
        diags.push(new_error(
            "NoEntryPoint",
            String::from_str("No entry point jobs found (all jobs have dependencies)"),
            String::from_str("deploy.job"),
        ));
        proof {
            assert forall|p: int| 0 <= p < jobs@.len() implies #[trigger] jobs@[p].requires@.len() > 0 by {}
            assert(findings(diags@) =~= d0 + reach_findings(*d));
        }
        return;
    }
    let mut k: usize = 0;
    while k < n
        invariant
            n == jobs@.len(),
            k <= n,
            flags@.len() == n,
            forall|p: int| 0 <= p < n ==> (#[trigger] flags@[p] <==> reached(jobs@, k as nat).contains(jobs@[p].name@)),
        decreases n - k,
    {
        flags = reach_step(jobs, &flags, Ghost(k as nat));
        k += 1;
    }
    let ghost reach = reached(jobs@, n as nat);
    let mut i: usize = 0;
    proof {
        assert(findings(diags@) =~= d0 + unreachable_findings(jobs@, reach, 0));
    }
    while i < n
        invariant
            n == jobs@.len(),
            i <= n,
            flags@.len() == n,
            reach == reached(jobs@, n as nat),
            forall|p: int| 0 <= p < n ==> (#[trigger] flags@[p] <==> reach.contains(jobs@[p].name@)),
            findings(diags@) == d0 + unreachable_findings(jobs@, reach, i as int),
        decreases n - i,
    {
        let ghost before = diags@;
        if !flags[i] {
            let msg = job_lead_text(&jobs[i], " is unreachable (no path from any entry point)");
            let loc = join2("deploy.job.", jobs[i].name.as_str());
            let dg = new_warning("UnreachableJob", msg, loc);
            diags.push(dg);
            proof {
                assert(findings(diags@) =~= findings(before).push(dg@));
            }
        }
        proof {
            assert(findings(diags@) =~= d0 + unreachable_findings(jobs@, reach, i + 1));
        }
        i += 1;
    }
    proof {
        assert(!(forall|p: int| 0 <= p < jobs@.len() ==> #[trigger] jobs@[p].requires@.len() > 0));
        assert(findings(diags@) =~= d0 + reach_findings(*d));
    }
}

/// `target.` followed by the job's target without its `target.` prefix.
pub open spec fn target_ref(j: Job) -> Seq<char> {
    "target."@ + strip_or_keep(j.uses_target@, "target."@)
}

fn target_ref_text(j: &Job) -> (r: String)
    ensures
        r@ == target_ref(*j),
{
    join2("target.", strip_or_keep_text(j.uses_target.as_str(), "target."))
}

/// Whether `x` is among the strings of `v`.
pub open spec fn among(v: Seq<String>, x: Seq<char>) -> bool {
    exists|k: int| 0 <= k < v.len() && #[trigger] v[k]@ == x
}

fn is_among(v: &Vec<String>, x: &str) -> (r: bool)
    ensures
        r == among(v@, x@),
{
    let mut k: usize = 0;
    while k < v.len()
        invariant
            k <= v@.len(),
            forall|q: int| 0 <= q < k ==> #[trigger] v@[q]@ != x@,
        decreases v@.len() - k,
    {
        if same_text(v[k].as_str(), x) {
            return true;
        }
        k += 1;
    }
    false
}

/// Secret-scope findings of the first `n` secret references of job `j`.
pub open spec fn scope_findings(d: DeployFile, j: Job, n: int) -> Seq<Finding>
    decreases n,
{
    if n <= 0 {
        Seq::empty()
    } else {
        let s = j.needs_secrets@[n - 1]@;
        scope_findings(d, j, n - 1) + match lookup_named(d.secrets@, strip_or_keep(s, "secret."@)) {
            Some(sec) => if sec.scope@.len() > 0 && !among(sec.scope@, target_ref(j)) {
                seq![
                    error_finding(
                        "SecretScopeViolation"@,
                        job_lead(j) + " uses secret '"@ + s + "' which is not scoped for target '"@
                            + j.uses_target@ + "'"@,
                        job_at(j, ".needs_secrets"@),
                    ),
                ]
            } else {
                Seq::empty()
            },
            None => Seq::empty(),
        }
    }
}

/// Secret scope of one job: checked only when the job has a target.
pub open spec fn job_scope_findings(d: DeployFile, j: Job) -> Seq<Finding> {
    if j.uses_target@.len() == 0 {
        Seq::empty()
    } else {
        scope_findings(d, j, j.needs_secrets@.len() as int)
    }
}

fn check_job_scope(d: &DeployFile, j: &Job, diags: &mut Vec<Diagnostic>)
    ensures
        findings(final(diags)@) == findings(old(diags)@) + job_scope_findings(*d, *j),
{
    let ghost d0 = findings(diags@);
    if j.uses_target.unicode_len() == 0 {
        proof {
            assert(findings(diags@) =~= d0 + job_scope_findings(*d, *j));
        }
        return;
    }
    let tref = target_ref_text(j);
    let mut k: usize = 0;
    proof {
        assert(findings(diags@) =~= d0 + scope_findings(*d, *j, 0));
    }
    while k < j.needs_secrets.len()
        invariant
            k <= j.needs_secrets@.len(),
            tref@ == target_ref(*j),
            findings(diags@) == d0 + scope_findings(*d, *j, k as int),
        decreases j.needs_secrets@.len() - k,
    {
        let s = j.needs_secrets[k].as_str();
        assert(s@ == j.needs_secrets@[k as int]@);
        let ghost before = findings(diags@);
        match find_named(&d.secrets, strip_or_keep_text(s, "secret.")) {
            Some(p) => {
                let sec = &d.secrets[p];
                if sec.scope.len() > 0 && !is_among(&sec.scope, tref.as_str()) {
                    let mut msg = job_lead_text(j, " uses secret '");
                    msg.append(s);
                    msg.append("' which is not scoped for target '");
                    msg.append(j.uses_target.as_str());
                    msg.append("'");
                    let loc = job_text(j, ".needs_secrets");
                    let dg = new_error("SecretScopeViolation", msg, loc);
                    let ghost b2 = diags@;
                    diags.push(dg);
                    proof {
                        assert(findings(diags@) =~= findings(b2).push(dg@));
                    }
                }
            },
            None => {},
        }
        proof {
            assert(findings(diags@) =~= d0 + scope_findings(*d, *j, k + 1));
        }
        k += 1;
    }
}

pub open spec fn is_prod_kind(k: Seq<char>) -> bool {
    k == "production"@ || k == "prod"@
}

/// The job targets (with an explicit `target.` prefix) a declared production target.
pub open spec fn is_prod_job(d: DeployFile, j: Job) -> bool {
    "target."@.is_prefix_of(j.uses_target@) && match lookup_named(
        d.targets@,
        strip_or_keep(j.uses_target@, "target."@),
    ) {
        Some(t) => is_prod_kind(t.kind@),
        None => false,
    }
}

pub open spec fn has_prod_job(d: DeployFile) -> bool {
    exists|i: int| 0 <= i < d.jobs@.len() && is_prod_job(d, #[trigger] d.jobs@[i])
}

fn prod_job(d: &DeployFile, j: &Job) -> (r: bool)
    ensures
        r == is_prod_job(*d, *j),
{
    if !starts_with_text(j.uses_target.as_str(), "target.") {
        return false;
    }
    match find_named(&d.targets, strip_or_keep_text(j.uses_target.as_str(), "target.")) {
        Some(p) => same_text(d.targets[p].kind.as_str(), "production") || same_text(
            d.targets[p].kind.as_str(),
            "prod",
        ),
        None => false,
    }
}

/// The error for a production job whose target is missing from the approval list.
pub open spec fn unapproved_findings(d: DeployFile, g: Gate, j: Job) -> Seq<Finding> {
    if is_prod_job(d, j) && !among(g.require_manual_approval_for@, j.uses_target@) {
        seq![
            error_finding(
                "ProdJobWithoutApproval"@,
                "Production job '"@ + j.name@ + "' target '"@ + j.uses_target@
                    + "' not in gate approval list"@,
                "deploy.gate.require_manual_approval_for"@,
            ),
        ]
    } else {
        Seq::empty()
    }
}

pub open spec fn approvals(d: DeployFile, g: Gate, n: int) -> Seq<Finding>
    decreases n,
{
    if n <= 0 {
        Seq::empty()
    } else {
        approvals(d, g, n - 1) + unapproved_findings(d, g, d.jobs@[n - 1])
    }
}

pub open spec fn needs_health_check(r: Release) -> bool {
    (r.strategy@ == "canary"@ || r.strategy@ == "blue_green"@) && r.health_check@.len() == 0
}

/// Production safety: with a production job, a gate and a rollback are required and
/// a canary or blue-green release needs a health check; with a gate, every production
/// job's target must be in its approval list.
pub open spec fn prod_findings(d: DeployFile) -> Seq<Finding> {
    (if has_prod_job(d) {
        (if d.gate is None {
            seq![
                error_finding(
                    "MissingProdGate"@,
                    "Production jobs require [deploy.gate] section"@,
                    "deploy"@,
                ),
            ]
        } else {
            Seq::empty()
        }) + (if d.rollback is None {
            seq![
                error_finding(
                    "MissingProdRollback"@,
                    "Production jobs require [deploy.rollback] section"@,
                    "deploy"@,
                ),
            ]
        } else {
            Seq::empty()
        }) + match d.release {
            Some(r) => if needs_health_check(r) {
                seq![
                    error_finding(
                        "MissingHealthCheck"@,
                        "Release strategy '"@ + r.strategy@ + "' requires health_check"@,
                        "deploy.release"@,
                    ),
                ]
            } else {
                Seq::empty()
            },
            None => Seq::empty(),
        }
    } else {
        Seq::empty()
    }) + match d.gate {
        Some(g) => approvals(d, g, d.jobs@.len() as int),
        None => Seq::empty(),
    }
}

fn check_prod_safety(d: &DeployFile, diags: &mut Vec<Diagnostic>)
    ensures
        findings(final(diags)@) == findings(old(diags)@) + prod_findings(*d),
{
    let ghost d0 = findings(diags@);
    let mut has_prod = false;
    let mut i: usize = 0;
    while i < d.jobs.len() && !has_prod
        invariant
            i <= d.jobs@.len(),
            has_prod <==> exists|p: int| 0 <= p < i && is_prod_job(*d, #[trigger] d.jobs@[p]),
        decreases d.jobs@.len() - i + if has_prod { 0int } else { 1int },
    {
        if prod_job(d, &d.jobs[i]) {
            has_prod = true;
        }
        i += 1;
    }
    proof {
        if !has_prod {
            assert(i == d.jobs@.len());
        }
    }
    if has_prod {
        if d.gate.is_none() {
            diags.push(new_error(
                "MissingProdGate",
                String::from_str("Production jobs require [deploy.gate] section"),
                String::from_str("deploy"),
            ));
        }
        if d.rollback.is_none() {
            diags.push(new_error(
                "MissingProdRollback",
                String::from_str("Production jobs require [deploy.rollback] section"),
                String::from_str("deploy"),
            ));
        }
        match &d.release {
            Some(r) => {
                if (same_text(r.strategy.as_str(), "canary") || same_text(r.strategy.as_str(), "blue_green"))
                    && r.health_check.unicode_len() == 0 {
                    let msg = join3("Release strategy '", r.strategy.as_str(), "' requires health_check");
                    diags.push(new_error("MissingHealthCheck", msg, String::from_str("deploy.release")));
                }
            },
            None => {},
        }
    }
    let ghost d1 = findings(diags@);
    proof {
        assert(d1 =~= d0 + (if has_prod_job(*d) {
            (if d.gate is None {
                seq![
                    error_finding(
                        "MissingProdGate"@,
                        "Production jobs require [deploy.gate] section"@,
                        "deploy"@,
                    ),
                ]
            } else {
                Seq::empty()
            }) + (if d.rollback is None {
                seq![
                    error_finding(
                        "MissingProdRollback"@,
                        "Production jobs require [deploy.rollback] section"@,
                        "deploy"@,
                    ),
                ]
            } else {
                Seq::empty()
            }) + match d.release {
                Some(r) => if needs_health_check(r) {
                    seq![
                        error_finding(
                            "MissingHealthCheck"@,
                            "Release strategy '"@ + r.strategy@ + "' requires health_check"@,
                            "deploy.release"@,
                        ),
                    ]
                } else {
                    Seq::empty()
                },
                None => Seq::empty(),
            }
        } else {
            Seq::empty()
        }));
    }
    match &d.gate {
        Some(g) => {
            let mut i: usize = 0;
            proof {
                assert(findings(diags@) =~= d1 + approvals(*d, *g, 0));
            }
            while i < d.jobs.len()
                invariant
                    i <= d.jobs@.len(),
                    d.gate == Some(*g),
                    findings(diags@) == d1 + approvals(*d, *g, i as int),
                decreases d.jobs@.len() - i,
            {
                let j = &d.jobs[i];
                let ghost before = diags@;
                if prod_job(d, j) && !is_among(&g.require_manual_approval_for, j.uses_target.as_str()) {
                    let mut msg = String::from_str("Production job '");
                    msg.append(j.name.as_str());
                    msg.append("' target '");
                    msg.append(j.uses_target.as_str());
                    msg.append("' not in gate approval list");
                    let dg = new_error(
                        "ProdJobWithoutApproval",
                        msg,
                        String::from_str("deploy.gate.require_manual_approval_for"),
                    );
                    diags.push(dg);
                    proof {
                        assert(findings(diags@) =~= findings(before).push(dg@));
                    }
                }
                proof {
                    assert(findings(diags@) =~= d1 + approvals(*d, *g, i + 1));
                }
                i += 1;
            }
        },
        None => {},
    }
    proof {
        assert(findings(diags@) =~= d0 + prod_findings(*d));
    }
}

/// Side-effect policy of one job under a gate.
pub open spec fn side_effect_findings(d: DeployFile, g: Gate, j: Job) -> Seq<Finding> {
    (if among(j.side_effects@, "db_migration"@) && j.uses_target@.len() == 0 {
        seq![
            error_finding(
                "DbMigrationWithoutTarget"@,
                job_lead(j) + " with db_migration side effect must specify uses_target"@,
                job_path(j),
            ),
        ]
    } else if among(j.side_effects@, "db_migration"@) && !among(
        g.require_manual_approval_for@,
        target_ref(j),
    ) {
        seq![
            error_finding(
                "DbMigrationWithoutApproval"@,
                job_lead(j) + " has db_migration side effect but target '"@ + target_ref(j)
                    + "' not in approval list"@,
                job_at(j, ".side_effects"@),
            ),
        ]
    } else {
        Seq::empty()
    }) + if among(j.side_effects@, "release"@) && d.release is None {
        seq![
            warning_finding(
                "ReleaseWithoutStrategy"@,
                job_lead(j) + " has release side effect but no [deploy.release] defined"@,
                job_at(j, ".side_effects"@),
            ),
        ]
    } else {
        Seq::empty()
    }
}

pub open spec fn side_effects_all(d: DeployFile, g: Gate, n: int) -> Seq<Finding>
    decreases n,
{
    if n <= 0 {
        Seq::empty()
    } else {
        side_effects_all(d, g, n - 1) + side_effect_findings(d, g, d.jobs@[n - 1])
    }
}

/// Side-effect policy: evaluated only when the unit has a gate.
pub open spec fn policy_findings(d: DeployFile) -> Seq<Finding> {
    match d.gate {
        Some(g) => side_effects_all(d, g, d.jobs@.len() as int),
        None => Seq::empty(),
    }
}

fn check_side_effects_safety(d: &DeployFile, diags: &mut Vec<Diagnostic>)
    ensures
        findings(final(diags)@) == findings(old(diags)@) + policy_findings(*d),
{
    let ghost d0 = findings(diags@);
    let g = match &d.gate {
        Some(g) => g,
        None => {
            proof {
                assert(findings(diags@) =~= d0 + policy_findings(*d));
            }
            return;
        },
    };
    let mut i: usize = 0;
    proof {
        assert(findings(diags@) =~= d0 + side_effects_all(*d, *g, 0));
    }
    while i < d.jobs.len()
        invariant
            i <= d.jobs@.len(),
            d.gate == Some(*g),
            findings(diags@) == d0 + side_effects_all(*d, *g, i as int),
        decreases d.jobs@.len() - i,
    {
        let j = &d.jobs[i];
        let ghost before = findings(diags@);
        let migrates = is_among(&j.side_effects, "db_migration");
        if migrates && j.uses_target.unicode_len() == 0 {
            let msg = job_lead_text(j, " with db_migration side effect must specify uses_target");
            diags.push(new_error("DbMigrationWithoutTarget", msg, join2("deploy.job.", j.name.as_str())));
        } else if migrates {
            let tref = target_ref_text(j);
            if !is_among(&g.require_manual_approval_for, tref.as_str()) {
                let mut msg = job_lead_text(j, " has db_migration side effect but target '");
                msg.append(tref.as_str());
                msg.append("' not in approval list");
                diags.push(new_error("DbMigrationWithoutApproval", msg, job_text(j, ".side_effects")));
            }
        }
        if is_among(&j.side_effects, "release") && d.release.is_none() {
            let msg = job_lead_text(j, " has release side effect but no [deploy.release] defined");
            diags.push(new_warning("ReleaseWithoutStrategy", msg, job_text(j, ".side_effects")));
        }
        proof {
            assert(findings(diags@) =~= before + side_effect_findings(*d, *g, *j));
            assert(findings(diags@) =~= d0 + side_effects_all(*d, *g, i + 1));
        }
        i += 1;
    }
}

pub open spec fn ref_pass(d: DeployFile, j: Job) -> Seq<Finding> {
    job_ref_findings(d, j)
}

pub open spec fn scope_pass(d: DeployFile, j: Job) -> Seq<Finding> {
    job_scope_findings(d, j)
}

/// Everything the deploy checker reports, given the cycles it found on the job graph.
pub open spec fn deploy_findings(d: DeployFile, cs: Seq<Seq<Seq<char>>>) -> Seq<Finding> {
    let n = d.jobs@.len() as int;
    per_job(d, |d: DeployFile, j: Job| ref_pass(d, j), n) + deploy_cycle_findings(cs, cs.len() as int)
        + reach_findings(d) + per_job(d, |d: DeployFile, j: Job| scope_pass(d, j), n)
        + prod_findings(d) + policy_findings(d)
}

/// Checks one well-formed Deploy IR unit: references, job-graph cycles, reachability,
/// secret scope, production safety and side-effect policy, in that order; the per-job
/// passes visit the jobs in name order. The cycles reported are genuine, share no
/// job, and are absent exactly when the job graph is acyclic.
pub fn check_deploy_file(deploy: &DeployFile) -> (r: Vec<Diagnostic>)
    requires
        deploy.wf(),
    ensures
        exists|cs: Seq<Seq<Seq<char>>>|
            valid_cycles(all_job_pairs(*deploy), cs) && findings(r@) == #[trigger] deploy_findings(
                *deploy,
                cs,
            ),
{
    let d = deploy;
    let mut diags: Vec<Diagnostic> = Vec::new();
    let n = d.jobs.len();
    let mut i: usize = 0;
    proof {
        assert(findings(diags@) =~= per_job(*d, |d: DeployFile, j: Job| ref_pass(d, j), 0));
    }
    while i < n
        invariant
            n == d.jobs@.len(),
            i <= n,
            findings(diags@) == per_job(*d, |d: DeployFile, j: Job| ref_pass(d, j), i as int),
        decreases n - i,
    {
        check_job_refs(d, &d.jobs[i], &mut diags);
        proof {
            assert(findings(diags@) =~= per_job(*d, |d: DeployFile, j: Job| ref_pass(d, j), i + 1));
        }
        i += 1;
    }
    let cs = check_dag_structure(d, &mut diags);
    check_unreachable_jobs(d, &mut diags);
    let ghost d2 = findings(diags@);
    let mut i: usize = 0;
    proof {
        assert(findings(diags@) =~= d2 + per_job(*d, |d: DeployFile, j: Job| scope_pass(d, j), 0));
    }
    while i < n
        invariant
            n == d.jobs@.len(),
            i <= n,
            findings(diags@) == d2 + per_job(*d, |d: DeployFile, j: Job| scope_pass(d, j), i as int),
        decreases n - i,
    {
        check_job_scope(d, &d.jobs[i], &mut diags);
        proof {
            assert(findings(diags@) =~= d2 + per_job(*d, |d: DeployFile, j: Job| scope_pass(d, j), i + 1));
        }
        i += 1;
    }
    check_prod_safety(d, &mut diags);
    check_side_effects_safety(d, &mut diags);
    proof {
        assert(findings(diags@) =~= deploy_findings(*d, cs@));
    }
    diags
}

proof fn lemma_has_kind_left(a: Seq<Finding>, b: Seq<Finding>, k: Seq<char>)
    requires
        has_kind(a, k),
    ensures
        has_kind(a + b, k),
{
    let i = choose|i: int| 0 <= i < a.len() && #[trigger] a[i].kind == k;
    assert((a + b)[i] == a[i]);
}

proof fn lemma_has_kind_right(a: Seq<Finding>, b: Seq<Finding>, k: Seq<char>)
    requires
        has_kind(b, k),
    ensures
        has_kind(a + b, k),
{
    let i = choose|i: int| 0 <= i < b.len() && #[trigger] b[i].kind == k;
    assert((a + b)[a.len() + i] == b[i]);
}

proof fn lemma_approvals_empty(d: DeployFile, g: Gate, n: int)
    requires
        n <= d.jobs@.len(),
        forall|i: int|
            0 <= i < d.jobs@.len() && is_prod_job(d, #[trigger] d.jobs@[i]) ==> among(
                g.require_manual_approval_for@,
                d.jobs@[i].uses_target@,
            ),
    ensures
        approvals(d, g, n) == Seq::<Finding>::empty(),
    decreases n,
{
    if n > 0 {
        lemma_approvals_empty(d, g, n - 1);
        assert(approvals(d, g, n) =~= Seq::<Finding>::empty());
    }
}

/// The production findings appear in everything the deploy checker reports.
proof fn lemma_prod_kinds_reported(d: DeployFile, cs: Seq<Seq<Seq<char>>>, k: Seq<char>)
    requires
        has_kind(prod_findings(d), k),
    ensures
        has_kind(deploy_findings(d, cs), k),
{
    let n = d.jobs@.len() as int;
    let x = per_job(d, |d: DeployFile, j: Job| ref_pass(d, j), n) + deploy_cycle_findings(
        cs,
        cs.len() as int,
    ) + reach_findings(d) + per_job(d, |d: DeployFile, j: Job| scope_pass(d, j), n);
    lemma_has_kind_right(x, prod_findings(d), k);
    lemma_has_kind_left(x + prod_findings(d), policy_findings(d), k);
    assert(deploy_findings(d, cs) == x + prod_findings(d) + policy_findings(d));
}

/// Production gating: a unit with a job on a production target reports
/// `MissingProdGate` and `MissingProdRollback` when it has neither a gate nor a
/// rollback; with a gate that lists the target of every production job but no
/// rollback, it still reports `MissingProdRollback` while the production-safety
/// pass raises no `ProdJobWithoutApproval`.
pub proof fn lemma_production_gating(d: DeployFile, cs: Seq<Seq<Seq<char>>>)
    requires
        has_prod_job(d),
        d.rollback is None,
    ensures
        d.gate is None ==> has_kind(deploy_findings(d, cs), "MissingProdGate"@),
        has_kind(deploy_findings(d, cs), "MissingProdRollback"@),
        (match d.gate {
            Some(g) => (forall|i: int|
                0 <= i < d.jobs@.len() && is_prod_job(d, #[trigger] d.jobs@[i]) ==> among(
                    g.require_manual_approval_for@,
                    d.jobs@[i].uses_target@,
                )) ==> !has_kind(prod_findings(d), "ProdJobWithoutApproval"@),
            None => true,
        }),
{
    let gate_part: Seq<Finding> = if d.gate is None {
        seq![
            error_finding(
                "MissingProdGate"@,
                "Production jobs require [deploy.gate] section"@,
                "deploy"@,
            ),
        ]
    } else {
        Seq::empty()
    };
    let rollback_part: Seq<Finding> = seq![
        error_finding(
            "MissingProdRollback"@,
            "Production jobs require [deploy.rollback] section"@,
            "deploy"@,
        ),
    ];
    let release_part: Seq<Finding> = match d.release {
        Some(r) => if needs_health_check(r) {
            seq![
                error_finding(
                    "MissingHealthCheck"@,
                    "Release strategy '"@ + r.strategy@ + "' requires health_check"@,
                    "deploy.release"@,
                ),
            ]
        } else {
            Seq::empty()
        },
        None => Seq::empty(),
    };
    let approval_part: Seq<Finding> = match d.gate {
        Some(g) => approvals(d, g, d.jobs@.len() as int),
        None => Seq::empty(),
    };
    assert(prod_findings(d) == gate_part + rollback_part + release_part + approval_part);
    assert(rollback_part[0].kind == "MissingProdRollback"@);
    lemma_has_kind_right(gate_part, rollback_part, "MissingProdRollback"@);
    lemma_has_kind_left(gate_part + rollback_part, release_part, "MissingProdRollback"@);
    lemma_has_kind_left(gate_part + rollback_part + release_part, approval_part, "MissingProdRollback"@);
    lemma_prod_kinds_reported(d, cs, "MissingProdRollback"@);
    if d.gate is None {
        assert(gate_part[0].kind == "MissingProdGate"@);
        lemma_has_kind_left(gate_part, rollback_part, "MissingProdGate"@);
        lemma_has_kind_left(gate_part + rollback_part, release_part, "MissingProdGate"@);
        lemma_has_kind_left(gate_part + rollback_part + release_part, approval_part, "MissingProdGate"@);
        lemma_prod_kinds_reported(d, cs, "MissingProdGate"@);
    }
    match d.gate {
        Some(g) => {
            if forall|i: int|
                0 <= i < d.jobs@.len() && is_prod_job(d, #[trigger] d.jobs@[i]) ==> among(
                    g.require_manual_approval_for@,
                    d.jobs@[i].uses_target@,
                ) {
                lemma_approvals_empty(d, g, d.jobs@.len() as int);
                reveal_strlit("MissingProdRollback");
                reveal_strlit("ProdJobWithoutApproval");
                reveal_strlit("MissingHealthCheck");
                let all = prod_findings(d);
                assert forall|i: int| 0 <= i < all.len() implies #[trigger] all[i].kind != "ProdJobWithoutApproval"@ by {
                    if i == 0 {
                        assert(all[i] == rollback_part[0]);
                        assert(all[i].kind[0] != "ProdJobWithoutApproval"@[0]);
                    } else {
                        assert(all[i] == release_part[i - 1]);
                        assert(all[i].kind[1] != "ProdJobWithoutApproval"@[1]);
                    }
                }
            }
        },
        None => {},
    }
}

} // verus!
