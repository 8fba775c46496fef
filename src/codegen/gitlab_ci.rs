//! GitLab CI pipelines.
use vstd::prelude::*;

use crate::codegen::{
    header, sanitize_job_name, sanitized, secret_env, secret_env_name, target_name, write_header,
};
use crate::deploy::ast::{find_named, lookup_named, DeployFile, Job};
use crate::text::{contains_text, occurs_in, same_text, strip_or_keep, strip_or_keep_text};

verus! {

/// Writes a GitLab CI pipeline for a Deploy IR unit.
pub struct GitLabCIGenerator;

/// Some job has a name holding `p`.
pub open spec fn some_name_holds(d: DeployFile, p: Seq<char>) -> bool {
    exists|i: int| 0 <= i < d.jobs@.len() && occurs_in(p, #[trigger] d.jobs@[i].name@)
}

/// Some job's name holds `deploy`, or some job has a target.
pub open spec fn some_deploys(d: DeployFile) -> bool {
    exists|i: int|
        0 <= i < d.jobs@.len() && (occurs_in("deploy"@, #[trigger] d.jobs@[i].name@)
            || d.jobs@[i].uses_target@.len() > 0)
}

/// The stages of the pipeline: `build`, `test`, `deploy` as some job calls for them,
/// in that order; `build` alone when none does.
pub open spec fn stages(d: DeployFile) -> Seq<Seq<char>> {
    let s = (if some_name_holds(d, "build"@) {
        seq!["build"@]
    } else {
        Seq::empty()
    }) + (if some_name_holds(d, "test"@) {
        seq!["test"@]
    } else {
        Seq::empty()
    }) + (if some_deploys(d) {
        seq!["deploy"@]
    } else {
        Seq::empty()
    });
    if s.len() == 0 {
        seq!["build"@]
    } else {
        s
    }
}

/// The stage of a job: by its name (`build`, `test`, `deploy`), else `deploy` when it
/// has a target, else `build` without requirements, else `deploy`.
pub open spec fn job_stage(j: Job) -> Seq<char> {
    if occurs_in("build"@, j.name@) {
        "build"@
    } else if occurs_in("test"@, j.name@) {
        "test"@
    } else if j.uses_target@.len() > 0 || occurs_in("deploy"@, j.name@) {
        "deploy"@
    } else if j.requires@.len() == 0 {
        "build"@
    } else {
        "deploy"@
    }
}

pub open spec fn stage_lines(s: Seq<Seq<char>>, n: int) -> Seq<char>
    decreases n,
{
    if n <= 0 {
        Seq::empty()
    } else {
        stage_lines(s, n - 1) + "  - "@ + s[n - 1] + "\n"@
    }
}

/// The image and tags of a job, by the kind of its target.
pub open spec fn image_text(d: DeployFile, j: Job) -> Seq<char> {
    if j.uses_target@.len() > 0 {
        match lookup_named(d.targets@, target_name(j)) {
            Some(t) => if t.kind@ == "production"@ {
                "  image: ubuntu:latest\n"@ + "  tags:\n"@ + "    - production\n"@
            } else if t.kind@ == "staging"@ {
                "  image: ubuntu:latest\n"@ + "  tags:\n"@ + "    - staging\n"@
            } else {
                "  image: ubuntu:latest\n"@
            },
            None => Seq::empty(),
        }
    } else {
        "  image: ubuntu:latest\n"@
    }
}

pub open spec fn need_lines(v: Seq<String>, n: int) -> Seq<char>
    decreases n,
{
    if n <= 0 {
        Seq::empty()
    } else {
        need_lines(v, n - 1) + "    - "@ + sanitized(strip_or_keep(v[n - 1]@, "job."@)) + "\n"@
    }
}

pub open spec fn variable_lines(v: Seq<String>, n: int) -> Seq<char>
    decreases n,
{
    if n <= 0 {
        Seq::empty()
    } else {
        let e = secret_env(v[n - 1]@);
        variable_lines(v, n - 1) + "    "@ + e + ": $"@ + e + "\n"@
    }
}

pub open spec fn script_lines(v: Seq<String>, n: int) -> Seq<char>
    decreases n,
{
    if n <= 0 {
        Seq::empty()
    } else {
        script_lines(v, n - 1) + "    - "@ + v[n - 1]@ + "\n"@
    }
}

pub open spec fn artifact_lines(v: Seq<String>, n: int) -> Seq<char>
    decreases n,
{
    if n <= 0 {
        Seq::empty()
    } else {
        artifact_lines(v, n - 1) + "      - build/"@ + strip_or_keep(v[n - 1]@, "artifact."@) + "\n"@
    }
}

/// Whether the job's declared target is of kind `production`.
pub open spec fn on_production(d: DeployFile, j: Job) -> bool {
    j.uses_target@.len() > 0 && match lookup_named(d.targets@, target_name(j)) {
        Some(t) => t.kind@ == "production"@,
        None => false,
    }
}

/// The key, stage and image lines of the pipeline job of `j`.
pub open spec fn job_head(d: DeployFile, j: Job) -> Seq<char> {
    sanitized(j.name@) + ":\n"@ + "  stage: "@ + job_stage(j) + "\n"@ + image_text(d, j)
}

/// The needs, variables and script lines of the pipeline job of `j`.
pub open spec fn job_body(j: Job) -> Seq<char> {
    let r = j.requires@;
    let s = j.needs_secrets@;
    (if r.len() > 0 {
        "  needs:\n"@ + need_lines(r, r.len() as int)
    } else {
        Seq::empty()
    }) + (if s.len() > 0 {
        "  variables:\n"@ + variable_lines(s, s.len() as int)
    } else {
        Seq::empty()
    }) + "  script:\n"@ + script_lines(j.runs@, j.runs@.len() as int)
}

/// The approval, branch and artifact lines of the pipeline job of `j`.
pub open spec fn job_tail(d: DeployFile, j: Job) -> Seq<char> {
    let a = j.produces@;
    (if on_production(d, j) && d.gate is Some {
        "  when: manual\n"@
    } else {
        Seq::empty()
    }) + (if on_production(d, j) {
        "  only:\n"@ + "    - main\n"@
    } else {
        Seq::empty()
    }) + (if a.len() > 0 {
        "  artifacts:\n"@ + "    paths:\n"@ + artifact_lines(a, a.len() as int)
    } else {
        Seq::empty()
    }) + "\n"@
}

/// The pipeline job of `j`.
pub open spec fn job_block(d: DeployFile, j: Job) -> Seq<char> {
    job_head(d, j) + job_body(j) + job_tail(d, j)
}

pub open spec fn job_blocks(d: DeployFile, n: int) -> Seq<char>
    decreases n,
{
    if n <= 0 {
        Seq::empty()
    } else {
        job_blocks(d, n - 1) + job_block(d, d.jobs@[n - 1])
    }
}

/// The whole pipeline of a unit.
pub open spec fn pipeline_text(d: DeployFile) -> Seq<char> {
    let st = stages(d);
    header(d) + "stages:\n"@ + stage_lines(st, st.len() as int) + "\n"@ + "variables:\n"@
        + "  GIT_DEPTH: 1\n"@ + "\n"@ + job_blocks(d, d.jobs@.len() as int)
}

fn any_name_holds(d: &DeployFile, p: &str) -> (r: bool)
    ensures
        r == some_name_holds(*d, p@),
{
    let mut i: usize = 0;
    while i < d.jobs.len()
        invariant
            i <= d.jobs@.len(),
            forall|k: int| 0 <= k < i ==> !occurs_in(p@, #[trigger] d.jobs@[k].name@),
        decreases d.jobs@.len() - i,
    {
        if contains_text(d.jobs[i].name.as_str(), p) {
            return true;
        }
        i += 1;
    }
    false
}

fn any_deploys(d: &DeployFile) -> (r: bool)
    ensures
        r == some_deploys(*d),
{
    let mut i: usize = 0;
    while i < d.jobs.len()
        invariant
            i <= d.jobs@.len(),
            forall|k: int|
                0 <= k < i ==> !(occurs_in("deploy"@, #[trigger] d.jobs@[k].name@)
                    || d.jobs@[k].uses_target@.len() > 0),
        decreases d.jobs@.len() - i,
    {
        if contains_text(d.jobs[i].name.as_str(), "deploy") || d.jobs[i].uses_target.unicode_len() > 0 {
            return true;
        }
        i += 1;
    }
    false
}

fn stage_of(j: &Job) -> (r: &'static str)
    ensures
        r@ == job_stage(*j),
{
    if contains_text(j.name.as_str(), "build") {
        "build"
    } else if contains_text(j.name.as_str(), "test") {
        "test"
    } else if j.uses_target.unicode_len() > 0 || contains_text(j.name.as_str(), "deploy") {
        "deploy"
    } else if j.requires.len() == 0 {
        "build"
    } else {
        "deploy"
    }
}

fn write_needs(v: &Vec<String>, out: &mut String)
    ensures
        final(out)@ == old(out)@ + need_lines(v@, v@.len() as int),
{
    let ghost o0 = out@;
    let mut i: usize = 0;
    proof {
        assert(out@ =~= o0 + need_lines(v@, 0));
    }
    while i < v.len()
        invariant
            i <= v@.len(),
            out@ == o0 + need_lines(v@, i as int),
        decreases v@.len() - i,
    {
        out.append("    - ");
        let dep = sanitize_job_name(strip_or_keep_text(v[i].as_str(), "job."));
        out.append(dep.as_str());
        out.append("\n");
        proof {
            assert(out@ =~= o0 + need_lines(v@, i + 1));
        }
        i += 1;
    }
}

fn write_script(v: &Vec<String>, out: &mut String)
    ensures
        final(out)@ == old(out)@ + script_lines(v@, v@.len() as int),
{
    let ghost o0 = out@;
    let mut i: usize = 0;
    proof {
        assert(out@ =~= o0 + script_lines(v@, 0));
    }
    while i < v.len()
        invariant
            i <= v@.len(),
            out@ == o0 + script_lines(v@, i as int),
        decreases v@.len() - i,
    {
        out.append("    - ");
        out.append(v[i].as_str());
        out.append("\n");
        proof {
            assert(out@ =~= o0 + script_lines(v@, i + 1));
        }
        i += 1;
    }
}

fn write_stages(st: &Vec<&str>, out: &mut String)
    ensures
        final(out)@ == old(out)@ + stage_lines(st@.map_values(|x: &str| x@), st@.len() as int),
{
    let ghost sv = st@.map_values(|x: &str| x@);
    let ghost o0 = out@;
    let mut i: usize = 0;
    proof {
        assert(out@ =~= o0 + stage_lines(sv, 0));
    }
    while i < st.len()
        invariant
            i <= st@.len(),
            sv == st@.map_values(|x: &str| x@),
            out@ == o0 + stage_lines(sv, i as int),
        decreases st@.len() - i,
    {
        out.append("  - ");
        out.append(st[i]);
        out.append("\n");
        proof {
            assert(out@ =~= o0 + stage_lines(sv, i + 1));
        }
        i += 1;
    }
}

fn write_variables(v: &Vec<String>, out: &mut String)
    ensures
        final(out)@ == old(out)@ + variable_lines(v@, v@.len() as int),
{
    let ghost o0 = out@;
    let mut i: usize = 0;
    proof {
        assert(out@ =~= o0 + variable_lines(v@, 0));
    }
    while i < v.len()
        invariant
            i <= v@.len(),
            out@ == o0 + variable_lines(v@, i as int),
        decreases v@.len() - i,
    {
        let e = secret_env_name(v[i].as_str());
        out.append("    ");
        out.append(e.as_str());
        out.append(": $");
        out.append(e.as_str());
        out.append("\n");
        proof {
            assert(out@ =~= o0 + variable_lines(v@, i + 1));
        }
        i += 1;
    }
}

fn write_artifacts(v: &Vec<String>, out: &mut String)
    ensures
        final(out)@ == old(out)@ + artifact_lines(v@, v@.len() as int),
{
    let ghost o0 = out@;
    let mut i: usize = 0;
    proof {
        assert(out@ =~= o0 + artifact_lines(v@, 0));
    }
    while i < v.len()
        invariant
            i <= v@.len(),
            out@ == o0 + artifact_lines(v@, i as int),
        decreases v@.len() - i,
    {
        out.append("      - build/");
        out.append(strip_or_keep_text(v[i].as_str(), "artifact."));
        out.append("\n");
        proof {
            assert(out@ =~= o0 + artifact_lines(v@, i + 1));
        }
        i += 1;
    }
}

fn production_target(d: &DeployFile, j: &Job) -> (r: Option<usize>)
    ensures
        match r {
            Some(p) => p < d.targets@.len() && j.uses_target@.len() > 0 && lookup_named(d.targets@, target_name(*j))
                == Some(d.targets@[p as int]),
            None => j.uses_target@.len() == 0 || lookup_named(d.targets@, target_name(*j)) is None,
        },
{
    if j.uses_target.unicode_len() > 0 {
        find_named(&d.targets, strip_or_keep_text(j.uses_target.as_str(), "target."))
    } else {
        None
    }
}

fn write_head(d: &DeployFile, j: &Job, out: &mut String)
    ensures
        final(out)@ == old(out)@ + job_head(*d, *j),
{
    let ghost o0 = out@;
    let key = sanitize_job_name(j.name.as_str());
    out.append(key.as_str());
    out.append(":\n");
    out.append("  stage: ");
    out.append(stage_of(j));
    out.append("\n");
    let ghost o1 = out@;
    if j.uses_target.unicode_len() > 0 {
        match production_target(d, j) {
            Some(p) => {
                let kind = d.targets[p].kind.as_str();
                if same_text(kind, "production") {
                    out.append("  image: ubuntu:latest\n");
                    out.append("  tags:\n");
                    out.append("    - production\n");
                } else if same_text(kind, "staging") {
                    out.append("  image: ubuntu:latest\n");
                    out.append("  tags:\n");
                    out.append("    - staging\n");
                } else {
                    out.append("  image: ubuntu:latest\n");
                }
            },
            None => {},
        }
    } else {
        out.append("  image: ubuntu:latest\n");
    }
    proof {
        assert(out@ =~= o1 + image_text(*d, *j));
        assert(out@ =~= o0 + job_head(*d, *j));
    }
}

fn write_body(j: &Job, out: &mut String)
    ensures
        final(out)@ == old(out)@ + job_body(*j),
{
    let ghost o0 = out@;
    if j.requires.len() > 0 {
        out.append("  needs:\n");
        write_needs(&j.requires, out);
    }
    let ghost o1 = out@;
    if j.needs_secrets.len() > 0 {
        out.append("  variables:\n");
        write_variables(&j.needs_secrets, out);
    }
    let ghost o2 = out@;
    out.append("  script:\n");
    write_script(&j.runs, out);
    proof {
        assert(out@ =~= o0 + job_body(*j));
    }
}

fn write_tail(d: &DeployFile, j: &Job, out: &mut String)
    ensures
        final(out)@ == old(out)@ + job_tail(*d, *j),
{
    let ghost o0 = out@;
    let prod = match production_target(d, j) {
        Some(p) => same_text(d.targets[p].kind.as_str(), "production"),
        None => false,
    };
    assert(prod == on_production(*d, *j));
    if prod && d.gate.is_some() {
        out.append("  when: manual\n");
    }
    if prod {
        out.append("  only:\n");
        out.append("    - main\n");
    }
    let ghost o1 = out@;
    if j.produces.len() > 0 {
        out.append("  artifacts:\n");
        out.append("    paths:\n");
        write_artifacts(&j.produces, out);
    }
    out.append("\n");
    proof {
        assert(out@ =~= o0 + job_tail(*d, *j));
    }
}

fn write_job(d: &DeployFile, j: &Job, out: &mut String)
    ensures
        final(out)@ == old(out)@ + job_block(*d, *j),
{
    let ghost o0 = out@;
    write_head(d, j, out);
    write_body(j, out);
    write_tail(d, j, out);
    proof {
        assert(out@ =~= o0 + job_block(*d, *j));
    }
}

impl GitLabCIGenerator {
    pub fn new() -> (r: GitLabCIGenerator) {
        GitLabCIGenerator
    }

    /// The pipeline: a header, the stages, shared variables, and one job per deploy
    /// job with its stage, image, needs, variables, script, approval and artifacts.
    pub fn generate(&self, deploy: &DeployFile) -> (r: String)
        ensures
            r@ == pipeline_text(*deploy),
    {
        let d = deploy;
        let mut out = String::new();
        write_header(d, &mut out);
        let b = any_name_holds(d, "build");
        let t = any_name_holds(d, "test");
        let dp = any_deploys(d);
        let mut st: Vec<&str> = Vec::new();
        if b {
            st.push("build");
        }
        if t {
            st.push("test");
        }
        if dp {
            st.push("deploy");
        }
        if st.len() == 0 {
            st.push("build");
        }
        proof {
            assert(st@.map_values(|x: &str| x@) =~= stages(*d));
        }
        out.append("stages:\n");
        write_stages(&st, &mut out);
        out.append("\n");
        out.append("variables:\n");
        out.append("  GIT_DEPTH: 1\n");
        out.append("\n");
        let ghost o1 = out@;
        let mut i: usize = 0;
        proof {
            assert(out@ =~= o1 + job_blocks(*d, 0));
        }
        while i < d.jobs.len()
            invariant
                i <= d.jobs@.len(),
                out@ == o1 + job_blocks(*d, i as int),
            decreases d.jobs@.len() - i,
        {
            write_job(d, &d.jobs[i], &mut out);
            proof {
                assert(out@ =~= o1 + job_blocks(*d, i + 1));
            }
            i += 1;
        }
        proof {
            assert(out@ =~= pipeline_text(*d));
        }
        out
    }
}

} // verus!
