//! GitHub Actions workflows.
use vstd::prelude::*;

use crate::codegen::{
    header, sanitize_job_name, sanitized, secret_env, secret_env_name, target_name, write_header,
};
use crate::deploy::ast::{find_named, lookup_named, DeployFile, Job};
use crate::text::{decimal, decimal_text, same_text, split_words, strip_or_keep, strip_or_keep_text, words};

verus! {

/// Writes a GitHub Actions workflow for a Deploy IR unit.
pub struct GitHubActionsGenerator;

/// The title of the step that runs `cmd`, the `index`-th command of its job.
pub open spec fn step_name(cmd: Seq<char>, index: nat) -> Seq<char> {
    let parts = words(cmd);
    if parts.len() == 0 {
        "Step "@ + decimal(index + 1)
    } else if parts.len() > 1 && (parts[0] == "npm"@ || parts[0] == "docker"@ || parts[0]
        == "kubectl"@ || parts[0] == "cargo"@ || parts[0] == "go"@) {
        "Run "@ + parts[0] + " "@ + parts[1]
    } else {
        "Run "@ + parts[0]
    }
}

/// The `env` lines of the first `n` secrets of a job.
pub open spec fn secret_lines(v: Seq<String>, n: int) -> Seq<char>
    decreases n,
{
    if n <= 0 {
        Seq::empty()
    } else {
        let e = secret_env(v[n - 1]@);
        secret_lines(v, n - 1) + "          "@ + e + ": ${{ secrets."@ + e + " }}\n"@
    }
}

/// The step that runs the `i`-th command `cmd` of job `j`.
pub open spec fn run_step(j: Job, cmd: Seq<char>, i: nat) -> Seq<char> {
    "      - name: "@ + step_name(cmd, i) + "\n"@ + "        run: |\n"@ + "          "@ + cmd + "\n"@
        + (if j.needs_secrets@.len() > 0 {
        "        env:\n"@ + secret_lines(j.needs_secrets@, j.needs_secrets@.len() as int)
    } else {
        Seq::empty()
    }) + "\n"@
}

/// The steps of the first `n` commands of job `j`.
pub open spec fn run_steps(j: Job, n: int) -> Seq<char>
    decreases n,
{
    if n <= 0 {
        Seq::empty()
    } else {
        run_steps(j, n - 1) + run_step(j, j.runs@[n - 1]@, (n - 1) as nat)
    }
}

/// The `needs` list lines of the first `n` requirements.
pub open spec fn need_lines(v: Seq<String>, n: int) -> Seq<char>
    decreases n,
{
    if n <= 0 {
        Seq::empty()
    } else {
        need_lines(v, n - 1) + "      - "@ + sanitized(strip_or_keep(v[n - 1]@, "job."@)) + "\n"@
    }
}

/// The `needs` entry of a job: inline for one requirement, as a list for more.
pub open spec fn needs_text(j: Job) -> Seq<char> {
    let r = j.requires@;
    if r.len() == 0 {
        Seq::empty()
    } else if r.len() == 1 {
        "    needs:"@ + " "@ + sanitized(strip_or_keep(r[0]@, "job."@)) + "\n"@
    } else {
        "    needs:"@ + "\n"@ + need_lines(r, r.len() as int)
    }
}

/// The `environment` line of a job whose target is declared.
pub open spec fn environment_text(d: DeployFile, j: Job) -> Seq<char> {
    if j.uses_target@.len() > 0 {
        match lookup_named(d.targets@, target_name(j)) {
            Some(t) => "    environment: "@ + t.kind@ + "\n"@,
            None => Seq::empty(),
        }
    } else {
        Seq::empty()
    }
}

/// The approval note of a production job in a unit with a gate.
pub open spec fn approval_note(d: DeployFile, j: Job) -> Seq<char> {
    if j.uses_target@.len() > 0 {
        match lookup_named(d.targets@, target_name(j)) {
            Some(t) => if t.kind@ == "production"@ && d.gate is Some {
                "      # Production deployment requires manual approval via GitHub environment protection rules\n"@
            } else {
                Seq::empty()
            },
            None => Seq::empty(),
        }
    } else {
        Seq::empty()
    }
}

/// The key, runner, environment and needs lines of the workflow job of `j`.
pub open spec fn job_head(d: DeployFile, j: Job) -> Seq<char> {
    "  "@ + sanitized(j.name@) + ":\n"@ + "    runs-on: "@ + "ubuntu-latest"@ + "\n"@
        + environment_text(d, j) + needs_text(j)
}

/// The steps of the workflow job of `j`, its approval note and the closing blank line.
pub open spec fn job_steps(d: DeployFile, j: Job) -> Seq<char> {
    "    steps:\n"@ + "      - name: Checkout code\n"@ + "        uses: actions/checkout@v4\n\n"@
        + run_steps(j, j.runs@.len() as int) + approval_note(d, j) + "\n"@
}

/// The workflow job of `j`.
pub open spec fn job_block(d: DeployFile, j: Job) -> Seq<char> {
    job_head(d, j) + job_steps(d, j)
}

/// The workflow jobs of the first `n` jobs.
pub open spec fn job_blocks(d: DeployFile, n: int) -> Seq<char>
    decreases n,
{
    if n <= 0 {
        Seq::empty()
    } else {
        job_blocks(d, n - 1) + job_block(d, d.jobs@[n - 1])
    }
}

/// The whole workflow of a unit.
pub open spec fn workflow(d: DeployFile) -> Seq<char> {
    header(d) + "name: Deploy Pipeline\n\n"@ + "on:\n"@ + "  push:\n"@ + "    branches: [main]\n"@
        + "  workflow_dispatch:\n\n"@ + "jobs:\n"@ + job_blocks(d, d.jobs@.len() as int)
}

fn step_title(cmd: &str, index: usize) -> (r: String)
    requires
        index < usize::MAX,
    ensures
        r@ == step_name(cmd@, index as nat),
{
    let parts = split_words(cmd);
    proof {
        assert(parts@.map_values(|w: String| w@).len() == parts@.len());
    }
    if parts.len() == 0 {
        let mut r = String::from_str("Step ");
        let num = decimal_text(index + 1);
        r.append(num.as_str());
        return r;
    }
    proof {
        assert(parts@.map_values(|w: String| w@)[0] == parts@[0]@);
    }
    let head = parts[0].as_str();
    let known = same_text(head, "npm") || same_text(head, "docker") || same_text(head, "kubectl")
        || same_text(head, "cargo") || same_text(head, "go");
    let mut r = String::from_str("Run ");
    r.append(head);
    if parts.len() > 1 && known {
        proof {
            assert(parts@.map_values(|w: String| w@)[1] == parts@[1]@);
        }
        r.append(" ");
        r.append(parts[1].as_str());
    }
    r
}

fn write_secret_lines(v: &Vec<String>, out: &mut String)
    ensures
        final(out)@ == old(out)@ + secret_lines(v@, v@.len() as int),
{
    let ghost o0 = out@;
    let mut i: usize = 0;
    proof {
        assert(out@ =~= o0 + secret_lines(v@, 0));
    }
    while i < v.len()
        invariant
            i <= v@.len(),
            out@ == o0 + secret_lines(v@, i as int),
        decreases v@.len() - i,
    {
        let e = secret_env_name(v[i].as_str());
        out.append("          ");
        out.append(e.as_str());
        out.append(": ${{ secrets.");
        out.append(e.as_str());
        out.append(" }}\n");
        proof {
            assert(out@ =~= o0 + secret_lines(v@, i + 1));
        }
        i += 1;
    }
}

fn write_run_steps(j: &Job, out: &mut String)
    ensures
        final(out)@ == old(out)@ + run_steps(*j, j.runs@.len() as int),
{
    let ghost o0 = out@;
    let mut i: usize = 0;
    proof {
        assert(out@ =~= o0 + run_steps(*j, 0));
    }
    while i < j.runs.len()
        invariant
            i <= j.runs@.len(),
            out@ == o0 + run_steps(*j, i as int),
        decreases j.runs@.len() - i,
    {
        let cmd = j.runs[i].as_str();
        let ghost o1 = out@;
        out.append("      - name: ");
        let title = step_title(cmd, i);
        out.append(title.as_str());
        out.append("\n");
        out.append("        run: |\n");
        out.append("          ");
        out.append(cmd);
        out.append("\n");
        if j.needs_secrets.len() > 0 {
            out.append("        env:\n");
            write_secret_lines(&j.needs_secrets, out);
        }
        out.append("\n");
        proof {
            assert(out@ =~= o1 + run_step(*j, j.runs@[i as int]@, i as nat));
            assert(out@ =~= o0 + run_steps(*j, i + 1));
        }
        i += 1;
    }
}

fn write_needs(j: &Job, out: &mut String)
    ensures
        final(out)@ == old(out)@ + needs_text(*j),
{
    let ghost o0 = out@;
    let r = &j.requires;
    if r.len() == 0 {
        proof {
            assert(out@ =~= o0 + needs_text(*j));
        }
        return;
    }
    out.append("    needs:");
    if r.len() == 1 {
        out.append(" ");
        let dep = sanitize_job_name(strip_or_keep_text(r[0].as_str(), "job."));
        out.append(dep.as_str());
        out.append("\n");
    } else {
        out.append("\n");
        let ghost o1 = out@;
        let mut i: usize = 0;
        proof {
            assert(out@ =~= o1 + need_lines(r@, 0));
        }
        while i < r.len()
            invariant
                i <= r@.len(),
                out@ == o1 + need_lines(r@, i as int),
            decreases r@.len() - i,
        {
            out.append("      - ");
            let dep = sanitize_job_name(strip_or_keep_text(r[i].as_str(), "job."));
            out.append(dep.as_str());
            out.append("\n");
            proof {
                assert(out@ =~= o1 + need_lines(r@, i + 1));
            }
            i += 1;
        }
    }
    proof {
        assert(out@ =~= o0 + needs_text(*j));
    }
}

fn declared_target(d: &DeployFile, j: &Job) -> (r: Option<usize>)
    ensures
        match r {
            Some(p) => p < d.targets@.len() && j.uses_target@.len() > 0 && lookup_named(d.targets@, target_name(*j))
                == Some(d.targets@[p as int]),
            None => j.uses_target@.len() == 0 || lookup_named(d.targets@, target_name(*j)) is None,
        },
{
    if j.uses_target.unicode_len() > 0 {
        find_named(&d.targets, strip_or_keep_text(j.uses_target.as_str(), "target."))
    } else {
        None
    }
}

fn write_head(d: &DeployFile, j: &Job, out: &mut String)
    ensures
        final(out)@ == old(out)@ + job_head(*d, *j),
{
    let ghost o0 = out@;
    out.append("  ");
    let key = sanitize_job_name(j.name.as_str());
    out.append(key.as_str());
    out.append(":\n");
    out.append("    runs-on: ");
    out.append("ubuntu-latest");
    out.append("\n");
    let ghost o1 = out@;
    match declared_target(d, j) {
        Some(p) => {
            out.append("    environment: ");
            out.append(d.targets[p].kind.as_str());
            out.append("\n");
        },
        None => {},
    }
    proof {
        assert(out@ =~= o1 + environment_text(*d, *j));
    }
    write_needs(j, out);
    proof {
        assert(out@ =~= o0 + job_head(*d, *j));
    }
}

fn write_steps(d: &DeployFile, j: &Job, out: &mut String)
    ensures
        final(out)@ == old(out)@ + job_steps(*d, *j),
{
    let ghost o0 = out@;
    out.append("    steps:\n");
    out.append("      - name: Checkout code\n");
    out.append("        uses: actions/checkout@v4\n\n");
    write_run_steps(j, out);
    let ghost o2 = out@;
    match declared_target(d, j) {
        Some(p) => {
            if same_text(d.targets[p].kind.as_str(), "production") && d.gate.is_some() {
                out.append(
                    "      # Production deployment requires manual approval via GitHub environment protection rules\n",
                );
            }
        },
        None => {},
    }
    proof {
        assert(out@ =~= o2 + approval_note(*d, *j));
    }
    out.append("\n");
    proof {
        assert(out@ =~= o0 + job_steps(*d, *j));
    }
}

fn write_job(d: &DeployFile, j: &Job, out: &mut String)
    ensures
        final(out)@ == old(out)@ + job_block(*d, *j),
{
    let ghost o0 = out@;
    write_head(d, j, out);
    write_steps(d, j, out);
    proof {
        assert(out@ =~= o0 + job_block(*d, *j));
    }
}

impl GitHubActionsGenerator {
    pub fn new() -> (r: GitHubActionsGenerator) {
        GitHubActionsGenerator
    }

    /// The workflow: a header, a push-to-main and manual trigger, and one job per
    /// deploy job with its runner, environment, needs, steps and secrets.
    pub fn generate(&self, deploy: &DeployFile) -> (r: String)
        ensures
            r@ == workflow(*deploy),
    {
        let mut out = String::new();
        write_header(deploy, &mut out);
        out.append("name: Deploy Pipeline\n\n");
        out.append("on:\n");
        out.append("  push:\n");
        out.append("    branches: [main]\n");
        out.append("  workflow_dispatch:\n\n");
        out.append("jobs:\n");
        let ghost o0 = out@;
        let mut i: usize = 0;
        proof {
            assert(out@ =~= o0 + job_blocks(*deploy, 0));
        }
        while i < deploy.jobs.len()
            invariant
                i <= deploy.jobs@.len(),
                out@ == o0 + job_blocks(*deploy, i as int),
            decreases deploy.jobs@.len() - i,
        {
            write_job(deploy, &deploy.jobs[i], &mut out);
            proof {
                assert(out@ =~= o0 + job_blocks(*deploy, i + 1));
            }
            i += 1;
        }
        proof {
            assert(out@ =~= workflow(*deploy));
        }
        out
    }
}

} // verus!
