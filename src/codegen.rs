//! CI configuration generated from a Deploy IR unit, and what the generators share.
use vstd::prelude::*;

use crate::deploy::ast::{DeployFile, Job};
use crate::text::{strip_or_keep, strip_or_keep_text};

pub mod github_actions;
pub mod gitlab_ci;

verus! {

/// `s` with every `-` and `.` turned into `_`.
pub open spec fn sanitized(s: Seq<char>) -> Seq<char> {
    s.map_values(|c: char| if c == '-' || c == '.' { '_' } else { c })
}

/// A job name made safe as a CI job key.
pub fn sanitize_job_name(name: &str) -> (r: String)
    ensures
        r@ == sanitized(name@),
{
    let n = name.unicode_len();
    let mut r = String::new();
    let mut i: usize = 0;
    while i < n
        invariant
            n == name@.len(),
            i <= n,
            r@ == sanitized(name@.take(i as int)),
        decreases n - i,
    {
        let c = name.get_char(i);
        if c == '-' || c == '.' {
            r.append("_");
        } else {
            r.append(name.substring_char(i, i + 1));
        }
        proof {
            assert(name@.take(i + 1) =~= name@.take(i as int).push(c));
            assert("_"@ =~= seq!['_']) by {
                reveal_strlit("_");
            }
            assert(sanitized(name@.take(i + 1)) =~= sanitized(name@.take(i as int)).push(
                if c == '-' || c == '.' { '_' } else { c },
            ));
        }
        i += 1;
    }
    proof {
        assert(name@.take(n as int) =~= name@);
    }
    r
}

/// What `str::to_uppercase` makes of `s`.
pub uninterp spec fn upper_of(s: Seq<char>) -> Seq<char>;

/// Relies on `str::to_uppercase`: the Unicode upper case of `s`, which depends on
/// its characters alone.
#[verifier::external_body]
fn uppercase(s: &str) -> (r: String)
    ensures
        r@ == upper_of(s@),
{
    s.to_uppercase()
}

/// The name of a secret reference, without its `secret.` prefix, in upper case.
pub open spec fn secret_env(s: Seq<char>) -> Seq<char> {
    upper_of(strip_or_keep(s, "secret."@))
}

pub fn secret_env_name(s: &str) -> (r: String)
    ensures
        r@ == secret_env(s@),
{
    uppercase(strip_or_keep_text(s, "secret."))
}

/// The comment lines that open a generated file.
pub open spec fn header(d: DeployFile) -> Seq<char> {
    "# Generated from Deploy IR by surc\n"@ + match d.pipeline {
        Some(p) => "# Pipeline: "@ + p.name@ + "\n"@ + if p.description@.len() > 0 {
            "# "@ + p.description@ + "\n"@
        } else {
            Seq::empty()
        },
        None => Seq::empty(),
    } + "\n"@
}

pub fn write_header(d: &DeployFile, out: &mut String)
    ensures
        final(out)@ == old(out)@ + header(*d),
{
    let ghost o0 = out@;
    out.append("# Generated from Deploy IR by surc\n");
    match &d.pipeline {
        Some(p) => {
            out.append("# Pipeline: ");
            out.append(p.name.as_str());
            out.append("\n");
            if p.description.unicode_len() > 0 {
                out.append("# ");
                out.append(p.description.as_str());
                out.append("\n");
            }
        },
        None => {},
    }
    out.append("\n");
    proof {
        assert(out@ =~= o0 + header(*d));
    }
}

/// Concatenation of `f` over the first `n` strings of `v`.
pub open spec fn each(v: Seq<String>, f: spec_fn(Seq<char>) -> Seq<char>, n: int) -> Seq<char>
    decreases n,
{
    if n <= 0 {
        Seq::empty()
    } else {
        each(v, f, n - 1) + f(v[n - 1]@)
    }
}

/// The target a job names, without its `target.` prefix.
pub open spec fn target_name(j: Job) -> Seq<char> {
    strip_or_keep(j.uses_target@, "target."@)
}

} // verus!
