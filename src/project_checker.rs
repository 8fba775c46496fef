//! The project checker: the cross-unit module-requires graph.
use vstd::prelude::*;

use crate::diagnostic::{error_finding, findings, new_error, Diagnostic, Finding};
use crate::graph::{arrow_path, arrow_text, cycles_view, named_cycles, names_view, pairs_view, valid_cycles};
use crate::project::{edges_view, normalized, EdgeView, ModRef, NormalizedRequire, ProjectAST};
use crate::text::same_text;

verus! {

/// Some declared module has the id `x`.
pub open spec fn mod_declared(mods: Seq<ModRef>, x: Seq<char>) -> bool {
    exists|i: int| 0 <= i < mods.len() && #[trigger] mods[i].id@ == x
}

/// `UnresolvedRequire` for each of the first `n` edges whose target no module declares.
pub open spec fn unresolved_findings(es: Seq<EdgeView>, mods: Seq<ModRef>, n: int) -> Seq<Finding>
    decreases n,
{
    if n <= 0 {
        Seq::empty()
    } else {
        let e = es[n - 1];
        unresolved_findings(es, mods, n - 1) + if mod_declared(mods, e.to_mod) {
            Seq::empty()
        } else {
            seq![
                error_finding(
                    "UnresolvedRequire"@,
                    "Module '"@ + e.to_mod + "' (required from '"@ + e.from_mod + "') does not exist"@,
                    e.file,
                ),
            ]
        }
    }
}

/// The (from, to) pairs of the edges.
pub open spec fn edge_pairs(es: Seq<EdgeView>) -> Seq<(Seq<char>, Seq<char>)> {
    es.map_values(|e: EdgeView| (e.from_mod, e.to_mod))
}

/// The unit of the first edge from `a` to `b`, or `require graph` when there is none.
pub open spec fn edge_file(es: Seq<EdgeView>, a: Seq<char>, b: Seq<char>, n: int) -> Seq<char>
    decreases n,
{
    if n <= 0 {
        "require graph"@
    } else if es[es.len() - n].from_mod == a && es[es.len() - n].to_mod == b {
        es[es.len() - n].file
    } else {
        edge_file(es, a, b, n - 1)
    }
}

/// `RequireCycle` for each of the first `n` cycles that holds two modules or more.
pub open spec fn require_cycle_findings(es: Seq<EdgeView>, cs: Seq<Seq<Seq<char>>>, n: int) -> Seq<Finding>
    decreases n,
{
    if n <= 0 {
        Seq::empty()
    } else {
        let c = cs[n - 1];
        let next = if c.len() >= 2 {
            c[1]
        } else {
            c[0]
        };
        require_cycle_findings(es, cs, n - 1).push(
            error_finding(
                "RequireCycle"@,
                "Require cycle detected: "@ + arrow_path(c) + " -> "@ + c[0],
                edge_file(es, c[0], next, es.len() as int),
            ),
        )
    }
}

/// Everything the project checker reports on `project`, given the cycles found.
pub open spec fn project_findings(project: ProjectAST, cs: Seq<Seq<Seq<char>>>) -> Seq<Finding> {
    let es = normalized(project.files@);
    unresolved_findings(es, project.mods@, es.len() as int) + require_cycle_findings(
        es,
        cs,
        cs.len() as int,
    )
}

fn is_declared(mods: &Vec<ModRef>, x: &str) -> (r: bool)
    ensures
        r == mod_declared(mods@, x@),
{
    let mut i: usize = 0;
    while i < mods.len()
        invariant
            i <= mods@.len(),
            forall|k: int| 0 <= k < i ==> #[trigger] mods@[k].id@ != x@,
        decreases mods@.len() - i,
    {
        if same_text(mods[i].id.as_str(), x) {
            return true;
        }
        i += 1;
    }
    false
}

fn check_requires(project: &ProjectAST, edges: &Vec<NormalizedRequire>, diags: &mut Vec<Diagnostic>)
    ensures
        findings(final(diags)@) == findings(old(diags)@) + unresolved_findings(
            edges_view(edges@),
            project.mods@,
            edges@.len() as int,
        ),
{
    let ghost d0 = findings(diags@);
    let ghost es = edges_view(edges@);
    let mut i: usize = 0;
    proof {
        assert(findings(diags@) =~= d0 + unresolved_findings(es, project.mods@, 0));
    }
    while i < edges.len()
        invariant
            i <= edges@.len(),
            es == edges_view(edges@),
            findings(diags@) == d0 + unresolved_findings(es, project.mods@, i as int),
        decreases edges@.len() - i,
    {
        let e = &edges[i];
        let ghost before = diags@;
        if !is_declared(&project.mods, e.to_mod.as_str()) {
            let mut msg = String::from_str("Module '");
            msg.append(e.to_mod.as_str());
            msg.append("' (required from '");
            msg.append(e.from_mod.as_str());
            msg.append("') does not exist");
            let dg = new_error("UnresolvedRequire", msg, e.file.clone());
            diags.push(dg);
            proof {
                assert(findings(diags@) =~= findings(before).push(dg@));
            }
        }
        proof {
            assert(es[i as int] == e@);
            assert(findings(diags@) =~= d0 + unresolved_findings(es, project.mods@, i + 1));
        }
        i += 1;
    }
}

fn find_edge_file(edges: &Vec<NormalizedRequire>, a: &str, b: &str) -> (r: String)
    ensures
        r@ == edge_file(edges_view(edges@), a@, b@, edges@.len() as int),
{
    let ghost es = edges_view(edges@);
    let n = edges.len();
    let mut i: usize = 0;
    while i < n
        invariant
            n == edges@.len(),
            es == edges_view(edges@),
            i <= n,
            edge_file(es, a@, b@, n as int) == edge_file(es, a@, b@, (n - i) as int),
        decreases n - i,
    {
        if same_text(edges[i].from_mod.as_str(), a) && same_text(edges[i].to_mod.as_str(), b) {
            proof {
                assert(es[i as int] == edges@[i as int]@);
                assert(es.len() - (n - i) == i);
            }
            return edges[i].file.clone();
        }
        proof {
            assert(es[i as int] == edges@[i as int]@);
            assert(es.len() - (n - i) == i);
        }
        i += 1;
    }
    String::from_str("require graph")
}

/// Checks the module-requires graph of a project: each edge whose target no module
/// declares is `UnresolvedRequire`; each cycle of two modules or more that the cycle
/// search finds is one `RequireCycle`, with its path. The cycles found are genuine,
/// share no module, and are absent exactly when the graph is acyclic.
pub fn check_project(project: &ProjectAST) -> (r: Vec<Diagnostic>)
    ensures
        exists|cs: Seq<Seq<Seq<char>>>|
            valid_cycles(edge_pairs(normalized(project.files@)), cs) && findings(r@)
                == #[trigger] project_findings(*project, cs),
{
    let edges = project.collect_normalized_requires();
    let ghost es = edges_view(edges@);
    let mut diags: Vec<Diagnostic> = Vec::new();
    proof {
        assert(findings(diags@) =~= Seq::<Finding>::empty());
    }
    check_requires(project, &edges, &mut diags);
    let ghost d1 = findings(diags@);
    let mut pairs: Vec<(String, String)> = Vec::new();
    let mut i: usize = 0;
    proof {
        assert(pairs_view(pairs@) =~= edge_pairs(es).take(0));
    }
    while i < edges.len()
        invariant
            i <= edges@.len(),
            es == edges_view(edges@),
            pairs_view(pairs@) == edge_pairs(es).take(i as int),
        decreases edges@.len() - i,
    {
        let ghost p0 = pairs@;
        let a = edges[i].from_mod.clone();
        let b = edges[i].to_mod.clone();
        pairs.push((a, b));
        proof {
            assert(es[i as int] == edges@[i as int]@);
            assert(pairs_view(pairs@) =~= pairs_view(p0).push((es[i as int].from_mod, es[i as int].to_mod)));
            assert(edge_pairs(es).take(i + 1) =~= edge_pairs(es).take(i as int).push(edge_pairs(es)[i as int]));
            assert(pairs_view(pairs@) =~= edge_pairs(es).take(i + 1));
        }
        i += 1;
    }
    proof {
        assert(edge_pairs(es).take(edges@.len() as int) =~= edge_pairs(es));
    }
    let cycles = named_cycles(&pairs);
    let ghost cs = cycles_view(cycles@);
    let mut i: usize = 0;
    proof {
        assert(findings(diags@) =~= d1 + require_cycle_findings(es, cs, 0));
    }
    while i < cycles.len()
        invariant
            i <= cycles@.len(),
            cs == cycles_view(cycles@),
            es == edges_view(edges@),
            forall|q: int| 0 <= q < cycles@.len() ==> (#[trigger] names_view(cycles@[q]@)).len() >= 1,
            findings(diags@) == d1 + require_cycle_findings(es, cs, i as int),
        decreases cycles@.len() - i,
    {
        let c = &cycles[i];
        let ghost before = diags@;
        assert(names_view(c@).len() >= 1);
        assert(cs[i as int] == names_view(c@));
        assert(names_view(c@)[0] == c@[0]@);
        assert(c@.len() >= 2 ==> names_view(c@)[1] == c@[1]@);
        let mut msg = String::from_str("Require cycle detected: ");
        let path = arrow_text(c);
        msg.append(path.as_str());
        msg.append(" -> ");
        msg.append(c[0].as_str());
        let next = if c.len() >= 2 { c[1].as_str() } else { c[0].as_str() };
        let file = find_edge_file(&edges, c[0].as_str(), next);
        let dg = new_error("RequireCycle", msg, file);
        diags.push(dg);
        proof {
            assert(findings(diags@) =~= findings(before).push(dg@));
        }
        proof {
            assert(findings(diags@) =~= d1 + require_cycle_findings(es, cs, i + 1));
        }
        i += 1;
    }
    proof {
        assert(findings(diags@) =~= project_findings(*project, cs));
    }
    diags
}

} // verus!
