//! Cycle detection on a directed graph given by successor lists over node indices,
//! shared by the module-requires and job-requires checks.
use vstd::prelude::*;

verus! {

/// Every successor names a node of the graph.
pub open spec fn well_formed(adj: Seq<Vec<usize>>) -> bool {
    forall|u: int, k: int|
        0 <= u < adj.len() && 0 <= k < adj[u]@.len() ==> #[trigger] adj[u]@[k] < adj.len()
}

/// There is an edge from `u` to `v`.
pub open spec fn edge(adj: Seq<Vec<usize>>, u: int, v: int) -> bool {
    0 <= u < adj.len() && exists|k: int| 0 <= k < adj[u]@.len() && #[trigger] adj[u]@[k] == v
}

/// `c` is a cycle: each node has an edge to the next, the last one to the first.
pub open spec fn is_cycle(adj: Seq<Vec<usize>>, c: Seq<usize>) -> bool {
    &&& c.len() >= 1
    &&& forall|k: int| 0 <= k < c.len() ==> #[trigger] c[k] < adj.len()
    &&& forall|k: int| 0 <= k < c.len() - 1 ==> edge(adj, #[trigger] c[k] as int, c[k + 1] as int)
    &&& edge(adj, c.last() as int, c[0] as int)
}

/// `rank` decreases strictly along every edge.
pub open spec fn ranked(adj: Seq<Vec<usize>>, rank: Seq<nat>) -> bool {
    &&& rank.len() == adj.len()
    &&& forall|u: int, k: int|
        0 <= u < adj.len() && 0 <= k < adj[u]@.len() ==> rank[#[trigger] adj[u]@[k] as int]
            < rank[u]
}

/// The graph has no cycle: its nodes can be ranked so that every edge goes down.
pub open spec fn acyclic(adj: Seq<Vec<usize>>) -> bool {
    exists|rank: Seq<nat>| ranked(adj, rank)
}

/// No two of the cycles share a node.
pub open spec fn disjoint(cs: Seq<Seq<usize>>) -> bool {
    forall|i: int, j: int, a: int, b: int|
        0 <= i < cs.len() && 0 <= j < cs.len() && i != j && 0 <= a < cs[i].len() && 0 <= b
            < cs[j].len() ==> #[trigger] cs[i][a] != #[trigger] cs[j][b]
}

/// Number of the first `m` flags that are down.
pub open spec fn unmarked(s: Seq<bool>, m: int) -> nat
    decreases m,
{
    if m <= 0 {
        0
    } else {
        unmarked(s, m - 1) + if s[m - 1] {
            0nat
        } else {
            1nat
        }
    }
}

proof fn lemma_unmarked_mark(s: Seq<bool>, x: int, m: int)
    requires
        0 <= x < s.len(),
        m <= s.len(),
        !s[x],
    ensures
        x < m ==> unmarked(s.update(x, true), m) + 1 == unmarked(s, m),
        x >= m ==> unmarked(s.update(x, true), m) == unmarked(s, m),
    decreases m,
{
    if m > 0 {
        lemma_unmarked_mark(s, x, m - 1);
    }
}

proof fn lemma_cycle_unranked(adj: Seq<Vec<usize>>, c: Seq<usize>, rank: Seq<nat>)
    requires
        is_cycle(adj, c),
    ensures
        !ranked(adj, rank),
{
    if !ranked(adj, rank) {
        return;
    }
    // along the cycle the rank goes down at every step, and back up to where it began
    assert forall|k: int| 0 <= k < c.len() implies #[trigger] rank[c[k] as int] <= rank[c[0] as int]
        - k by {
        lemma_rank_along(adj, c, rank, k);
    }
    let last = c.len() - 1;
    assert(rank[c[last] as int] <= rank[c[0] as int] - last);
    let kk = choose|kk: int| 0 <= kk < adj[c.last() as int]@.len() && adj[c.last() as int]@[kk]
        == c[0];
    assert(rank[adj[c.last() as int]@[kk] as int] < rank[c.last() as int]);
}

proof fn lemma_rank_along(adj: Seq<Vec<usize>>, c: Seq<usize>, rank: Seq<nat>, k: int)
    requires
        is_cycle(adj, c),
        ranked(adj, rank),
        0 <= k < c.len(),
    ensures
        rank[c[k] as int] <= rank[c[0] as int] - k,
    decreases k,
{
    if k > 0 {
        lemma_rank_along(adj, c, rank, k - 1);
        assert(edge(adj, c[k - 1] as int, c[k] as int));
        let u = c[k - 1] as int;
        let kk = choose|kk: int| 0 <= kk < adj[u]@.len() && adj[u]@[kk] == c[k];
        assert(rank[adj[u]@[kk] as int] < rank[u]);
    }
}

/// The ranking built so far: a ranked node's successors are broken or ranked lower.
pub open spec fn rank_inv(
    adj: Seq<Vec<usize>>,
    done: Seq<bool>,
    broken: Seq<bool>,
    gone: Seq<bool>,
    rank: Seq<nat>,
    t: nat,
) -> bool {
    &&& done.len() == adj.len()
    &&& broken.len() == adj.len()
    &&& gone.len() == adj.len()
    &&& rank.len() == adj.len()
    &&& forall|v: int| 0 <= v < adj.len() ==> (#[trigger] gone[v] <==> (done[v] || broken[v]))
    &&& forall|v: int| 0 <= v < adj.len() && #[trigger] done[v] ==> rank[v] < t
    &&& forall|u: int, k: int|
        0 <= u < adj.len() && done[u] && 0 <= k < adj[u]@.len() ==> broken[#[trigger] adj[u]@[k] as int]
            || (done[adj[u]@[k] as int] && rank[adj[u]@[k] as int] < rank[u])
}

/// Every live node has a live successor.
pub open spec fn stuck(adj: Seq<Vec<usize>>, gone: Seq<bool>) -> bool {
    forall|u: int|
        0 <= u < adj.len() && !#[trigger] gone[u] ==> exists|k: int|
            0 <= k < adj[u]@.len() && !gone[#[trigger] adj[u]@[k] as int]
}

fn all_successors_gone(adj: &Vec<Vec<usize>>, gone: &Vec<bool>, u: usize) -> (r: bool)
    requires
        well_formed(adj@),
        gone@.len() == adj@.len(),
        u < adj@.len(),
    ensures
        r == forall|k: int| 0 <= k < adj@[u as int]@.len() ==> gone@[#[trigger] adj@[u as int]@[k] as int],
{
    let succ = &adj[u];
    let mut k: usize = 0;
    while k < succ.len()
        invariant
            succ@ == adj@[u as int]@,
            k <= succ@.len(),
            well_formed(adj@),
            gone@.len() == adj@.len(),
            u < adj@.len(),
            forall|j: int| 0 <= j < k ==> gone@[#[trigger] succ@[j] as int],
        decreases succ@.len() - k,
    {
        assert(succ@[k as int] < adj@.len());
        if !gone[succ[k]] {
            return false;
        }
        k += 1;
    }
    true
}

/// Ranks live nodes whose successors are all gone until none is left to rank.
fn eliminate(
    adj: &Vec<Vec<usize>>,
    done: &mut Vec<bool>,
    broken: &Vec<bool>,
    gone: &mut Vec<bool>,
    rank: Ghost<Seq<nat>>,
    t: Ghost<nat>,
) -> (res: (Ghost<Seq<nat>>, Ghost<nat>))
    requires
        well_formed(adj@),
        rank_inv(adj@, old(done)@, broken@, old(gone)@, rank@, t@),
    ensures
        rank_inv(adj@, final(done)@, broken@, final(gone)@, res.0@, res.1@),
        stuck(adj@, final(gone)@),
        unmarked(final(gone)@, adj@.len() as int) <= unmarked(old(gone)@, adj@.len() as int),
        forall|v: int| 0 <= v < adj@.len() && #[trigger] old(gone)@[v] ==> final(gone)@[v],
{
    let n = adj.len();
    let ghost mut rank = rank@;
    let ghost mut t = t@;
    let ghost g0 = gone@;
    let mut changed = true;
    while changed
        invariant
            n == adj@.len(),
            well_formed(adj@),
            rank_inv(adj@, done@, broken@, gone@, rank, t),
            !changed ==> stuck(adj@, gone@),
            unmarked(gone@, n as int) <= unmarked(g0, n as int),
            forall|v: int| 0 <= v < n && #[trigger] g0[v] ==> gone@[v],
        decreases unmarked(gone@, n as int) + if changed {
            1nat
        } else {
            0nat
        },
    {
        changed = false;
        let ghost c0 = unmarked(gone@, n as int);
        let mut u: usize = 0;
        while u < n
            invariant
                n == adj@.len(),
                u <= n,
                well_formed(adj@),
                rank_inv(adj@, done@, broken@, gone@, rank, t),
                unmarked(gone@, n as int) + (if changed {
                    1nat
                } else {
                    0nat
                }) <= c0,
                c0 <= unmarked(g0, n as int),
                !changed ==> forall|w: int|
                    0 <= w < u && !#[trigger] gone@[w] ==> exists|k: int|
                        0 <= k < adj@[w]@.len() && !gone@[#[trigger] adj@[w]@[k] as int],
                forall|v: int| 0 <= v < n && #[trigger] g0[v] ==> gone@[v],
            decreases n - u,
        {
            if !gone[u] && all_successors_gone(adj, gone, u) {
                proof {
                    lemma_unmarked_mark(gone@, u as int, n as int);
                    rank = rank.update(u as int, t);
                    t = t + 1;
                }
                done.set(u, true);
                gone.set(u, true);
                changed = true;
            }
            u += 1;
        }
    }
    (Ghost(rank), Ghost(t))
}

/// A successor of the live node `u` that is live.
fn live_successor(adj: &Vec<Vec<usize>>, gone: &Vec<bool>, u: usize) -> (w: usize)
    requires
        well_formed(adj@),
        gone@.len() == adj@.len(),
        stuck(adj@, gone@),
        u < adj@.len(),
        !gone@[u as int],
    ensures
        w < adj@.len(),
        !gone@[w as int],
        edge(adj@, u as int, w as int),
{
    let succ = &adj[u];
    let mut k: usize = 0;
    while k < succ.len() && gone[succ[k]]
        invariant
            succ@ == adj@[u as int]@,
            k <= succ@.len(),
            well_formed(adj@),
            gone@.len() == adj@.len(),
            u < adj@.len(),
            forall|j: int| 0 <= j < k ==> gone@[#[trigger] succ@[j] as int],
        decreases succ@.len() - k,
    {
        k += 1;
    }
    if k == succ.len() {
        assert(false);
    }
    succ[k]
}

/// The walk so far: distinct live nodes, each with an edge to the next, with `seen`
/// and `pos` recording which nodes it holds and where.
#[verifier::opaque]
pub open spec fn walk_ok(
    adj: Seq<Vec<usize>>,
    gone: Seq<bool>,
    seen: Seq<bool>,
    pos: Seq<usize>,
    walk: Seq<usize>,
) -> bool {
    let n = adj.len();
    &&& seen.len() == n
    &&& pos.len() == n
    &&& walk.len() >= 1
    &&& forall|k: int| 0 <= k < walk.len() ==> #[trigger] walk[k] < n
    &&& forall|k: int| 0 <= k < walk.len() ==> !gone[#[trigger] walk[k] as int]
    &&& forall|k: int| 0 <= k < walk.len() ==> #[trigger] seen[walk[k] as int]
    &&& forall|k: int| 0 <= k < walk.len() ==> pos[#[trigger] walk[k] as int] == k
    &&& forall|v: int|
        0 <= v < n && #[trigger] seen[v] ==> pos[v] < walk.len() && walk[pos[v] as int] == v
    &&& forall|k: int| 0 <= k < walk.len() - 1 ==> edge(adj, #[trigger] walk[k] as int, walk[k + 1] as int)
    &&& walk.no_duplicates()
}

#[verifier::rlimit(60)]
proof fn lemma_walk_extend(
    adj: Seq<Vec<usize>>,
    gone: Seq<bool>,
    seen: Seq<bool>,
    pos: Seq<usize>,
    walk: Seq<usize>,
    w: usize,
)
    requires
        walk_ok(adj, gone, seen, pos, walk),
        gone.len() == adj.len(),
        walk.len() < usize::MAX,
        w < adj.len(),
        !gone[w as int],
        !seen[w as int],
        edge(adj, walk.last() as int, w as int),
    ensures
        walk_ok(
            adj,
            gone,
            seen.update(w as int, true),
            pos.update(w as int, walk.len() as usize),
            walk.push(w),
        ),
{
    reveal(walk_ok);
    let n = adj.len();
    let seen2 = seen.update(w as int, true);
    let pos2 = pos.update(w as int, walk.len() as usize);
    let walk2 = walk.push(w);
    assert forall|a: int, b: int| 0 <= a < walk2.len() && 0 <= b < walk2.len() && a != b implies walk2[a]
        != walk2[b] by {
        if a == walk.len() {
            assert(seen[walk[b] as int]);
        } else if b == walk.len() {
            assert(seen[walk[a] as int]);
        }
    }
    assert forall|k: int| 0 <= k < walk2.len() implies pos2[#[trigger] walk2[k] as int] == k by {
        if k < walk.len() {
            assert(walk2[k] == walk[k]);
            assert(seen[walk[k] as int]);
            assert(walk[k] != w);
            assert(pos[walk[k] as int] == k);
        }
    }
    assert forall|k: int| 0 <= k < walk2.len() - 1 implies edge(
        adj,
        #[trigger] walk2[k] as int,
        walk2[k + 1] as int,
    ) by {
        if k < walk.len() - 1 {
            assert(walk2[k + 1] == walk[k + 1]);
        }
    }
    assert forall|v: int| 0 <= v < n && #[trigger] seen2[v] implies pos2[v] < walk2.len() && walk2[pos2[v] as int]
        == v by {
        if v != w {
            assert(seen[v]);
        }
    }
    assert forall|k: int| 0 <= k < walk2.len() implies #[trigger] seen2[walk2[k] as int] by {}
}

proof fn lemma_walk_last(
    adj: Seq<Vec<usize>>,
    gone: Seq<bool>,
    seen: Seq<bool>,
    pos: Seq<usize>,
    walk: Seq<usize>,
)
    requires
        walk_ok(adj, gone, seen, pos, walk),
    ensures
        walk.len() >= 1,
        walk.last() < adj.len(),
        !gone[walk.last() as int],
        seen.len() == adj.len(),
{
    reveal(walk_ok);
    assert(walk[walk.len() - 1] == walk.last());
}

proof fn lemma_walk_start(
    adj: Seq<Vec<usize>>,
    gone: Seq<bool>,
    seen: Seq<bool>,
    pos: Seq<usize>,
    s: usize,
)
    requires
        seen.len() == adj.len(),
        pos.len() == adj.len(),
        s < adj.len(),
        !gone[s as int],
        forall|v: int| 0 <= v < adj.len() ==> !#[trigger] seen[v],
    ensures
        walk_ok(adj, gone, seen.update(s as int, true), pos.update(s as int, 0), seq![s]),
{
    reveal(walk_ok);
    let seen2 = seen.update(s as int, true);
    let pos2 = pos.update(s as int, 0);
    assert forall|v: int| 0 <= v < adj.len() && #[trigger] seen2[v] implies pos2[v] < 1 && seq![s][pos2[v] as int] == v by {
        assert(v == s);
    }
}

proof fn lemma_unmarked_all(s: Seq<bool>, m: int)
    requires
        0 <= m <= s.len(),
        forall|v: int| 0 <= v < m ==> !#[trigger] s[v],
    ensures
        unmarked(s, m) == m,
    decreases m,
{
    if m > 0 {
        lemma_unmarked_all(s, m - 1);
    }
}

proof fn lemma_walk_closes(
    adj: Seq<Vec<usize>>,
    gone: Seq<bool>,
    seen: Seq<bool>,
    pos: Seq<usize>,
    walk: Seq<usize>,
    w: usize,
)
    requires
        walk_ok(adj, gone, seen, pos, walk),
        w < adj.len(),
        seen[w as int],
        edge(adj, walk.last() as int, w as int),
    ensures
        pos[w as int] < walk.len(),
        is_cycle(adj, walk.subrange(pos[w as int] as int, walk.len() as int)),
        walk.subrange(pos[w as int] as int, walk.len() as int).no_duplicates(),
        forall|k: int|
            0 <= k < walk.len() - pos[w as int] ==> !gone[#[trigger] walk.subrange(
                pos[w as int] as int,
                walk.len() as int,
            )[k] as int],
{
    reveal(walk_ok);
    let start = pos[w as int] as int;
    let c = walk.subrange(start, walk.len() as int);
    assert forall|a: int, b: int| 0 <= a < c.len() && 0 <= b < c.len() && a != b implies c[a]
        != c[b] by {
        assert(c[a] == walk[start + a]);
        assert(c[b] == walk[start + b]);
    }
    assert forall|q: int| 0 <= q < c.len() - 1 implies edge(adj, #[trigger] c[q] as int, c[q + 1] as int) by {
        assert(c[q] == walk[start + q]);
        assert(c[q + 1] == walk[start + q + 1]);
    }
    assert forall|q: int| 0 <= q < c.len() implies #[trigger] c[q] < adj.len() && !gone[c[q] as int] by {
        assert(c[q] == walk[start + q]);
    }
    assert(c[0] == w);
    assert(c.last() == walk.last());
}

/// The entries of `v` from position `start` on.
fn copy_from(v: &Vec<usize>, start: usize) -> (c: Vec<usize>)
    requires
        start <= v@.len(),
    ensures
        c@ == v@.subrange(start as int, v@.len() as int),
{
    let mut c: Vec<usize> = Vec::new();
    let mut j: usize = start;
    while j < v.len()
        invariant
            start <= j <= v@.len(),
            c@ == v@.subrange(start as int, j as int),
        decreases v@.len() - j,
    {
        c.push(v[j]);
        proof {
            assert(c@ =~= v@.subrange(start as int, j + 1));
        }
        j += 1;
    }
    c
}

/// Walks from the live node `s` along live successors until a node repeats; the
/// part of the walk from that node on is a cycle through live nodes.
fn walk_to_cycle(adj: &Vec<Vec<usize>>, gone: &Vec<bool>, s: usize) -> (c: Vec<usize>)
    requires
        well_formed(adj@),
        gone@.len() == adj@.len(),
        stuck(adj@, gone@),
        s < adj@.len(),
        !gone@[s as int],
    ensures
        is_cycle(adj@, c@),
        c@.no_duplicates(),
        forall|k: int| 0 <= k < c@.len() ==> !gone@[#[trigger] c@[k] as int],
{
    let n = adj.len();
    let mut seen: Vec<bool> = Vec::new();
    let mut pos: Vec<usize> = Vec::new();
    let mut i: usize = 0;
    while i < n
        invariant
            i <= n,
            seen@.len() == i,
            pos@.len() == i,
            forall|v: int| 0 <= v < i ==> !#[trigger] seen@[v],
        decreases n - i,
    {
        seen.push(false);
        pos.push(0);
        i += 1;
    }
    let mut walk: Vec<usize> = Vec::new();
    walk.push(s);
    proof {
        lemma_unmarked_all(seen@, n as int);
        lemma_unmarked_mark(seen@, s as int, n as int);
        lemma_walk_start(adj@, gone@, seen@, pos@, s);
        assert(walk@ =~= seq![s]);
    }
    seen.set(s, true);
    pos.set(s, 0);
    let mut cur = s;
    loop
        invariant
            n == adj@.len(),
            well_formed(adj@),
            gone@.len() == n,
            stuck(adj@, gone@),
            walk_ok(adj@, gone@, seen@, pos@, walk@),
            walk@.len() + unmarked(seen@, n as int) == n,
            seen@.len() == n,
            pos@.len() == n,
            walk@.len() >= 1,
            cur == walk@.last(),
        decreases unmarked(seen@, n as int),
    {
        proof {
            lemma_walk_last(adj@, gone@, seen@, pos@, walk@);
        }
        let w = live_successor(adj, gone, cur);
        if seen[w] {
            proof {
                lemma_walk_closes(adj@, gone@, seen@, pos@, walk@, w);
            }
            return copy_from(&walk, pos[w]);
        }
        proof {
            lemma_unmarked_mark(seen@, w as int, n as int);
            lemma_walk_extend(adj@, gone@, seen@, pos@, walk@, w);
        }
        let len = walk.len();
        walk.push(w);
        seen.set(w, true);
        pos.set(w, len);
        cur = w;
    }
}

/// Finds cycles of the graph, node-disjoint and each without a repeated node; none
/// exactly when the graph is acyclic.
pub fn find_cycles(adj: &Vec<Vec<usize>>) -> (r: Vec<Vec<usize>>)
    requires
        well_formed(adj@),
    ensures
        forall|i: int| 0 <= i < r@.len() ==> is_cycle(adj@, #[trigger] r@[i]@),
        forall|i: int| 0 <= i < r@.len() ==> (#[trigger] r@[i]@).no_duplicates(),
        disjoint(r@.map_values(|c: Vec<usize>| c@)),
        r@.len() == 0 <==> acyclic(adj@),
{
    let n = adj.len();
    let mut done: Vec<bool> = Vec::new();
    let mut broken: Vec<bool> = Vec::new();
    let mut gone: Vec<bool> = Vec::new();
    let ghost mut rank: Seq<nat> = Seq::empty();
    let mut i: usize = 0;
    while i < n
        invariant
            i <= n,
            done@.len() == i,
            broken@.len() == i,
            gone@.len() == i,
            rank.len() == i,
            forall|v: int| 0 <= v < i ==> !#[trigger] done@[v],
            forall|v: int| 0 <= v < i ==> !#[trigger] broken@[v],
            forall|v: int| 0 <= v < i ==> !#[trigger] gone@[v],
        decreases n - i,
    {
        done.push(false);
        broken.push(false);
        gone.push(false);
        proof {
            rank = rank.push(0);
        }
        i += 1;
    }
    let ghost mut t: nat = 0;
    let mut cycles: Vec<Vec<usize>> = Vec::new();
    loop
        invariant
            n == adj@.len(),
            well_formed(adj@),
            rank_inv(adj@, done@, broken@, gone@, rank, t),
            forall|i: int| 0 <= i < cycles@.len() ==> is_cycle(adj@, #[trigger] cycles@[i]@),
            forall|i: int| 0 <= i < cycles@.len() ==> (#[trigger] cycles@[i]@).no_duplicates(),
            disjoint(cycles@.map_values(|c: Vec<usize>| c@)),
            forall|i: int, a: int|
                0 <= i < cycles@.len() && 0 <= a < cycles@[i]@.len() ==> broken@[#[trigger] cycles@[i]@[a] as int],
            cycles@.len() == 0 ==> forall|v: int| 0 <= v < n ==> !#[trigger] broken@[v],
        decreases unmarked(gone@, n as int),
    {
        let (rk, tk) = eliminate(adj, &mut done, &broken, &mut gone, Ghost(rank), Ghost(t));
        proof {
            rank = rk@;
            t = tk@;
        }
        let ghost before_pick = unmarked(gone@, n as int);
        let mut s: usize = 0;
        while s < n && gone[s]
            invariant
                s <= n,
                gone@.len() == n,
                forall|v: int| 0 <= v < s ==> #[trigger] gone@[v],
            decreases n - s,
        {
            s += 1;
        }
        if s == n {
            proof {
                if cycles@.len() == 0 {
                    assert forall|u: int, k: int|
                        0 <= u < adj@.len() && 0 <= k < adj@[u]@.len() implies rank[#[trigger] adj@[u]@[k] as int]
                            < rank[u] by {
                        assert(gone@[u]);
                        assert(!broken@[u]);
                        assert(!broken@[adj@[u]@[k] as int]);
                    }
                    assert(ranked(adj@, rank));
                } else {
                    assert(is_cycle(adj@, cycles@[0]@));
                    if acyclic(adj@) {
                        let rk = choose|rk: Seq<nat>| ranked(adj@, rk);
                        lemma_cycle_unranked(adj@, cycles@[0]@, rk);
                    }
                }
            }
            return cycles;
        }
        let c = walk_to_cycle(adj, &gone, s);
        let ghost cv = c@;
        let mut j: usize = 0;
        let ghost g_before = gone@;
        let ghost b_before = broken@;
        while j < c.len()
            invariant
                n == adj@.len(),
                well_formed(adj@),
                c@ == cv,
                is_cycle(adj@, cv),
                cv.no_duplicates(),
                j <= cv.len(),
                forall|k: int| 0 <= k < cv.len() ==> !g_before[#[trigger] cv[k] as int],
                rank_inv(adj@, done@, broken@, gone@, rank, t),
                forall|k: int| 0 <= k < j ==> #[trigger] broken@[cv[k] as int],
                forall|k: int| j <= k < cv.len() ==> !gone@[#[trigger] cv[k] as int],
                forall|v: int| 0 <= v < n && #[trigger] g_before[v] ==> gone@[v],
                forall|v: int| 0 <= v < n && #[trigger] b_before[v] ==> broken@[v],
                b_before.len() == n,
                forall|v: int| 0 <= v < n && #[trigger] broken@[v] ==> g_before[v] || exists|k: int| 0 <= k < j && cv[k] == v,
                unmarked(gone@, n as int) + j == unmarked(g_before, n as int),
            decreases cv.len() - j,
        {
            let v = c[j];
            proof {
                lemma_unmarked_mark(gone@, v as int, n as int);
                assert forall|k: int| j < k < cv.len() implies cv[k] != v by {
                    assert(cv[j as int] == v);
                }
            }
            broken.set(v, true);
            gone.set(v, true);
            j += 1;
        }
        proof {
            assert(c@.len() >= 1);
            let old_cycles = cycles@.map_values(|c: Vec<usize>| c@);
            assert forall|i: int, a: int|
                0 <= i < cycles@.len() && 0 <= a < cycles@[i]@.len() implies broken@[#[trigger] cycles@[i]@[a] as int] by {
            }
            // the new cycle lies among nodes that were live before it was broken
            assert forall|i: int, a: int, b: int|
                0 <= i < cycles@.len() && 0 <= a < cycles@[i]@.len() && 0 <= b < cv.len() implies #[trigger] cycles@[i]@[a] != #[trigger] cv[b] by {
                assert(!g_before[cv[b] as int]);
            }
        }
        let ghost old_cycles = cycles@;
        cycles.push(c);
        proof {
            let cs = cycles@.map_values(|c: Vec<usize>| c@);
            assert forall|i: int, j2: int, a: int, b: int|
                0 <= i < cs.len() && 0 <= j2 < cs.len() && i != j2 && 0 <= a < cs[i].len() && 0 <= b
                    < cs[j2].len() implies #[trigger] cs[i][a] != #[trigger] cs[j2][b] by {
                if i < old_cycles.len() && j2 < old_cycles.len() {
                    assert(old_cycles.map_values(|c: Vec<usize>| c@)[i] == cs[i]);
                    assert(old_cycles.map_values(|c: Vec<usize>| c@)[j2] == cs[j2]);
                } else if i == old_cycles.len() {
                    assert(cs[i] == cv);
                    assert(old_cycles[j2]@ == cs[j2]);
                    assert(!g_before[cv[a] as int]);
                    assert(g_before[old_cycles[j2]@[b] as int] || exists|k: int| 0 <= k < cv.len() && cv[k] == old_cycles[j2]@[b]);
                } else {
                    assert(cs[j2] == cv);
                    assert(old_cycles[i]@ == cs[i]);
                }
            }
            assert forall|i: int, a: int|
                0 <= i < cycles@.len() && 0 <= a < cycles@[i]@.len() implies broken@[#[trigger] cycles@[i]@[a] as int] by {
                if i < old_cycles.len() {
                    assert(cycles@[i] == old_cycles[i]);
                }
            }
        }
    }
}

/// The edge list holds the pair `(a, b)`.
pub open spec fn has_pair(ps: Seq<(Seq<char>, Seq<char>)>, a: Seq<char>, b: Seq<char>) -> bool {
    exists|k: int| 0 <= k < ps.len() && #[trigger] ps[k] == (a, b)
}

/// `c` is a cycle of names: each is paired with the next, the last with the first.
pub open spec fn name_cycle(ps: Seq<(Seq<char>, Seq<char>)>, c: Seq<Seq<char>>) -> bool {
    &&& c.len() >= 1
    &&& forall|k: int| 0 <= k < c.len() - 1 ==> has_pair(ps, #[trigger] c[k], c[k + 1])
    &&& has_pair(ps, c.last(), c[0])
}

/// The names can be ranked so that every pair goes from a higher to a lower rank.
pub open spec fn name_acyclic(ps: Seq<(Seq<char>, Seq<char>)>) -> bool {
    exists|f: spec_fn(Seq<char>) -> nat| #[trigger] ranks_pairs(ps, f)
}

/// `f` goes down along every pair.
pub open spec fn ranks_pairs(ps: Seq<(Seq<char>, Seq<char>)>, f: spec_fn(Seq<char>) -> nat) -> bool {
    forall|k: int| 0 <= k < ps.len() ==> f(#[trigger] ps[k].1) < f(ps[k].0)
}

/// No two of the name cycles share a name.
pub open spec fn names_disjoint(cs: Seq<Seq<Seq<char>>>) -> bool {
    forall|i: int, j: int, a: int, b: int|
        0 <= i < cs.len() && 0 <= j < cs.len() && i != j && 0 <= a < cs[i].len() && 0 <= b
            < cs[j].len() ==> #[trigger] cs[i][a] != #[trigger] cs[j][b]
}

pub open spec fn pairs_view(pairs: Seq<(String, String)>) -> Seq<(Seq<char>, Seq<char>)> {
    pairs.map_values(|p: (String, String)| (p.0@, p.1@))
}

pub open spec fn names_view(c: Seq<String>) -> Seq<Seq<char>> {
    c.map_values(|s: String| s@)
}

pub open spec fn cycles_view(cs: Seq<Vec<String>>) -> Seq<Seq<Seq<char>>> {
    cs.map_values(|c: Vec<String>| names_view(c@))
}

/// What `build_graph` establishes: distinct names, and an edge between two
/// positions exactly when the first `m` pairs pair their names.
pub open spec fn graph_of(
    ps: Seq<(Seq<char>, Seq<char>)>,
    m: int,
    names: Seq<Seq<char>>,
    adj: Seq<Vec<usize>>,
) -> bool {
    &&& names.len() == adj.len()
    &&& well_formed(adj)
    &&& names.no_duplicates()
    &&& forall|k: int| 0 <= k < m ==> #[trigger] names.contains(ps[k].0) && names.contains(ps[k].1)
    &&& forall|i: int, j: int|
        0 <= i < names.len() && 0 <= j < names.len() ==> (edge(adj, i, j) <==> exists|k: int|
            0 <= k < m && #[trigger] ps[k] == (names[i], names[j]))
}

/// The position of `x` among `names`, adding it at the end when absent.
fn intern(names: &mut Vec<String>, adj: &mut Vec<Vec<usize>>, x: &String) -> (r: usize)
    requires
        old(names)@.len() == old(adj)@.len(),
        names_view(old(names)@).no_duplicates(),
        well_formed(old(adj)@),
    ensures
        r < final(names)@.len(),
        names_view(final(names)@)[r as int] == x@,
        names_view(old(names)@).contains(x@) ==> final(names)@ == old(names)@ && final(adj)@ == old(adj)@,
        !names_view(old(names)@).contains(x@) ==> names_view(final(names)@) == names_view(old(names)@).push(x@)
            && final(adj)@.len() == old(adj)@.len() + 1 && final(adj)@.last()@.len() == 0
            && final(adj)@.subrange(0, old(adj)@.len() as int) == old(adj)@ && r == old(names)@.len(),
        final(names)@.len() == final(adj)@.len(),
        names_view(final(names)@).no_duplicates(),
        well_formed(final(adj)@),
{
    let mut i: usize = 0;
    while i < names.len()
        invariant
            i <= names@.len(),
            names@.len() == adj@.len(),
            names_view(names@).no_duplicates(),
            well_formed(adj@),
            forall|k: int| 0 <= k < i ==> names_view(names@)[k] != x@,
        decreases names@.len() - i,
    {
        if names[i] == *x {
            proof {
                assert(names_view(names@)[i as int] == x@);
            }
            return i;
        }
        i += 1;
    }
    let ghost nv = names_view(names@);
    names.push(x.clone());
    let ghost a0 = adj@;
    adj.push(Vec::new());
    proof {
        assert(names_view(names@) =~= nv.push(x@));
        assert(adj@.subrange(0, a0.len() as int) =~= a0);
        assert forall|u: int, k: int|
            0 <= u < adj@.len() && 0 <= k < adj@[u]@.len() implies #[trigger] adj@[u]@[k] < adj@.len() by {
            assert(u < a0.len());
            assert(adj@[u] == a0[u]);
        }
    }
    i
}

/// Numbers the names of `pairs` and builds the graph of the pairs over those numbers.
fn build_graph(pairs: &Vec<(String, String)>) -> (r: (Vec<String>, Vec<Vec<usize>>))
    ensures
        graph_of(pairs_view(pairs@), pairs@.len() as int, names_view(r.0@), r.1@),
{
    let ghost ps = pairs_view(pairs@);
    let mut names: Vec<String> = Vec::new();
    let mut adj: Vec<Vec<usize>> = Vec::new();
    let mut m: usize = 0;
    proof {
        assert(names_view(names@) =~= Seq::<Seq<char>>::empty());
    }
    while m < pairs.len()
        invariant
            m <= pairs@.len(),
            ps == pairs_view(pairs@),
            graph_of(ps, m as int, names_view(names@), adj@),
        decreases pairs@.len() - m,
    {
        let ghost nv0 = names_view(names@);
        let ghost adj0 = adj@;
        let i = intern(&mut names, &mut adj, &pairs[m].0);
        let ghost nv1 = names_view(names@);
        let ghost adj1 = adj@;
        let j = intern(&mut names, &mut adj, &pairs[m].1);
        let ghost nv2 = names_view(names@);
        let ghost adj2 = adj@;
        let mut row = copy_from(&adj[i], 0);
        proof {
            assert(adj[i as int]@.subrange(0, adj[i as int]@.len() as int) =~= adj[i as int]@);
        }
        row.push(j);
        adj.set(i, row);
        proof {
            assert(ps[m as int] == (pairs@[m as int].0@, pairs@[m as int].1@));
            // names only grew, keeping earlier positions
            assert(forall|q: int| 0 <= q < nv0.len() ==> #[trigger] nv2[q] == nv0[q]);
            assert(nv2[i as int] == ps[m as int].0);
            assert(nv2[j as int] == ps[m as int].1);
            assert forall|u: int, k: int|
                0 <= u < adj@.len() && 0 <= k < adj@[u]@.len() implies #[trigger] adj@[u]@[k] < adj@.len() by {
                if u != i {
                    assert(adj@[u] == adj2[u]);
                } else if k < adj2[u]@.len() {
                    assert(adj@[u]@[k] == adj2[u]@[k]);
                }
            }
            assert forall|k: int| 0 <= k < m + 1 implies #[trigger] nv2.contains(ps[k].0) && nv2.contains(ps[k].1) by {
                if k < m {
                    assert(nv0.contains(ps[k].0));
                    assert(nv0.contains(ps[k].1));
                    let a = choose|a: int| 0 <= a < nv0.len() && nv0[a] == ps[k].0;
                    let b = choose|b: int| 0 <= b < nv0.len() && nv0[b] == ps[k].1;
                    assert(nv2[a] == ps[k].0);
                    assert(nv2[b] == ps[k].1);
                } else {
                    assert(nv2[i as int] == ps[k].0);
                    assert(nv2[j as int] == ps[k].1);
                }
            }
            assert forall|u: int, v: int|
                0 <= u < nv2.len() && 0 <= v < nv2.len() implies (edge(adj@, u, v) <==> exists|k: int|
                    0 <= k < m + 1 && #[trigger] ps[k] == (nv2[u], nv2[v])) by {
                let old_edge = u < nv0.len() && v < nv0.len() && edge(adj0, u, v);
                // edges of the old graph are kept; the new pair adds the edge (i, j)
                if edge(adj@, u, v) {
                    let kk = choose|kk: int| 0 <= kk < adj@[u]@.len() && adj@[u]@[kk] == v;
                    if u == i && kk == adj2[u]@.len() {
                        assert(v == j);
                        assert(ps[m as int] == (nv2[u], nv2[v]));
                    } else {
                        assert(adj2[u]@[kk] == v);
                        assert(u < adj0.len() || adj2[u]@.len() == 0);
                        if u < adj0.len() {
                            assert(adj2[u] == adj0[u]);
                            assert(edge(adj0, u, v));
                            assert(v < adj0.len());
                            let k2 = choose|k2: int| 0 <= k2 < m && #[trigger] ps[k2] == (nv0[u], nv0[v]);
                            assert(ps[k2] == (nv2[u], nv2[v]));
                        }
                    }
                }
                if exists|k: int| 0 <= k < m + 1 && #[trigger] ps[k] == (nv2[u], nv2[v]) {
                    let k = choose|k: int| 0 <= k < m + 1 && #[trigger] ps[k] == (nv2[u], nv2[v]);
                    if k == m {
                        assert(nv2[u] == nv2[i as int]);
                        assert(u == i);
                        assert(v == j);
                        assert(adj@[u]@[adj2[u]@.len() as int] == v);
                    } else {
                        // both names were already numbered before this pair
                        assert(nv0.contains(ps[k].0));
                        assert(nv0.contains(ps[k].1));
                        let a = choose|a: int| 0 <= a < nv0.len() && nv0[a] == ps[k].0;
                        let b = choose|b: int| 0 <= b < nv0.len() && nv0[b] == ps[k].1;
                        assert(nv2[a] == nv2[u]);
                        assert(a == u);
                        assert(nv2[b] == nv2[v]);
                        assert(b == v);
                        assert(edge(adj0, u, v));
                        let kk = choose|kk: int| 0 <= kk < adj0[u]@.len() && adj0[u]@[kk] == v;
                        assert(adj2[u] == adj0[u]);
                        if u == i {
                            assert(adj@[u]@[kk] == adj2[u]@[kk]);
                        } else {
                            assert(adj@[u] == adj2[u]);
                        }
                    }
                }
            }
        }
        m += 1;
    }
    (names, adj)
}

proof fn lemma_acyclic_to_names(
    ps: Seq<(Seq<char>, Seq<char>)>,
    names: Seq<Seq<char>>,
    adj: Seq<Vec<usize>>,
)
    requires
        graph_of(ps, ps.len() as int, names, adj),
        acyclic(adj),
    ensures
        name_acyclic(ps),
{
    let rank = choose|rank: Seq<nat>| ranked(adj, rank);
    let f = |x: Seq<char>| if names.contains(x) {
        rank[names.index_of(x)]
    } else {
        0nat
    };
    assert forall|k: int| 0 <= k < ps.len() implies f(#[trigger] ps[k].1) < f(ps[k].0) by {
        assert(names.contains(ps[k].0));
        assert(names.contains(ps[k].1));
        let i = names.index_of(ps[k].0);
        let j = names.index_of(ps[k].1);
        assert(ps[k] == (names[i], names[j]));
        assert(edge(adj, i, j));
        let kk = choose|kk: int| 0 <= kk < adj[i]@.len() && adj[i]@[kk] == j;
        assert(rank[adj[i]@[kk] as int] < rank[i]);
    }
    assert(ranks_pairs(ps, f));
}

proof fn lemma_names_to_acyclic(
    ps: Seq<(Seq<char>, Seq<char>)>,
    names: Seq<Seq<char>>,
    adj: Seq<Vec<usize>>,
)
    requires
        graph_of(ps, ps.len() as int, names, adj),
        name_acyclic(ps),
    ensures
        acyclic(adj),
{
    let f = choose|f: spec_fn(Seq<char>) -> nat| ranks_pairs(ps, f);
    let rank = Seq::new(names.len(), |i: int| f(names[i]));
    assert forall|u: int, k: int| 0 <= u < adj.len() && 0 <= k < adj[u]@.len() implies rank[
        #[trigger] adj[u]@[k] as int] < rank[u] by {
        let v = adj[u]@[k] as int;
        assert(edge(adj, u, v));
        let q = choose|q: int| 0 <= q < ps.len() && #[trigger] ps[q] == (names[u], names[v]);
        assert(f(ps[q].1) < f(ps[q].0));
    }
    assert(ranked(adj, rank));
}

fn names_of(names: &Vec<String>, c: &Vec<usize>) -> (r: Vec<String>)
    requires
        forall|k: int| 0 <= k < c@.len() ==> #[trigger] c@[k] < names@.len(),
    ensures
        names_view(r@) == c@.map_values(|i: usize| names_view(names@)[i as int]),
{
    let mut r: Vec<String> = Vec::new();
    let mut k: usize = 0;
    while k < c.len()
        invariant
            k <= c@.len(),
            forall|q: int| 0 <= q < c@.len() ==> #[trigger] c@[q] < names@.len(),
            names_view(r@) == c@.take(k as int).map_values(|i: usize| names_view(names@)[i as int]),
        decreases c@.len() - k,
    {
        let x = names[c[k]].clone();
        let ghost r0 = r@;
        r.push(x);
        proof {
            assert(x@ == names_view(names@)[c@[k as int] as int]);
            assert(names_view(r@) =~= names_view(r0).push(x@));
            assert(names_view(r@) =~= c@.take(k + 1).map_values(|i: usize| names_view(names@)[i as int]));
        }
        k += 1;
    }
    proof {
        assert(c@.take(c@.len() as int) =~= c@);
    }
    r
}

/// Cycles of the graph whose edges are `pairs`, as sequences of names: each a
/// genuine cycle without a repeated name, no two sharing a name, and none exactly
/// when the names can be ranked so that every pair goes down.
pub fn named_cycles(pairs: &Vec<(String, String)>) -> (r: Vec<Vec<String>>)
    ensures
        forall|i: int| 0 <= i < r@.len() ==> name_cycle(pairs_view(pairs@), #[trigger] names_view(r@[i]@)),
        forall|i: int| 0 <= i < r@.len() ==> (#[trigger] names_view(r@[i]@)).no_duplicates(),
        names_disjoint(cycles_view(r@)),
        r@.len() == 0 <==> name_acyclic(pairs_view(pairs@)),
{
    let ghost ps = pairs_view(pairs@);
    let (names, adj) = build_graph(pairs);
    let ghost nv = names_view(names@);
    let cs = find_cycles(&adj);
    let mut r: Vec<Vec<String>> = Vec::new();
    let mut i: usize = 0;
    while i < cs.len()
        invariant
            i <= cs@.len(),
            r@.len() == i,
            ps == pairs_view(pairs@),
            nv == names_view(names@),
            graph_of(ps, pairs@.len() as int, nv, adj@),
            forall|q: int| 0 <= q < cs@.len() ==> is_cycle(adj@, #[trigger] cs@[q]@),
            forall|q: int| 0 <= q < cs@.len() ==> (#[trigger] cs@[q]@).no_duplicates(),
            forall|q: int| 0 <= q < i ==> #[trigger] names_view(r@[q]@) == cs@[q]@.map_values(|v: usize| nv[v as int]),
        decreases cs@.len() - i,
    {
        let c = &cs[i];
        let named = names_of(&names, c);
        r.push(named);
        i += 1;
    }
    proof {
        assert forall|q: int| 0 <= q < r@.len() implies name_cycle(ps, #[trigger] names_view(r@[q]@))
            && names_view(r@[q]@).no_duplicates() by {
            let c = cs@[q]@;
            let nc = names_view(r@[q]@);
            assert(nc == c.map_values(|v: usize| nv[v as int]));
            assert forall|k: int| 0 <= k < nc.len() - 1 implies has_pair(ps, #[trigger] nc[k], nc[k + 1]) by {
                assert(edge(adj@, c[k] as int, c[k + 1] as int));
                let p = choose|p: int| 0 <= p < pairs@.len() && #[trigger] ps[p] == (nv[c[k] as int], nv[c[k + 1] as int]);
            }
            assert(edge(adj@, c.last() as int, c[0] as int));
            assert(nc.last() == nv[c.last() as int]);
            let p = choose|p: int| 0 <= p < pairs@.len() && #[trigger] ps[p] == (nv[c.last() as int], nv[c[0] as int]);
            assert(ps[p] == (nc.last(), nc[0]));
            assert forall|a: int, b: int| 0 <= a < nc.len() && 0 <= b < nc.len() && a != b implies nc[a] != nc[b] by {
                assert(c[a] != c[b]);
            }
        }
        let cv = cs@.map_values(|c: Vec<usize>| c@);
        assert forall|i1: int, j1: int, a: int, b: int|
            0 <= i1 < r@.len() && 0 <= j1 < r@.len() && i1 != j1 && 0 <= a < cycles_view(r@)[i1].len() && 0 <= b
                < cycles_view(r@)[j1].len() implies #[trigger] cycles_view(r@)[i1][a] != #[trigger] cycles_view(r@)[j1][b] by {
            assert(cycles_view(r@)[i1] == names_view(r@[i1]@));
            assert(cycles_view(r@)[j1] == names_view(r@[j1]@));
            assert(cv[i1] == cs@[i1]@);
            assert(cv[j1] == cs@[j1]@);
            assert(cs@[i1]@[a] != cs@[j1]@[b]);
        }
        if r@.len() == 0 {
            lemma_acyclic_to_names(ps, nv, adj@);
        }
        if name_acyclic(ps) {
            lemma_names_to_acyclic(ps, nv, adj@);
        }
    }
    r
}

/// `c[0] -> c[1] -> ... -> c[last]`.
pub open spec fn arrow_path(c: Seq<Seq<char>>) -> Seq<char>
    decreases c.len(),
{
    if c.len() == 0 {
        Seq::empty()
    } else if c.len() == 1 {
        c[0]
    } else {
        arrow_path(c.drop_last()) + " -> "@ + c.last()
    }
}

pub fn arrow_text(c: &Vec<String>) -> (r: String)
    ensures
        r@ == arrow_path(names_view(c@)),
{
    let mut r = String::new();
    let mut i: usize = 0;
    proof {
        assert(names_view(c@).take(0) =~= Seq::<Seq<char>>::empty());
    }
    while i < c.len()
        invariant
            i <= c@.len(),
            r@ == arrow_path(names_view(c@).take(i as int)),
        decreases c@.len() - i,
    {
        if i > 0 {
            r.append(" -> ");
        }
        r.append(c[i].as_str());
        proof {
            assert(names_view(c@).take(i + 1).drop_last() =~= names_view(c@).take(i as int));
        }
        i += 1;
    }
    proof {
        assert(names_view(c@).take(c@.len() as int) =~= names_view(c@));
    }
    r
}

/// Cycles reported on the graph of `ps`: genuine, without a repeated name, sharing
/// no name, and none exactly when the graph is acyclic.
pub open spec fn valid_cycles(ps: Seq<(Seq<char>, Seq<char>)>, cs: Seq<Seq<Seq<char>>>) -> bool {
    &&& forall|i: int| 0 <= i < cs.len() ==> name_cycle(ps, #[trigger] cs[i])
    &&& forall|i: int| 0 <= i < cs.len() ==> (#[trigger] cs[i]).no_duplicates()
    &&& names_disjoint(cs)
    &&& (cs.len() == 0 <==> name_acyclic(ps))
}

} // verus!
