//! Cycle detection over the dependency graph: a depth-first walk that
//! tracks the current path. The detector is exact: it returns a real
//! cycle exactly when the graph has one.

use vstd::prelude::*;

verus! {

/// An edge of the adjacency representation: `a` lists `b` as a dependency.
pub open spec fn adj_edge(adj: Seq<Seq<usize>>, a: int, b: int) -> bool {
    &&& 0 <= a < adj.len()
    &&& 0 <= b < adj.len()
    &&& adj[a].contains(b as usize)
}

/// Consecutive elements of `p` are all edges.
pub open spec fn walk_ok(adj: Seq<Seq<usize>>, p: Seq<usize>) -> bool {
    forall|m: int| 0 <= m < p.len() - 1 ==> adj_edge(adj, #[trigger] p[m] as int, p[m + 1] as int)
}

/// A cycle: a walk of at least one edge whose last node repeats its first.
pub open spec fn is_cycle(adj: Seq<Seq<usize>>, p: Seq<usize>) -> bool {
    &&& p.len() >= 2
    &&& walk_ok(adj, p)
    &&& p[0] == p[p.len() - 1]
}

/// No cycle at all.
pub open spec fn acyclic(adj: Seq<Seq<usize>>) -> bool {
    forall|p: Seq<usize>| !is_cycle(adj, p)
}

/// Every listed dependency is a valid node index.
pub open spec fn adj_wf(adj: Seq<Seq<usize>>) -> bool {
    forall|i: int, k: int|
        0 <= i < adj.len() && 0 <= k < adj[i].len() ==> #[trigger] adj[i][k] < adj.len()
}

/// The view of an adjacency vector.
pub open spec fn adj_view(adj: Vec<Vec<usize>>) -> Seq<Seq<usize>> {
    adj@.map_values(|v: Vec<usize>| v@)
}

/// Along a walk, a rank that strictly decreases over every edge must
/// strictly decrease from the walk's first node to its last.
proof fn lemma_walk_rank(adj: Seq<Seq<usize>>, rank: Map<int, nat>, p: Seq<usize>)
    requires
        p.len() >= 2,
        walk_ok(adj, p),
        forall|a: int, b: int| #[trigger] adj_edge(adj, a, b) ==> rank[b] < rank[a],
    ensures
        rank[p[p.len() - 1] as int] < rank[p[0] as int],
    decreases p.len(),
{
    if p.len() == 2 {
        assert(adj_edge(adj, p[0] as int, p[1] as int));
    } else {
        let q = p.drop_first();
        assert(walk_ok(adj, q)) by {
            assert forall|m: int| 0 <= m < q.len() - 1 implies #[trigger] adj_edge(
                adj,
                q[m] as int,
                q[m + 1] as int,
            ) by {
                assert(q[m] == p[m + 1] && q[m + 1] == p[m + 2]);
                assert(adj_edge(adj, p[m + 1] as int, p[m + 2] as int));
            }
        }
        lemma_walk_rank(adj, rank, q);
        assert(adj_edge(adj, p[0] as int, p[1] as int));
        assert(q[q.len() - 1] == p[p.len() - 1]);
    }
}

/// A graph with a rank strictly decreasing over every edge is acyclic.
proof fn lemma_rank_acyclic(adj: Seq<Seq<usize>>, rank: Map<int, nat>)
    requires
        forall|a: int, b: int| #[trigger] adj_edge(adj, a, b) ==> rank[b] < rank[a],
    ensures
        acyclic(adj),
{
    assert forall|p: Seq<usize>| !is_cycle(adj, p) by {
        if is_cycle(adj, p) {
            lemma_walk_rank(adj, rank, p);
        }
    }
}

/// White: not visited. Gray: on the current path. Black: completed.
const WHITE: u8 = 0;

const GRAY: u8 = 1;

const BLACK: u8 = 2;

spec fn count_white(c: Seq<u8>) -> nat
    decreases c.len(),
{
    if c.len() == 0 {
        0
    } else {
        (if c[0] == WHITE {
            1nat
        } else {
            0nat
        }) + count_white(c.drop_first())
    }
}

proof fn lemma_count_white_le(c1: Seq<u8>, c2: Seq<u8>)
    requires
        c1.len() == c2.len(),
        forall|i: int| 0 <= i < c2.len() && #[trigger] c2[i] == WHITE ==> c1[i] == WHITE,
    ensures
        count_white(c2) <= count_white(c1),
    decreases c1.len(),
{
    if c1.len() > 0 {
        lemma_count_white_le(c1.drop_first(), c2.drop_first());
    }
}

/// Fewer nodes are white after a step that whitens nothing and darkens `u`.
proof fn lemma_count_white_strict(c1: Seq<u8>, c2: Seq<u8>, u: int)
    requires
        c1.len() == c2.len(),
        forall|i: int| 0 <= i < c2.len() && #[trigger] c2[i] == WHITE ==> c1[i] == WHITE,
        0 <= u < c1.len(),
        c1[u] == WHITE,
        c2[u] != WHITE,
    ensures
        count_white(c2) < count_white(c1),
    decreases c1.len(),
{
    if u == 0 {
        lemma_count_white_le(c1.drop_first(), c2.drop_first());
    } else {
        lemma_count_white_strict(c1.drop_first(), c2.drop_first(), u - 1);
    }
}

/// The detector's state between steps: gray nodes are exactly the current
/// path, the path is a walk, and completed nodes carry a finish rank below
/// `next` that strictly exceeds the ranks of all their dependencies.
spec fn state_inv(
    adj: Seq<Seq<usize>>,
    colors: Seq<u8>,
    path: Seq<usize>,
    rank: Map<int, nat>,
    next: nat,
) -> bool {
    &&& colors.len() == adj.len()
    &&& forall|i: int| 0 <= i < colors.len() ==> #[trigger] colors[i] <= BLACK
    &&& forall|i: usize|
        i < colors.len() ==> (#[trigger] colors[i as int] == GRAY <==> path.contains(i))
    &&& forall|m: int| 0 <= m < path.len() ==> #[trigger] path[m] < adj.len()
    &&& walk_ok(adj, path)
    &&& forall|i: int|
        0 <= i < colors.len() && #[trigger] colors[i] == BLACK ==> rank.contains_key(i) && rank[i]
            < next
    &&& forall|i: int, k: int|
        0 <= i < colors.len() && colors[i] == BLACK && 0 <= k < adj[i].len() ==> {
            &&& colors[#[trigger] adj[i][k] as int] == BLACK
            &&& rank[adj[i][k] as int] < rank[i]
        }
}

enum DfsOutcome {
    Done(Ghost<Map<int, nat>>, Ghost<nat>),
    Cycle(Vec<usize>),
}

fn index_of(path: &Vec<usize>, v: usize) -> (r: usize)
    requires
        path@.contains(v),
    ensures
        r < path@.len(),
        path@[r as int] == v,
{
    let n = path.len();
    let mut j: usize = 0;
    loop
        invariant
            j < n,
            n == path@.len(),
            exists|m: int| j <= m < n && path@[m] == v,
        decreases n - j,
    {
        if path[j] == v {
            return j;
        }
        proof {
            let m = choose|m: int| j <= m < n && path@[m] == v;
            assert(j + 1 <= m < n && path@[m] == v);
        }
        j += 1;
    }
}

/// One depth-first visit from a white node `u`; the current path, if any,
/// ends in a node with an edge to `u`.
#[verifier::loop_isolation(false)]
fn dfs(
    adj: &Vec<Vec<usize>>,
    u: usize,
    colors: &mut Vec<u8>,
    path: &mut Vec<usize>,
    rank: Ghost<Map<int, nat>>,
    next: Ghost<nat>,
) -> (res: DfsOutcome)
    requires
        adj_wf(adj_view(*adj)),
        state_inv(adj_view(*adj), old(colors)@, old(path)@, rank@, next@),
        u < adj@.len(),
        old(colors)@[u as int] == WHITE,
        old(path)@.len() > 0 ==> adj_edge(
            adj_view(*adj),
            old(path)@[old(path)@.len() - 1] as int,
            u as int,
        ),
    ensures
        match res {
            DfsOutcome::Done(rank2, next2) => {
                &&& state_inv(adj_view(*adj), final(colors)@, final(path)@, rank2@, next2@)
                &&& final(path)@ == old(path)@
                &&& final(colors)@.len() == old(colors)@.len()
                &&& forall|i: int|
                    0 <= i < old(colors)@.len() && old(colors)@[i] != WHITE ==> final(colors)@[i]
                        == old(colors)@[i]
                &&& forall|i: int|
                    0 <= i < old(colors)@.len() && #[trigger] final(colors)@[i] == WHITE ==> old(
                        colors,
                    )@[i] == WHITE
                &&& final(colors)@[u as int] == BLACK
            },
            DfsOutcome::Cycle(p) => is_cycle(adj_view(*adj), p@),
        },
    decreases count_white(old(colors)@),
{
    let ghost adjs = adj_view(*adj);
    let ghost entry_colors = colors@;
    let ghost entry_path = path@;
    colors.set(u, GRAY);
    path.push(u);
    proof {
        assert forall|i: usize|
            i < colors@.len() implies (#[trigger] colors@[i as int] == GRAY <==> path@.contains(
            i,
        )) by {
            if i == u {
                assert(path@[path@.len() - 1] == u);
                assert(path@.contains(u));
            } else {
                if entry_path.contains(i) {
                    let m = choose|m: int| 0 <= m < entry_path.len() && entry_path[m] == i;
                    assert(path@[m] == i);
                    assert(path@.contains(i));
                }
                if path@.contains(i) {
                    let m = choose|m: int| 0 <= m < path@.len() && path@[m] == i;
                    assert(path@[path@.len() - 1] == u);
                    assert(m < entry_path.len() && entry_path[m] == i);
                    assert(entry_path.contains(i));
                }
            }
        }
        assert(walk_ok(adjs, path@)) by {
            assert forall|m: int| 0 <= m < path@.len() - 1 implies #[trigger] adj_edge(
                adjs,
                path@[m] as int,
                path@[m + 1] as int,
            ) by {
                if m < entry_path.len() - 1 {
                    assert(path@[m] == entry_path[m] && path@[m + 1] == entry_path[m + 1]);
                    assert(adj_edge(adjs, entry_path[m] as int, entry_path[m + 1] as int));
                } else {
                    assert(path@[m] == entry_path[entry_path.len() - 1] && path@[m + 1] == u);
                }
            }
        }
    }
    let ghost mut cur_rank = rank@;
    let ghost mut cur_next = next@;

    let dn = adj[u].len();
    let mut k: usize = 0;
    while k < dn
        invariant
            adj_wf(adjs),
            adjs == adj_view(*adj),
            u < adjs.len(),
            dn == adjs[u as int].len(),
            k <= dn,
            state_inv(adjs, colors@, path@, cur_rank, cur_next),
            path@ == entry_path.push(u),
            entry_colors.len() == adjs.len(),
            entry_colors[u as int] == WHITE,
            colors@.len() == entry_colors.len(),
            colors@[u as int] == GRAY,
            forall|i: int|
                0 <= i < entry_colors.len() && i != u && entry_colors[i] != WHITE ==> colors@[i]
                    == entry_colors[i],
            forall|i: int|
                0 <= i < entry_colors.len() && #[trigger] colors@[i] == WHITE ==> entry_colors[i]
                    == WHITE,
            forall|j: int|
                0 <= j < k ==> colors@[#[trigger] adjs[u as int][j] as int] == BLACK,
        decreases dn - k,
    {
        let v = adj[u][k];
        proof {
            assert(adjs[u as int][k as int] == v);
            assert(v < adjs.len());
            assert(adjs[u as int].contains(v));
            assert(adj_edge(adjs, u as int, v as int));
        }
        let cv = colors[v];
        if cv == GRAY {
            // `v` is on the current path: the path from its occurrence
            // onward, closed with `v` again, is a cycle.
            let j = index_of(path, v);
            let plen = path.len();
            let mut cyc: Vec<usize> = Vec::new();
            let mut m: usize = j;
            while m < plen
                invariant
                    j <= m <= plen,
                    plen == path@.len(),
                    cyc@ == path@.subrange(j as int, m as int),
                decreases plen - m,
            {
                let node = path[m];
                cyc.push(node);
                proof {
                    assert(cyc@ =~= path@.subrange(j as int, m + 1));
                }
                m += 1;
            }
            cyc.push(v);
            proof {
                let c = cyc@;
                assert(path@.subrange(j as int, plen as int) =~= path@.skip(j as int));
                assert(c.len() == plen - j + 1);
                assert(c[0] == path@[j as int]);
                assert(c[c.len() - 1] == v);
                assert(path@[plen - 1] == u);
                assert forall|mm: int| 0 <= mm < c.len() - 1 implies #[trigger] adj_edge(
                    adjs,
                    c[mm] as int,
                    c[mm + 1] as int,
                ) by {
                    if mm < c.len() - 2 {
                        assert(c[mm] == path@[j + mm] && c[mm + 1] == path@[j + mm + 1]);
                        assert(adj_edge(adjs, path@[j + mm] as int, path@[j + mm + 1] as int));
                    } else {
                        assert(c[mm] == path@[plen - 1]);
                        assert(c[mm] == u && c[mm + 1] == v);
                    }
                }
                assert(is_cycle(adjs, c));
            }
            return DfsOutcome::Cycle(cyc);
        } else if cv == WHITE {
            let ghost colors_at_call = colors@;
            proof {
                lemma_count_white_strict(entry_colors, colors_at_call, u as int);
                assert(path@[path@.len() - 1] == u);
            }
            match dfs(adj, v, colors, path, Ghost(cur_rank), Ghost(cur_next)) {
                DfsOutcome::Done(r2, n2) => {
                    proof {
                        cur_rank = r2@;
                        cur_next = n2@;
                    }
                },
                DfsOutcome::Cycle(p) => {
                    return DfsOutcome::Cycle(p);
                },
            }
        } else {
            proof {
                assert(colors@[v as int] == BLACK);
            }
        }
        proof {
            assert forall|j: int|
                0 <= j < k + 1 implies colors@[#[trigger] adjs[u as int][j] as int] == BLACK by {
                if j < k {
                } else {
                    assert(adjs[u as int][j] == v);
                }
            }
        }
        k += 1;
    }

    // every dependency is complete: complete `u` with the next finish rank
    path.pop();
    colors.set(u, BLACK);
    proof {
        assert(path@ =~= entry_path);
    }
    let ghost new_rank = cur_rank.insert(u as int, cur_next);
    let ghost new_next = (cur_next + 1) as nat;
    proof {
        let ghost pre_pop = entry_path.push(u);
        assert forall|i: usize|
            i < colors@.len() implies (#[trigger] colors@[i as int] == GRAY <==> path@.contains(
            i,
        )) by {
            if i == u {
                if path@.contains(u) {
                    let m = choose|m: int| 0 <= m < path@.len() && path@[m] == u;
                    assert(pre_pop[m] == u);
                    assert(pre_pop.contains(u));
                }
            } else {
                if path@.contains(i) {
                    let m = choose|m: int| 0 <= m < path@.len() && path@[m] == i;
                    assert(pre_pop[m] == i);
                    assert(pre_pop.contains(i));
                }
                if pre_pop.contains(i) {
                    let m = choose|m: int| 0 <= m < pre_pop.len() && pre_pop[m] == i;
                    assert(pre_pop[pre_pop.len() - 1] == u);
                    assert(m < pre_pop.len() - 1);
                    assert(path@[m] == i);
                }
            }
        }
        assert(state_inv(adjs, colors@, path@, new_rank, new_next)) by {
            assert forall|i: int, k2: int|
                0 <= i < colors@.len() && colors@[i] == BLACK && 0 <= k2 < adjs[i].len() implies {
                &&& colors@[#[trigger] adjs[i][k2] as int] == BLACK
                &&& new_rank[adjs[i][k2] as int] < new_rank[i]
            } by {
                if i == u as int {
                    assert(colors@[adjs[u as int][k2] as int] == BLACK);
                    assert(new_rank[adjs[u as int][k2] as int] < cur_next);
                } else {
                }
            }
        }
    }
    DfsOutcome::Done(Ghost(new_rank), Ghost(new_next))
}

/// Finds a dependency cycle, or proves there is none. Exactness of the
/// result: `Some(p)` is a real cycle of the graph whose first and last
/// nodes coincide (the repeated node); `None` is returned only when the
/// graph is acyclic.
pub fn find_cycle(adj: &Vec<Vec<usize>>) -> (r: Option<Vec<usize>>)
    requires
        adj_wf(adj_view(*adj)),
    ensures
        match r {
            Option::None => acyclic(adj_view(*adj)),
            Option::Some(p) => is_cycle(adj_view(*adj), p@),
        },
{
    let ghost adjs = adj_view(*adj);
    let n = adj.len();
    let mut colors: Vec<u8> = vec![0u8; n];
    let mut path: Vec<usize> = Vec::new();
    let ghost mut cur_rank = Map::<int, nat>::empty();
    let ghost mut cur_next = 0nat;
    let mut u: usize = 0;
    while u < n
        invariant
            adj_wf(adjs),
            adjs == adj_view(*adj),
            n == adjs.len(),
            u <= n,
            path@.len() == 0,
            state_inv(adjs, colors@, path@, cur_rank, cur_next),
            forall|i: int| 0 <= i < u ==> colors@[i] != WHITE,
        decreases n - u,
    {
        if colors[u] == 0 {
            match dfs(adj, u, &mut colors, &mut path, Ghost(cur_rank), Ghost(cur_next)) {
                DfsOutcome::Done(r2, n2) => {
                    proof {
                        cur_rank = r2@;
                        cur_next = n2@;
                    }
                },
                DfsOutcome::Cycle(p) => {
                    return Option::Some(p);
                },
            }
        }
        u += 1;
    }
    proof {
        assert forall|a: int, b: int| #[trigger] adj_edge(adjs, a, b) implies cur_rank[b]
            < cur_rank[a] by {
            assert(colors@[a] != WHITE);
            assert(!path@.contains(a as usize));
            assert(colors@[a] == BLACK);
            let k = choose|k: int| 0 <= k < adjs[a].len() && adjs[a][k] == b as usize;
            assert(cur_rank[adjs[a][k] as int] < cur_rank[a]);
        }
        lemma_rank_acyclic(adjs, cur_rank);
    }
    Option::None
}

} // verus!
