//! Depth-first topological ordering of a dependency graph whose nodes are
//! numbered `0..n`; `adj[a]` lists the nodes that `a` depends on.

use vstd::prelude::*;
use vstd::set_lib::*;

verus! {

/// `a` depends on `b`.
pub open spec fn edge(adj: Seq<Seq<usize>>, a: int, b: int) -> bool {
    0 <= a < adj.len() && exists|k: int| 0 <= k < adj[a].len() && #[trigger] adj[a][k] as int == b
}

/// Every adjacency entry names a node of the graph.
pub open spec fn graph_wf(adj: Seq<Seq<usize>>) -> bool {
    forall|a: int, k: int|
        0 <= a < adj.len() && 0 <= k < adj[a].len() ==> (#[trigger] adj[a][k]) < adj.len()
}

/// `p` is a walk along dependency edges.
pub open spec fn is_walk(adj: Seq<Seq<usize>>, p: Seq<usize>) -> bool {
    forall|k: int| 0 <= k < p.len() - 1 ==> #[trigger] edge(adj, p[k] as int, p[k + 1] as int)
}

/// `p` is a closed walk: each node depends on the next one, the last on the first.
pub open spec fn is_cycle(adj: Seq<Seq<usize>>, p: Seq<usize>) -> bool {
    &&& p.len() > 0
    &&& is_walk(adj, p)
    &&& edge(adj, p.last() as int, p[0] as int)
}

pub open spec fn has_cycle(adj: Seq<Seq<usize>>) -> bool {
    exists|p: Seq<usize>| is_cycle(adj, p)
}

/// Some cycle starts (and ends) at node `x`.
pub open spec fn cycle_through(adj: Seq<Seq<usize>>, x: usize) -> bool {
    exists|p: Seq<usize>| is_cycle(adj, p) && p[0] == x
}

/// `order` lists every node exactly once, dependencies before dependents.
pub open spec fn is_topo_order(adj: Seq<Seq<usize>>, order: Seq<usize>) -> bool {
    &&& order.no_duplicates()
    &&& order.len() == adj.len()
    &&& forall|i: int| 0 <= i < order.len() ==> (#[trigger] order[i]) < adj.len()
    &&& forall|i: int, j: int|
        0 <= i < order.len() && 0 <= j < order.len() && #[trigger] edge(adj, order[i] as int, order[j] as int)
            ==> j < i
}

/// The DFS state: `done` holds the finished nodes in finishing order, `path` the
/// nodes on the current DFS stack.
pub open spec fn dfs_inv(
    adj: Seq<Seq<usize>>,
    visited: Seq<bool>,
    visiting: Seq<bool>,
    done: Seq<usize>,
    path: Seq<usize>,
) -> bool {
    let n = adj.len();
    &&& graph_wf(adj)
    &&& visited.len() == n
    &&& visiting.len() == n
    &&& done.no_duplicates()
    &&& path.no_duplicates()
    &&& forall|i: int| 0 <= i < done.len() ==> (#[trigger] done[i]) < n
    &&& forall|i: int| 0 <= i < path.len() ==> (#[trigger] path[i]) < n
    &&& forall|x: int| 0 <= x < n ==> (#[trigger] visited[x] <==> done.contains(x as usize))
    &&& forall|x: int| 0 <= x < n ==> (#[trigger] visiting[x] <==> path.contains(x as usize))
    &&& forall|x: int| 0 <= x < n ==> !(#[trigger] visited[x] && visiting[x])
    &&& is_walk(adj, path)
    &&& forall|i: int, d: int|
        0 <= i < done.len() && #[trigger] edge(adj, done[i] as int, d) ==> visited[d]
    &&& forall|i: int, j: int|
        0 <= i < done.len() && 0 <= j < done.len() && #[trigger] edge(adj, done[i] as int, done[j] as int)
            ==> j < i
}

proof fn lemma_distinct_bounded_len(s: Seq<usize>, n: nat)
    requires
        s.no_duplicates(),
        forall|i: int| 0 <= i < s.len() ==> (#[trigger] s[i]) < n,
    ensures
        s.len() <= n,
{
    broadcast use range_set_properties;
    let t = s.map_values(|x: usize| x as int);
    let r = Set::<int>::range(0, n as int);
    assert(t.no_duplicates()) by {
        assert forall|a: int, b: int| 0 <= a < t.len() && 0 <= b < t.len() && a != b implies t[a] != t[b] by {
            assert(s[a] != s[b]);
        }
    }
    t.unique_seq_to_set();
    assert(t.to_set().subset_of(r)) by {
        assert forall|x: int| t.to_set().contains(x) implies r.contains(x) by {
            let i = t.index_of(x);
            assert(t[i] == s[i] as int);
        }
    }
    lemma_len_subset(t.to_set(), r);
}

proof fn lemma_cycle_from_path(adj: Seq<Seq<usize>>, path: Seq<usize>, u: usize)
    requires
        is_walk(adj, path),
        path.contains(u),
        path.len() > 0,
        edge(adj, path.last() as int, u as int),
    ensures
        has_cycle(adj),
        cycle_through(adj, u),
{
    let k = path.index_of(u);
    let c = path.subrange(k, path.len() as int);
    assert(c[0] == u);
    assert(c.last() == path.last());
    assert forall|m: int| 0 <= m < c.len() - 1 implies #[trigger] edge(adj, c[m] as int, c[m + 1] as int) by {
        assert(edge(adj, path[k + m] as int, path[k + m + 1] as int));
    }
    assert(is_cycle(adj, c));
}

/// Visits `u` and everything it depends on, appending each finished node to
/// `done` after all of its dependencies. `Err(x)` reports that the walk met
/// `x` again while `x` was still being visited.
pub fn dfs_visit(
    adj: &Vec<Vec<usize>>,
    u: usize,
    visited: &mut Vec<bool>,
    visiting: &mut Vec<bool>,
    done: &mut Vec<usize>,
    Ghost(path): Ghost<Seq<usize>>,
) -> (res: Result<(), usize>)
    requires
        dfs_inv(adj.deep_view(), old(visited)@, old(visiting)@, old(done)@, path),
        u < adj.len(),
        path.len() == 0 || edge(adj.deep_view(), path.last() as int, u as int),
    ensures
        res is Ok ==> {
            &&& dfs_inv(adj.deep_view(), final(visited)@, final(visiting)@, final(done)@, path)
            &&& final(visiting)@ == old(visiting)@
            &&& old(done)@.is_prefix_of(final(done)@)
            &&& final(visited)@[u as int]
        },
        res is Err ==> has_cycle(adj.deep_view()),
        res matches Err(x) ==> cycle_through(adj.deep_view(), x),
    decreases adj.len() - old(done)@.len() - path.len(),
{
    let ghost g = adj.deep_view();
    if visiting[u] {
        proof {
            assert(path.contains(u));
            lemma_cycle_from_path(g, path, u);
        }
        return Err(u);
    }
    if visited[u] {
        return Ok(());
    }
    visiting.set(u, true);
    let ghost path2 = path.push(u);
    let ghost done0 = done@;
    proof {
        assert forall|x: int| 0 <= x < g.len() implies (#[trigger] visiting@[x] <==> path2.contains(x as usize)) by {
            if x == u as int {
                assert(path2[path.len() as int] == u);
            } else {
                if path2.contains(x as usize) {
                    let k = path2.index_of(x as usize);
                    assert(path.contains(x as usize)) by { assert(path[k] == x as usize); }
                }
                if path.contains(x as usize) {
                    let k = path.index_of(x as usize);
                    assert(path2[k] == x as usize);
                }
            }
        }
        assert(is_walk(g, path2)) by {
            assert forall|k: int| 0 <= k < path2.len() - 1 implies #[trigger] edge(g, path2[k] as int, path2[k + 1] as int) by {
                if k == path.len() - 1 {
                } else {
                    assert(edge(g, path[k] as int, path[k + 1] as int));
                }
            }
        }
        assert(path2.no_duplicates()) by {
            assert forall|i: int, j: int| 0 <= i < path2.len() && 0 <= j < path2.len() && i != j implies path2[i] != path2[j] by {
                if i == path.len() as int {
                    assert(!path.contains(u));
                } else if j == path.len() as int {
                    assert(!path.contains(u));
                }
            }
        }
    }
    let n_deps = adj[u].len();
    let mut i: usize = 0;
    while i < n_deps
        invariant
            g == adj.deep_view(),
            n_deps == g[u as int].len(),
            u < adj.len(),
            0 <= i <= n_deps,
            dfs_inv(g, visited@, visiting@, done@, path2),
            path2 == path.push(u),
            path.len() == 0 || edge(g, path.last() as int, u as int),
            done0.is_prefix_of(done@),
            done0 == old(done)@,
            visiting@ == old(visiting)@.update(u as int, true),
            !visited@[u as int],
            forall|k: int| 0 <= k < i ==> visited@[#[trigger] g[u as int][k] as int],
        decreases n_deps - i,
    {
        let d = adj[u][i];
        proof {
            assert(g[u as int][i as int] == d);
            assert(edge(g, path2.last() as int, d as int));
            assert(d < adj.len());
            let ghost all = done@ + path2;
            assert forall|a: int, b: int| 0 <= a < all.len() && 0 <= b < all.len() && a != b
                implies all[a] != all[b] by {
                if a < done@.len() && b >= done@.len() {
                    let x = done@[a];
                    assert(visited@[x as int]);
                    assert(path2.contains(all[b]));
                } else if b < done@.len() && a >= done@.len() {
                    let x = done@[b];
                    assert(visited@[x as int]);
                    assert(path2.contains(all[a]));
                } else if a >= done@.len() && b >= done@.len() {
                    assert(all[a] == path2[a - done@.len()]);
                    assert(all[b] == path2[b - done@.len()]);
                }
            }
            assert forall|a: int| 0 <= a < all.len() implies (#[trigger] all[a]) < adj.len() by {
                if a >= done@.len() { assert(all[a] == path2[a - done@.len()]); }
            }
            lemma_distinct_bounded_len(all, adj.len() as nat);
        }
        let r = dfs_visit(adj, d, visited, visiting, done, Ghost(path2));
        match r {
            Err(x) => {
                return Err(x);
            },
            Ok(()) => {},
        }
        proof {
            assert forall|k: int| 0 <= k < i + 1 implies visited@[#[trigger] g[u as int][k] as int] by {
                if k < i {
                    let x = g[u as int][k];
                    assert(done0.contains(x) || true);
                }
            }
        }
        i = i + 1;
    }
    let ghost done1 = done@;
    let ghost visited1 = visited@;
    visiting.set(u, false);
    visited.set(u, true);
    done.push(u);
    proof {
        assert(visiting@ =~= old(visiting)@);
        assert(!done1.contains(u));
        assert(done@ == done1.push(u));
        assert forall|d: int| #[trigger] edge(g, u as int, d) implies visited1[d] by {
            let k = choose|k: int| 0 <= k < g[u as int].len() && #[trigger] g[u as int][k] as int == d;
            assert(visited1[g[u as int][k] as int]);
        }
        assert(done@.no_duplicates()) by {
            assert forall|a: int, b: int| 0 <= a < done@.len() && 0 <= b < done@.len() && a != b
                implies done@[a] != done@[b] by {
                if a == done1.len() as int {
                    assert(done@[b] == done1[b]);
                } else if b == done1.len() as int {
                    assert(done@[a] == done1[a]);
                } else {
                    assert(done@[a] == done1[a]);
                    assert(done@[b] == done1[b]);
                }
            }
        }
        assert forall|x: int| 0 <= x < g.len() implies (#[trigger] visited@[x] <==> done@.contains(x as usize)) by {
            if x == u as int {
                assert(done@[done1.len() as int] == u);
            } else {
                if done@.contains(x as usize) {
                    let k = done@.index_of(x as usize);
                    assert(done1[k] == x as usize);
                }
                if done1.contains(x as usize) {
                    let k = done1.index_of(x as usize);
                    assert(done@[k] == x as usize);
                }
            }
        }
        assert forall|i: int, d: int| 0 <= i < done@.len() && #[trigger] edge(g, done@[i] as int, d)
            implies visited@[d] by {
            if i < done1.len() {
                assert(done@[i] == done1[i]);
                assert(visited1[d]);
            } else {
                assert(visited1[d]);
            }
        }
        assert forall|i: int, j: int|
            0 <= i < done@.len() && 0 <= j < done@.len() && #[trigger] edge(g, done@[i] as int, done@[j] as int)
            implies j < i by {
            if i == done1.len() as int {
                if j == done1.len() as int {
                    assert(visited1[u as int]);
                }
            } else {
                assert(done@[i] == done1[i]);
                if j == done1.len() as int {
                    assert(visited1[u as int]);
                } else {
                    assert(done@[j] == done1[j]);
                }
            }
        }
        assert forall|i: int| 0 <= i < done@.len() implies (#[trigger] done@[i]) < g.len() by {
            if i < done1.len() { assert(done@[i] == done1[i]); }
        }
        assert(old(done)@.is_prefix_of(done@)) by {
            assert forall|k: int| 0 <= k < old(done)@.len() implies old(done)@[k] == done@[k] by {
                assert(done1[k] == old(done)@[k]);
            }
        }
    }
    Ok(())
}


/// A graph with a topological order has no cycle: along a cycle every node
/// would have to come strictly after the next one.
pub proof fn lemma_topo_order_acyclic(adj: Seq<Seq<usize>>, order: Seq<usize>)
    requires
        is_topo_order(adj, order),
    ensures
        !has_cycle(adj),
{
    if has_cycle(adj) {
        let p = choose|p: Seq<usize>| is_cycle(adj, p);
        lemma_cycle_positions(adj, order, p);
    }
}

proof fn lemma_all_nodes_listed(adj: Seq<Seq<usize>>, order: Seq<usize>, x: usize)
    requires
        is_topo_order(adj, order),
        x < adj.len(),
    ensures
        order.contains(x),
{
    if !order.contains(x) {
        let s = order.push(x);
        assert forall|a: int, b: int| 0 <= a < s.len() && 0 <= b < s.len() && a != b implies s[a] != s[b] by {
            if a == order.len() as int { assert(s[b] == order[b]); }
            else if b == order.len() as int { assert(s[a] == order[a]); }
            else { assert(s[a] == order[a]); assert(s[b] == order[b]); }
        }
        assert forall|i: int| 0 <= i < s.len() implies (#[trigger] s[i]) < adj.len() by {
            if i < order.len() { assert(s[i] == order[i]); }
        }
        lemma_distinct_bounded_len(s, adj.len());
    }
}

proof fn lemma_cycle_positions(adj: Seq<Seq<usize>>, order: Seq<usize>, p: Seq<usize>)
    requires
        is_topo_order(adj, order),
    ensures
        !is_cycle(adj, p),
{
    if is_cycle(adj, p) {
        let pos = |x: usize| order.index_of(x);
        assert forall|k: int| 0 <= k < p.len() implies order.contains(#[trigger] p[k]) && p[k] < adj.len() by {
            if k < p.len() - 1 {
                assert(edge(adj, p[k] as int, p[k + 1] as int));
            } else {
                assert(edge(adj, p.last() as int, p[0] as int));
            }
            lemma_all_nodes_listed(adj, order, p[k]);
        }
        // positions strictly decrease along the walk
        assert forall|k: int| 0 <= k < p.len() - 1 implies #[trigger] pos(p[k + 1]) < pos(p[k]) by {
            assert(edge(adj, p[k] as int, p[k + 1] as int));
            assert(order.contains(p[k]));
            assert(order.contains(p[k + 1]));
            let i = order.index_of(p[k]);
            let j = order.index_of(p[k + 1]);
            assert(edge(adj, order[i] as int, order[j] as int));
        }
        lemma_decreasing_positions(p, pos, (p.len() - 1) as nat);
        assert(order.contains(p[0]));
        assert(order.contains(p.last()));
        let i = order.index_of(p.last());
        let j = order.index_of(p[0]);
        assert(edge(adj, order[i] as int, order[j] as int));
    }
}

proof fn lemma_decreasing_positions(p: Seq<usize>, pos: spec_fn(usize) -> int, m: nat)
    requires
        m < p.len(),
        forall|k: int| 0 <= k < p.len() - 1 ==> #[trigger] pos(p[k + 1]) < pos(p[k]),
    ensures
        pos(p[m as int]) <= pos(p[0]) - m,
    decreases m,
{
    if m > 0 {
        lemma_decreasing_positions(p, pos, (m - 1) as nat);
        assert(pos(p[(m - 1) + 1]) < pos(p[m - 1]));
    }
}

/// Orders all nodes of `adj` so that every node comes after the nodes it
/// depends on; `Err(x)` when the dependencies contain a cycle through `x`.
pub fn topo_order(adj: &Vec<Vec<usize>>) -> (res: Result<Vec<usize>, usize>)
    requires
        graph_wf(adj.deep_view()),
    ensures
        res matches Ok(order) ==> is_topo_order(adj.deep_view(), order@),
        res matches Ok(order) ==> forall|x: usize| x < adj@.len() ==> order@.contains(x),
        res is Err <==> has_cycle(adj.deep_view()),
        res matches Err(x) ==> cycle_through(adj.deep_view(), x),
{
    let ghost g = adj.deep_view();
    let n = adj.len();
    let mut visited: Vec<bool> = Vec::new();
    let mut visiting: Vec<bool> = Vec::new();
    let mut k: usize = 0;
    while k < n
        invariant
            k <= n,
            n == adj.len(),
            visited@.len() == k,
            visiting@.len() == k,
            forall|x: int| 0 <= x < k ==> !(#[trigger] visited@[x]),
            forall|x: int| 0 <= x < k ==> !(#[trigger] visiting@[x]),
        decreases n - k,
    {
        visited.push(false);
        visiting.push(false);
        k = k + 1;
    }
    let mut done: Vec<usize> = Vec::new();
    let mut u: usize = 0;
    proof {
        assert(done@.len() == 0);
        assert(is_walk(g, Seq::<usize>::empty()));
    }
    while u < n
        invariant
            g == adj.deep_view(),
            n == adj.len(),
            u <= n,
            dfs_inv(g, visited@, visiting@, done@, Seq::empty()),
            forall|x: int| 0 <= x < n ==> !(#[trigger] visiting@[x]),
            forall|x: int| 0 <= x < u ==> #[trigger] visited@[x],
        decreases n - u,
    {
        let ghost done_before = done@;
        let ghost visited_before = visited@;
        let r = dfs_visit(adj, u, &mut visited, &mut visiting, &mut done, Ghost(Seq::empty()));
        if let Err(x) = r {
            return Err(x);
        }
        proof {
            assert forall|x: int| 0 <= x < u + 1 implies #[trigger] visited@[x] by {
                if x < u {
                    assert(visited_before[x]);
                    assert(done_before.contains(x as usize));
                    let k = done_before.index_of(x as usize);
                    assert(done@.subrange(0, done_before.len() as int) =~= done_before);
                    assert(done@.subrange(0, done_before.len() as int)[k] == done@[k]);
                    assert(done@[k] == x as usize);
                }
            }
        }
        u = u + 1;
    }
    proof {
        assert forall|x: usize| x < n implies done@.contains(x) by {
            assert(visited@[x as int]);
        }
        lemma_distinct_bounded_len(done@, n as nat);
        // every node is listed, so there are exactly n entries
        let r = Set::<usize>::range(0, n);
        broadcast use range_set_properties;
        done@.unique_seq_to_set();
        assert(r.subset_of(done@.to_set())) by {
            assert forall|x: usize| r.contains(x) implies done@.to_set().contains(x) by {
                assert(done@.contains(x));
            }
        }
        lemma_len_subset(r, done@.to_set());
        lemma_topo_order_acyclic(g, done@);
    }
    Ok(done)
}

} // verus!
