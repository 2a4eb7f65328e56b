//! Stream dependency graphs: each stream name maps to the set of streams it
//! depends on, and an initialization order puts dependencies first.

use vstd::prelude::*;
use crate::property_map::{map_of, keys_distinct, string_views, lemma_map_of_dom, lemma_map_of_at, lemma_map_of_absent, lemma_map_of_update, lemma_map_of_finite_len, lemma_prefix_push_contains, find_name, push_unique};
use crate::text::{str_eq, owned, concat};
use crate::engine::exception::EventFluxError;
use crate::engine::stream::topo_order::{topo_order, graph_wf, edge, is_topo_order, is_cycle, has_cycle};

verus! {

/// `a` depends on `b` in `g`.
pub open spec fn depends_on(g: Map<Seq<char>, Seq<Seq<char>>>, a: Seq<char>, b: Seq<char>) -> bool {
    g.contains_key(a) && g[a].contains(b)
}

/// `x` occurs in `g`, as a stream with dependencies or as a dependency.
pub open spec fn is_node(g: Map<Seq<char>, Seq<Seq<char>>>, x: Seq<char>) -> bool {
    g.contains_key(x) || exists|k: Seq<char>| #[trigger] depends_on(g, k, x)
}

/// `order` lists every node of `g` once, each after all the nodes it depends on.
pub open spec fn is_init_order(g: Map<Seq<char>, Seq<Seq<char>>>, order: Seq<Seq<char>>) -> bool {
    &&& order.no_duplicates()
    &&& forall|x: Seq<char>| is_node(g, x) <==> order.contains(x)
    &&& forall|i: int, j: int| 0 <= i < order.len() && 0 <= j < order.len()
            && #[trigger] depends_on(g, order[i], order[j]) ==> j < i
}

/// `p` is a cycle of dependencies: each stream depends on the next, the last on the first.
pub open spec fn is_dep_cycle(g: Map<Seq<char>, Seq<Seq<char>>>, p: Seq<Seq<char>>) -> bool {
    &&& p.len() > 0
    &&& forall|k: int| 0 <= k < p.len() - 1 ==> #[trigger] depends_on(g, p[k], p[k + 1])
    &&& depends_on(g, p.last(), p[0])
}

pub open spec fn has_dep_cycle(g: Map<Seq<char>, Seq<Seq<char>>>) -> bool {
    exists|p: Seq<Seq<char>>| is_dep_cycle(g, p)
}

/// Some cycle of dependencies starts (and ends) at stream `x`.
pub open spec fn dep_cycle_through(g: Map<Seq<char>, Seq<Seq<char>>>, x: Seq<char>) -> bool {
    exists|p: Seq<Seq<char>>| is_dep_cycle(g, p) && p[0] == x
}

/// The text of the error that reports a cycle through stream `x`.
pub open spec fn cycle_message(x: Seq<char>) -> Seq<char> {
    "Unexpected cycle detected during initialization: "@ + x
}

/// The views of graph entries `(stream, dependencies)`.
pub open spec fn dep_views(s: Seq<(String, Vec<String>)>) -> Seq<(Seq<char>, Seq<Seq<char>>)> {
    s.map_values(|e: (String, Vec<String>)| (e.0@, string_views(e.1@)))
}

/// A map from stream names to the distinct names of the streams they depend on.
#[derive(Debug)]
pub struct DependencyGraph {
    entries: Vec<(String, Vec<String>)>,
}

impl DependencyGraph {
    pub closed spec fn pairs(&self) -> Seq<(Seq<char>, Seq<Seq<char>>)> {
        dep_views(self.entries@)
    }

    #[verifier::type_invariant]
    closed spec fn inv(&self) -> bool {
        &&& keys_distinct(self.pairs())
        &&& forall|i: int| 0 <= i < self.pairs().len() ==> (#[trigger] self.pairs()[i]).1.no_duplicates()
    }
}

impl View for DependencyGraph {
    type V = Map<Seq<char>, Seq<Seq<char>>>;

    closed spec fn view(&self) -> Map<Seq<char>, Seq<Seq<char>>> {
        map_of(self.pairs())
    }
}

impl DependencyGraph {
    /// An empty graph.
    pub fn new() -> (g: Self)
        ensures
            g@ == Map::<Seq<char>, Seq<Seq<char>>>::empty(),
    {
        let g = DependencyGraph { entries: Vec::new() };
        proof {
            assert(g.pairs() =~= Seq::<(Seq<char>, Seq<Seq<char>>)>::empty());
        }
        g
    }

    fn position(&self, node: &str) -> (r: Option<usize>)
        ensures
            r matches Some(i) ==> i < self.pairs().len() && self.pairs()[i as int].0 == node@
                && self@.contains_key(node@) && self@[node@] == self.pairs()[i as int].1,
            r is None ==> !self@.contains_key(node@),
    {
        proof {
            use_type_invariant(self);
        }
        let mut i: usize = 0;
        while i < self.entries.len()
            invariant
                i <= self.entries@.len(),
                keys_distinct(self.pairs()),
                forall|j: int| 0 <= j < i ==> self.pairs()[j].0 != node@,
            decreases self.entries@.len() - i,
        {
            if str_eq(self.entries[i].0.as_str(), node) {
                proof {
                    lemma_map_of_at(self.pairs(), i as int);
                }
                return Some(i);
            }
            i = i + 1;
        }
        proof {
            lemma_map_of_absent(self.pairs(), node@);
        }
        None
    }

    /// Gives `node` an entry with no dependencies unless it has one.
    pub fn ensure_node(&mut self, node: &str)
        ensures
            final(self)@ == (if old(self)@.contains_key(node@) { old(self)@ } else { old(self)@.insert(node@, Seq::empty()) }),
    {
        proof {
            use_type_invariant(&*self);
        }
        let ghost old_pairs = self.pairs();
        match self.position(node) {
            Some(_) => {},
            None => {
                let mut entries: Vec<(String, Vec<String>)> = Vec::new();
                std::mem::swap(&mut entries, &mut self.entries);
                proof {
                    lemma_map_of_dom(old_pairs, node@);
                }
                let deps: Vec<String> = Vec::new();
                proof {
                    assert(string_views(deps@) =~= Seq::<Seq<char>>::empty());
                }
                entries.push((owned(node), deps));
                proof {
                    assert(dep_views(entries@) =~= old_pairs.push((node@, Seq::<Seq<char>>::empty())));
                    assert(dep_views(entries@).drop_last() =~= old_pairs);
                    assert forall|j: int| 0 <= j < dep_views(entries@).len() implies (#[trigger] dep_views(entries@)[j]).1.no_duplicates() by {
                        if j < old_pairs.len() {
                            assert(dep_views(entries@)[j] == old_pairs[j]);
                        }
                    }
                }
                self.entries = entries;
            },
        }
    }

    /// Records that `node` depends on `dep` (a stream with no entry gets one).
    pub fn add_dependency(&mut self, node: &str, dep: &str)
        ensures
            final(self)@.contains_key(node@),
            forall|y: Seq<char>| final(self)@[node@].contains(y) <==>
                ((old(self)@.contains_key(node@) && old(self)@[node@].contains(y)) || y == dep@),
            forall|k: Seq<char>| k != node@ ==> (#[trigger] final(self)@.contains_key(k) == old(self)@.contains_key(k)
                && (old(self)@.contains_key(k) ==> final(self)@[k] == old(self)@[k])),
    {
        proof {
            use_type_invariant(&*self);
        }
        let ghost old_pairs = self.pairs();
        match self.position(node) {
            Some(i) => {
                let mut entries: Vec<(String, Vec<String>)> = Vec::new();
                std::mem::swap(&mut entries, &mut self.entries);
                proof {
                    assert(old_pairs[i as int] == (entries@[i as int].0@, string_views(entries@[i as int].1@)));
                }
                let ghost before_remove = entries@;
                let (key, mut deps) = entries.remove(i);
                proof {
                    assert(string_views(deps@) == old_pairs[i as int].1);
                    assert(key@ == old_pairs[i as int].0);
                }
                push_unique(&mut deps, dep);
                let ghost new_deps = string_views(deps@);
                let ghost kv = key@;
                entries.insert(i, (key, deps));
                proof {
                    assert(entries@ =~= before_remove.update(i as int, entries@[i as int]));
                    assert(dep_views(entries@) =~= old_pairs.update(i as int, (old_pairs[i as int].0, new_deps)));
                    lemma_map_of_update(old_pairs, i as int, new_deps);
                    assert forall|j: int| 0 <= j < dep_views(entries@).len() implies (#[trigger] dep_views(entries@)[j]).1.no_duplicates() by {
                        if j != i {
                            assert(dep_views(entries@)[j] == old_pairs[j]);
                        }
                    }
                }
                self.entries = entries;
            },
            None => {
                let mut entries: Vec<(String, Vec<String>)> = Vec::new();
                std::mem::swap(&mut entries, &mut self.entries);
                proof {
                    lemma_map_of_dom(old_pairs, node@);
                }
                let mut deps: Vec<String> = Vec::new();
                proof {
                    assert(string_views(deps@) =~= Seq::<Seq<char>>::empty());
                }
                push_unique(&mut deps, dep);
                let ghost new_deps = string_views(deps@);
                entries.push((owned(node), deps));
                proof {
                    assert(dep_views(entries@) =~= old_pairs.push((node@, new_deps)));
                    assert(dep_views(entries@).drop_last() =~= old_pairs);
                    assert forall|j: int| 0 <= j < dep_views(entries@).len() implies (#[trigger] dep_views(entries@)[j]).1.no_duplicates() by {
                        if j < old_pairs.len() {
                            assert(dep_views(entries@)[j] == old_pairs[j]);
                        }
                    }
                }
                self.entries = entries;
            },
        }
    }

    /// Records that `node` depends on each stream in `deps` (repeated names count once).
    pub fn add_dependencies(&mut self, node: &str, deps: &Vec<String>)
        ensures
            deps@.len() > 0 || old(self)@.contains_key(node@) ==> final(self)@.contains_key(node@),
            final(self)@.contains_key(node@) ==> forall|y: Seq<char>| #[trigger] final(self)@[node@].contains(y) <==>
                ((old(self)@.contains_key(node@) && old(self)@[node@].contains(y)) || string_views(deps@).contains(y)),
            forall|k: Seq<char>| k != node@ ==> (#[trigger] final(self)@.contains_key(k) == old(self)@.contains_key(k)
                && (old(self)@.contains_key(k) ==> final(self)@[k] == old(self)@[k])),
            deps@.len() == 0 ==> final(self)@ == old(self)@,
    {
        let ghost start = self@;
        let mut i: usize = 0;
        while i < deps.len()
            invariant
                i <= deps@.len(),
                i > 0 || start.contains_key(node@) ==> self@.contains_key(node@),
                i == 0 ==> self@ == start,
                self@.contains_key(node@) ==> forall|y: Seq<char>| #[trigger] self@[node@].contains(y) <==>
                    ((start.contains_key(node@) && start[node@].contains(y)) || string_views(deps@).subrange(0, i as int).contains(y)),
                forall|k: Seq<char>| k != node@ ==> (#[trigger] self@.contains_key(k) == start.contains_key(k)
                    && (start.contains_key(k) ==> self@[k] == start[k])),
            decreases deps@.len() - i,
        {
            let ghost before = self@;
            self.add_dependency(node, deps[i].as_str());
            proof {
                lemma_prefix_push_contains(string_views(deps@), i as int);
                assert(string_views(deps@)[i as int] == deps@[i as int]@);
                let pre = string_views(deps@).subrange(0, i as int);
                let post = string_views(deps@).subrange(0, i + 1);
                assert forall|y: Seq<char>| #[trigger] self@[node@].contains(y) <==>
                    ((start.contains_key(node@) && start[node@].contains(y)) || post.contains(y)) by {
                    assert(post.contains(y) <==> (pre.contains(y) || y == deps@[i as int]@));
                    if before.contains_key(node@) {
                        assert(before[node@].contains(y) <==> ((start.contains_key(node@) && start[node@].contains(y)) || pre.contains(y)));
                    }
                }
            }
            i = i + 1;
        }
        proof {
            assert(string_views(deps@).subrange(0, i as int) =~= string_views(deps@));
        }
    }

    /// Sets the dependencies of `node` to the distinct names in `deps`.
    pub fn insert(&mut self, node: String, deps: Vec<String>)
        ensures
            final(self)@.contains_key(node@),
            forall|y: Seq<char>| final(self)@[node@].contains(y) <==> string_views(deps@).contains(y),
            forall|k: Seq<char>| k != node@ ==> (#[trigger] final(self)@.contains_key(k) == old(self)@.contains_key(k)
                && (old(self)@.contains_key(k) ==> final(self)@[k] == old(self)@[k])),
    {
        proof {
            use_type_invariant(&*self);
        }
        let mut unique: Vec<String> = Vec::new();
        proof {
            assert(string_views(unique@) =~= Seq::<Seq<char>>::empty());
        }
        let mut i: usize = 0;
        while i < deps.len()
            invariant
                i <= deps@.len(),
                string_views(unique@).no_duplicates(),
                forall|y: Seq<char>| string_views(unique@).contains(y) <==> string_views(deps@).subrange(0, i as int).contains(y),
            decreases deps@.len() - i,
        {
            push_unique(&mut unique, deps[i].as_str());
            proof {
                lemma_prefix_push_contains(string_views(deps@), i as int);
                assert(string_views(deps@)[i as int] == deps@[i as int]@);
            }
            i = i + 1;
        }
        proof {
            assert(string_views(deps@).subrange(0, i as int) =~= string_views(deps@));
        }
        let ghost old_pairs = self.pairs();
        let ghost new_deps = string_views(unique@);
        match self.position(node.as_str()) {
            Some(p) => {
                let mut entries: Vec<(String, Vec<String>)> = Vec::new();
                std::mem::swap(&mut entries, &mut self.entries);
                entries.set(p, (node, unique));
                proof {
                    assert(dep_views(entries@) =~= old_pairs.update(p as int, (old_pairs[p as int].0, new_deps)));
                    lemma_map_of_update(old_pairs, p as int, new_deps);
                    assert forall|j: int| 0 <= j < dep_views(entries@).len() implies (#[trigger] dep_views(entries@)[j]).1.no_duplicates() by {
                        if j != p {
                            assert(dep_views(entries@)[j] == old_pairs[j]);
                        }
                    }
                }
                self.entries = entries;
            },
            None => {
                let mut entries: Vec<(String, Vec<String>)> = Vec::new();
                std::mem::swap(&mut entries, &mut self.entries);
                proof {
                    lemma_map_of_dom(old_pairs, node@);
                }
                let ghost nv = node@;
                entries.push((node, unique));
                proof {
                    assert(dep_views(entries@) =~= old_pairs.push((nv, new_deps)));
                    assert(dep_views(entries@).drop_last() =~= old_pairs);
                    assert forall|j: int| 0 <= j < dep_views(entries@).len() implies (#[trigger] dep_views(entries@)[j]).1.no_duplicates() by {
                        if j < old_pairs.len() {
                            assert(dep_views(entries@)[j] == old_pairs[j]);
                        }
                    }
                }
                self.entries = entries;
            },
        }
    }

    /// The dependencies of `node`.
    pub fn get(&self, node: &str) -> (r: Option<&Vec<String>>)
        ensures
            r matches Some(d) ==> self@.contains_key(node@) && string_views(d@) == self@[node@],
            r is None ==> !self@.contains_key(node@),
    {
        match self.position(node) {
            Some(i) => Some(&self.entries[i].1),
            None => None,
        }
    }

    /// The number of streams that have an entry.
    pub fn len(&self) -> (r: usize)
        ensures
            r == self@.len(),
    {
        proof {
            use_type_invariant(self);
            lemma_map_of_finite_len(self.pairs());
        }
        self.entries.len()
    }

    /// Whether no stream has an entry.
    pub fn is_empty(&self) -> (r: bool)
        ensures
            r == (self@.len() == 0),
    {
        proof {
            use_type_invariant(self);
            lemma_map_of_finite_len(self.pairs());
        }
        self.entries.len() == 0
    }

    /// Every node of the graph once: streams with an entry and their dependencies.
    fn node_names(&self) -> (names: Vec<String>)
        ensures
            string_views(names@).no_duplicates(),
            forall|x: Seq<char>| is_node(self@, x) <==> string_views(names@).contains(x),
    {
        proof {
            use_type_invariant(self);
        }
        let mut names: Vec<String> = Vec::new();
        proof {
            assert(string_views(names@) =~= Seq::<Seq<char>>::empty());
        }
        let mut i: usize = 0;
        while i < self.entries.len()
            invariant
                i <= self.entries@.len(),
                keys_distinct(self.pairs()),
                string_views(names@).no_duplicates(),
                forall|x: Seq<char>| string_views(names@).contains(x) <==> seen_before(self.pairs(), i as int, x),
            decreases self.entries@.len() - i,
        {
            push_unique(&mut names, self.entries[i].0.as_str());
            let deps = &self.entries[i].1;
            proof {
                assert(self.pairs()[i as int] == (self.entries@[i as int].0@, string_views(deps@)));
            }
            let mut k: usize = 0;
            while k < deps.len()
                invariant
                    k <= deps@.len(),
                    i < self.entries@.len(),
                    self.pairs()[i as int] == (self.entries@[i as int].0@, string_views(deps@)),
                    string_views(names@).no_duplicates(),
                    forall|x: Seq<char>| string_views(names@).contains(x) <==>
                        (seen_before(self.pairs(), i as int, x) || x == self.pairs()[i as int].0
                        || string_views(deps@).subrange(0, k as int).contains(x)),
                decreases deps@.len() - k,
            {
                push_unique(&mut names, deps[k].as_str());
                proof {
                    lemma_prefix_push_contains(string_views(deps@), k as int);
                    assert(string_views(deps@)[k as int] == deps@[k as int]@);
                }
                k = k + 1;
            }
            proof {
                assert(string_views(deps@).subrange(0, k as int) =~= self.pairs()[i as int].1);
                assert forall|x: Seq<char>| string_views(names@).contains(x) <==> seen_before(self.pairs(), i + 1, x) by {
                    lemma_seen_before_step(self.pairs(), i as int, x);
                }
            }
            i = i + 1;
        }
        proof {
            assert forall|x: Seq<char>| is_node(self@, x) <==> string_views(names@).contains(x) by {
                lemma_map_of_dom(self.pairs(), x);
                if seen_before(self.pairs(), i as int, x) {
                    let j = choose|j: int| 0 <= j < i && #[trigger] occurs_at(self.pairs(), j, x);
                    lemma_map_of_at(self.pairs(), j);
                    if self.pairs()[j].0 != x {
                        assert(depends_on(self@, self.pairs()[j].0, x));
                    }
                }
                if is_node(self@, x) {
                    if self@.contains_key(x) {
                        let j = choose|j: int| 0 <= j < self.pairs().len() && self.pairs()[j].0 == x;
                        assert(occurs_at(self.pairs(), j, x));
                    } else {
                        let k = choose|k: Seq<char>| #[trigger] depends_on(self@, k, x);
                        lemma_map_of_dom(self.pairs(), k);
                        let j = choose|j: int| 0 <= j < self.pairs().len() && self.pairs()[j].0 == k;
                        lemma_map_of_at(self.pairs(), j);
                        assert(occurs_at(self.pairs(), j, x));
                    }
                }
            }
        }
        names
    }
}

/// `x` is the stream or one of the dependencies of entry `j`.
pub open spec fn occurs_at(p: Seq<(Seq<char>, Seq<Seq<char>>)>, j: int, x: Seq<char>) -> bool {
    p[j].0 == x || p[j].1.contains(x)
}

/// `x` occurs in one of the first `i` entries.
pub open spec fn seen_before(p: Seq<(Seq<char>, Seq<Seq<char>>)>, i: int, x: Seq<char>) -> bool {
    exists|j: int| 0 <= j < i && #[trigger] occurs_at(p, j, x)
}

proof fn lemma_seen_before_step(p: Seq<(Seq<char>, Seq<Seq<char>>)>, i: int, x: Seq<char>)
    requires
        0 <= i < p.len(),
    ensures
        seen_before(p, i + 1, x) <==> (seen_before(p, i, x) || x == p[i].0 || p[i].1.contains(x)),
{
    if seen_before(p, i + 1, x) {
        let j = choose|j: int| 0 <= j < i + 1 && #[trigger] occurs_at(p, j, x);
        if j < i {
            assert(seen_before(p, i, x));
        }
    }
    if seen_before(p, i, x) {
        let j = choose|j: int| 0 <= j < i && #[trigger] occurs_at(p, j, x);
        assert(0 <= j < i + 1 && occurs_at(p, j, x));
    }
    if x == p[i].0 || p[i].1.contains(x) {
        assert(occurs_at(p, i, x));
    }
}


/// Index-level and name-level edges agree when `nm` names the nodes `0..n`.
pub open spec fn names_match(adj: Seq<Seq<usize>>, nm: Seq<Seq<char>>, g: Map<Seq<char>, Seq<Seq<char>>>) -> bool {
    &&& adj.len() == nm.len()
    &&& graph_wf(adj)
    &&& nm.no_duplicates()
    &&& forall|x: Seq<char>| is_node(g, x) <==> nm.contains(x)
    &&& forall|a: int, b: int| 0 <= a < nm.len() && 0 <= b < nm.len() ==>
            (#[trigger] edge(adj, a, b) <==> depends_on(g, nm[a], nm[b]))
}

/// Both ends of a dependency are nodes.
proof fn lemma_dep_nodes(g: Map<Seq<char>, Seq<Seq<char>>>, a: Seq<char>, b: Seq<char>)
    requires
        depends_on(g, a, b),
    ensures
        is_node(g, a),
        is_node(g, b),
{
}

proof fn lemma_index_cycle_to_names(adj: Seq<Seq<usize>>, nm: Seq<Seq<char>>, g: Map<Seq<char>, Seq<Seq<char>>>, p: Seq<usize>)
    requires
        names_match(adj, nm, g),
        is_cycle(adj, p),
    ensures
        has_dep_cycle(g),
        dep_cycle_through(g, nm[p[0] as int]),
{
    let q = p.map_values(|k: usize| nm[k as int]);
    assert forall|k: int| 0 <= k < q.len() - 1 implies #[trigger] depends_on(g, q[k], q[k + 1]) by {
        assert(edge(adj, p[k] as int, p[k + 1] as int));
        assert(p[k] < adj.len());
        let kk = choose|kk: int| 0 <= kk < adj[p[k] as int].len() && #[trigger] adj[p[k] as int][kk] as int == p[k + 1] as int;
        assert(adj[p[k] as int][kk] < adj.len());
    }
    let l = p.len() - 1;
    assert(edge(adj, p[l] as int, p[0] as int));
    let kk = choose|kk: int| 0 <= kk < adj[p[l] as int].len() && #[trigger] adj[p[l] as int][kk] as int == p[0] as int;
    assert(adj[p[l] as int][kk] < adj.len());
    assert(depends_on(g, q.last(), q[0]));
    assert(is_dep_cycle(g, q));
    assert(q[0] == nm[p[0] as int]);
}

proof fn lemma_name_cycle_to_index(adj: Seq<Seq<usize>>, nm: Seq<Seq<char>>, g: Map<Seq<char>, Seq<Seq<char>>>, q: Seq<Seq<char>>)
    requires
        names_match(adj, nm, g),
        is_dep_cycle(g, q),
        nm.len() <= usize::MAX,
    ensures
        has_cycle(adj),
{
    assert forall|k: int| 0 <= k < q.len() implies nm.contains(#[trigger] q[k]) by {
        if k < q.len() - 1 {
            assert(depends_on(g, q[k], q[k + 1]));
            lemma_dep_nodes(g, q[k], q[k + 1]);
        } else {
            lemma_dep_nodes(g, q.last(), q[0]);
        }
    }
    let p = q.map_values(|x: Seq<char>| nm.index_of(x) as usize);
    assert forall|k: int| 0 <= k < q.len() implies nm[p[k] as int] == q[k] && 0 <= p[k] < nm.len() by {
        assert(nm.contains(q[k]));
        assert(0 <= nm.index_of(q[k]) < nm.len() && nm[nm.index_of(q[k])] == q[k]);
    }
    assert forall|k: int| 0 <= k < p.len() - 1 implies #[trigger] edge(adj, p[k] as int, p[k + 1] as int) by {
        assert(depends_on(g, q[k], q[k + 1]));
        assert(nm[p[k] as int] == q[k] && nm[p[k + 1] as int] == q[k + 1]);
    }
    let l = q.len() - 1;
    assert(nm[p[l] as int] == q[l] && nm[p[0] as int] == q[0]);
    assert(edge(adj, p.last() as int, p[0] as int));
    assert(is_cycle(adj, p));
}

impl DependencyGraph {
    /// The positions in `names` of the dependencies of `node`.
    fn dependency_indices(&self, node: &str, names: &Vec<String>) -> (row: Vec<usize>)
        requires
            string_views(names@).no_duplicates(),
            forall|x: Seq<char>| is_node(self@, x) <==> string_views(names@).contains(x),
        ensures
            forall|k: int| 0 <= k < row@.len() ==> (#[trigger] row@[k]) < names@.len(),
            forall|b: int| 0 <= b < names@.len() ==>
                ((exists|k: int| 0 <= k < row@.len() && #[trigger] row@[k] as int == b) <==> depends_on(self@, node@, names@[b]@)),
    {
        let mut row: Vec<usize> = Vec::new();
        match self.get(node) {
            Some(d) => {
                let mut k: usize = 0;
                while k < d.len()
                    invariant
                        k <= d@.len(),
                        row@.len() == k,
                        string_views(names@).no_duplicates(),
                        self@.contains_key(node@),
                        string_views(d@) == self@[node@],
                        forall|x: Seq<char>| is_node(self@, x) <==> string_views(names@).contains(x),
                        forall|m: int| 0 <= m < k ==> (#[trigger] row@[m]) < names@.len() && names@[row@[m] as int]@ == d@[m]@,
                    decreases d@.len() - k,
                {
                    proof {
                        assert(string_views(d@)[k as int] == d@[k as int]@);
                        assert(depends_on(self@, node@, d@[k as int]@));
                        lemma_dep_nodes(self@, node@, d@[k as int]@);
                    }
                    match find_name(names, d[k].as_str()) {
                        Some(j) => {
                            row.push(j);
                        },
                        None => {
                            proof {
                                assert(false);
                            }
                            row.push(0);
                        },
                    }
                    k = k + 1;
                }
                proof {
                    assert forall|b: int| 0 <= b < names@.len() implies
                        ((exists|m: int| 0 <= m < row@.len() && #[trigger] row@[m] as int == b) <==> depends_on(self@, node@, names@[b]@)) by {
                        if exists|m: int| 0 <= m < row@.len() && #[trigger] row@[m] as int == b {
                            let m = choose|m: int| 0 <= m < row@.len() && #[trigger] row@[m] as int == b;
                            assert(string_views(d@)[m] == d@[m]@);
                        }
                        if depends_on(self@, node@, names@[b]@) {
                            let m = choose|m: int| 0 <= m < string_views(d@).len() && string_views(d@)[m] == names@[b]@;
                            assert(d@[m]@ == names@[b]@);
                            let j = row@[m];
                            assert(names@[j as int]@ == names@[b]@);
                            assert(string_views(names@)[j as int] == string_views(names@)[b]);
                            assert(row@[m] as int == b);
                        }
                    }
                }
            },
            None => {},
        }
        row
    }

    /// Orders every stream of the graph so that each comes after the streams it
    /// depends on; an error when the dependencies contain a cycle.
    pub fn initialization_order(&self) -> (r: Result<Vec<String>, EventFluxError>)
        ensures
            r matches Ok(order) ==> is_init_order(self@, string_views(order@)),
            r is Err <==> has_dep_cycle(self@),
            r matches Err(e) ==> (e matches EventFluxError::AppCreation { message }
                && exists|x: Seq<char>| dep_cycle_through(self@, x) && message@ == cycle_message(x)),
    {
        let names = self.node_names();
        let n = names.len();
        let mut adj: Vec<Vec<usize>> = Vec::new();
        let mut i: usize = 0;
        while i < n
            invariant
                i <= n,
                n == names@.len(),
                adj@.len() == i,
                string_views(names@).no_duplicates(),
                forall|x: Seq<char>| is_node(self@, x) <==> string_views(names@).contains(x),
                forall|a: int, k: int| 0 <= a < i && 0 <= k < adj@[a]@.len() ==> (#[trigger] adj@[a]@[k]) < n,
                forall|a: int, b: int| 0 <= a < i && 0 <= b < n ==>
                    ((exists|k: int| 0 <= k < adj@[a]@.len() && #[trigger] adj@[a]@[k] as int == b)
                        <==> depends_on(self@, names@[a]@, names@[b]@)),
            decreases n - i,
        {
            let row = self.dependency_indices(names[i].as_str(), &names);
            let ghost old_adj = adj@;
            let ghost rv = row@;
            adj.push(row);
            proof {
                assert forall|a: int, b: int| 0 <= a < i + 1 && 0 <= b < n implies
                    ((exists|k: int| 0 <= k < adj@[a]@.len() && #[trigger] adj@[a]@[k] as int == b)
                        <==> depends_on(self@, names@[a]@, names@[b]@)) by {
                    if a < i {
                        assert(adj@[a] == old_adj[a]);
                    } else {
                        assert(adj@[a]@ == rv);
                        if exists|k: int| 0 <= k < adj@[a]@.len() && #[trigger] adj@[a]@[k] as int == b {
                            let k = choose|k: int| 0 <= k < adj@[a]@.len() && #[trigger] adj@[a]@[k] as int == b;
                            assert(rv[k] as int == b);
                        }
                        if depends_on(self@, names@[a]@, names@[b]@) {
                            let k = choose|k: int| 0 <= k < rv.len() && #[trigger] rv[k] as int == b;
                            assert(adj@[a]@[k] as int == b);
                        }
                    }
                }
                assert forall|a: int, k: int| 0 <= a < i + 1 && 0 <= k < adj@[a]@.len() implies (#[trigger] adj@[a]@[k]) < n by {
                    if a < i {
                        assert(adj@[a] == old_adj[a]);
                    }
                }
            }
            i = i + 1;
        }
        let ghost g = adj.deep_view();
        let ghost nm = string_views(names@);
        proof {
            assert forall|a: int, k: int| 0 <= a < g.len() && 0 <= k < g[a].len() implies (#[trigger] g[a][k]) < g.len() by {
                assert(g[a] == adj@[a]@);
            }
            assert forall|a: int, b: int| 0 <= a < nm.len() && 0 <= b < nm.len() implies
                (#[trigger] edge(g, a, b) <==> depends_on(self@, nm[a], nm[b])) by {
                assert(g[a] == adj@[a]@);
                assert(nm[a] == names@[a]@ && nm[b] == names@[b]@);
                if edge(g, a, b) {
                    let k = choose|k: int| 0 <= k < g[a].len() && #[trigger] g[a][k] as int == b;
                    assert(adj@[a]@[k] as int == b);
                }
                if depends_on(self@, nm[a], nm[b]) {
                    let k = choose|k: int| 0 <= k < adj@[a]@.len() && #[trigger] adj@[a]@[k] as int == b;
                    assert(g[a][k] as int == b);
                }
            }
            assert(names_match(g, nm, self@));
        }
        match topo_order(&adj) {
            Ok(order) => {
                let mut out: Vec<String> = Vec::new();
                let mut m: usize = 0;
                while m < order.len()
                    invariant
                        m <= order@.len(),
                        out@.len() == m,
                        is_topo_order(g, order@),
                        g.len() == n,
                        n == names@.len(),
                        forall|t: int| 0 <= t < m ==> out@[t]@ == names@[order@[t] as int]@,
                    decreases order@.len() - m,
                {
                    let idx = order[m];
                    out.push(names[idx].clone());
                    m = m + 1;
                }
                proof {
                    let ov = string_views(out@);
                    assert forall|t: int| 0 <= t < ov.len() implies #[trigger] ov[t] == nm[order@[t] as int] by {
                        assert(out@[t]@ == names@[order@[t] as int]@);
                    }
                    assert forall|s: int, t: int| 0 <= s < t < ov.len() implies ov[s] != ov[t] by {
                        assert(order@[s] != order@[t]);
                    }
                    assert forall|x: Seq<char>| is_node(self@, x) <==> ov.contains(x) by {
                        if nm.contains(x) {
                            let b = choose|b: int| 0 <= b < nm.len() && nm[b] == x;
                            assert(order@.contains(b as usize));
                            let t = choose|t: int| 0 <= t < order@.len() && order@[t] == b as usize;
                            assert(ov[t] == x);
                        }
                        if ov.contains(x) {
                            let t = choose|t: int| 0 <= t < ov.len() && ov[t] == x;
                            assert(nm[order@[t] as int] == x);
                        }
                    }
                    assert forall|s: int, t: int| 0 <= s < ov.len() && 0 <= t < ov.len()
                        && #[trigger] depends_on(self@, ov[s], ov[t]) implies t < s by {
                        assert(edge(g, order@[s] as int, order@[t] as int));
                    }
                    if has_dep_cycle(self@) {
                        let q = choose|q: Seq<Seq<char>>| is_dep_cycle(self@, q);
                        lemma_name_cycle_to_index(g, nm, self@, q);
                        crate::engine::stream::topo_order::lemma_topo_order_acyclic(g, order@);
                    }
                }
                Ok(out)
            },
            Err(x) => {
                proof {
                    let p = choose|p: Seq<usize>| is_cycle(g, p) && p[0] == x;
                    lemma_index_cycle_to_names(g, nm, self@, p);
                    assert(edge(g, p.last() as int, p[0] as int));
                    assert(x < names.len());
                }
                let msg = if x < names.len() {
                    concat("Unexpected cycle detected during initialization: ", names[x].as_str())
                } else {
                    owned("Unexpected cycle detected during initialization")
                };
                proof {
                    assert(nm[x as int] == names@[x as int]@);
                    assert(msg@ == cycle_message(nm[x as int]));
                }
                Err(EventFluxError::AppCreation { message: msg })
            },
        }
    }
}

} // verus!
