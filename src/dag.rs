//! The dependency graph of a Beamfile's beams.
//!
//! Node `i` of the graph is the Beamfile's beam `i`; an edge goes from a
//! dependency to the beam that depends on it, so edges point in execution
//! order.

use vstd::prelude::*;

use petgraph::graph::{Graph, NodeIndex};
use petgraph::{Directed, Direction};

use crate::beam::Beam;
use crate::beamfile::{Beamfile, beam_names_of, distinct};
use crate::error::AuroraError;
use crate::text::{copy_str, str_eq};

verus! {

#[verifier::external_type_specification]
#[verifier::external_body]
#[verifier::reject_recursive_types(N)]
#[verifier::reject_recursive_types(E)]
#[verifier::reject_recursive_types(Ty)]
#[verifier::reject_recursive_types(Ix)]
pub struct ExGraph<N, E, Ty, Ix>(Graph<N, E, Ty, Ix>);

#[verifier::external_type_specification]
#[verifier::external_body]
pub struct ExDirected(Directed);

/// The node weights of a graph, by node index.
pub uninterp spec fn graph_nodes(g: Graph<String, (), Directed, u32>) -> Seq<Seq<char>>;

/// The edges of a graph, as (source, target) node indices in order of addition.
pub uninterp spec fn graph_edges(g: Graph<String, (), Directed, u32>) -> Seq<(int, int)>;

/// Relies on `petgraph::graph::Graph::new`: a graph with no node and no edge.
#[verifier::external_body]
fn graph_new() -> (g: Graph<String, (), Directed, u32>)
    ensures
        graph_nodes(g) == Seq::<Seq<char>>::empty(),
        graph_edges(g) == Seq::<(int, int)>::empty(),
{
    Graph::new()
}

/// Relies on `petgraph::graph::Graph::add_node`: the new node's index is the
/// old node count; it panics only when that count is `u32::MAX`.
#[verifier::external_body]
fn graph_add_node(g: &mut Graph<String, (), Directed, u32>, weight: String) -> (r: usize)
    requires
        graph_nodes(*old(g)).len() < u32::MAX,
    ensures
        r == graph_nodes(*old(g)).len(),
        graph_nodes(*final(g)) == graph_nodes(*old(g)).push(weight@),
        graph_edges(*final(g)) == graph_edges(*old(g)),
{
    g.add_node(weight).index()
}

/// Relies on `petgraph::graph::Graph::add_edge`: appends the edge `a -> b`;
/// it panics where a node index is out of bounds or the edge count is `u32::MAX`.
#[verifier::external_body]
fn graph_add_edge(g: &mut Graph<String, (), Directed, u32>, a: usize, b: usize)
    requires
        a < graph_nodes(*old(g)).len(),
        b < graph_nodes(*old(g)).len(),
        graph_edges(*old(g)).len() < u32::MAX,
    ensures
        graph_nodes(*final(g)) == graph_nodes(*old(g)),
        graph_edges(*final(g)) == graph_edges(*old(g)).push((a as int, b as int)),
{
    g.add_edge(NodeIndex::new(a), NodeIndex::new(b), ());
}

/// Relies on `petgraph::graph::Graph::neighbors_directed` with `Incoming`:
/// the sources of the edges into `n`, one for each such edge.
#[verifier::external_body]
fn graph_incoming(g: &Graph<String, (), Directed, u32>, n: usize) -> (r: Vec<usize>)
    requires
        n < graph_nodes(*g).len(),
    ensures
        forall|i: int| 0 <= i < r@.len() ==> graph_edges(*g).contains((#[trigger] r@[i] as int, n as int)),
        forall|a: int| graph_edges(*g).contains((a, n as int)) ==> exists|i: int|
            0 <= i < r@.len() && #[trigger] r@[i] as int == a,
{
    g.neighbors_directed(NodeIndex::new(n), Direction::Incoming).map(|i| i.index()).collect()
}

/// Relies on `petgraph::algo::toposort`: every node once, each before its
/// successors, where the graph is acyclic; a cycle error otherwise.
#[verifier::external_body]
fn graph_toposort(g: &Graph<String, (), Directed, u32>) -> (r: Option<Vec<usize>>)
    ensures
        match r {
            Some(order) => is_topo_order(
                order@.map_values(|i: usize| i as int),
                graph_nodes(*g).len() as int,
                graph_edges(*g),
            ),
            None => !acyclic(graph_nodes(*g).len() as int, graph_edges(*g)),
        },
{
    match petgraph::algo::toposort(g, None) {
        Ok(order) => Some(order.into_iter().map(|i| i.index()).collect()),
        Err(_) => None,
    }
}

/// Relies on `petgraph::algo::is_cyclic_directed`: whether the graph has a cycle,
/// that is, whether no order of its nodes puts each before its successors.
#[verifier::external_body]
fn graph_is_cyclic(g: &Graph<String, (), Directed, u32>) -> (r: bool)
    ensures
        r == !acyclic(graph_nodes(*g).len() as int, graph_edges(*g)),
{
    petgraph::algo::is_cyclic_directed(g)
}

/// Whether `a -> b` is one of the edges.
pub open spec fn edge_in(es: Seq<(int, int)>, a: int, b: int) -> bool {
    es.contains((a, b))
}

/// Whether `ord` lists each of the nodes `0..n` exactly once.
pub open spec fn is_permutation(ord: Seq<int>, n: int) -> bool {
    &&& ord.len() == n
    &&& forall|i: int| 0 <= i < ord.len() ==> 0 <= #[trigger] ord[i] < n
    &&& forall|i: int, j: int| 0 <= i < j < ord.len() ==> ord[i] != ord[j]
}

/// Whether every edge between two nodes of `ord` goes forward in `ord`.
pub open spec fn respects(ord: Seq<int>, es: Seq<(int, int)>) -> bool {
    forall|i: int, j: int|
        0 <= i < ord.len() && 0 <= j < ord.len() && #[trigger] edge_in(es, ord[i], ord[j]) ==> i < j
}

/// Whether `ord` is a topological order of the graph with nodes `0..n`.
pub open spec fn is_topo_order(ord: Seq<int>, n: int, es: Seq<(int, int)>) -> bool {
    is_permutation(ord, n) && respects(ord, es)
}

/// Whether the graph with nodes `0..n` has a topological order, that is, no cycle.
pub open spec fn acyclic(n: int, es: Seq<(int, int)>) -> bool {
    exists|ord: Seq<int>| is_topo_order(ord, n, es)
}

/// Whether `p` is a path: each node has an edge to the next.
pub open spec fn is_path(p: Seq<int>, es: Seq<(int, int)>) -> bool {
    p.len() >= 1 && forall|i: int| 0 <= i < p.len() - 1 ==> #[trigger] edge_in(es, p[i], p[i + 1])
}

/// Whether a path leads from `a` to `b` (every node reaches itself).
pub open spec fn reaches(es: Seq<(int, int)>, a: int, b: int) -> bool {
    exists|p: Seq<int>| #[trigger] is_path(p, es) && p[0] == a && p.last() == b
}

/// Whether the nodes of the edges are all below `n`.
pub open spec fn edges_within(es: Seq<(int, int)>, n: int) -> bool {
    forall|k: int| 0 <= k < es.len() ==> 0 <= (#[trigger] es[k]).0 < n && 0 <= es[k].1 < n
}

/// Whether beam `b` of the Beamfile names beam `a` among its dependencies.
pub open spec fn depends(bf: Beamfile, a: int, b: int) -> bool {
    0 <= a < bf.beams@.len() && 0 <= b < bf.beams@.len() && bf.beams@[b].depends_on@.map_values(
        |s: String| s@,
    ).contains(bf.names()[a])
}

/// Whether every dependency that a beam names is a beam of the Beamfile.
pub open spec fn dependencies_declared(bf: Beamfile) -> bool {
    forall|b: int, k: int|
        0 <= b < bf.beams@.len() && 0 <= k < bf.beams@[b].depends_on@.len() ==> bf.has_beam(
            (#[trigger] bf.beams@[b].depends_on@[k])@,
        )
}

/// The graph of the dependency relation of a Beamfile has no cycle.
pub open spec fn beamfile_acyclic(bf: Beamfile) -> bool {
    exists|ord: Seq<int>|
        is_permutation(ord, bf.beams@.len() as int) && forall|i: int, j: int|
            0 <= i < ord.len() && 0 <= j < ord.len() && #[trigger] depends(bf, ord[i], ord[j]) ==> i < j
}

/// The dependency graph of a Beamfile.
pub struct DependencyGraph {
    names: Vec<String>,
    graph: Graph<String, (), Directed, u32>,
}

impl DependencyGraph {
    /// The beam names, by node index.
    pub closed spec fn names(&self) -> Seq<Seq<char>> {
        graph_nodes(self.graph)
    }

    /// The edges, from dependency to dependent.
    pub closed spec fn edges(&self) -> Seq<(int, int)> {
        graph_edges(self.graph)
    }

    pub closed spec fn wf(&self) -> bool {
        &&& self.names@.map_values(|s: String| s@) == graph_nodes(self.graph)
        &&& distinct(graph_nodes(self.graph))
        &&& edges_within(graph_edges(self.graph), graph_nodes(self.graph).len() as int)
        &&& acyclic(graph_nodes(self.graph).len() as int, graph_edges(self.graph))
    }

    /// Whether `a -> b` is an edge between the named beams.
    pub open spec fn name_edge(&self, a: Seq<char>, b: Seq<char>) -> bool {
        exists|i: int, j: int|
            0 <= i < self.names().len() && 0 <= j < self.names().len() && self.names()[i] == a
                && self.names()[j] == b && #[trigger] edge_in(self.edges(), i, j)
    }

    /// Whether beam `x` must run for `target`: it is `target` or one of its
    /// transitive dependencies.
    pub open spec fn required(&self, x: Seq<char>, target: Seq<char>) -> bool {
        exists|i: int, j: int|
            0 <= i < self.names().len() && 0 <= j < self.names().len() && self.names()[i] == x
                && self.names()[j] == target && #[trigger] reaches(self.edges(), i, j)
    }

    /// Builds the graph of `bf`'s beams. Fails with `BeamNotFound` where a
    /// beam depends on an undeclared one, else with `CycleDetected` where
    /// the dependencies form a cycle.
    pub fn from_beamfile(bf: &Beamfile) -> (r: Result<DependencyGraph, AuroraError>)
        requires
            bf.wf(),
            bf.beams@.len() < u32::MAX,
            dependency_entries(bf.beams@) < u32::MAX,
        ensures
            match r {
                Ok(g) => {
                    &&& g.wf()
                    &&& dependencies_declared(*bf)
                    &&& beamfile_acyclic(*bf)
                    &&& g.names() == bf.names()
                    &&& forall|a: int, b: int| #[trigger] edge_in(g.edges(), a, b) <==> depends(*bf, a, b)
                },
                Err(e) => (!dependencies_declared(*bf) && e is BeamNotFound) || (
                dependencies_declared(*bf) && !beamfile_acyclic(*bf) && e is CycleDetected),
            },
    {
        let mut graph = graph_new();
        let mut names: Vec<String> = Vec::new();
        let n = bf.beams.len();
        let mut i: usize = 0;
        while i < n
            invariant
                n == bf.beams@.len(),
                n < u32::MAX,
                i <= n,
                graph_nodes(graph) == bf.names().take(i as int),
                names@.map_values(|s: String| s@) == bf.names().take(i as int),
                graph_edges(graph) == Seq::<(int, int)>::empty(),
            decreases n - i,
        {
            let name = copy_str(bf.beams[i].name.as_str());
            let _ = graph_add_node(&mut graph, name);
            names.push(copy_str(bf.beams[i].name.as_str()));
            i = i + 1;
            assert(graph_nodes(graph) =~= bf.names().take(i as int));
            assert(names@.map_values(|s: String| s@) =~= bf.names().take(i as int));
        }
        assert(bf.names().take(n as int) =~= bf.names());
        let mut b: usize = 0;
        while b < n
            invariant
                n == bf.beams@.len(),
                n < u32::MAX,
                b <= n,
                bf.wf(),
                graph_nodes(graph) == bf.names(),
                names@.map_values(|s: String| s@) == bf.names(),
                edges_within(graph_edges(graph), n as int),
                forall|x: int, y: int| #[trigger] edge_in(graph_edges(graph), x, y) <==> (depends(*bf, x, y) && y < b),
                forall|y: int, k: int| 0 <= y < b && 0 <= k < bf.beams@[y].depends_on@.len() ==> bf.has_beam(
                    (#[trigger] bf.beams@[y].depends_on@[k])@),
                graph_edges(graph).len() == dependency_entries(bf.beams@.take(b as int)),
                dependency_entries(bf.beams@) < u32::MAX,
            decreases n - b,
        {
            let deps = &bf.beams[b].depends_on;
            let mut k: usize = 0;
            let ghost e0 = graph_edges(graph);
            while k < deps.len()
                invariant
                    n == bf.beams@.len(),
                    n < u32::MAX,
                    b < n,
                    k <= deps@.len(),
                    bf.wf(),
                    deps == bf.beams@[b as int].depends_on,
                    graph_nodes(graph) == bf.names(),
                    edges_within(graph_edges(graph), n as int),
                    forall|x: int, y: int| #[trigger] edge_in(graph_edges(graph), x, y) <==> (
                        (depends(*bf, x, y) && y < b) || (y == b && 0 <= x < n && deps@.take(k as int).map_values(|s: String| s@).contains(bf.names()[x]))),
                    forall|j: int| 0 <= j < k ==> bf.has_beam((#[trigger] deps@[j])@),
                    graph_edges(graph).len() == dependency_entries(bf.beams@.take(b as int)) + k,
                    dependency_entries(bf.beams@) < u32::MAX,
                decreases deps@.len() - k,
            {
                let mut a: usize = 0;
                let mut found = false;
                while a < n && !found
                    invariant
                        n == bf.beams@.len(),
                        a <= n,
                        k < deps@.len(),
                        found ==> a < n && bf.names()[a as int] == deps@[k as int]@,
                        !found ==> forall|x: int| 0 <= x < a ==> bf.names()[x] != deps@[k as int]@,
                    decreases n - a + (if found { 0int } else { 1int }),
                {
                    if str_eq(bf.beams[a].name.as_str(), deps[k].as_str()) {
                        found = true;
                    } else {
                        a = a + 1;
                    }
                }
                if !found {
                    proof {
                        assert(!bf.has_beam(deps@[k as int]@));
                        assert(!dependencies_declared(*bf));
                    }
                    return Err(AuroraError::BeamNotFound(copy_str(deps[k].as_str())));
                }
                proof {
                    lemma_entries_prefix(bf.beams@, b as int);
                    lemma_entries_monotone(bf.beams@, b + 1);
                }
                let ghost e1 = graph_edges(graph);
                graph_add_edge(&mut graph, a, b);
                proof {
                    let e2 = graph_edges(graph);
                    let t0 = deps@.take(k as int).map_values(|s: String| s@);
                    let t1 = deps@.take(k + 1).map_values(|s: String| s@);
                    assert(t1 =~= t0.push(deps@[k as int]@));
                    assert forall|x: int, y: int| #[trigger] edge_in(e2, x, y) <==> (
                        (depends(*bf, x, y) && y < b) || (y == b && 0 <= x < n && t1.contains(bf.names()[x]))) by {
                        assert(e2.contains((x, y)) <==> (e1.contains((x, y)) || (x, y) == (a as int, b as int))) by {
                            if e2.contains((x, y)) {
                                let m = choose|m: int| 0 <= m < e2.len() && e2[m] == (x, y);
                                if m < e1.len() { assert(e1[m] == e2[m]); }
                            }
                            if e1.contains((x, y)) {
                                let m = choose|m: int| 0 <= m < e1.len() && e1[m] == (x, y);
                                assert(e2[m] == e1[m]);
                            }
                            if (x, y) == (a as int, b as int) {
                                assert(e2[e1.len() as int] == (x, y));
                            }
                        }
                        assert(edge_in(e1, x, y) <==> ((depends(*bf, x, y) && y < b) || (y == b && 0 <= x < n && t0.contains(bf.names()[x]))));
                        if 0 <= x < n && t0.contains(bf.names()[x]) {
                            let m = choose|m: int| 0 <= m < t0.len() && t0[m] == bf.names()[x];
                            assert(t1[m] == t0[m]);
                        }
                        if y == b && 0 <= x < n && t1.contains(bf.names()[x]) && !t0.contains(bf.names()[x]) {
                            let m = choose|m: int| 0 <= m < t1.len() && t1[m] == bf.names()[x];
                            if m < k {
                                assert(t0[m] == t1[m]);
                            }
                            assert(bf.names()[x] == deps@[k as int]@);
                            assert(bf.names()[a as int] == deps@[k as int]@);
                            assert(x == a);
                        }
                        if x == a && y == b {
                            assert(t1[k as int] == bf.names()[x]);
                        }
                    }
                    assert forall|m: int| 0 <= m < e2.len() implies 0 <= (#[trigger] e2[m]).0 < n && 0 <= e2[m].1 < n by {
                        if m < e1.len() { assert(e1[m] == e2[m]); }
                    }
                }
                k = k + 1;
            }
            proof {
                assert(deps@.take(k as int) =~= deps@);
                assert forall|x: int, y: int| #[trigger] edge_in(graph_edges(graph), x, y) <==> (
                    depends(*bf, x, y) && y < b + 1) by {}
                assert(dependency_entries(bf.beams@.take(b + 1)) == dependency_entries(bf.beams@.take(b as int)) + deps@.len()) by {
                    lemma_entries_prefix(bf.beams@, b as int);
                }
            }
            b = b + 1;
        }
        if graph_is_cyclic(&graph) {
            proof {
                if beamfile_acyclic(*bf) {
                    let ord = choose|ord: Seq<int>| is_permutation(ord, bf.beams@.len() as int) && forall|i: int, j: int|
                        0 <= i < ord.len() && 0 <= j < ord.len() && #[trigger] depends(*bf, ord[i], ord[j]) ==> i < j;
                    assert(is_topo_order(ord, n as int, graph_edges(graph)));
                }
            }
            return Err(AuroraError::CycleDetected(copy_str("dependency cycle detected in beam definitions")));
        }
        proof {
            let ord = choose|ord: Seq<int>| is_topo_order(ord, n as int, graph_edges(graph));
            assert forall|i: int, j: int|
                0 <= i < ord.len() && 0 <= j < ord.len() && #[trigger] depends(*bf, ord[i], ord[j]) implies i < j by {
                assert(edge_in(graph_edges(graph), ord[i], ord[j]));
            }
        }

        Ok(DependencyGraph { names, graph })
    }

    /// A description of the cycle, where the graph has one.
    pub fn detect_cycle(&self) -> (r: Option<String>)
        ensures
            r is Some <==> !acyclic(self.names().len() as int, self.edges()),
    {
        if graph_is_cyclic(&self.graph) {
            Some(copy_str("dependency cycle detected in beam definitions"))
        } else {
            None
        }
    }

    /// The names of all beams, by node index.
    pub fn beam_names(&self) -> (r: Vec<String>)
        requires
            self.wf(),
        ensures
            r@.map_values(|s: String| s@) == self.names(),
    {
        let mut r: Vec<String> = Vec::new();
        let mut i: usize = 0;
        while i < self.names.len()
            invariant
                self.wf(),
                i <= self.names@.len(),
                r@.len() == i,
                forall|j: int| 0 <= j < i ==> (#[trigger] r@[j])@ == self.names@[j]@,
            decreases self.names@.len() - i,
        {
            r.push(copy_str(self.names[i].as_str()));
            i = i + 1;
        }
        proof {
            assert(r@.map_values(|s: String| s@) =~= self.names@.map_values(|s: String| s@));
        }
        r
    }

    /// The node index of the beam named `name`.
    fn index_of(&self, name: &str) -> (r: Option<usize>)
        requires
            self.wf(),
        ensures
            match r {
                Some(i) => i < self.names().len() && self.names()[i as int] == name@,
                None => !self.names().contains(name@),
            },
    {
        let mut i: usize = 0;
        while i < self.names.len()
            invariant
                self.wf(),
                i <= self.names@.len(),
                forall|j: int| 0 <= j < i ==> self.names()[j] != name@,
            decreases self.names@.len() - i,
        {
            if str_eq(self.names[i].as_str(), name) {
                assert(self.names@.map_values(|s: String| s@)[i as int] == self.names@[i as int]@);
                return Some(i);
            }
            assert(self.names@.map_values(|s: String| s@)[i as int] == self.names@[i as int]@);
            i = i + 1;
        }
        None
    }

    /// Marks the nodes from which a path leads to `t`.
    fn collect_ancestors(&self, t: usize) -> (req: Vec<bool>)
        requires
            self.wf(),
            t < self.names().len(),
        ensures
            req@.len() == self.names().len(),
            forall|x: int| 0 <= x < req@.len() ==> (#[trigger] req@[x] <==> reaches(self.edges(), x, t as int)),
    {
        let n = self.names.len();
        proof {
            assert(self.names@.map_values(|s: String| s@).len() == self.names@.len());
            vstd::set_lib::lemma_int_range(0, n as int);
        }
        let ghost es = self.edges();
        let ghost range = vstd::set_lib::set_int_range(0, n as int);
        let mut visited: Vec<bool> = Vec::new();
        let mut i: usize = 0;
        while i < n
            invariant
                i <= n,
                visited@.len() == i,
                forall|x: int| 0 <= x < i ==> !(#[trigger] visited@[x]),
            decreases n - i,
        {
            visited.push(false);
            i = i + 1;
        }
        visited.set(t, true);
        let mut queue: Vec<usize> = Vec::new();
        queue.push(t);
        let ghost mut seen: Set<int> = set![t as int];
        proof {
            assert(is_path(seq![t as int], es));
            assert(seen.len() == 1);
            assert(queue@[0] == t);
        }
        let mut head: usize = 0;
        while head < queue.len()
            invariant
                self.wf(),
                es == self.edges(),
                n == self.names().len(),
                range == vstd::set_lib::set_int_range(0, n as int),
                range.finite(),
                range.len() == n,
                t < n,
                visited@.len() == n,
                visited@[t as int],
                head <= queue@.len(),
                seen.finite(),
                seen.subset_of(range),
                queue@.len() == seen.len(),
                forall|y: int| 0 <= y < n ==> (#[trigger] visited@[y] <==> seen.contains(y)),
                forall|y: int| 0 <= y < n && #[trigger] visited@[y] ==> reaches(es, y, t as int),
                forall|y: int| 0 <= y < n && #[trigger] visited@[y] ==> exists|j: int| 0 <= j < queue@.len() && queue@[j] as int == y,
                forall|j: int| 0 <= j < queue@.len() ==> (#[trigger] queue@[j]) < n && visited@[queue@[j] as int],
                forall|j: int, a: int| 0 <= j < head && #[trigger] edge_in(es, a, queue@[j] as int) ==> 0 <= a < n && visited@[a],
            decreases n - head,
        {
            proof {
                vstd::set_lib::lemma_len_subset(seen, range);
            }
            let x = queue[head];
            let ins = graph_incoming(&self.graph, x);
            let mut k: usize = 0;
            while k < ins.len()
                invariant
                    self.wf(),
                    es == self.edges(),
                    n == self.names().len(),
                    range == vstd::set_lib::set_int_range(0, n as int),
                    range.finite(),
                    range.len() == n,
                    t < n,
                    x < n,
                    head < queue@.len(),
                    x == queue@[head as int],
                    visited@.len() == n,
                    visited@[t as int],
                    k <= ins@.len(),
                    forall|m: int| 0 <= m < ins@.len() ==> edge_in(es, #[trigger] ins@[m] as int, x as int),
                    forall|a: int| edge_in(es, a, x as int) ==> exists|m: int|
                        0 <= m < ins@.len() && #[trigger] ins@[m] as int == a,
                    forall|m: int| 0 <= m < k ==> #[trigger] ins@[m] < n && visited@[ins@[m] as int],
                    seen.finite(),
                    seen.subset_of(range),
                    queue@.len() == seen.len(),
                    forall|y: int| 0 <= y < n ==> (#[trigger] visited@[y] <==> seen.contains(y)),
                    forall|y: int| 0 <= y < n && #[trigger] visited@[y] ==> reaches(es, y, t as int),
                    forall|y: int| 0 <= y < n && #[trigger] visited@[y] ==> exists|j: int| 0 <= j < queue@.len() && queue@[j] as int == y,
                    forall|j: int| 0 <= j < queue@.len() ==> (#[trigger] queue@[j]) < n && visited@[queue@[j] as int],
                    forall|j: int, a: int| 0 <= j < head && #[trigger] edge_in(es, a, queue@[j] as int) ==> 0 <= a < n && visited@[a],
                decreases ins@.len() - k,
            {
                let d = ins[k];
                proof {
                    assert(edge_in(es, d as int, x as int));
                    let m = choose|m: int| 0 <= m < es.len() && es[m] == (d as int, x as int);
                    assert(0 <= es[m].0 < n);
                }
                if !visited[d] {
                    proof {
                        let p = choose|p: Seq<int>| #[trigger] is_path(p, es) && p[0] == x as int && p.last() == t as int;
                        lemma_path_prepend(es, d as int, p);
                        vstd::set_lib::lemma_len_subset(seen, range);
                        assert(!seen.contains(d as int));
                    }
                    visited.set(d, true);
                    let ghost q0 = queue@;
                    queue.push(d);
                    proof {
                        seen = seen.insert(d as int);
                        assert(queue@[q0.len() as int] == d);
                        assert forall|y: int| 0 <= y < n && #[trigger] visited@[y] implies exists|j: int| 0 <= j < queue@.len() && queue@[j] as int == y by {
                            if y != d as int {
                                let j = choose|j: int| 0 <= j < q0.len() && q0[j] as int == y;
                                assert(queue@[j] == q0[j]);
                            }
                        }
                        assert forall|j: int, a: int| 0 <= j < head && #[trigger] edge_in(es, a, queue@[j] as int) implies 0 <= a < n && visited@[a] by {
                            assert(queue@[j] == q0[j]);
                        }
                    }
                }
                k = k + 1;
            }
            proof {
                assert forall|j: int, a: int| 0 <= j < head + 1 && #[trigger] edge_in(es, a, queue@[j] as int) implies 0 <= a < n && visited@[a] by {
                    if j == head as int {
                        let m = choose|m: int| 0 <= m < ins@.len() && #[trigger] ins@[m] as int == a;
                    }
                }
            }
            head = head + 1;
        }
        proof {
            assert forall|a: int, b: int| #[trigger] edge_in(es, a, b) && 0 <= b < n && visited@[b] implies visited@[a] by {
                let j = choose|j: int| 0 <= j < queue@.len() && queue@[j] as int == b;
                assert(edge_in(es, a, queue@[j] as int));
            }
            assert forall|x: int| 0 <= x < n && reaches(es, x, t as int) implies #[trigger] visited@[x] by {
                let p = choose|p: Seq<int>| #[trigger] is_path(p, es) && p[0] == x && p.last() == t as int;
                lemma_path_closed(es, p, visited@, n as int);
            }
        }
        visited
    }

    /// The nodes from which `t` is reached, in a topological order.
    fn required_order(&self, t: usize) -> (r: Vec<usize>)
        requires
            self.wf(),
            t < self.names().len(),
        ensures
            forall|i: int| 0 <= i < r@.len() ==> (#[trigger] r@[i]) < self.names().len(),
            forall|i: int, j: int| 0 <= i < j < r@.len() ==> r@[i] != r@[j],
            forall|x: int| 0 <= x < self.names().len() ==> (reaches(self.edges(), x, t as int) <==> exists|i: int|
                0 <= i < r@.len() && #[trigger] r@[i] as int == x),
            respects(r@.map_values(|i: usize| i as int), self.edges()),
    {
        let ghost es = self.edges();
        let ghost n = self.names().len();
        let req = self.collect_ancestors(t);
        let ord = match graph_toposort(&self.graph) {
            Some(o) => o,
            None => {
                proof {
                    assert(false);
                }
                Vec::new()
            },
        };
        let ghost o = ord@.map_values(|i: usize| i as int);
        let mut r: Vec<usize> = Vec::new();
        let ghost mut pos: Seq<int> = Seq::empty();
        let mut k: usize = 0;
        while k < ord.len()
            invariant
                self.wf(),
                es == self.edges(),
                n == self.names().len(),
                req@.len() == n,
                forall|x: int| 0 <= x < n ==> (#[trigger] req@[x] <==> reaches(es, x, t as int)),
                o == ord@.map_values(|i: usize| i as int),
                is_topo_order(o, n as int, es),
                k <= ord@.len(),
                pos.len() == r@.len(),
                forall|i: int| 0 <= i < r@.len() ==> 0 <= #[trigger] pos[i] < k && o[pos[i]] == r@[i] as int,
                forall|i: int, j: int| 0 <= i < j < r@.len() ==> pos[i] < pos[j],
                forall|i: int| 0 <= i < r@.len() ==> (#[trigger] r@[i]) < n && req@[r@[i] as int],
                forall|p: int| 0 <= p < k && req@[#[trigger] o[p]] ==> exists|i: int| 0 <= i < r@.len() && r@[i] as int == o[p],
            decreases ord@.len() - k,
        {
            let x = ord[k];
            proof {
                assert(o[k as int] == x as int);
            }
            if req[x] {
                let ghost r0 = r@;
                r.push(x);
                proof {
                    pos = pos.push(k as int);
                    assert(r@[r0.len() as int] == x);
                    assert forall|p: int| 0 <= p < k + 1 && req@[#[trigger] o[p]] implies exists|i: int| 0 <= i < r@.len() && r@[i] as int == o[p] by {
                        if p < k {
                            let i = choose|i: int| 0 <= i < r0.len() && r0[i] as int == o[p];
                            assert(r@[i] == r0[i]);
                        }
                    }
                }
            }
            k = k + 1;
        }
        proof {
            let rr = r@.map_values(|i: usize| i as int);
            assert forall|i: int, j: int| 0 <= i < j < r@.len() implies r@[i] != r@[j] by {
                assert(o[pos[i]] != o[pos[j]]);
            }
            assert forall|x: int| 0 <= x < n implies (reaches(es, x, t as int) <==> exists|i: int|
                0 <= i < r@.len() && #[trigger] r@[i] as int == x) by {
                if reaches(es, x, t as int) {
                    lemma_perm_contains(o, n as int, x);
                    let p = choose|p: int| 0 <= p < o.len() && o[p] == x;
                    assert(req@[o[p]]);
                }
            }
            assert forall|i: int, j: int|
                0 <= i < rr.len() && 0 <= j < rr.len() && #[trigger] edge_in(es, rr[i], rr[j]) implies i < j by {
                assert(edge_in(es, o[pos[i]], o[pos[j]]));
                if j <= i {
                    if j < i {
                        assert(pos[j] < pos[i]);
                    }
                }
            }
        }
        r
    }

    /// The beams that `target` needs, itself included, each before the
    /// beams that depend on it. Fails with `BeamNotFound` where `target`
    /// is not a beam.
    pub fn topological_order(&self, target: &str) -> (r: Result<Vec<String>, AuroraError>)
        requires
            self.wf(),
        ensures
            match r {
                Ok(v) => self.names().contains(target@) && (forall|i: int, j: int|
                    0 <= i < j < v@.len() ==> v@[i]@ != v@[j]@) && self.lists_required(
                    v@.map_values(|s: String| s@),
                    target@,
                ) && (forall|i: int, j: int|
                    0 <= i < v@.len() && 0 <= j < v@.len() && #[trigger] self.name_edge(v@[i]@, v@[j]@)
                        ==> i < j),
                Err(e) => !self.names().contains(target@) && e is BeamNotFound,
            },
    {
        let t = match self.index_of(target) {
            Some(t) => t,
            None => {
                return Err(AuroraError::BeamNotFound(copy_str(target)));
            },
        };
        let order = self.required_order(t);
        let v = self.names_of(&order);
        proof {
            let nm = self.names();
            assert(nm[t as int] == target@);
            assert(nm.contains(target@));
            assert forall|i: int, j: int| 0 <= i < j < v@.len() implies v@[i]@ != v@[j]@ by {
                assert(order@[i] != order@[j]);
            }
            let vv = v@.map_values(|s: String| s@);
            assert forall|x: Seq<char>| self.required(x, target@) <==> vv.contains(x) by {
                if self.required(x, target@) {
                    let (a, b) = choose|a: int, b: int|
                        0 <= a < nm.len() && 0 <= b < nm.len() && nm[a] == x && nm[b] == target@
                        && #[trigger] reaches(self.edges(), a, b);
                    assert(b == t as int);
                    let i = choose|i: int| 0 <= i < order@.len() && #[trigger] order@[i] as int == a;
                    assert(vv[i] == x);
                }
                if vv.contains(x) {
                    let i = choose|i: int| 0 <= i < vv.len() && vv[i] == x;
                    assert(v@[i]@ == x);
                    let a = order@[i] as int;
                    assert(exists|m: int| 0 <= m < order@.len() && #[trigger] order@[m] as int == a);
                    assert(reaches(self.edges(), a, t as int));
                }
            }
            assert forall|i: int, j: int|
                0 <= i < v@.len() && 0 <= j < v@.len() && #[trigger] self.name_edge(v@[i]@, v@[j]@) implies i < j by {
                let (a, b) = choose|a: int, b: int|
                    0 <= a < nm.len() && 0 <= b < nm.len() && nm[a] == v@[i]@ && nm[b] == v@[j]@
                    && #[trigger] edge_in(self.edges(), a, b);
                assert(a == order@[i] as int);
                assert(b == order@[j] as int);
                let oo = order@.map_values(|k: usize| k as int);
                assert(edge_in(self.edges(), oo[i], oo[j]));
            }
        }
        Ok(v)
    }

    /// Whether `v` holds exactly the beams that `target` requires.
    pub open spec fn lists_required(&self, v: Seq<Seq<char>>, target: Seq<char>) -> bool {
        forall|x: Seq<char>| self.required(x, target) <==> v.contains(x)
    }

    /// The names of the given nodes.
    fn names_of(&self, nodes: &Vec<usize>) -> (r: Vec<String>)
        requires
            self.wf(),
            forall|i: int| 0 <= i < nodes@.len() ==> (#[trigger] nodes@[i]) < self.names().len(),
        ensures
            r@.len() == nodes@.len(),
            forall|i: int| 0 <= i < nodes@.len() ==> (#[trigger] r@[i])@ == self.names()[nodes@[i] as int],
    {
        let mut r: Vec<String> = Vec::new();
        let mut i: usize = 0;
        while i < nodes.len()
            invariant
                self.wf(),
                forall|i: int| 0 <= i < nodes@.len() ==> (#[trigger] nodes@[i]) < self.names().len(),
                i <= nodes@.len(),
                r@.len() == i,
                forall|j: int| 0 <= j < i ==> (#[trigger] r@[j])@ == self.names()[nodes@[j] as int],
            decreases nodes@.len() - i,
        {
            let k = nodes[i];
            proof {
                assert(self.names@.map_values(|s: String| s@)[k as int] == self.names@[k as int]@);
            }
            r.push(copy_str(self.names[k].as_str()));
            i = i + 1;
        }
        r
    }

    /// The level of each node that `t` requires: 0 where none of its
    /// dependencies is required, else one more than the highest level among
    /// them. Returns the nodes in order and their levels by node index.
    /// One more than the highest level among the nodes with an edge into
    /// `x`, or 0 where there is none.
    fn level_from_deps(&self, x: usize, lv: &Vec<usize>, bound: usize) -> (level: usize)
        requires
            self.wf(),
            x < self.names().len(),
            lv@.len() == self.names().len(),
            forall|a: int| #[trigger] edge_in(self.edges(), a, x as int) ==> 0 <= a < self.names().len() && lv@[a] < bound,
        ensures
            level <= bound,
            forall|a: int| #[trigger] edge_in(self.edges(), a, x as int) ==> lv@[a] < level,
            level == 0 ==> forall|a: int| !#[trigger] edge_in(self.edges(), a, x as int),
            level > 0 ==> exists|a: int|
                0 <= a < self.names().len() && edge_in(self.edges(), a, x as int) && #[trigger] lv@[a] + 1 == level,
    {
        let ghost es = self.edges();
        let ins = graph_incoming(&self.graph, x);
        let mut level: usize = 0;
        let mut k: usize = 0;
        while k < ins.len()
            invariant
                self.wf(),
                es == self.edges(),
                lv@.len() == self.names().len(),
                x < self.names().len(),
                k <= ins@.len(),
                level <= bound,
                forall|a: int| #[trigger] edge_in(es, a, x as int) ==> 0 <= a < self.names().len() && lv@[a] < bound,
                forall|j: int| 0 <= j < ins@.len() ==> edge_in(es, #[trigger] ins@[j] as int, x as int),
                forall|j: int| 0 <= j < k ==> lv@[#[trigger] ins@[j] as int] < level,
                k == 0 ==> level == 0,
                level > 0 ==> exists|j: int| 0 <= j < k && lv@[#[trigger] ins@[j] as int] + 1 == level,
            decreases ins@.len() - k,
        {
            let d = ins[k];
            proof {
                assert(edge_in(es, d as int, x as int));
            }
            let ghost old_level = level;
            if lv[d] + 1 > level {
                level = lv[d] + 1;
            }
            proof {
                if level > 0 {
                    if level == old_level {
                        let j = choose|j: int| 0 <= j < k && lv@[#[trigger] ins@[j] as int] + 1 == old_level;
                        assert(lv@[ins@[j] as int] + 1 == level);
                    } else {
                        assert(lv@[ins@[k as int] as int] + 1 == level);
                    }
                }
            }
            k = k + 1;
        }
        proof {
            assert forall|a: int| #[trigger] edge_in(es, a, x as int) implies lv@[a] < level by {
                let e = choose|e: int| 0 <= e < ins@.len() && #[trigger] ins@[e] as int == a;
            }
            if level > 0 {
                let j = choose|j: int| 0 <= j < ins@.len() && lv@[#[trigger] ins@[j] as int] + 1 == level;
                assert(edge_in(es, ins@[j] as int, x as int));
                let mm = choose|mm: int| 0 <= mm < es.len() && es[mm] == (ins@[j] as int, x as int);
                assert(0 <= es[mm].0 < self.names().len());
            }
        }
        level
    }

    #[verifier::rlimit(60)]
    fn node_levels(&self, t: usize) -> (r: (Vec<usize>, Vec<usize>))
        requires
            self.wf(),
            t < self.names().len(),
        ensures
            r.1@.len() == self.names().len(),
            (forall|i: int| 0 <= i < r.0@.len() ==> (#[trigger] r.0@[i]) < self.names().len()),
            (forall|i: int, j: int| 0 <= i < j < r.0@.len() ==> r.0@[i] != r.0@[j]),
            lists_ancestors(r.0@, self.edges(), self.names().len() as int, t as int),
            (forall|i: int| 0 <= i < r.0@.len() ==> r.1@[#[trigger] r.0@[i] as int] < r.0@.len()),
            (forall|i: int, a: int| 0 <= i < r.0@.len() && #[trigger] edge_in(self.edges(), a, r.0@[i] as int)
                    ==> 0 <= a < self.names().len() && r.1@[a] < r.1@[r.0@[i] as int]),
            (forall|i: int| 0 <= i < r.0@.len() ==> level_rule_at(self.edges(), self.names().len() as int, r.1@, #[trigger] r.0@[i] as int)),
            (forall|i: int, a: int| 0 <= i < r.0@.len() && #[trigger] edge_in(self.edges(), a, r.0@[i] as int)
                ==> exists|j: int| 0 <= j < i && #[trigger] r.0@[j] as int == a),
    {
        let ghost es = self.edges();
        let n = self.names.len();
        proof {
            assert(self.names@.map_values(|s: String| s@).len() == self.names@.len());
        }
        let order = self.required_order(t);
        let ghost o = order@.map_values(|i: usize| i as int);
        let mut lv: Vec<usize> = Vec::new();
        let mut i: usize = 0;
        while i < n
            invariant
                i <= n,
                lv@.len() == i,
            decreases n - i,
        {
            lv.push(0);
            i = i + 1;
        }
        proof {
            assert forall|i: int, a: int| 0 <= i < order@.len() && #[trigger] edge_in(es, a, order@[i] as int)
                implies exists|j: int| 0 <= j < i && #[trigger] order@[j] as int == a by {
                let x = order@[i] as int;
                assert(reaches(es, x, t as int));
                let p = choose|p: Seq<int>| #[trigger] is_path(p, es) && p[0] == x && p.last() == t as int;
                lemma_path_prepend(es, a, p);
                let mm = choose|mm: int| 0 <= mm < es.len() && es[mm] == (a, x);
                assert(0 <= es[mm].0 < n);
                assert(reaches(es, a, t as int));
                let j = choose|j: int| 0 <= j < order@.len() && #[trigger] order@[j] as int == a;
                assert(edge_in(es, o[j], o[i]));
            }
        }
        let mut m: usize = 0;
        while m < order.len()
            invariant
                self.wf(),
                es == self.edges(),
                n == self.names().len(),
                t < n,
                lv@.len() == n,
                m <= order@.len(),
                o == order@.map_values(|i: usize| i as int),
                forall|i: int| 0 <= i < order@.len() ==> (#[trigger] order@[i]) < n,
                forall|i: int, j: int| 0 <= i < j < order@.len() ==> order@[i] != order@[j],
                forall|x: int| 0 <= x < n ==> (reaches(es, x, t as int) <==> exists|i: int|
                    0 <= i < order@.len() && #[trigger] order@[i] as int == x),
                respects(o, es),
                forall|i: int| 0 <= i < m ==> lv@[#[trigger] order@[i] as int] <= i,
                forall|i: int, a: int| 0 <= i < m && #[trigger] edge_in(es, a, order@[i] as int)
                    ==> 0 <= a < n && lv@[a] < lv@[order@[i] as int],
                forall|i: int| 0 <= i < m ==> level_rule_at(es, n as int, lv@, #[trigger] order@[i] as int),
                forall|i: int, a: int| 0 <= i < order@.len() && #[trigger] edge_in(es, a, order@[i] as int)
                    ==> exists|j: int| 0 <= j < i && #[trigger] order@[j] as int == a,
            decreases order@.len() - m,
        {
            let x = order[m];
            proof {
                assert forall|a: int| #[trigger] edge_in(es, a, x as int) implies 0 <= a < n && lv@[a] < m by {
                    let j = choose|j: int| 0 <= j < m && #[trigger] order@[j] as int == a;
                    assert(lv@[order@[j] as int] <= j);
                }
            }
            let level = self.level_from_deps(x, &lv, m);
            let ghost lv0 = lv@;
            lv.set(x, level);
            proof {
                assert forall|i: int| 0 <= i < m + 1 implies level_rule_at(es, n as int, lv@, #[trigger] order@[i] as int) by {
                    if i < m {
                        assert(order@[i] != order@[m as int]);
                        assert(level_rule_at(es, n as int, lv0, order@[i] as int));
                        if lv0[order@[i] as int] > 0 {
                            let a = choose|a: int| 0 <= a < n && edge_in(es, a, order@[i] as int) && #[trigger] lv0[a] + 1 == lv0[order@[i] as int];
                            let j = choose|j: int| 0 <= j < i && #[trigger] order@[j] as int == a;
                            assert(order@[j] != order@[m as int]);
                            assert(lv@[a] + 1 == lv@[order@[i] as int]);
                        }
                    } else {
                        if level > 0 {
                            let a = choose|a: int| 0 <= a < n && edge_in(es, a, x as int) && #[trigger] lv0[a] + 1 == level;
                            let jj = choose|jj: int| 0 <= jj < m && #[trigger] order@[jj] as int == a;
                            assert(order@[jj] != order@[m as int]);
                            assert(lv@[a] + 1 == lv@[x as int]);
                        }
                    }
                }
                assert forall|i: int| 0 <= i < m + 1 implies lv@[#[trigger] order@[i] as int] <= i by {
                    if i < m {
                        assert(order@[i] != order@[m as int]);
                    }
                }
                assert forall|i: int, a: int| 0 <= i < m + 1 && #[trigger] edge_in(es, a, order@[i] as int)
                    implies 0 <= a < n && lv@[a] < lv@[order@[i] as int] by {
                    let j = choose|j: int| 0 <= j < i && #[trigger] order@[j] as int == a;
                    assert(order@[j] != order@[m as int]);
                    if i < m {
                        assert(order@[i] != order@[m as int]);
                    }
                }
            }
            m = m + 1;
        }
        assert forall|i: int| 0 <= i < order@.len() implies lv@[#[trigger] order@[i] as int] < order@.len() by {
            assert(lv@[order@[i] as int] <= i);
        }
        assert(lists_ancestors(order@, es, n as int, t as int));
        (order, lv)
    }

    /// The nodes that `t` requires, grouped by level.
    #[verifier::rlimit(60)]
    fn level_rows(&self, t: usize) -> (rows: Vec<Vec<usize>>)
        requires
            self.wf(),
            t < self.names().len(),
        ensures
            forall|l: int, i: int| 0 <= l < rows@.len() && 0 <= i < rows@[l]@.len() ==> (#[trigger] rows@[l]@[i])
                < self.names().len() && reaches(self.edges(), rows@[l]@[i] as int, t as int),
            forall|x: int| 0 <= x < self.names().len() && reaches(self.edges(), x, t as int) ==> in_rows(rows@, x),
            forall|l1: int, i1: int, l2: int, i2: int|
                0 <= l1 < rows@.len() && 0 <= i1 < rows@[l1]@.len() && 0 <= l2 < rows@.len() && 0 <= i2
                    < rows@[l2]@.len() && #[trigger] rows@[l1]@[i1] == #[trigger] rows@[l2]@[i2] ==> l1 == l2
                    && i1 == i2,
            forall|l1: int, i1: int, l2: int, i2: int|
                0 <= l1 < rows@.len() && 0 <= i1 < rows@[l1]@.len() && 0 <= l2 < rows@.len() && 0 <= i2
                    < rows@[l2]@.len() && #[trigger] edge_in(self.edges(), rows@[l1]@[i1] as int, rows@[l2]@[i2] as int)
                    ==> l1 < l2,
            forall|l: int| 0 <= l < rows@.len() ==> (#[trigger] rows@[l])@.len() > 0,
            forall|l: int, i: int| 0 <= l < rows@.len() && 0 <= i < rows@[l]@.len() ==> row_rule(self.edges(), rows@, l, #[trigger] rows@[l]@[i] as int),
    {
        let ghost es = self.edges();
        let ghost n = self.names().len() as int;
        let (order, lv) = self.node_levels(t);
        let mut top: usize = 0;
        let mut m: usize = 0;
        while m < order.len()
            invariant
                m <= order@.len(),
                lv@.len() == n,
                forall|i: int| 0 <= i < order@.len() ==> (#[trigger] order@[i]) < n,
                forall|i: int| 0 <= i < order@.len() ==> lv@[#[trigger] order@[i] as int] < order@.len(),
                forall|i: int| 0 <= i < m ==> lv@[#[trigger] order@[i] as int] < top,
                top <= order@.len(),
                m == 0 ==> top == 0,
                top > 0 ==> exists|i: int| 0 <= i < m && lv@[#[trigger] order@[i] as int] + 1 == top,
            decreases order@.len() - m,
        {
            let ghost old_top = top;
            if lv[order[m]] + 1 > top {
                top = lv[order[m]] + 1;
            }
            proof {
                if top > 0 {
                    if top == old_top {
                        let i = choose|i: int| 0 <= i < m && lv@[#[trigger] order@[i] as int] + 1 == old_top;
                        assert(lv@[order@[i] as int] + 1 == top);
                    } else {
                        assert(lv@[order@[m as int] as int] + 1 == top);
                    }
                }
            }
            m = m + 1;
        }
        let mut rows: Vec<Vec<usize>> = Vec::new();
        let mut l: usize = 0;
        while l < top
            invariant
                l <= top,
                rows@.len() == l,
                lv@.len() == n,
                forall|i: int| 0 <= i < order@.len() ==> (#[trigger] order@[i]) < n,
                forall|i: int, j: int| 0 <= i < j < order@.len() ==> order@[i] != order@[j],
                forall|i: int| 0 <= i < order@.len() ==> lv@[#[trigger] order@[i] as int] < top,
                forall|k: int, i: int| 0 <= k < l && 0 <= i < rows@[k]@.len() ==> lv@[#[trigger] rows@[k]@[i] as int] == k
                    && exists|j: int| 0 <= j < order@.len() && #[trigger] order@[j] == rows@[k]@[i],
                forall|k: int, i1: int, i2: int| 0 <= k < l && 0 <= i1 < i2 < rows@[k]@.len() ==> #[trigger] rows@[k]@[i1] != #[trigger] rows@[k]@[i2],
                forall|j: int| 0 <= j < order@.len() && lv@[#[trigger] order@[j] as int] < l ==> in_rows(rows@, order@[j] as int),
            decreases top - l,
        {
            let mut row: Vec<usize> = Vec::new();
            let mut j: usize = 0;
            while j < order.len()
                invariant
                    j <= order@.len(),
                    lv@.len() == n,
                    forall|i: int| 0 <= i < order@.len() ==> (#[trigger] order@[i]) < n,
                    forall|i: int, j: int| 0 <= i < j < order@.len() ==> order@[i] != order@[j],
                    forall|i: int| 0 <= i < row@.len() ==> lv@[#[trigger] row@[i] as int] == l
                        && exists|p: int| 0 <= p < j && #[trigger] order@[p] == row@[i],
                    forall|i1: int, i2: int| 0 <= i1 < i2 < row@.len() ==> #[trigger] row@[i1] != #[trigger] row@[i2],
                    forall|p: int| 0 <= p < j && lv@[#[trigger] order@[p] as int] == l ==> row@.contains(order@[p]),
                decreases order@.len() - j,
            {
                let x = order[j];
                if lv[x] == l {
                    let ghost r0 = row@;
                    row.push(x);
                    proof {
                        assert(row@[r0.len() as int] == x);
                        assert forall|i: int| 0 <= i < row@.len() implies lv@[#[trigger] row@[i] as int] == l
                            && exists|p: int| 0 <= p < j + 1 && #[trigger] order@[p] == row@[i] by {
                            if i < r0.len() {
                                assert(row@[i] == r0[i]);
                                let p = choose|p: int| 0 <= p < j && #[trigger] order@[p] == r0[i];
                            } else {
                                assert(order@[j as int] == row@[i]);
                            }
                        }
                        assert forall|i1: int, i2: int| 0 <= i1 < i2 < row@.len() implies #[trigger] row@[i1] != #[trigger] row@[i2] by {
                            if i2 == r0.len() {
                                assert(row@[i1] == r0[i1]);
                                let p = choose|p: int| 0 <= p < j && #[trigger] order@[p] == r0[i1];
                            } else {
                                assert(row@[i1] == r0[i1] && row@[i2] == r0[i2]);
                            }
                        }
                        assert forall|p: int| 0 <= p < j + 1 && lv@[#[trigger] order@[p] as int] == l implies row@.contains(order@[p]) by {
                            if p < j {
                                let i = choose|i: int| 0 <= i < r0.len() && r0[i] == order@[p];
                                assert(row@[i] == r0[i]);
                            }
                        }
                    }
                }
                j = j + 1;
            }
            let ghost rows0 = rows@;
            rows.push(row);
            proof {
                assert(rows@[l as int] == row);
                assert forall|k: int, i: int| 0 <= k < l + 1 && 0 <= i < rows@[k]@.len() implies lv@[#[trigger] rows@[k]@[i] as int] == k
                    && exists|j: int| 0 <= j < order@.len() && #[trigger] order@[j] == rows@[k]@[i] by {
                    if k < l {
                        assert(rows@[k] == rows0[k]);
                        assert(lv@[rows0[k]@[i] as int] == k);
                        let p = choose|p: int| 0 <= p < order@.len() && #[trigger] order@[p] == rows0[k]@[i];
                        assert(order@[p] == rows@[k]@[i]);
                    } else {
                        assert(rows@[k]@[i] == row@[i]);
                        assert(lv@[row@[i] as int] == l);
                        let p = choose|p: int| 0 <= p < order@.len() && #[trigger] order@[p] == row@[i];
                        assert(order@[p] == rows@[k]@[i]);
                    }
                }
                assert forall|k: int, i1: int, i2: int| 0 <= k < l + 1 && 0 <= i1 < i2 < rows@[k]@.len() implies #[trigger] rows@[k]@[i1] != #[trigger] rows@[k]@[i2] by {
                    if k < l {
                        assert(rows@[k] == rows0[k]);
                    }
                }
                assert forall|j: int| 0 <= j < order@.len() && lv@[#[trigger] order@[j] as int] < l + 1 implies in_rows(rows@, order@[j] as int) by {
                    if lv@[order@[j] as int] < l {
                        let (k, i) = choose|k: int, i: int| 0 <= k < rows0.len() && 0 <= i < rows0[k]@.len() && #[trigger] rows0[k]@[i] as int == order@[j] as int;
                        assert(rows@[k] == rows0[k]);
                    } else {
                        let i = choose|i: int| 0 <= i < row@.len() && row@[i] == order@[j];
                        assert(rows@[l as int]@[i] == order@[j]);
                    }
                }
            }
            l = l + 1;
        }
        proof {
            assert forall|l1: int, i1: int, l2: int, i2: int|
                0 <= l1 < rows@.len() && 0 <= i1 < rows@[l1]@.len() && 0 <= l2 < rows@.len() && 0 <= i2
                    < rows@[l2]@.len() && #[trigger] rows@[l1]@[i1] == #[trigger] rows@[l2]@[i2] implies l1 == l2
                    && i1 == i2 by {
                assert(lv@[rows@[l1]@[i1] as int] == l1);
                assert(lv@[rows@[l2]@[i2] as int] == l2);
                if i1 < i2 {
                    assert(rows@[l1]@[i1] != rows@[l1]@[i2]);
                } else if i2 < i1 {
                    assert(rows@[l1]@[i2] != rows@[l1]@[i1]);
                }
            }
            assert forall|l1: int, i1: int, l2: int, i2: int|
                0 <= l1 < rows@.len() && 0 <= i1 < rows@[l1]@.len() && 0 <= l2 < rows@.len() && 0 <= i2
                    < rows@[l2]@.len() && #[trigger] edge_in(es, rows@[l1]@[i1] as int, rows@[l2]@[i2] as int)
                    implies l1 < l2 by {
                assert(lv@[rows@[l1]@[i1] as int] == l1);
                assert(lv@[rows@[l2]@[i2] as int] == l2);
                let j = choose|j: int| 0 <= j < order@.len() && #[trigger] order@[j] == rows@[l2]@[i2];
                assert(edge_in(es, rows@[l1]@[i1] as int, order@[j] as int));
            }
            assert forall|l1: int, i: int| 0 <= l1 < rows@.len() && 0 <= i < rows@[l1]@.len() implies (#[trigger] rows@[l1]@[i])
                < n && reaches(es, rows@[l1]@[i] as int, t as int) by {
                let j = choose|j: int| 0 <= j < order@.len() && #[trigger] order@[j] == rows@[l1]@[i];
                assert(order@[j] < n);
                assert(exists|jj: int| 0 <= jj < order@.len() && #[trigger] order@[jj] as int == rows@[l1]@[i] as int);
            }
            assert forall|x: int| 0 <= x < n && reaches(es, x, t as int) implies in_rows(rows@, x) by {
                let j = choose|j: int| 0 <= j < order@.len() && #[trigger] order@[j] as int == x;
            }
        }
        proof {
            assert(is_path(seq![t as int], es));
            assert(reaches(es, t as int, t as int));
            let it = choose|i: int| 0 <= i < order@.len() && #[trigger] order@[i] as int == t as int;
            assert(lv@[order@[it] as int] < top);
            let i0 = choose|i: int| 0 <= i < order@.len() && lv@[#[trigger] order@[i] as int] + 1 == top;
            lemma_rows_rule(es, n, order@, lv@, rows@, top as int, i0);
        }
        rows
    }

    /// Whether the rows hold each beam that `target` requires exactly once,
    /// and nothing else.
    pub open spec fn partitions_required(&self, rows: Seq<Seq<Seq<char>>>, target: Seq<char>) -> bool {
        &&& (forall|l: int, i: int| 0 <= l < rows.len() && 0 <= i < rows[l].len() ==> self.required(
            #[trigger] rows[l][i],
            target,
        ))
        &&& (forall|x: Seq<char>| self.required(x, target) ==> exists|l: int, i: int|
            0 <= l < rows.len() && 0 <= i < rows[l].len() && #[trigger] rows[l][i] == x)
        &&& (forall|l1: int, i1: int, l2: int, i2: int|
            0 <= l1 < rows.len() && 0 <= i1 < rows[l1].len() && 0 <= l2 < rows.len() && 0 <= i2
                < rows[l2].len() && #[trigger] rows[l1][i1] == #[trigger] rows[l2][i2] ==> l1 == l2 && i1
                == i2)
    }

    /// Whether no row is empty and each beam stands where the level rule
    /// puts it: in row 0 where no beam has an edge into it, else in the row
    /// after one that holds a beam with an edge into it (with every edge
    /// going to a later row, the row after its highest dependency).
    pub open spec fn follows_level_rule(&self, rows: Seq<Seq<Seq<char>>>) -> bool {
        &&& (forall|l: int| 0 <= l < rows.len() ==> (#[trigger] rows[l]).len() > 0)
        &&& (forall|l: int, i: int|
            0 <= l < rows.len() && 0 <= i < rows[l].len() ==> #[trigger] self.placed_by_rule(rows, l, rows[l][i]))
    }

    /// Whether beam `x` in row `l` stands where the level rule puts it.
    pub open spec fn placed_by_rule(&self, rows: Seq<Seq<Seq<char>>>, l: int, x: Seq<char>) -> bool {
        (l == 0 && forall|y: Seq<char>| !#[trigger] self.name_edge(y, x)) || (l > 0 && exists|i2: int|
            0 <= i2 < rows[l - 1].len() && #[trigger] self.name_edge(rows[l - 1][i2], x))
    }

    /// Whether every edge between beams of the rows goes to a later row.
    pub open spec fn points_forward(&self, rows: Seq<Seq<Seq<char>>>) -> bool {
        forall|l1: int, i1: int, l2: int, i2: int|
            0 <= l1 < rows.len() && 0 <= i1 < rows[l1].len() && 0 <= l2 < rows.len() && 0 <= i2
                < rows[l2].len() && #[trigger] self.name_edge(rows[l1][i1], rows[l2][i2]) ==> l1 < l2
    }

    /// The beams that `target` needs, grouped in levels: a beam with no
    /// required dependency is at level 0, any other one level above the
    /// highest of its dependencies. Fails with `BeamNotFound` where
    /// `target` is not a beam.
    pub fn parallel_levels(&self, target: &str) -> (r: Result<Vec<Vec<String>>, AuroraError>)
        requires
            self.wf(),
        ensures
            match r {
                Ok(levels) => self.names().contains(target@) && self.partitions_required(
                    row_names(levels@),
                    target@,
                ) && self.points_forward(row_names(levels@)) && self.follows_level_rule(row_names(levels@)),
                Err(e) => !self.names().contains(target@) && e is BeamNotFound,
            },
    {
        let t = match self.index_of(target) {
            Some(t) => t,
            None => {
                return Err(AuroraError::BeamNotFound(copy_str(target)));
            },
        };
        let rows = self.level_rows(t);
        let mut levels: Vec<Vec<String>> = Vec::new();
        let mut l: usize = 0;
        while l < rows.len()
            invariant
                self.wf(),
                l <= rows@.len(),
                levels@.len() == l,
                forall|l: int, i: int| 0 <= l < rows@.len() && 0 <= i < rows@[l]@.len() ==> (#[trigger] rows@[l]@[i])
                    < self.names().len(),
                forall|k: int| 0 <= k < l ==> (#[trigger] levels@[k])@.len() == rows@[k]@.len(),
                forall|k: int, i: int| 0 <= k < l && 0 <= i < rows@[k]@.len() ==> (#[trigger] levels@[k]@[i])@
                    == self.names()[rows@[k]@[i] as int],
            decreases rows@.len() - l,
        {
            let ghost l0 = levels@;
            let row = self.names_of(&rows[l]);
            levels.push(row);
            proof {
                assert forall|k: int, i: int| 0 <= k < l + 1 && 0 <= i < rows@[k]@.len() implies (#[trigger] levels@[k]@[i])@
                    == self.names()[rows@[k]@[i] as int] by {
                    if k < l {
                        assert(levels@[k] == l0[k]);
                    }
                }
                assert forall|k: int| 0 <= k < l + 1 implies (#[trigger] levels@[k])@.len() == rows@[k]@.len() by {
                    if k < l {
                        assert(levels@[k] == l0[k]);
                    }
                }
            }
            l = l + 1;
        }
        proof {
            let nm = self.names();
            let rn = row_names(levels@);
            assert(nm[t as int] == target@);
            assert(nm.contains(target@));
            assert forall|k: int, i: int| 0 <= k < rn.len() && 0 <= i < rn[k].len() implies #[trigger] rn[k][i]
                == nm[rows@[k]@[i] as int] && 0 <= i < rows@[k]@.len() by {
                assert(rn[k] == levels@[k]@.map_values(|s: String| s@));
            }
            assert forall|l: int, i: int| 0 <= l < rn.len() && 0 <= i < rn[l].len() implies self.required(
                #[trigger] rn[l][i],
                target@,
            ) by {
                assert(reaches(self.edges(), rows@[l]@[i] as int, t as int));
            }
            assert forall|x: Seq<char>| self.required(x, target@) implies exists|l: int, i: int|
                0 <= l < rn.len() && 0 <= i < rn[l].len() && #[trigger] rn[l][i] == x by {
                let (a, b) = choose|a: int, b: int|
                    0 <= a < nm.len() && 0 <= b < nm.len() && nm[a] == x && nm[b] == target@
                    && #[trigger] reaches(self.edges(), a, b);
                assert(b == t as int);
                assert(in_rows(rows@, a));
                let (l, i) = choose|l: int, i: int| 0 <= l < rows@.len() && 0 <= i < rows@[l]@.len() && #[trigger] rows@[l]@[i] as int == a;
                assert(rn[l].len() == levels@[l]@.len());
                assert(rn[l][i] == x);
            }
            assert forall|l1: int, i1: int, l2: int, i2: int|
                0 <= l1 < rn.len() && 0 <= i1 < rn[l1].len() && 0 <= l2 < rn.len() && 0 <= i2
                    < rn[l2].len() && #[trigger] rn[l1][i1] == #[trigger] rn[l2][i2] implies l1 == l2 && i1
                    == i2 by {
                assert(rows@[l1]@[i1] == rows@[l2]@[i2]);
            }
            assert forall|l1: int, i1: int, l2: int, i2: int|
                0 <= l1 < rn.len() && 0 <= i1 < rn[l1].len() && 0 <= l2 < rn.len() && 0 <= i2
                    < rn[l2].len() && #[trigger] self.name_edge(rn[l1][i1], rn[l2][i2]) implies l1 < l2 by {
                let (a, b) = choose|a: int, b: int|
                    0 <= a < nm.len() && 0 <= b < nm.len() && nm[a] == rn[l1][i1] && nm[b] == rn[l2][i2]
                        && #[trigger] edge_in(self.edges(), a, b);
                assert(a == rows@[l1]@[i1] as int);
                assert(b == rows@[l2]@[i2] as int);
                assert(edge_in(self.edges(), rows@[l1]@[i1] as int, rows@[l2]@[i2] as int));
            }
        }
        proof {
            let nm = self.names();
            let rn = row_names(levels@);
            assert forall|l: int| 0 <= l < rn.len() implies (#[trigger] rn[l]).len() > 0 by {
                assert(rows@[l]@.len() > 0);
                assert(rn[l] == levels@[l]@.map_values(|s: String| s@));
            }
            assert forall|l: int, i: int| 0 <= l < rn.len() && 0 <= i < rn[l].len() implies #[trigger] self.placed_by_rule(rn, l, rn[l][i]) by {
                assert(rn[l] == levels@[l]@.map_values(|s: String| s@));
                assert(rn[l][i] == nm[rows@[l]@[i] as int]);
                let x = rows@[l]@[i] as int;
                assert(row_rule(self.edges(), rows@, l, rows@[l]@[i] as int));
                if l == 0 {
                    assert forall|y: Seq<char>| !#[trigger] self.name_edge(y, rn[l][i]) by {
                        if self.name_edge(y, rn[l][i]) {
                            let (a, b) = choose|a: int, b: int|
                                0 <= a < nm.len() && 0 <= b < nm.len() && nm[a] == y && nm[b] == rn[l][i]
                                    && #[trigger] edge_in(self.edges(), a, b);
                            assert(b == x);
                        }
                    }
                } else {
                    let i2 = choose|i2: int| 0 <= i2 < rows@[l - 1]@.len() && #[trigger] edge_in(self.edges(), rows@[l - 1]@[i2] as int, x);
                    assert(rn[l - 1] == levels@[l - 1]@.map_values(|s: String| s@));
                    assert(rn[l - 1][i2] == nm[rows@[l - 1]@[i2] as int]);
                    assert(self.name_edge(rn[l - 1][i2], rn[l][i]));
                }
            }
        }
        Ok(levels)
    }
}

/// The names in each row.
pub open spec fn row_names(levels: Seq<Vec<String>>) -> Seq<Seq<Seq<char>>> {
    levels.map_values(|row: Vec<String>| row@.map_values(|s: String| s@))
}

/// Whether node `x` has the level that the level rule gives it: 0 where no
/// edge goes into it, else one more than the level of some node with an edge
/// into it (and, by the edges going to higher levels, the highest such).
pub open spec fn level_rule_at(es: Seq<(int, int)>, n: int, lv: Seq<usize>, x: int) -> bool {
    (lv[x] == 0 && forall|a: int| !#[trigger] edge_in(es, a, x)) || (lv[x] > 0 && exists|a: int|
        0 <= a < n && edge_in(es, a, x) && #[trigger] lv[a] + 1 == lv[x])
}

/// Whether node `x` of row `l` is where the level rule puts it: in row 0
/// with no edge into it, or in a later row with an edge into it from the
/// row before.
pub open spec fn row_rule(es: Seq<(int, int)>, rows: Seq<Vec<usize>>, l: int, x: int) -> bool {
    (l == 0 && forall|a: int| !#[trigger] edge_in(es, a, x)) || (l > 0 && exists|i2: int|
        0 <= i2 < rows[l - 1]@.len() && #[trigger] edge_in(es, rows[l - 1]@[i2] as int, x))
}

/// The rows of the levels are non-empty and follow the level rule.
proof fn lemma_rows_rule(
    es: Seq<(int, int)>,
    n: int,
    order: Seq<usize>,
    lv: Seq<usize>,
    rows: Seq<Vec<usize>>,
    top: int,
    i0: int,
)
    requires
        rows.len() == top,
        0 <= i0 < order.len(),
        lv[order[i0] as int] + 1 == top,
        forall|i: int| 0 <= i < order.len() ==> lv[#[trigger] order[i] as int] < top,
        forall|k: int| 0 <= k < order.len() ==> level_rule_at(es, n, lv, #[trigger] order[k] as int),
        forall|k: int, a: int| 0 <= k < order.len() && #[trigger] edge_in(es, a, order[k] as int)
            ==> exists|j: int| 0 <= j < k && #[trigger] order[j] as int == a,
        forall|k: int, i: int| 0 <= k < top && 0 <= i < rows[k]@.len() ==> lv[#[trigger] rows[k]@[i] as int] == k
            && exists|j: int| 0 <= j < order.len() && #[trigger] order[j] == rows[k]@[i],
        forall|j: int| 0 <= j < order.len() && lv[#[trigger] order[j] as int] < top ==> in_rows(rows, order[j] as int),
    ensures
        forall|l: int| 0 <= l < rows.len() ==> (#[trigger] rows[l])@.len() > 0,
        forall|l: int, i: int| 0 <= l < rows.len() && 0 <= i < rows[l]@.len() ==> row_rule(es, rows, l, #[trigger] rows[l]@[i] as int),
{
            assert forall|l: int| 0 <= l < rows.len() implies (#[trigger] rows[l])@.len() > 0 by {
                    lemma_levels_inhabited(es, n, order, lv, i0, l);
                let j = choose|j: int| 0 <= j < order.len() && lv[#[trigger] order[j] as int] == l;
                assert(lv[order[j] as int] < top);
                assert(in_rows(rows, order[j] as int));
                let (l2, i2) = choose|l2: int, i2: int| 0 <= l2 < rows.len() && 0 <= i2 < rows[l2]@.len() && #[trigger] rows[l2]@[i2] as int == order[j] as int;
                assert(lv[rows[l2]@[i2] as int] == l2);
            }
            assert forall|l: int, i: int| 0 <= l < rows.len() && 0 <= i < rows[l]@.len() implies row_rule(es, rows, l, #[trigger] rows[l]@[i] as int) by {
                let x = rows[l]@[i] as int;
                let j = choose|j: int| 0 <= j < order.len() && #[trigger] order[j] == rows[l]@[i];
                assert(level_rule_at(es, n, lv, order[j] as int));
                assert(lv[x] == l);
                if l > 0 {
                    let a = choose|a: int| 0 <= a < n && edge_in(es, a, x) && #[trigger] lv[a] + 1 == lv[x];
                    assert(edge_in(es, a, order[j] as int));
                    let ja = choose|ja: int| 0 <= ja < j && #[trigger] order[ja] as int == a;
                    assert(lv[order[ja] as int] < top);
                    assert(in_rows(rows, order[ja] as int));
                    let (l2, i2) = choose|l2: int, i2: int| 0 <= l2 < rows.len() && 0 <= i2 < rows[l2]@.len() && #[trigger] rows[l2]@[i2] as int == order[ja] as int;
                    assert(lv[rows[l2]@[i2] as int] == l2);
                    assert(l2 == l - 1);
                    assert(rows[l - 1]@[i2] as int == a);
                    assert(edge_in(es, rows[l - 1]@[i2] as int, x));
                }
            }
        }

/// Every level up to that of a required node holds some required node.
proof fn lemma_levels_inhabited(es: Seq<(int, int)>, n: int, order: Seq<usize>, lv: Seq<usize>, i: int, l: int)
    requires
        0 <= i < order.len(),
        0 <= l <= lv[order[i] as int],
        forall|k: int| 0 <= k < order.len() ==> level_rule_at(es, n, lv, #[trigger] order[k] as int),
        forall|k: int, a: int| 0 <= k < order.len() && #[trigger] edge_in(es, a, order[k] as int)
            ==> exists|j: int| 0 <= j < k && #[trigger] order[j] as int == a,
    ensures
        exists|j: int| 0 <= j < order.len() && lv[#[trigger] order[j] as int] == l,
    decreases lv[order[i] as int] - l,
{
    let x = order[i] as int;
    if lv[x] == l {
        assert(lv[order[i] as int] == l);
    } else {
        assert(level_rule_at(es, n, lv, x));
        let a = choose|a: int| 0 <= a < n && edge_in(es, a, x) && #[trigger] lv[a] + 1 == lv[x];
        let j = choose|j: int| 0 <= j < i && #[trigger] order[j] as int == a;
        lemma_levels_inhabited(es, n, order, lv, j, l);
    }
}

/// Whether node `x` stands in one of the rows.
pub open spec fn in_rows(rows: Seq<Vec<usize>>, x: int) -> bool {
    exists|l: int, i: int| 0 <= l < rows.len() && 0 <= i < rows[l]@.len() && #[trigger] rows[l]@[i] as int == x
}

/// Whether `order` holds exactly the nodes below `n` from which `t` is reached.
pub open spec fn lists_ancestors(order: Seq<usize>, es: Seq<(int, int)>, n: int, t: int) -> bool {
    forall|x: int| 0 <= x < n ==> (reaches(es, x, t) <==> exists|i: int|
        0 <= i < order.len() && #[trigger] order[i] as int == x)
}

/// A permutation of `0..n` holds each node below `n`.
proof fn lemma_perm_contains(o: Seq<int>, n: int, x: int)
    requires
        is_permutation(o, n),
        0 <= x < n,
    ensures
        exists|p: int| 0 <= p < o.len() && o[p] == x,
{
    let s = o.to_set();
    vstd::set_lib::lemma_int_range(0, n);
    assert(s.subset_of(vstd::set_lib::set_int_range(0, n)));
    o.unique_seq_to_set();
    vstd::set_lib::lemma_subset_equality(s, vstd::set_lib::set_int_range(0, n));
    assert(vstd::set_lib::set_int_range(0, n).contains(x));
}

/// A node with an edge into the start of a path starts a longer path.
proof fn lemma_path_prepend(es: Seq<(int, int)>, d: int, p: Seq<int>)
    requires
        is_path(p, es),
        edge_in(es, d, p[0]),
    ensures
        is_path(seq![d] + p, es),
        (seq![d] + p)[0] == d,
        (seq![d] + p).last() == p.last(),
{
    let q = seq![d] + p;
    assert forall|i: int| 0 <= i < q.len() - 1 implies #[trigger] edge_in(es, q[i], q[i + 1]) by {
        if i > 0 {
            let j = i - 1;
            assert(q[i] == p[j] && q[i + 1] == p[j + 1]);
        }
    }
}

/// Every node of a path into a marked node is marked, where the marks
/// are closed under incoming edges.
proof fn lemma_path_closed(es: Seq<(int, int)>, p: Seq<int>, marks: Seq<bool>, n: int)
    requires
        is_path(p, es),
        marks.len() == n,
        0 <= p.last() < n,
        marks[p.last()],
        edges_within(es, n),
        forall|a: int, b: int| #[trigger] edge_in(es, a, b) && 0 <= b < n && marks[b] ==> marks[a],
    ensures
        forall|i: int| 0 <= i < p.len() ==> 0 <= #[trigger] p[i] < n && marks[p[i]],
    decreases p.len(),
{
    if p.len() > 1 {
        let q = p.drop_last();
        let i = p.len() - 2;
        assert(edge_in(es, p[i], p[i + 1]));
        let m = choose|m: int| 0 <= m < es.len() && es[m] == (p[i], p[i + 1]);
        assert(0 <= es[m].0 < n);
        assert(is_path(q, es)) by {
            assert forall|j: int| 0 <= j < q.len() - 1 implies #[trigger] edge_in(es, q[j], q[j + 1]) by {
                assert(edge_in(es, p[j], p[j + 1]));
            }
        }
        lemma_path_closed(es, q, marks, n);
        assert forall|j: int| 0 <= j < p.len() implies 0 <= #[trigger] p[j] < n && marks[p[j]] by {
            if j < p.len() - 1 {
                assert(q[j] == p[j]);
            }
        }
    }
}

/// The number of dependency entries over a list of beams.
pub open spec fn dependency_entries(bs: Seq<Beam>) -> nat
    decreases bs.len(),
{
    if bs.len() == 0 {
        0
    } else {
        dependency_entries(bs.drop_last()) + bs.last().depends_on@.len()
    }
}

proof fn lemma_entries_prefix(bs: Seq<Beam>, b: int)
    requires
        0 <= b < bs.len(),
    ensures
        dependency_entries(bs.take(b + 1)) == dependency_entries(bs.take(b)) + bs[b].depends_on@.len(),
{
    assert(bs.take(b + 1).drop_last() =~= bs.take(b));
}

proof fn lemma_entries_monotone(bs: Seq<Beam>, b: int)
    requires
        0 <= b <= bs.len(),
    ensures
        dependency_entries(bs.take(b)) <= dependency_entries(bs),
    decreases bs.len() - b,
{
    if b < bs.len() {
        lemma_entries_prefix(bs, b);
        lemma_entries_monotone(bs, b + 1);
    } else {
        assert(bs.take(b) =~= bs);
    }
}

/// Whether `p` is a cycle of dependencies: it returns to its start and
/// each beam on it is a dependency of the next.
pub open spec fn is_dependency_cycle(bf: Beamfile, p: Seq<int>) -> bool {
    p.len() >= 2 && p[0] == p.last() && forall|i: int| 0 <= i < p.len() - 1 ==> depends(bf, #[trigger] p[i], p[i + 1])
}

/// A Beamfile whose dependencies form a cycle has no acyclic order, so
/// building its graph fails with `CycleDetected`.
pub proof fn lemma_cycle_fails_construction(bf: Beamfile, p: Seq<int>)
    requires
        is_dependency_cycle(bf, p),
    ensures
        !beamfile_acyclic(bf),
{
    if beamfile_acyclic(bf) {
        let n = bf.beams@.len() as int;
        let ord = choose|ord: Seq<int>|
            is_permutation(ord, n) && forall|i: int, j: int|
                0 <= i < ord.len() && 0 <= j < ord.len() && #[trigger] depends(bf, ord[i], ord[j]) ==> i < j;
        lemma_positions_increase(bf, ord, p, p.len() - 1);
        assert(depends(bf, p[0], p[1]));
        let k0 = choose|k: int| 0 <= k < ord.len() && ord[k] == p[0];
        let kl = choose|k: int| 0 <= k < ord.len() && ord[k] == p[p.len() - 1];
        assert(k0 == kl);
    }
}

proof fn lemma_positions_increase(bf: Beamfile, ord: Seq<int>, p: Seq<int>, m: int)
    requires
        is_permutation(ord, bf.beams@.len() as int),
        forall|i: int, j: int|
            0 <= i < ord.len() && 0 <= j < ord.len() && #[trigger] depends(bf, ord[i], ord[j]) ==> i < j,
        p.len() >= 2,
        forall|i: int| 0 <= i < p.len() - 1 ==> depends(bf, #[trigger] p[i], p[i + 1]),
        1 <= m < p.len(),
    ensures
        exists|k: int| 0 <= k < ord.len() && ord[k] == p[0],
        exists|k: int| 0 <= k < ord.len() && ord[k] == p[m],
        (choose|k: int| 0 <= k < ord.len() && ord[k] == p[0]) < (choose|k: int| 0 <= k < ord.len() && ord[k] == p[m]),
    decreases m,
{
    let n = bf.beams@.len() as int;
    assert(depends(bf, p[m - 1], p[m - 1 + 1]));
    assert(depends(bf, p[0], p[1]));
    lemma_perm_contains(ord, n, p[m - 1]);
    lemma_perm_contains(ord, n, p[m]);
    lemma_perm_contains(ord, n, p[0]);
    let ka = choose|k: int| 0 <= k < ord.len() && ord[k] == p[m - 1];
    let kb = choose|k: int| 0 <= k < ord.len() && ord[k] == p[m];
    assert(depends(bf, ord[ka], ord[kb]));
    if m > 1 {
        lemma_positions_increase(bf, ord, p, m - 1);
    }
}

/// The rows one after the other.
pub open spec fn concat_rows(rows: Seq<Seq<Seq<char>>>) -> Seq<Seq<char>>
    decreases rows.len(),
{
    if rows.len() == 0 {
        Seq::empty()
    } else {
        concat_rows(rows.drop_last()) + rows.last()
    }
}

/// The row that position `i` of the concatenation comes from.
pub open spec fn row_of(rows: Seq<Seq<Seq<char>>>, i: int) -> int
    decreases rows.len(),
{
    if rows.len() == 0 {
        0
    } else if i >= concat_rows(rows.drop_last()).len() {
        rows.len() - 1
    } else {
        row_of(rows.drop_last(), i)
    }
}

/// The position within its row of position `i` of the concatenation.
pub open spec fn offset_of(rows: Seq<Seq<Seq<char>>>, i: int) -> int
    decreases rows.len(),
{
    if rows.len() == 0 {
        0
    } else if i >= concat_rows(rows.drop_last()).len() {
        i - concat_rows(rows.drop_last()).len()
    } else {
        offset_of(rows.drop_last(), i)
    }
}

proof fn lemma_concat_index(rows: Seq<Seq<Seq<char>>>, i: int)
    requires
        0 <= i < concat_rows(rows).len(),
    ensures
        0 <= row_of(rows, i) < rows.len(),
        0 <= offset_of(rows, i) < rows[row_of(rows, i)].len(),
        concat_rows(rows)[i] == rows[row_of(rows, i)][offset_of(rows, i)],
    decreases rows.len(),
{
    if rows.len() > 0 && i < concat_rows(rows.drop_last()).len() {
        lemma_concat_index(rows.drop_last(), i);
    }
}

proof fn lemma_row_monotone(rows: Seq<Seq<Seq<char>>>, i: int, j: int)
    requires
        0 <= i <= j < concat_rows(rows).len(),
    ensures
        row_of(rows, i) <= row_of(rows, j),
    decreases rows.len(),
{
    if rows.len() > 0 {
        let d = concat_rows(rows.drop_last()).len();
        if j < d {
            lemma_row_monotone(rows.drop_last(), i, j);
        } else if i < d {
            lemma_concat_index(rows.drop_last(), i);
        }
    }
}

impl DependencyGraph {
    /// Where every edge between beams of the levels goes to a later level,
    /// the levels one after the other are a topological order, and no two
    /// beams of one level have an edge between them.
    pub proof fn lemma_levels_concatenate(&self, rows: Seq<Seq<Seq<char>>>)
        requires
            self.points_forward(rows),
        ensures
            forall|i: int, j: int|
                0 <= i < concat_rows(rows).len() && 0 <= j < concat_rows(rows).len()
                    && #[trigger] self.name_edge(concat_rows(rows)[i], concat_rows(rows)[j]) ==> i < j,
            forall|l: int, i1: int, i2: int|
                0 <= l < rows.len() && 0 <= i1 < rows[l].len() && 0 <= i2 < rows[l].len() ==> !#[trigger] self.name_edge(
                    rows[l][i1],
                    rows[l][i2],
                ),
    {
        let flat = concat_rows(rows);
        assert forall|i: int, j: int|
            0 <= i < flat.len() && 0 <= j < flat.len() && #[trigger] self.name_edge(flat[i], flat[j]) implies i < j by {
            lemma_concat_index(rows, i);
            lemma_concat_index(rows, j);
            let (li, oi) = (row_of(rows, i), offset_of(rows, i));
            let (lj, oj) = (row_of(rows, j), offset_of(rows, j));
            assert(self.name_edge(rows[li][oi], rows[lj][oj]));
            if j <= i {
                lemma_row_monotone(rows, j, i);
            }
        }
        assert forall|l: int, i1: int, i2: int|
            0 <= l < rows.len() && 0 <= i1 < rows[l].len() && 0 <= i2 < rows[l].len() implies !#[trigger] self.name_edge(
                rows[l][i1],
                rows[l][i2],
            ) by {}
    }
}

} // verus!
