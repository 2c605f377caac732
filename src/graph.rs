//! The dependency graph over brick names, stored in a petgraph `DiGraph`.

use petgraph::graph::{DiGraph, Graph, NodeIndex};
use petgraph::Directed;
use vstd::prelude::*;

use crate::names::{dep_name, dependency_name};
use crate::workspace::{first_index, index_of, lemma_first_index, names_of, Brick, Workspace};

verus! {

#[verifier::external_type_specification]
#[verifier::external_body]
#[verifier::reject_recursive_types(N)]
#[verifier::reject_recursive_types(E)]
#[verifier::reject_recursive_types(Ty)]
#[verifier::reject_recursive_types(Ix)]
pub struct ExGraph<N, E, Ty, Ix>(Graph<N, E, Ty, Ix>);

#[verifier::external_type_specification]
#[verifier::external_body]
pub struct ExDirected(Directed);

/// The node weights of a graph, by node index.
pub uninterp spec fn graph_nodes(g: DiGraph<String, ()>) -> Seq<Seq<char>>;

/// The edges of a graph as (source, target) node indices, in order of addition.
pub uninterp spec fn graph_edges(g: DiGraph<String, ()>) -> Seq<(int, int)>;

/// The largest node or edge count the graph's `u32` indices allow.
pub const INDEX_LIMIT: u64 = 4294967295;

/// Relies on `Graph::new`: no nodes and no edges.
#[verifier::external_body]
fn new_graph() -> (g: DiGraph<String, ()>)
    ensures
        graph_nodes(g) == Seq::<Seq<char>>::empty(),
        graph_edges(g) == Seq::<(int, int)>::empty(),
{
    DiGraph::new()
}

/// Relies on `Graph::add_node`: the node goes last and its index is the old
/// node count; it panics at the `u32` index limit.
#[verifier::external_body]
fn add_node(g: &mut DiGraph<String, ()>, weight: String) -> (r: usize)
    requires
        graph_nodes(*old(g)).len() < INDEX_LIMIT,
    ensures
        r == graph_nodes(*old(g)).len(),
        graph_nodes(*final(g)) == graph_nodes(*old(g)).push(weight@),
        graph_edges(*final(g)) == graph_edges(*old(g)),
{
    g.add_node(weight).index()
}

/// Relies on `Graph::add_edge`: the edge goes last; it panics on a missing
/// node or at the `u32` index limit.
#[verifier::external_body]
fn add_edge(g: &mut DiGraph<String, ()>, a: usize, b: usize)
    requires
        a < graph_nodes(*old(g)).len(),
        b < graph_nodes(*old(g)).len(),
        graph_edges(*old(g)).len() < INDEX_LIMIT,
    ensures
        graph_nodes(*final(g)) == graph_nodes(*old(g)),
        graph_edges(*final(g)) == graph_edges(*old(g)).push((a as int, b as int)),
{
    g.add_edge(NodeIndex::new(a), NodeIndex::new(b), ());
}

/// Relies on `petgraph::algo::is_cyclic_directed`: whether the graph has a
/// directed cycle.
#[verifier::external_body]
fn is_cyclic(g: &DiGraph<String, ()>) -> (r: bool)
    ensures
        r == has_cycle(graph_edges(*g)),
{
    petgraph::algo::is_cyclic_directed(g)
}

/// Relies on `Graph::neighbors`: the targets of the edges leaving `a`, most
/// recently added first.
#[verifier::external_body]
fn neighbor_indices(g: &DiGraph<String, ()>, a: usize) -> (r: Vec<usize>)
    requires
        a < graph_nodes(*g).len(),
    ensures
        r@.map_values(|t: usize| t as int) == out_targets(graph_edges(*g), a as int),
{
    g.neighbors(NodeIndex::new(a)).map(|n| n.index()).collect()
}

/// The targets of the edges that leave `a`, last added first.
pub open spec fn out_targets(edges: Seq<(int, int)>, a: int) -> Seq<int>
    decreases edges.len(),
{
    if edges.len() == 0 {
        Seq::empty()
    } else {
        let rest = out_targets(edges.drop_last(), a);
        if edges.last().0 == a {
            seq![edges.last().1] + rest
        } else {
            rest
        }
    }
}

/// `p` is a closed walk: at least one step, each step an edge, back at its start.
pub open spec fn is_closed_walk(edges: Seq<(int, int)>, p: Seq<int>) -> bool {
    &&& p.len() >= 2
    &&& p[0] == p.last()
    &&& forall|k: int| 0 <= k < p.len() - 1 ==> edges.contains((p[k], #[trigger] p[k + 1]))
}

/// The edges contain a directed cycle.
pub open spec fn has_cycle(edges: Seq<(int, int)>) -> bool {
    exists|p: Seq<int>| is_closed_walk(edges, p)
}

/// Number of dependency specifiers over a sequence of bricks.
pub open spec fn dep_count(bricks: Seq<Brick>) -> nat
    decreases bricks.len(),
{
    if bricks.len() == 0 {
        0
    } else {
        dep_count(bricks.drop_last()) + bricks.last().pyproject.deps().len()
    }
}

/// Among its first `j` specifiers, brick `a` declares one whose name is first
/// held by member `b`.
pub open spec fn declared_upto(bricks: Seq<Brick>, a: int, j: int, b: int) -> bool {
    exists|jj: int|
        0 <= jj < j && 0 <= b < bricks.len() && first_index(
            names_of(bricks),
            dep_name(#[trigger] bricks[a].pyproject.deps()[jj]@),
        ) == b
}

/// Brick `a` declares a specifier whose name is first held by member `b`.
pub open spec fn declares_edge(bricks: Seq<Brick>, a: int, b: int) -> bool {
    0 <= a < bricks.len() && declared_upto(bricks, a, bricks[a].pyproject.deps().len() as int, b)
}

/// One more specifier adds at most the member it names.
proof fn lemma_declared_step(bricks: Seq<Brick>, a: int, j: int, b: int)
    requires
        0 <= j < bricks[a].pyproject.deps().len(),
    ensures
        declared_upto(bricks, a, j + 1, b) <==> (declared_upto(bricks, a, j, b) || (0 <= b
            < bricks.len() && first_index(names_of(bricks), dep_name(bricks[a].pyproject.deps()[j]@))
            == b)),
{
    if declared_upto(bricks, a, j + 1, b) {
        let jj = choose|jj: int|
            0 <= jj < j + 1 && 0 <= b < bricks.len() && first_index(
                names_of(bricks),
                dep_name(#[trigger] bricks[a].pyproject.deps()[jj]@),
            ) == b;
        if jj < j {
            assert(declared_upto(bricks, a, j, b));
        }
    }
    if declared_upto(bricks, a, j, b) {
        let jj = choose|jj: int|
            0 <= jj < j && 0 <= b < bricks.len() && first_index(
                names_of(bricks),
                dep_name(#[trigger] bricks[a].pyproject.deps()[jj]@),
            ) == b;
        assert(declared_upto(bricks, a, j + 1, b));
    }
    if 0 <= b < bricks.len() && first_index(names_of(bricks), dep_name(bricks[a].pyproject.deps()[j]@)) == b {
        assert(declared_upto(bricks, a, j + 1, b));
    }
}

/// Membership after a push.
proof fn lemma_contains_push(s: Seq<(int, int)>, e: (int, int))
    ensures
        forall|x: (int, int)| #[trigger] s.push(e).contains(x) <==> (s.contains(x) || x == e),
{
    assert forall|x: (int, int)| #[trigger] s.push(e).contains(x) <==> (s.contains(x) || x == e) by {
        if s.push(e).contains(x) {
            let k = choose|k: int| 0 <= k < s.push(e).len() && s.push(e)[k] == x;
            if k < s.len() {
                assert(s[k] == x);
            }
        }
        if s.contains(x) {
            let k = choose|k: int| 0 <= k < s.len() && s[k] == x;
            assert(s.push(e)[k] == x);
        }
        if x == e {
            assert(s.push(e)[s.len() as int] == x);
        }
    }
}

/// `p` is a closed walk along declared dependencies.
pub open spec fn is_declared_walk(bricks: Seq<Brick>, p: Seq<int>) -> bool {
    &&& p.len() >= 2
    &&& p[0] == p.last()
    &&& forall|k: int| 0 <= k < p.len() - 1 ==> declares_edge(bricks, p[k], #[trigger] p[k + 1])
}

/// The bricks' declared dependencies on members go round in a cycle.
pub open spec fn declares_cycle(bricks: Seq<Brick>) -> bool {
    exists|p: Seq<int>| is_declared_walk(bricks, p)
}

/// Edges that are exactly the declared dependencies have a cycle exactly
/// when the declarations do.
proof fn lemma_cycle_transfer(edges: Seq<(int, int)>, bricks: Seq<Brick>)
    requires
        forall|a: int, b: int| edges.contains((a, b)) <==> declares_edge(bricks, a, b),
    ensures
        has_cycle(edges) == declares_cycle(bricks),
{
    if has_cycle(edges) {
        let p = choose|p: Seq<int>| is_closed_walk(edges, p);
        assert forall|k: int| 0 <= k < p.len() - 1 implies declares_edge(bricks, p[k], #[trigger] p[k + 1]) by {
            assert(edges.contains((p[k], p[k + 1])));
        }
        assert(is_declared_walk(bricks, p));
    }
    if declares_cycle(bricks) {
        let p = choose|p: Seq<int>| is_declared_walk(bricks, p);
        assert forall|k: int| 0 <= k < p.len() - 1 implies edges.contains((p[k], #[trigger] p[k + 1])) by {
            assert(declares_edge(bricks, p[k], p[k + 1]));
        }
        assert(is_closed_walk(edges, p));
    }
}

/// No name occurs twice.
pub open spec fn names_unique(names: Seq<Seq<char>>) -> bool {
    forall|i: int, j: int| 0 <= i < names.len() && 0 <= j < names.len() && names[i] == names[j] ==> i == j
}

/// Member `b` is named by the normalized bare name of one of brick `a`'s
/// specifiers.
pub open spec fn names_dependency(bricks: Seq<Brick>, a: int, b: int) -> bool {
    &&& 0 <= a < bricks.len()
    &&& 0 <= b < bricks.len()
    &&& exists|j: int|
        0 <= j < bricks[a].pyproject.deps().len() && bricks[b].name@ == dep_name(
            #[trigger] bricks[a].pyproject.deps()[j]@,
        )
}

/// With unique names, a specifier is first held by exactly the member it names.
proof fn lemma_edge_soundness(bricks: Seq<Brick>)
    requires
        names_unique(names_of(bricks)),
    ensures
        forall|a: int, b: int| declares_edge(bricks, a, b) <==> names_dependency(bricks, a, b),
{
    let names = names_of(bricks);
    assert forall|a: int, b: int| declares_edge(bricks, a, b) <==> names_dependency(bricks, a, b) by {
        if declares_edge(bricks, a, b) {
            let j = choose|j: int|
                0 <= j < bricks[a].pyproject.deps().len() && 0 <= b < bricks.len() && first_index(
                    names,
                    dep_name(#[trigger] bricks[a].pyproject.deps()[j]@),
                ) == b;
            lemma_first_index(names, dep_name(bricks[a].pyproject.deps()[j]@));
            assert(names[b] == bricks[b].name@);
        }
        if names_dependency(bricks, a, b) {
            let j = choose|j: int|
                0 <= j < bricks[a].pyproject.deps().len() && bricks[b].name@ == dep_name(
                    #[trigger] bricks[a].pyproject.deps()[j]@,
                );
            let x = dep_name(bricks[a].pyproject.deps()[j]@);
            lemma_first_index(names, x);
            assert(names[b] == x);
            let f = first_index(names, x);
            assert(names[f] == names[b]);
            assert(declared_upto(bricks, a, bricks[a].pyproject.deps().len() as int, b));
        }
    }
}

/// The dependency graph of a workspace: one node per brick, one edge per
/// specifier that names a member.
pub struct DependencyGraph {
    names: Vec<String>,
    graph: DiGraph<String, ()>,
}

impl DependencyGraph {
    /// The node names, by node index.
    pub closed spec fn node_names(&self) -> Seq<Seq<char>> {
        self.names@.map_values(|s: String| s@)
    }

    /// The edges, in order of addition.
    pub closed spec fn edges(&self) -> Seq<(int, int)> {
        graph_edges(self.graph)
    }

    /// The stored graph agrees with the node names and every edge joins nodes.
    pub closed spec fn wf(&self) -> bool {
        &&& graph_nodes(self.graph) == self.node_names()
        &&& forall|k: int|
            0 <= k < self.edges().len() ==> 0 <= (#[trigger] self.edges()[k]).0 < self.node_names().len()
                && 0 <= self.edges()[k].1 < self.node_names().len()
    }

    /// An edge from `a` to `b`.
    pub open spec fn has_edge(&self, a: int, b: int) -> bool {
        self.edges().contains((a, b))
    }

    /// The graph of the workspace's bricks, packages first, then apps.
    pub fn build(ws: &Workspace) -> (g: DependencyGraph)
        requires
            ws.members().len() < INDEX_LIMIT,
            dep_count(ws.members()) < INDEX_LIMIT,
        ensures
            g.wf(),
            g.node_names() == names_of(ws.members()),
            forall|a: int, b: int| g.has_edge(a, b) <==> declares_edge(ws.members(), a, b),
            has_cycle(g.edges()) == declares_cycle(ws.members()),
            names_unique(names_of(ws.members())) ==> forall|a: int, b: int|
                g.has_edge(a, b) <==> names_dependency(ws.members(), a, b),
    {
        let ghost bricks = ws.members();
        let names = ws.member_names();
        let mut graph = new_graph();
        assert(names@.map_values(|s: String| s@).len() == names@.len());
        let mut i: usize = 0;
        while i < names.len()
            invariant
                names@.map_values(|s: String| s@) == names_of(bricks),
                i <= names.len(),
                names.len() < INDEX_LIMIT,
                graph_nodes(graph) == names@.take(i as int).map_values(|s: String| s@),
                graph_edges(graph) == Seq::<(int, int)>::empty(),
            decreases names.len() - i,
        {
            add_node(&mut graph, names[i].clone());
            assert(names@.take(i + 1).map_values(|s: String| s@) =~= names@.take(i as int).map_values(
                |s: String| s@,
            ).push(names@[i as int]@));
            i = i + 1;
        }
        assert(names@.take(i as int) == names@);
        let n = names.len();
        let mut a: usize = 0;
        while a < n
            invariant
                n == bricks.len(),
                bricks == ws.members(),
                n < INDEX_LIMIT,
                dep_count(bricks) < INDEX_LIMIT,
                names@.map_values(|s: String| s@) == names_of(bricks),
                graph_nodes(graph) == names_of(bricks),
                a <= n,
                graph_edges(graph).len() <= dep_count(bricks.take(a as int)),
                forall|k: int|
                    0 <= k < graph_edges(graph).len() ==> 0 <= (#[trigger] graph_edges(graph)[k]).0
                        < n && 0 <= graph_edges(graph)[k].1 < n,
                forall|x: int, y: int|
                    #[trigger] graph_edges(graph).contains((x, y)) <==> (x < a && declares_edge(
                        bricks,
                        x,
                        y,
                    )),
            decreases n - a,
        {
            let brick = ws.member_at(a);
            let deps = brick.pyproject.dependency_specs();
            proof {
                lemma_dep_count_prefix(bricks, a as int);
            }
            assert forall|y: int| !declared_upto(bricks, a as int, 0, y) by {}
            let mut j: usize = 0;
            while j < deps.len()
                invariant
                    n == bricks.len(),
                    bricks == ws.members(),
                    a < n,
                    n < INDEX_LIMIT,
                    dep_count(bricks) < INDEX_LIMIT,
                    dep_count(bricks.take(a as int)) + deps@.len() <= dep_count(bricks),
                    deps@ == bricks[a as int].pyproject.deps(),
                    names@.map_values(|s: String| s@) == names_of(bricks),
                    graph_nodes(graph) == names_of(bricks),
                    j <= deps.len(),
                    graph_edges(graph).len() <= dep_count(bricks.take(a as int)) + j,
                    forall|k: int|
                        0 <= k < graph_edges(graph).len() ==> 0 <= (#[trigger] graph_edges(
                            graph,
                        )[k]).0 < n && 0 <= graph_edges(graph)[k].1 < n,
                    forall|x: int, y: int|
                        #[trigger] graph_edges(graph).contains((x, y)) <==> ((x < a && declares_edge(
                            bricks,
                            x,
                            y,
                        )) || (x == a && declared_upto(bricks, a as int, j as int, y))),
                decreases deps.len() - j,
            {
                let target = dependency_name(deps[j].as_str());
                let found = index_of(&names, target.as_str());
                let ghost old_edges = graph_edges(graph);
                proof {
                    lemma_first_index(names_of(bricks), target@);
                    assert forall|y: int| declared_upto(bricks, a as int, j + 1, y) <==> (declared_upto(bricks, a as int, j as int, y) || (0 <= y < n && first_index(names_of(bricks), target@) == y)) by {
                        lemma_declared_step(bricks, a as int, j as int, y);
                    }
                }
                match found {
                    Some(b) => {
                        add_edge(&mut graph, a, b);
                        proof {
                            lemma_contains_push(old_edges, (a as int, b as int));
                        }
                    },
                    None => {},
                }
                j = j + 1;
            }
            proof {
                assert(bricks.take(a + 1).drop_last() == bricks.take(a as int));
                assert forall|x: int, y: int|
                    graph_edges(graph).contains((x, y)) <==> (x < a + 1 && declares_edge(bricks, x, y)) by {
                    if x == a {
                        assert(declares_edge(bricks, x, y) == declared_upto(bricks, a as int, j as int, y));
                    }
                }
            }
            a = a + 1;
        }
        assert(bricks.take(a as int) == bricks);
        proof {
            lemma_cycle_transfer(graph_edges(graph), bricks);
            if names_unique(names_of(bricks)) {
                lemma_edge_soundness(bricks);
            }
        }
        DependencyGraph { names, graph }
    }

    /// Whether the graph has a directed cycle.
    pub fn is_cyclic(&self) -> (r: bool)
        requires
            self.wf(),
        ensures
            r == has_cycle(self.edges()),
    {
        is_cyclic(&self.graph)
    }

    /// Number of nodes.
    pub fn node_count(&self) -> (r: usize)
        ensures
            r == self.node_names().len(),
    {
        self.names.len()
    }

    /// The names of the nodes that `a` has edges to, most recently added first.
    pub fn neighbor_names(&self, a: usize) -> (r: Vec<String>)
        requires
            self.wf(),
            a < self.node_names().len(),
        ensures
            r@.map_values(|s: String| s@) == out_targets(self.edges(), a as int).map_values(
                |t: int| self.node_names()[t],
            ),
    {
        let idx = neighbor_indices(&self.graph, a);
        proof {
            lemma_out_targets_bounded(self.edges(), a as int, self.node_names().len() as int);
        }
        let mut r: Vec<String> = Vec::new();
        let mut k: usize = 0;
        while k < idx.len()
            invariant
                self.wf(),
                idx@.map_values(|t: usize| t as int) == out_targets(self.edges(), a as int),
                forall|m: int| 0 <= m < out_targets(self.edges(), a as int).len() ==> 0 <= #[trigger] out_targets(self.edges(), a as int)[m] < self.node_names().len(),
                k <= idx.len(),
                r@.len() == k,
                forall|m: int| 0 <= m < k ==> #[trigger] r@[m]@ == self.node_names()[idx@[m] as int],
            decreases idx.len() - k,
        {
            assert(idx@.map_values(|t: usize| t as int)[k as int] == idx@[k as int] as int);
            r.push(self.names[idx[k]].clone());
            k = k + 1;
        }
        assert(r@.map_values(|s: String| s@) =~= out_targets(self.edges(), a as int).map_values(
            |t: int| self.node_names()[t],
        )) by {
            assert forall|m: int| 0 <= m < k implies idx@.map_values(|t: usize| t as int)[m] == idx@[m] as int by {}
        }
        r
    }
}

/// Every target of an edge leaving `a` is a node when every edge joins nodes.
proof fn lemma_out_targets_bounded(edges: Seq<(int, int)>, a: int, n: int)
    requires
        forall|k: int| 0 <= k < edges.len() ==> 0 <= (#[trigger] edges[k]).0 < n && 0 <= edges[k].1 < n,
    ensures
        forall|m: int| 0 <= m < out_targets(edges, a).len() ==> 0 <= #[trigger] out_targets(edges, a)[m] < n,
    decreases edges.len(),
{
    if edges.len() > 0 {
        let e = edges.drop_last();
        assert forall|k: int| 0 <= k < e.len() implies 0 <= (#[trigger] e[k]).0 < n && 0 <= e[k].1 < n by {
            assert(e[k] == edges[k]);
        }
        lemma_out_targets_bounded(e, a, n);
        let last = edges[edges.len() - 1];
        let rest = out_targets(e, a);
        assert(edges.last() == last);
        if last.0 == a {
            assert(out_targets(edges, a) == seq![last.1] + rest);
            assert forall|m: int| 0 <= m < out_targets(edges, a).len() implies 0 <= #[trigger] out_targets(edges, a)[m] < n by {
                if m > 0 {
                    assert(out_targets(edges, a)[m] == rest[m - 1]);
                }
            }
        } else {
            assert(out_targets(edges, a) == rest);
        }
    }
}

/// The dependency count of a prefix grows by the next brick's specifiers.
proof fn lemma_dep_count_prefix(bricks: Seq<Brick>, a: int)
    requires
        0 <= a < bricks.len(),
    ensures
        dep_count(bricks.take(a + 1)) == dep_count(bricks.take(a)) + bricks[a].pyproject.deps().len(),
        dep_count(bricks.take(a + 1)) <= dep_count(bricks),
{
    assert(bricks.take(a + 1).drop_last() == bricks.take(a));
    lemma_dep_count_mono(bricks, a + 1);
}

/// A prefix has no more specifiers than the whole.
proof fn lemma_dep_count_mono(bricks: Seq<Brick>, k: int)
    requires
        0 <= k <= bricks.len(),
    ensures
        dep_count(bricks.take(k)) <= dep_count(bricks),
    decreases bricks.len() - k,
{
    if k < bricks.len() {
        assert(bricks.take(k + 1).drop_last() == bricks.take(k));
        lemma_dep_count_mono(bricks, k + 1);
    } else {
        assert(bricks.take(k) == bricks);
    }
}

} // verus!
