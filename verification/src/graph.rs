//! # Dependency graphs, condensed and sorted with `petgraph`

use vstd::prelude::*;

use petgraph::graph::Graph;

verus! {

/// `petgraph`'s graph type, opaque to verification
#[verifier::external_type_specification]
#[verifier::external_body]
#[verifier::reject_recursive_types(N)]
#[verifier::reject_recursive_types(E)]
#[verifier::reject_recursive_types(Ty)]
#[verifier::reject_recursive_types(Ix)]
pub struct ExGraph<N, E, Ty, Ix>(Graph<N, E, Ty, Ix>);

/// `petgraph`'s marker for directed graphs
#[verifier::external_type_specification]
#[verifier::external_body]
pub struct ExDirected(petgraph::Directed);

/// The node weights of a dependency graph, by node index
pub uninterp spec fn dependency_graph_weights(g: Graph<usize, ()>) -> Seq<usize>;

/// The edges of a dependency graph, as pairs of node indices, in the order in
/// which they were added
pub uninterp spec fn dependency_graph_edges(g: Graph<usize, ()>) -> Seq<(int, int)>;

/// The node weights of a condensed graph, by node index
pub uninterp spec fn cluster_graph_weights(g: Graph<Vec<usize>, ()>) -> Seq<Seq<usize>>;

/// The edges of a condensed graph, as pairs of node indices, in the order in
/// which they were added
pub uninterp spec fn cluster_graph_edges(g: Graph<Vec<usize>, ()>) -> Seq<(int, int)>;

/// The strongly connected components that `petgraph::algo::condensation`
/// finds in a graph with `node_count` nodes and the given edges, in the order
/// in which it creates their nodes; each lists its members in increasing order
pub uninterp spec fn condensation_components(node_count: nat, edges: Seq<(int, int)>) -> Seq<
    Seq<int>,
>;

/// The order of nodes that `petgraph::algo::toposort` returns for an acyclic
/// graph with `node_count` nodes and the given edges
pub uninterp spec fn toposort_order(node_count: nat, edges: Seq<(int, int)>) -> Seq<int>;

/// Whether the graph with `node_count` nodes and the given edges has no cycle
///
/// That is the case, where the nodes can be ranked such that every edge leads
/// from a node to one of higher rank.
pub open spec fn is_acyclic(node_count: nat, edges: Seq<(int, int)>) -> bool {
    exists|rank: Seq<int>|
        #![trigger rank.len()]
        rank.len() == node_count && forall|e: int|
            0 <= e < edges.len() ==> 0 <= (#[trigger] edges[e]).0 < node_count && 0 <= edges[e].1
                < node_count && rank[edges[e].0] < rank[edges[e].1]
}

/// Whether `components` divides the nodes `0` to `node_count` into nonempty
/// parts, each listing its members in increasing order
pub open spec fn is_partition(components: Seq<Seq<int>>, node_count: nat) -> bool {
    &&& forall|c: int|
        #![trigger components[c]]
        0 <= c < components.len() ==> components[c].len() > 0 && forall|i: int, j: int|
            0 <= i < j < components[c].len() ==> #[trigger] components[c][i]
                < #[trigger] components[c][j]
    &&& forall|c: int, i: int|
        0 <= c < components.len() && 0 <= i < components[c].len() ==> 0 <= #[trigger] components[c][i]
            < node_count
    &&& forall|n: int| 0 <= n < node_count ==> #[trigger] is_member(components, n)
    &&& forall|c: int, d: int, i: int, j: int|
        0 <= c < components.len() && 0 <= d < components.len() && 0 <= i < components[c].len() && 0
            <= j < components[d].len() && #[trigger] components[c][i] == #[trigger] components[d][j]
            ==> c == d && i == j
}

/// A partition of the nodes `0` to `node_count` has at most `node_count`
/// parts.
pub proof fn partition_is_small(components: Seq<Seq<int>>, node_count: nat)
    requires
        is_partition(components, node_count),
    ensures
        components.len() <= node_count,
{
    let firsts = Seq::new(components.len(), |c: int| components[c][0]);
    assert(firsts.no_duplicates()) by {
        assert forall|i: int, j: int| 0 <= i < firsts.len() && 0 <= j < firsts.len() && i != j implies firsts[i]
            != firsts[j] by {
            assert(components[i][0] == firsts[i] && components[j][0] == firsts[j]);
        }
    }
    firsts.unique_seq_to_set();
    vstd::set_lib::lemma_int_range(0, node_count as int);
    assert(firsts.to_set().subset_of(vstd::set_lib::set_int_range(0, node_count as int))) by {
        assert forall|x: int| firsts.to_set().contains(x) implies vstd::set_lib::set_int_range(
            0,
            node_count as int,
        ).contains(x) by {
            let c = choose|c: int| 0 <= c < firsts.len() && firsts[c] == x;
            assert(components[c][0] == x);
        }
    }
    vstd::set_lib::lemma_len_subset(firsts.to_set(), vstd::set_lib::set_int_range(0, node_count as int));
}

/// Whether `path` is a nonempty walk along `edges`
pub open spec fn is_path(edges: Seq<(int, int)>, path: Seq<int>) -> bool {
    path.len() > 0 && forall|i: int| 0 <= i < path.len() - 1 ==> edges.contains((path[i], #[trigger] path[i + 1]))
}

/// Whether node `a` reaches node `b` along `edges`; every node reaches itself
pub open spec fn reaches(edges: Seq<(int, int)>, a: int, b: int) -> bool {
    exists|path: Seq<int>| #[trigger] is_path(edges, path) && path[0] == a && path.last() == b
}

/// Whether nodes `a` and `b` each reach the other along `edges`
pub open spec fn mutually_reachable(edges: Seq<(int, int)>, a: int, b: int) -> bool {
    reaches(edges, a, b) && reaches(edges, b, a)
}

/// Whether nodes `a` and `b` are members of the same one of `components`
pub open spec fn same_component(components: Seq<Seq<int>>, a: int, b: int) -> bool {
    exists|c: int| 0 <= c < components.len() && #[trigger] components[c].contains(a) && components[c].contains(b)
}

/// Whether `components` are the strongly connected components of the graph
/// with `node_count` nodes and the given edges: two nodes share a component
/// exactly when each reaches the other
pub open spec fn is_scc_partition(components: Seq<Seq<int>>, node_count: nat, edges: Seq<(int, int)>) -> bool {
    forall|a: int, b: int|
        0 <= a < node_count && 0 <= b < node_count ==> (#[trigger] same_component(components, a, b)
            <==> mutually_reachable(edges, a, b))
}

/// Whether node `n` is a member of one of `components`
pub open spec fn is_member(components: Seq<Seq<int>>, n: int) -> bool {
    exists|c: int, i: int|
        #![trigger components[c][i]]
        0 <= c < components.len() && 0 <= i < components[c].len() && components[c][i] == n
}

/// The component that node `n` belongs to
pub open spec fn component_of(components: Seq<Seq<int>>, n: int) -> int {
    choose|c: int| 0 <= c < components.len() && components[c].contains(n)
}

/// The edges of the condensed graph, as `petgraph::algo::condensation` adds
/// them when it is asked to make the graph acyclic: each edge between two
/// components, the first time it occurs, in the order of the given edges
pub open spec fn condensed_edges(components: Seq<Seq<int>>, edges: Seq<(int, int)>) -> Seq<
    (int, int),
>
    decreases edges.len(),
{
    if edges.len() == 0 {
        seq![]
    } else {
        let before = condensed_edges(components, edges.drop_last());
        let edge = (
            component_of(components, edges.last().0),
            component_of(components, edges.last().1),
        );
        if edge.0 == edge.1 || before.contains(edge) {
            before
        } else {
            before.push(edge)
        }
    }
}

/// Whether `r` is the condensation of `g`: one node per strongly connected
/// component of `g` (see [`condensation_components`]), whose weight lists the
/// weights of the component's members in the order of their indices, and one
/// edge for each pair of components that an edge connects, as
/// [`condensed_edges`] orders them; `r` is acyclic. The components are the
/// strongly connected components of `g`.
pub open spec fn is_condensation_of(
    r: Graph<Vec<usize>, ()>,
    g: Graph<usize, ()>,
    components: Seq<Seq<int>>,
) -> bool {
    let weights = dependency_graph_weights(g);
    &&& is_partition(components, weights.len())
    &&& is_scc_partition(components, weights.len(), dependency_graph_edges(g))
    &&& cluster_graph_weights(r).len() == components.len()
    &&& forall|c: int|
        0 <= c < components.len() ==> #[trigger] cluster_graph_weights(r)[c]
            == components[c].map_values(|n: int| weights[n])
    &&& cluster_graph_edges(r) == condensed_edges(components, dependency_graph_edges(g))
    &&& is_acyclic(components.len(), cluster_graph_edges(r))
}

/// Whether `r` is what topological sorting finds in `g`: for an acyclic graph,
/// all nodes, each once, in an order in which every edge leads forward (see
/// [`toposort_order`]); `None` for a graph with a cycle
pub open spec fn is_topological_sort_of(
    r: Option<Vec<usize>>,
    g: Graph<Vec<usize>, ()>,
    sorted: Seq<int>,
) -> bool {
    let n = cluster_graph_weights(g).len();
    let edges = cluster_graph_edges(g);
    &&& r is Some <==> is_acyclic(n, edges)
    &&& r matches Some(order) ==> {
        &&& order@.map_values(|i: usize| i as int) == sorted
        &&& order@.len() == n
        &&& forall|i: int, j: int|
            0 <= i < j < order@.len() ==> #[trigger] order@[i] != #[trigger] order@[j]
        &&& forall|i: int| 0 <= i < order@.len() ==> #[trigger] order@[i] < n
        &&& forall|e: int, i: int, j: int|
            #![trigger edges[e], order@[i], order@[j]]
            0 <= e < edges.len() && 0 <= i < order@.len() && 0 <= j < order@.len() && order@[i]
                == edges[e].0 && order@[j] == edges[e].1 ==> i < j
    }
}

/// `petgraph::Graph::new`: a graph without nodes and edges.
#[verifier::external_body]
pub fn new_dependency_graph() -> (g: Graph<usize, ()>)
    ensures
        dependency_graph_weights(g) == Seq::<usize>::empty(),
        dependency_graph_edges(g) == Seq::<(int, int)>::empty(),
{
    Graph::new()
}

/// `petgraph::Graph::add_node`: appends a node with the given weight; the new
/// node's index is the previous number of nodes, which is returned. It panics
/// where the number of nodes reaches the limit of its `u32` indices.
#[verifier::external_body]
pub fn add_dependency_node(g: &mut Graph<usize, ()>, weight: usize) -> (index: usize)
    requires
        dependency_graph_weights(*old(g)).len() < u32::MAX,
    ensures
        index == dependency_graph_weights(*old(g)).len(),
        dependency_graph_weights(*final(g)) == dependency_graph_weights(*old(g)).push(weight),
        dependency_graph_edges(*final(g)) == dependency_graph_edges(*old(g)),
{
    g.add_node(weight).index()
}

/// `petgraph::Graph::add_edge`: appends an edge from node `a` to node `b`. It
/// panics where a node does not exist or the number of edges reaches the limit
/// of its `u32` indices.
#[verifier::external_body]
pub fn add_dependency_edge(g: &mut Graph<usize, ()>, a: usize, b: usize)
    requires
        a < dependency_graph_weights(*old(g)).len(),
        b < dependency_graph_weights(*old(g)).len(),
        dependency_graph_edges(*old(g)).len() < u32::MAX,
    ensures
        dependency_graph_weights(*final(g)) == dependency_graph_weights(*old(g)),
        dependency_graph_edges(*final(g)) == dependency_graph_edges(*old(g)).push(
            (a as int, b as int),
        ),
{
    g.add_edge(petgraph::graph::NodeIndex::new(a), petgraph::graph::NodeIndex::new(b), ());
}

/// `petgraph::algo::condensation`, asked to make the result acyclic: one node
/// per strongly connected component (see [`condensation_components`]), whose
/// weight lists the weights of the component's members in the order of their
/// indices, and one edge for each pair of components that an edge connects,
/// as [`condensed_edges`] orders them. The result is acyclic. The components
/// are the strongly connected components of `g`, as petgraph's Kosaraju
/// algorithm finds them: two nodes share one exactly when each reaches the
/// other.
#[verifier::external_body]
pub fn condense(g: Graph<usize, ()>) -> (r: Graph<Vec<usize>, ()>)
    requires
        forall|e: int|
            0 <= e < dependency_graph_edges(g).len() ==> 0 <= (#[trigger] dependency_graph_edges(
                g,
            )[e]).0 < dependency_graph_weights(g).len() && 0 <= dependency_graph_edges(g)[e].1
                < dependency_graph_weights(g).len(),
    ensures
        is_condensation_of(
            r,
            g,
            condensation_components(dependency_graph_weights(g).len(), dependency_graph_edges(g)),
        ),
{
    petgraph::algo::condensation(g, true)
}

/// `petgraph::algo::toposort`: for an acyclic graph, its nodes in an order in
/// which every edge leads forward (see [`toposort_order`]); `None` for a graph
/// with a cycle.
#[verifier::external_body]
pub fn sort_topologically(g: &Graph<Vec<usize>, ()>) -> (r: Option<Vec<usize>>)
    ensures
        is_topological_sort_of(
            r,
            *g,
            toposort_order(cluster_graph_weights(*g).len(), cluster_graph_edges(*g)),
        ),
{
    match petgraph::algo::toposort(g, None) {
        Ok(order) => Some(order.into_iter().map(|i| i.index()).collect()),
        Err(_) => None,
    }
}

/// `petgraph::Graph::node_weight`: the weight of node `index`, if it exists.
/// The index is converted to petgraph's `u32` node index, so it must fit.
#[verifier::external_body]
pub fn cluster_node_weight(g: &Graph<Vec<usize>, ()>, index: usize) -> (r: Option<&Vec<usize>>)
    requires
        index < u32::MAX,
    ensures
        r is Some <==> index < cluster_graph_weights(*g).len(),
        r matches Some(w) ==> w@ == cluster_graph_weights(*g)[index as int],
{
    g.node_weight(petgraph::graph::NodeIndex::new(index))
}

} // verus!
