//! # Ordering functions by their dependencies

use vstd::prelude::*;

use crate::call_graph::{Cluster, ClusterView, OrderedFunctions};
use crate::code::{
    anonymous_position, BranchView, Expression, ExpressionView, Function, Functions, FunctionsView,
};
use crate::graph::{
    add_dependency_edge, add_dependency_node, cluster_graph_weights, cluster_node_weight, component_of,
    condensation_components, condense, condensed_edges, dependency_graph_edges,
    dependency_graph_weights, new_dependency_graph, sort_topologically, toposort_order,
};
use crate::location::{
    BranchIndex, BranchLocation, FragmentIndexInBranchBody, FragmentLocation, FunctionLocation,
};

verus! {

/// Whether every index within the functions fits into the `u32` that a
/// location holds
pub open spec fn has_small_indices(functions: FunctionsView) -> bool {
    &&& functions.count() < u32::MAX
    &&& forall|p: int|
        0 <= p < functions.count() ==> (#[trigger] functions.function_at_position(p)).branches.len()
            <= u32::MAX && forall|b: int|
            0 <= b < functions.function_at_position(p).branches.len() ==> (
            #[trigger] functions.function_at_position(p).branches[b]).body.len() <= u32::MAX
}

/// The location of expression `k` in branch `b` of the function at position `p`
pub open spec fn expression_location(functions: FunctionsView, p: int, b: int, k: int) -> FragmentLocation {
    FragmentLocation {
        parent: Box::new(
            BranchLocation { parent: Box::new(functions.location_of(p)), index: BranchIndex(b as u32) },
        ),
        index: FragmentIndexInBranchBody(k as u32),
    }
}

/// The position of the function that `expression`, at `location`, depends on
///
/// An identifier that is known to call a user-defined function depends on the
/// first named function of that name. A function literal depends on the
/// anonymous function that it defines.
pub open spec fn dependee(
    functions: FunctionsView,
    expression: ExpressionView,
    location: FragmentLocation,
) -> Option<int> {
    match expression {
        ExpressionView::UnresolvedIdentifier {
            name,
            is_known_to_be_call_to_user_defined_function,
            ..
        } => if is_known_to_be_call_to_user_defined_function {
            functions.named_position(name)
        } else {
            None
        },
        ExpressionView::UnresolvedLocalFunction => match anonymous_position(
            functions.anonymous,
            location,
        ) {
            Some(i) => Some(functions.named.len() + i),
            None => None,
        },
        _ => None,
    }
}

/// The dependencies of the expressions in `body`, branch `b` of the function at
/// position `p`, as edges from `p` to the position of the dependee
pub open spec fn body_dependencies(
    functions: FunctionsView,
    p: int,
    b: int,
    body: Seq<ExpressionView>,
) -> Seq<(int, int)>
    decreases body.len(),
{
    if body.len() == 0 {
        seq![]
    } else {
        let k = body.len() - 1;
        body_dependencies(functions, p, b, body.drop_last()) + match dependee(
            functions,
            body[k],
            expression_location(functions, p, b, k),
        ) {
            Some(q) => seq![(p, q)],
            None => seq![],
        }
    }
}

/// The dependencies of the function at position `p`, whose branches are
/// `branches`
pub open spec fn branch_dependencies(functions: FunctionsView, p: int, branches: Seq<BranchView>) -> Seq<
    (int, int),
>
    decreases branches.len(),
{
    if branches.len() == 0 {
        seq![]
    } else {
        branch_dependencies(functions, p, branches.drop_last()) + body_dependencies(
            functions,
            p,
            branches.len() - 1,
            branches.last().body,
        )
    }
}

/// The dependencies of the first `n` functions
pub open spec fn dependencies_up_to(functions: FunctionsView, n: int) -> Seq<(int, int)>
    decreases n,
{
    if n <= 0 {
        seq![]
    } else {
        dependencies_up_to(functions, n - 1) + branch_dependencies(
            functions,
            n - 1,
            functions.function_at_position(n - 1).branches,
        )
    }
}

/// The dependencies between all functions, as edges between their positions
pub open spec fn dependency_edges(functions: FunctionsView) -> Seq<(int, int)> {
    dependencies_up_to(functions, functions.count() as int)
}

/// The clusters of the dependency graph of `functions`, starting at the leaves
pub open spec fn spec_order_functions(functions: FunctionsView) -> Seq<ClusterView> {
    let edges = dependency_edges(functions);
    let components = condensation_components(functions.count(), edges);
    let order = toposort_order(components.len(), condensed_edges(components, edges));
    Seq::new(
        order.len(),
        |c: int|
            ClusterView {
                functions: components[order[order.len() - 1 - c]].map_values(
                    |n: int| functions.location_of(n),
                ),
                divergent_functions: None,
                non_divergent_branches: None,
            },
    )
}

proof fn lemma_dependee_in_range(functions: FunctionsView, e: ExpressionView, location: FragmentLocation)
    ensures
        dependee(functions, e, location) matches Some(q) ==> 0 <= q < functions.count(),
{
    match e {
        ExpressionView::UnresolvedIdentifier { name, .. } => {
            crate::code::named_position_found(functions.named, name);
        },
        ExpressionView::UnresolvedLocalFunction => {
            crate::code::anonymous_position_found(functions.anonymous, location);
        },
        _ => {},
    }
}

proof fn lemma_body_dependencies_in_range(
    functions: FunctionsView,
    p: int,
    b: int,
    body: Seq<ExpressionView>,
)
    requires
        0 <= p < functions.count(),
    ensures
        forall|e: int|
            0 <= e < body_dependencies(functions, p, b, body).len() ==> (#[trigger] body_dependencies(
                functions,
                p,
                b,
                body,
            )[e]).0 == p && 0 <= body_dependencies(functions, p, b, body)[e].1 < functions.count(),
    decreases body.len(),
{
    if body.len() > 0 {
        let k = body.len() - 1;
        lemma_body_dependencies_in_range(functions, p, b, body.drop_last());
        lemma_dependee_in_range(functions, body[k], expression_location(functions, p, b, k));
        let front = body_dependencies(functions, p, b, body.drop_last());
        let all = body_dependencies(functions, p, b, body);
        assert forall|e: int| 0 <= e < all.len() implies (#[trigger] all[e]).0 == p && 0 <= all[e].1
            < functions.count() by {
            if e < front.len() {
                assert(all[e] == front[e]);
            }
        }
    }
}

proof fn lemma_branch_dependencies_in_range(
    functions: FunctionsView,
    p: int,
    branches: Seq<BranchView>,
)
    requires
        0 <= p < functions.count(),
    ensures
        forall|e: int|
            0 <= e < branch_dependencies(functions, p, branches).len() ==> (
            #[trigger] branch_dependencies(functions, p, branches)[e]).0 == p && 0
                <= branch_dependencies(functions, p, branches)[e].1 < functions.count(),
    decreases branches.len(),
{
    if branches.len() > 0 {
        lemma_branch_dependencies_in_range(functions, p, branches.drop_last());
        lemma_body_dependencies_in_range(functions, p, branches.len() - 1, branches.last().body);
        let front = branch_dependencies(functions, p, branches.drop_last());
        let back = body_dependencies(functions, p, branches.len() - 1, branches.last().body);
        let all = branch_dependencies(functions, p, branches);
        assert forall|e: int| 0 <= e < all.len() implies (#[trigger] all[e]).0 == p && 0 <= all[e].1
            < functions.count() by {
            if e < front.len() {
                assert(all[e] == front[e]);
            } else {
                assert(all[e] == back[e - front.len()]);
            }
        }
    }
}

/// Every dependency leads from a function to a function.
pub proof fn dependencies_are_between_functions(functions: FunctionsView, n: int)
    requires
        0 <= n <= functions.count(),
    ensures
        forall|e: int|
            0 <= e < dependencies_up_to(functions, n).len() ==> 0 <= (
            #[trigger] dependencies_up_to(functions, n)[e]).0 < n && 0 <= dependencies_up_to(
                functions,
                n,
            )[e].1 < functions.count(),
    decreases n,
{
    if n > 0 {
        dependencies_are_between_functions(functions, n - 1);
        lemma_branch_dependencies_in_range(
            functions,
            n - 1,
            functions.function_at_position(n - 1).branches,
        );
        let front = dependencies_up_to(functions, n - 1);
        let back = branch_dependencies(functions, n - 1, functions.function_at_position(n - 1).branches);
        let all = dependencies_up_to(functions, n);
        assert forall|e: int| 0 <= e < all.len() implies 0 <= (#[trigger] all[e]).0 < n && 0 <= all[e].1
            < functions.count() by {
            if e < front.len() {
                assert(all[e] == front[e]);
            } else {
                assert(all[e] == back[e - front.len()]);
            }
        }
    }
}

/// # The position of the function that an expression depends on
fn find_dependee(
    functions: &Functions,
    expression: &Expression,
    function_location: &FunctionLocation,
    b: usize,
    k: usize,
    p: Ghost<int>,
) -> (r: Option<usize>)
    requires
        0 <= p@ < functions.deep_view().count(),
        *function_location == functions.deep_view().location_of(p@),
        b <= u32::MAX,
        k <= u32::MAX,
        functions.deep_view().count() < u32::MAX,
    ensures
        r matches Some(q) ==> dependee(
            functions.deep_view(),
            expression.deep_view(),
            expression_location(functions.deep_view(), p@, b as int, k as int),
        ) == Some(q as int),
        r is None ==> dependee(
            functions.deep_view(),
            expression.deep_view(),
            expression_location(functions.deep_view(), p@, b as int, k as int),
        ) is None,
{
    match expression {
        Expression::UnresolvedIdentifier { name, is_known_to_be_call_to_user_defined_function, .. } => {
            if *is_known_to_be_call_to_user_defined_function {
                functions.find_named_position(name.as_str())
            } else {
                None
            }
        },
        Expression::UnresolvedLocalFunction => {
            let location = FragmentLocation {
                parent: Box::new(
                    BranchLocation {
                        parent: Box::new(function_location.copied()),
                        index: BranchIndex(b as u32),
                    },
                ),
                index: FragmentIndexInBranchBody(k as u32),
            };
            match functions.find_anonymous_position(&location) {
                Some(i) => {
                    proof {
                        crate::code::anonymous_position_found(
                            functions.deep_view().anonymous,
                            location,
                        );
                    }
                    Some(functions.named.len() + i)
                },
                None => None,
            }
        },
        _ => None,
    }
}


/// # Add the edges from the function at position `p` to its dependees
fn add_function_dependencies(
    graph: &mut petgraph::graph::Graph<usize, ()>,
    functions: &Functions,
    p: usize,
)
    requires
        p < functions.deep_view().count(),
        has_small_indices(functions.deep_view()),
        dependency_graph_weights(*old(graph)).len() == functions.deep_view().count(),
        dependency_graph_edges(*old(graph)) == dependencies_up_to(functions.deep_view(), p as int),
        dependencies_up_to(functions.deep_view(), p + 1).len() < u32::MAX,
    ensures
        dependency_graph_weights(*final(graph)) == dependency_graph_weights(*old(graph)),
        dependency_graph_edges(*final(graph)) == dependencies_up_to(
            functions.deep_view(),
            p + 1,
        ),
{
    let ghost fs = functions.deep_view();
    let function = functions.function_at_position(p);
    let location = functions.location_of(p);
    let ghost branches = fs.function_at_position(p as int).branches;
    let n = function.branches.len();
    let mut b: usize = 0;
    assert(branches.take(0) =~= Seq::<BranchView>::empty());
    assert(dependencies_up_to(fs, p as int) + branch_dependencies(fs, p as int, branches.take(0))
        =~= dependencies_up_to(fs, p as int));
    while b < n
        invariant
            fs == functions.deep_view(),
            p < fs.count(),
            has_small_indices(fs),
            function.deep_view() == fs.function_at_position(p as int),
            branches == fs.function_at_position(p as int).branches,
            location == fs.location_of(p as int),
            n == branches.len(),
            b <= n,
            dependency_graph_weights(*graph) == dependency_graph_weights(*old(graph)),
            dependency_graph_weights(*graph).len() == fs.count(),
            dependency_graph_edges(*graph) == dependencies_up_to(fs, p as int)
                + branch_dependencies(fs, p as int, branches.take(b as int)),
            dependencies_up_to(fs, p + 1).len() < u32::MAX,
        decreases n - b,
    {
        let branch = &function.branches[b];
        let ghost body = branch.body.deep_view();
        let m = branch.body.len();
        let mut k: usize = 0;
        assert(body.take(0) =~= Seq::<ExpressionView>::empty());
        assert(dependency_graph_edges(*graph) =~= dependencies_up_to(fs, p as int)
            + branch_dependencies(fs, p as int, branches.take(b as int)) + body_dependencies(
            fs,
            p as int,
            b as int,
            body.take(0),
        ));
        assert(branches.take(b + 1).drop_last() =~= branches.take(b as int));
        proof {
            assert(fs.function_at_position(p as int).branches[b as int].body.len() <= u32::MAX);
            assert(b <= u32::MAX);
        }
        while k < m
            invariant
                fs == functions.deep_view(),
                p < fs.count(),
                has_small_indices(fs),
                branch.deep_view() == branches[b as int],
                body == branches[b as int].body,
                branches == fs.function_at_position(p as int).branches,
                location == fs.location_of(p as int),
                n == branches.len(),
                b < n,
                m == body.len(),
                m <= u32::MAX,
                b <= u32::MAX,
                k <= m,
                dependency_graph_weights(*graph) == dependency_graph_weights(*old(graph)),
                dependency_graph_weights(*graph).len() == fs.count(),
                dependency_graph_edges(*graph) == dependencies_up_to(fs, p as int)
                    + branch_dependencies(fs, p as int, branches.take(b as int)) + body_dependencies(
                    fs,
                    p as int,
                    b as int,
                    body.take(k as int),
                ),
                dependencies_up_to(fs, p + 1).len() < u32::MAX,
            decreases m - k,
        {
            let dependee = find_dependee(functions, &branch.body[k], &location, b, k, Ghost(p as int));
            assert(body.take(k + 1).drop_last() =~= body.take(k as int));
            assert(body.take(k + 1)[k as int] == body[k as int]);
            let ghost before = dependency_graph_edges(*graph);
            proof {
                lemma_prefix_dependencies_bounded(fs, p as int, b as int, k as int);
            }
            if let Some(q) = dependee {
                proof {
                    lemma_dependee_in_range(
                        fs,
                        body[k as int],
                        expression_location(fs, p as int, b as int, k as int),
                    );
                }
                add_dependency_edge(graph, p, q);
            }
            assert(dependency_graph_edges(*graph) =~= dependencies_up_to(fs, p as int)
                + branch_dependencies(fs, p as int, branches.take(b as int)) + body_dependencies(
                fs,
                p as int,
                b as int,
                body.take(k + 1),
            ));
            k = k + 1;
        }
        assert(body.take(m as int) =~= body);
        assert(dependency_graph_edges(*graph) =~= dependencies_up_to(fs, p as int)
            + branch_dependencies(fs, p as int, branches.take(b + 1)));
        b = b + 1;
    }
    assert(branches.take(n as int) =~= branches);
}

/// The edges added so far, together with the next one, are no more than all
/// edges of the function.
proof fn lemma_prefix_dependencies_bounded(functions: FunctionsView, p: int, b: int, k: int)
    requires
        0 <= p < functions.count(),
        0 <= b < functions.function_at_position(p).branches.len(),
        0 <= k < functions.function_at_position(p).branches[b].body.len(),
    ensures
        ({
            let branches = functions.function_at_position(p).branches;
            (dependencies_up_to(functions, p) + branch_dependencies(functions, p, branches.take(b))
                + body_dependencies(functions, p, b, branches[b].body.take(k + 1))).len()
                <= dependencies_up_to(functions, p + 1).len()
        }),
{
    let branches = functions.function_at_position(p).branches;
    lemma_body_dependencies_prefix_len(functions, p, b, branches[b].body, k + 1);
    lemma_branch_dependencies_prefix_len(functions, p, branches, b + 1);
    assert(branches.take(b + 1).drop_last() =~= branches.take(b));
    assert(branches.take(b + 1).last() == branches[b]);
}

proof fn lemma_body_dependencies_prefix_len(
    functions: FunctionsView,
    p: int,
    b: int,
    body: Seq<ExpressionView>,
    k: int,
)
    requires
        0 <= k <= body.len(),
    ensures
        body_dependencies(functions, p, b, body.take(k)).len() <= body_dependencies(
            functions,
            p,
            b,
            body,
        ).len(),
    decreases body.len(),
{
    if k < body.len() {
        lemma_body_dependencies_prefix_len(functions, p, b, body.drop_last(), k);
        assert(body.drop_last().take(k) =~= body.take(k));
    } else {
        assert(body.take(k) =~= body);
    }
}

proof fn lemma_branch_dependencies_prefix_len(
    functions: FunctionsView,
    p: int,
    branches: Seq<BranchView>,
    b: int,
)
    requires
        0 <= b <= branches.len(),
    ensures
        branch_dependencies(functions, p, branches.take(b)).len() <= branch_dependencies(
            functions,
            p,
            branches,
        ).len(),
    decreases branches.len(),
{
    if b < branches.len() {
        lemma_branch_dependencies_prefix_len(functions, p, branches.drop_last(), b);
        assert(branches.drop_last().take(b) =~= branches.take(b));
    } else {
        assert(branches.take(b) =~= branches);
    }
}


/// Whether cluster `c` of `clusters` holds the function at `location`
pub open spec fn in_cluster(clusters: Seq<ClusterView>, c: int, location: FunctionLocation) -> bool {
    0 <= c < clusters.len() && clusters[c].functions.contains(location)
}

/// Whether every function is in one of `clusters`
pub open spec fn all_functions_clustered(clusters: Seq<ClusterView>, functions: FunctionsView) -> bool {
    forall|p: int|
        #![trigger functions.location_of(p)]
        0 <= p < functions.count() ==> exists|c: int| #[trigger]
            in_cluster(clusters, c, functions.location_of(p))
}

/// Whether no function is in `clusters` twice
pub open spec fn no_function_clustered_twice(clusters: Seq<ClusterView>) -> bool {
    forall|c: int, d: int, i: int, j: int|
        0 <= c < clusters.len() && 0 <= d < clusters.len() && 0 <= i < clusters[c].functions.len()
            && 0 <= j < clusters[d].functions.len() && #[trigger] clusters[c].functions[i]
            == #[trigger] clusters[d].functions[j] ==> c == d && i == j
}

/// Whether, for every dependency, the cluster of the dependee comes no later
/// than the cluster of the function that depends on it
pub open spec fn dependees_come_first(clusters: Seq<ClusterView>, functions: FunctionsView) -> bool {
    let edges = dependency_edges(functions);
    forall|e: int, c: int, d: int|
        0 <= e < edges.len() && #[trigger] in_cluster(clusters, c, functions.location_of(edges[e].0))
            && #[trigger] in_cluster(clusters, d, functions.location_of(edges[e].1)) ==> d <= c
}

/// Whether two functions share a cluster exactly when each depends on the
/// other, directly or through other functions: the clusters are the groups of
/// mutually recursive functions
pub open spec fn clusters_are_mutually_recursive(clusters: Seq<ClusterView>, functions: FunctionsView) -> bool {
    forall|p: int, q: int|
        #![trigger functions.location_of(p), functions.location_of(q)]
        0 <= p < functions.count() && 0 <= q < functions.count() ==> ((exists|c: int|
            #[trigger] in_cluster(clusters, c, functions.location_of(p)) && in_cluster(
                clusters,
                c,
                functions.location_of(q),
            )) <==> crate::graph::mutually_reachable(dependency_edges(functions), p, q))
}

/// Different functions have different locations.
pub proof fn locations_are_distinct(functions: FunctionsView, p: int, q: int)
    requires
        functions.is_addressable(),
        0 <= p < functions.count(),
        0 <= q < functions.count(),
        functions.location_of(p) == functions.location_of(q),
    ensures
        p == q,
{
    let n = functions.named.len();
    if p < n && q < n {
        assert((p as u32) as int == p);
        assert((q as u32) as int == q);
    } else if p >= n && q >= n {
        if p != q {
            if p < q {
                assert(functions.anonymous[p - n].location != functions.anonymous[q - n].location);
            } else {
                assert(functions.anonymous[q - n].location != functions.anonymous[p - n].location);
            }
        }
    }
}

proof fn lemma_condensed_edges_grow(components: Seq<Seq<int>>, edges: Seq<(int, int)>, m: int)
    requires
        0 <= m <= edges.len(),
    ensures
        forall|x: (int, int)| condensed_edges(components, edges.take(m)).contains(x) ==> condensed_edges(
            components,
            edges,
        ).contains(x),
    decreases edges.len() - m,
{
    if m < edges.len() {
        lemma_condensed_edges_grow(components, edges.drop_last(), m);
        assert(edges.drop_last().take(m) =~= edges.take(m));
        let before = condensed_edges(components, edges.drop_last());
        let after = condensed_edges(components, edges);
        assert forall|x: (int, int)| before.contains(x) implies after.contains(x) by {
            let i = choose|i: int| 0 <= i < before.len() && before[i] == x;
            assert(after[i] == x);
        }
    } else {
        assert(edges.take(m) =~= edges);
    }
}

/// An edge between two components is an edge of the condensed graph.
proof fn lemma_crossing_edge_condensed(components: Seq<Seq<int>>, edges: Seq<(int, int)>, e: int)
    requires
        0 <= e < edges.len(),
        component_of(components, edges[e].0) != component_of(components, edges[e].1),
    ensures
        condensed_edges(components, edges).contains(
            (component_of(components, edges[e].0), component_of(components, edges[e].1)),
        ),
{
    let prefix = edges.take(e + 1);
    assert(prefix.last() == edges[e]);
    assert(prefix.drop_last() =~= edges.take(e));
    let edge = (component_of(components, edges[e].0), component_of(components, edges[e].1));
    if !condensed_edges(components, prefix.drop_last()).contains(edge) {
        assert(condensed_edges(components, prefix).last() == edge);
    }
    assert(condensed_edges(components, prefix).contains(edge));
    lemma_condensed_edges_grow(components, edges, e + 1);
}

/// # Order functions by their dependencies
///
/// Builds the dependency graph of all functions, groups mutually recursive
/// functions into clusters, and orders the clusters such that a cluster comes
/// after the clusters that it depends on.
pub fn order_functions_by_dependencies(functions: &Functions) -> (r: OrderedFunctions)
    requires
        has_small_indices(functions.deep_view()),
        dependency_edges(functions.deep_view()).len() < u32::MAX,
    ensures
        r.clusters.deep_view() == spec_order_functions(functions.deep_view()),
        all_functions_clustered(r.clusters.deep_view(), functions.deep_view()),
        functions.deep_view().is_addressable() ==> no_function_clustered_twice(
            r.clusters.deep_view(),
        ),
        functions.deep_view().is_addressable() ==> dependees_come_first(
            r.clusters.deep_view(),
            functions.deep_view(),
        ),
        functions.deep_view().is_addressable() ==> clusters_are_mutually_recursive(
            r.clusters.deep_view(),
            functions.deep_view(),
        ),
{
    let ghost fs = functions.deep_view();
    let count = functions.count();
    let mut graph = new_dependency_graph();
    let mut p: usize = 0;
    while p < count
        invariant
            fs == functions.deep_view(),
            count == fs.count(),
            count < u32::MAX,
            p <= count,
            dependency_graph_weights(graph) == Seq::new(p as nat, |i: int| i as usize),
            dependency_graph_edges(graph) == Seq::<(int, int)>::empty(),
        decreases count - p,
    {
        add_dependency_node(&mut graph, p);
        assert(dependency_graph_weights(graph) =~= Seq::new((p + 1) as nat, |i: int| i as usize));
        p = p + 1;
    }
    let mut p: usize = 0;
    while p < count
        invariant
            fs == functions.deep_view(),
            count == fs.count(),
            has_small_indices(fs),
            dependency_edges(fs).len() < u32::MAX,
            p <= count,
            dependency_graph_weights(graph) == Seq::new(count as nat, |i: int| i as usize),
            dependency_graph_edges(graph) == dependencies_up_to(fs, p as int),
        decreases count - p,
    {
        proof {
            lemma_dependencies_grow(fs, p + 1, count as int);
        }
        add_function_dependencies(&mut graph, functions, p);
        p = p + 1;
    }
    let ghost weights = dependency_graph_weights(graph);
    let ghost edges = dependency_graph_edges(graph);
    assert(edges == dependency_edges(fs));
    proof {
        dependencies_are_between_functions(fs, count as int);
    }
    let condensed = condense(graph);
    let ghost components = condensation_components(count as nat, edges);
    let ghost sorted = toposort_order(components.len(), condensed_edges(components, edges));
    let order = match sort_topologically(&condensed) {
        Some(order) => order,
        None => {
            assert(false);
            Vec::new()
        },
    };
    let k = order.len();
    proof {
        crate::graph::partition_is_small(components, count as nat);
    }
    let mut clusters: Vec<Cluster> = Vec::new();
    let mut c: usize = 0;
    while c < k
        invariant
            fs == functions.deep_view(),
            count == fs.count(),
            count < u32::MAX,
            has_small_indices(fs),
            weights == Seq::new(count as nat, |i: int| i as usize),
            weights == dependency_graph_weights(graph),
            crate::graph::is_condensation_of(condensed, graph, components),
            components == condensation_components(count as nat, edges),
            edges == dependency_edges(fs),
            sorted == toposort_order(components.len(), condensed_edges(components, edges)),
            order@.map_values(|i: usize| i as int) == sorted,
            cluster_graph_weights(condensed).len() == components.len(),
            k == order@.len(),
            k == components.len(),
            k <= count,
            forall|i: int| 0 <= i < k ==> #[trigger] order@[i] < k,
            c <= k,
            clusters.deep_view() =~= spec_order_functions(fs).take(c as int),
        decreases k - c,
    {
        let node = order[k - 1 - c];
        let members = match cluster_node_weight(&condensed, node) {
            Some(members) => members,
            None => {
                assert(false);
                return OrderedFunctions { clusters };
            },
        };
        assert(cluster_graph_weights(condensed)[node as int] == components[node as int].map_values(|n: int| weights[n]));
        assert(members@ == components[node as int].map_values(|n: int| weights[n]));
        let mut locations: Vec<FunctionLocation> = Vec::new();
        let m = members.len();
        let mut i: usize = 0;
        while i < m
            invariant
                fs == functions.deep_view(),
                count == fs.count(),
                count < u32::MAX,
                has_small_indices(fs),
                weights == Seq::new(count as nat, |i: int| i as usize),
                crate::graph::is_partition(components, count as nat),
                0 <= node < components.len(),
                members@ == components[node as int].map_values(|n: int| weights[n]),
                m == members@.len(),
                i <= m,
                locations@ =~= components[node as int].take(i as int).map_values(
                    |n: int| fs.location_of(n),
                ),
            decreases m - i,
        {
            let position = members[i];
            assert(components[node as int][i as int] < count);
            assert(position as int == components[node as int][i as int]);
            let location = functions.location_of(position);
            locations.push(location);
            assert(components[node as int].take(i + 1).drop_last() =~= components[node as int].take(i as int));
            i = i + 1;
        }
        assert(components[node as int].take(m as int) =~= components[node as int]);
        let cluster = Cluster {
            functions: locations,
            divergent_functions: None,
            non_divergent_branches: None,
        };
        let ghost expected = ClusterView {
            functions: components[node as int].map_values(|n: int| fs.location_of(n)),
            divergent_functions: None,
            non_divergent_branches: None,
        };
        assert(cluster.deep_view() == expected);
        assert(sorted.len() == k);
        assert(sorted[k - 1 - c] == node);
        assert(spec_order_functions(fs)[c as int] == expected);
        let ghost before = clusters.deep_view();
        clusters.push(cluster);
        assert(clusters.deep_view() =~= before.push(expected));
        assert(clusters.deep_view() =~= spec_order_functions(fs).take(c + 1));
        c = c + 1;
    }
    assert(spec_order_functions(fs).take(k as int) =~= spec_order_functions(fs));
    proof {
        lemma_ordered_clusters(fs, clusters.deep_view(), components, sorted, edges);
    }
    OrderedFunctions { clusters }
}

proof fn lemma_ordered_clusters(
    fs: FunctionsView,
    clusters: Seq<ClusterView>,
    components: Seq<Seq<int>>,
    sorted: Seq<int>,
    edges: Seq<(int, int)>,
)
    requires
        edges == dependency_edges(fs),
        components == condensation_components(fs.count(), edges),
        sorted == toposort_order(components.len(), condensed_edges(components, edges)),
        clusters == spec_order_functions(fs),
        crate::graph::is_partition(components, fs.count()),
        crate::graph::is_scc_partition(components, fs.count(), edges),
        sorted.len() == components.len(),
        forall|i: int, j: int| 0 <= i < j < sorted.len() ==> #[trigger] sorted[i] != #[trigger] sorted[j],
        forall|i: int| 0 <= i < sorted.len() ==> 0 <= #[trigger] sorted[i] < components.len(),
        forall|e: int, i: int, j: int|
            #![trigger condensed_edges(components, edges)[e], sorted[i], sorted[j]]
            0 <= e < condensed_edges(components, edges).len() && 0 <= i < sorted.len() && 0 <= j
                < sorted.len() && sorted[i] == condensed_edges(components, edges)[e].0 && sorted[j]
                == condensed_edges(components, edges)[e].1 ==> i < j,
        forall|e: int|
            0 <= e < edges.len() ==> 0 <= (#[trigger] edges[e]).0 < fs.count() && 0 <= edges[e].1
                < fs.count(),
    ensures
        all_functions_clustered(clusters, fs),
        fs.is_addressable() ==> no_function_clustered_twice(clusters),
        fs.is_addressable() ==> dependees_come_first(clusters, fs),
        fs.is_addressable() ==> clusters_are_mutually_recursive(clusters, fs),
{
    let k = sorted.len() as int;
    assert forall|p: int|
        #![trigger fs.location_of(p)]
        0 <= p < fs.count() implies exists|c: int| #[trigger]
        in_cluster(clusters, c, fs.location_of(p)) by {
        assert(crate::graph::is_member(components, p));
        let (x, i) = choose|x: int, i: int|
            #![trigger components[x][i]]
            0 <= x < components.len() && 0 <= i < components[x].len() && components[x][i] == p;
        lemma_permutation_covers(sorted, k, x);
        let pos = choose|pos: int| 0 <= pos < k && #[trigger] sorted[pos] == x;
        let c = k - 1 - pos;
        assert(clusters[c].functions[i] == fs.location_of(p));
        assert(in_cluster(clusters, c, fs.location_of(p)));
    }
    if fs.is_addressable() {
        assert forall|c: int, d: int, i: int, j: int|
            0 <= c < clusters.len() && 0 <= d < clusters.len() && 0 <= i < clusters[c].functions.len()
                && 0 <= j < clusters[d].functions.len() && #[trigger] clusters[c].functions[i]
                == #[trigger] clusters[d].functions[j] implies c == d && i == j by {
            let x = sorted[k - 1 - c];
            let y = sorted[k - 1 - d];
            locations_are_distinct(fs, components[x][i], components[y][j]);
            if c != d {
                assert(sorted[k - 1 - c] != sorted[k - 1 - d]);
            }
        }
        assert forall|e: int, c: int, d: int|
            0 <= e < edges.len() && #[trigger] in_cluster(clusters, c, fs.location_of(edges[e].0))
                && #[trigger] in_cluster(clusters, d, fs.location_of(edges[e].1)) implies d <= c by {
            let p = edges[e].0;
            let q = edges[e].1;
            let x = sorted[k - 1 - c];
            let y = sorted[k - 1 - d];
            let i = choose|i: int| 0 <= i < clusters[c].functions.len() && clusters[c].functions[i] == fs.location_of(p);
            let j = choose|j: int| 0 <= j < clusters[d].functions.len() && clusters[d].functions[j] == fs.location_of(q);
            locations_are_distinct(fs, components[x][i], p);
            locations_are_distinct(fs, components[y][j], q);
            lemma_component_of(components, fs.count(), x, i);
            lemma_component_of(components, fs.count(), y, j);
            if x != y {
                lemma_crossing_edge_condensed(components, edges, e);
                let ce = condensed_edges(components, edges);
                let f = choose|f: int| 0 <= f < ce.len() && ce[f] == (x, y);
                assert(ce[f].0 == sorted[k - 1 - c]);
                assert(ce[f].1 == sorted[k - 1 - d]);
            } else if c != d {
                assert(sorted[k - 1 - c] != sorted[k - 1 - d]);
            }
        }
        assert forall|p: int, q: int|
            #![trigger fs.location_of(p), fs.location_of(q)]
            0 <= p < fs.count() && 0 <= q < fs.count() implies ((exists|c: int|
                #[trigger] in_cluster(clusters, c, fs.location_of(p)) && in_cluster(clusters, c, fs.location_of(q)))
                <==> crate::graph::mutually_reachable(edges, p, q)) by {
            if exists|c: int| #[trigger] in_cluster(clusters, c, fs.location_of(p)) && in_cluster(clusters, c, fs.location_of(q)) {
                let c = choose|c: int| #[trigger] in_cluster(clusters, c, fs.location_of(p)) && in_cluster(clusters, c, fs.location_of(q));
                let x = sorted[k - 1 - c];
                let i = choose|i: int| 0 <= i < clusters[c].functions.len() && clusters[c].functions[i] == fs.location_of(p);
                let j = choose|j: int| 0 <= j < clusters[c].functions.len() && clusters[c].functions[j] == fs.location_of(q);
                locations_are_distinct(fs, components[x][i], p);
                locations_are_distinct(fs, components[x][j], q);
                assert(components[x][i] == p && components[x][j] == q);
                assert(components[x].contains(p) && components[x].contains(q));
                assert(crate::graph::same_component(components, p, q));
            }
            if crate::graph::mutually_reachable(edges, p, q) {
                assert(crate::graph::same_component(components, p, q));
                let x = choose|x: int| 0 <= x < components.len() && #[trigger] components[x].contains(p) && components[x].contains(q);
                let i = choose|i: int| 0 <= i < components[x].len() && components[x][i] == p;
                let j = choose|j: int| 0 <= j < components[x].len() && components[x][j] == q;
                lemma_permutation_covers(sorted, k, x);
                let pos = choose|pos: int| 0 <= pos < k && #[trigger] sorted[pos] == x;
                let c = k - 1 - pos;
                assert(clusters[c].functions[i] == fs.location_of(p));
                assert(clusters[c].functions[j] == fs.location_of(q));
                assert(in_cluster(clusters, c, fs.location_of(p)) && in_cluster(clusters, c, fs.location_of(q)));
            }
        }
    }
}

proof fn lemma_component_of(components: Seq<Seq<int>>, n: nat, x: int, i: int)
    requires
        crate::graph::is_partition(components, n),
        0 <= x < components.len(),
        0 <= i < components[x].len(),
    ensures
        component_of(components, components[x][i]) == x,
{
    let p = components[x][i];
    assert(components[x].contains(p));
    let y = component_of(components, p);
    let j = choose|j: int| 0 <= j < components[y].len() && components[y][j] == p;
    assert(components[x][i] == components[y][j]);
}

proof fn lemma_permutation_covers(sorted: Seq<int>, k: int, x: int)
    requires
        sorted.len() == k,
        0 <= x < k,
        forall|i: int, j: int| 0 <= i < j < sorted.len() ==> #[trigger] sorted[i] != #[trigger] sorted[j],
        forall|i: int| 0 <= i < sorted.len() ==> 0 <= #[trigger] sorted[i] < k,
    ensures
        exists|i: int| 0 <= i < k && #[trigger] sorted[i] == x,
{
    if !(exists|i: int| 0 <= i < k && #[trigger] sorted[i] == x) {
        // `sorted` maps k positions injectively into k - 1 values
        let s = sorted.to_set();
        assert forall|v: int| s.contains(v) implies 0 <= v < k && v != x by {
            let i = choose|i: int| 0 <= i < sorted.len() && sorted[i] == v;
        }
        assert(s.subset_of(Set::new(|v: int| 0 <= v < k && v != x)));
        sorted.unique_seq_to_set();
        vstd::set_lib::lemma_int_range(0, k);
        let r = Set::new(|v: int| 0 <= v < k && v != x);
        assert(r =~= vstd::set_lib::set_int_range(0, k).remove(x));
        vstd::set_lib::lemma_len_subset(s, r);
    }
}

proof fn lemma_dependencies_grow(functions: FunctionsView, n: int, m: int)
    requires
        0 <= n <= m,
    ensures
        dependencies_up_to(functions, n).len() <= dependencies_up_to(functions, m).len(),
    decreases m - n,
{
    if n < m {
        lemma_dependencies_grow(functions, n, m - 1);
    }
}

} // verus!
