//! # Resolving function literals whose functions are in the same cluster

use vstd::prelude::*;

use crate::call_graph::{ClusterView, OrderedFunctions};
use crate::code::{
    Branch, BranchView, Expression, ExpressionView, Function, FunctionView, Functions,
    FunctionsView, StoredAt,
};
use crate::location::{
    BranchIndex, BranchLocation, FragmentIndexInBranchBody, FragmentLocation,
    FunctionIndexInCluster, FunctionLocation,
};
use crate::passes::resolve_recursive_calls::{clusters_are_small, clusters_refer_to};

verus! {

/// The index in `cluster` of the first anonymous function at `location`
pub open spec fn local_recursive_index(cluster: Seq<FunctionLocation>, location: FragmentLocation) -> Option<int>
    decreases cluster.len(),
{
    if cluster.len() == 0 {
        None
    } else if cluster[0] == (FunctionLocation::AnonymousFunction { location }) {
        Some(0)
    } else {
        match local_recursive_index(cluster.drop_first(), location) {
            Some(i) => Some(i + 1),
            None => None,
        }
    }
}

proof fn lemma_local_recursive_index_found(cluster: Seq<FunctionLocation>, location: FragmentLocation)
    ensures
        local_recursive_index(cluster, location) matches Some(i) ==> 0 <= i < cluster.len() && cluster[i]
            == (FunctionLocation::AnonymousFunction { location }),
    decreases cluster.len(),
{
    if cluster.len() > 0 && cluster[0] != (FunctionLocation::AnonymousFunction { location }) {
        lemma_local_recursive_index_found(cluster.drop_first(), location);
    }
}

/// Resolution changes only function literals, each into a recursive reference
/// to the function that it defines, by that function's index in the cluster.
pub proof fn local_functions_refer_to_their_own_functions(
    expression: ExpressionView,
    location: FragmentLocation,
    cluster: Seq<FunctionLocation>,
)
    requires
        cluster.len() <= u32::MAX,
    ensures
        resolve_local_function(expression, location, cluster) != expression ==> {
            &&& expression is UnresolvedLocalFunction
            &&& resolve_local_function(expression, location, cluster) matches ExpressionView::LocalFunctionRecursive {
                index,
            }
            &&& index.0 < cluster.len()
            &&& cluster[index.0 as int] == (FunctionLocation::AnonymousFunction { location })
        },
{
    lemma_local_recursive_index_found(cluster, location);
}

/// The location of expression `k` of branch `b` of the function at `function`
pub open spec fn location_in(function: FunctionLocation, b: int, k: int) -> FragmentLocation {
    FragmentLocation {
        parent: Box::new(BranchLocation { parent: Box::new(function), index: BranchIndex(b as u32) }),
        index: FragmentIndexInBranchBody(k as u32),
    }
}

/// `expression`, at `location`: a function literal whose function is in
/// `cluster` becomes a recursive reference to it, by its index in the cluster
pub open spec fn resolve_local_function(
    expression: ExpressionView,
    location: FragmentLocation,
    cluster: Seq<FunctionLocation>,
) -> ExpressionView {
    match expression {
        ExpressionView::UnresolvedLocalFunction => match local_recursive_index(cluster, location) {
            Some(i) => ExpressionView::LocalFunctionRecursive { index: FunctionIndexInCluster(i as u32) },
            None => expression,
        },
        _ => expression,
    }
}

/// `function`, at `location`, with its function literals resolved against
/// `cluster`
pub open spec fn resolve_local_functions_in_function(
    function: FunctionView,
    location: FunctionLocation,
    cluster: Seq<FunctionLocation>,
) -> FunctionView {
    FunctionView {
        branches: Seq::new(
            function.branches.len(),
            |b: int|
                BranchView {
                    parameters: function.branches[b].parameters,
                    body: Seq::new(
                        function.branches[b].body.len(),
                        |k: int|
                            resolve_local_function(
                                function.branches[b].body[k],
                                location_in(location, b, k),
                                cluster,
                            ),
                    ),
                },
        ),
    }
}

/// `functions`, with the function literals in the functions at `locations`
/// resolved against `cluster`
pub open spec fn resolve_local_functions_at(
    functions: FunctionsView,
    locations: Seq<FunctionLocation>,
    cluster: Seq<FunctionLocation>,
) -> FunctionsView
    decreases locations.len(),
{
    if locations.len() == 0 {
        functions
    } else {
        let before = resolve_local_functions_at(functions, locations.drop_last(), cluster);
        match before.function_at(locations.last()) {
            Some(f) => before.update_function(
                locations.last(),
                resolve_local_functions_in_function(f, locations.last(), cluster),
            ),
            None => before,
        }
    }
}

/// `functions`, with the function literals within each of the first `n`
/// clusters resolved
pub open spec fn resolve_local_functions_up_to(
    functions: FunctionsView,
    clusters: Seq<ClusterView>,
    n: int,
) -> FunctionsView
    decreases n,
{
    if n <= 0 {
        functions
    } else {
        resolve_local_functions_at(
            resolve_local_functions_up_to(functions, clusters, n - 1),
            clusters[n - 1].functions,
            clusters[n - 1].functions,
        )
    }
}

proof fn lemma_local_index(cluster: Seq<FunctionLocation>, location: FragmentLocation, k: int)
    requires
        0 <= k <= cluster.len(),
        forall|j: int| 0 <= j < k ==> #[trigger] cluster[j] != (FunctionLocation::AnonymousFunction { location }),
    ensures
        k < cluster.len() && cluster[k] == (FunctionLocation::AnonymousFunction { location })
            ==> local_recursive_index(cluster, location) == Some(k),
        k == cluster.len() ==> local_recursive_index(cluster, location) is None,
    decreases k,
{
    if k > 0 {
        let rest = cluster.drop_first();
        assert forall|j: int| 0 <= j < k - 1 implies #[trigger] rest[j] != (FunctionLocation::AnonymousFunction { location }) by {
            assert(rest[j] == cluster[j + 1]);
        }
        lemma_local_index(rest, location, k - 1);
    }
}

/// # The index in `cluster` of the first anonymous function at `location`
fn find_local_index(cluster: &Vec<FunctionLocation>, location: &FragmentLocation) -> (r: Option<usize>)
    ensures
        r matches Some(i) ==> local_recursive_index(cluster@, *location) == Some(i as int) && i < cluster@.len(),
        r is None ==> local_recursive_index(cluster@, *location) is None,
{
    let n = cluster.len();
    let mut i: usize = 0;
    while i < n
        invariant
            n == cluster@.len(),
            i <= n,
            forall|j: int| 0 <= j < i ==> #[trigger] cluster@[j] != (FunctionLocation::AnonymousFunction { location: *location }),
        decreases n - i,
    {
        if let FunctionLocation::AnonymousFunction { location: l } = &cluster[i] {
            if l.same_as(location) {
                proof {
                    lemma_local_index(cluster@, *location, i as int);
                }
                return Some(i);
            }
        }
        i = i + 1;
    }
    proof {
        lemma_local_index(cluster@, *location, n as int);
    }
    None
}

fn resolve_local_functions_in_branch(
    branch: &mut Branch,
    function_location: &FunctionLocation,
    b: usize,
    cluster: &Vec<FunctionLocation>,
)
    requires
        cluster@.len() <= u32::MAX,
    ensures
        final(branch).deep_view() == (BranchView {
            parameters: old(branch).deep_view().parameters,
            body: Seq::new(
                old(branch).deep_view().body.len(),
                |k: int|
                    resolve_local_function(
                        old(branch).deep_view().body[k],
                        location_in(*function_location, b as int, k),
                        cluster@,
                    ),
            ),
        }),
{
    let n = branch.body.len();
    let mut k: usize = 0;
    while k < n
        invariant
            n == branch.body.len(),
            n == old(branch).body.len(),
            k <= n,
            cluster@.len() <= u32::MAX,
            branch.parameters.deep_view() == old(branch).parameters.deep_view(),
            forall|j: int| 0 <= j < k ==> #[trigger] branch.body@[j].deep_view()
                == resolve_local_function(old(branch).body@[j].deep_view(), location_in(*function_location, b as int, j), cluster@),
            forall|j: int| k <= j < n ==> #[trigger] branch.body@[j].deep_view()
                == old(branch).body@[j].deep_view(),
        decreases n - k,
    {
        let ghost e = branch.body@[k as int].deep_view();
        let mut replacement: Option<Expression> = None;
        if let Expression::UnresolvedLocalFunction = &branch.body[k] {
            let location = FragmentLocation {
                parent: Box::new(BranchLocation {
                    parent: Box::new(function_location.copied()),
                    index: BranchIndex(b as u32),
                }),
                index: FragmentIndexInBranchBody(k as u32),
            };
            if let Some(index) = find_local_index(cluster, &location) {
                replacement = Some(Expression::LocalFunctionRecursive {
                    index: FunctionIndexInCluster(index as u32),
                });
            }
        }
        let ghost prev = branch.body@;
        if let Some(r) = replacement {
            branch.body.set(k, r);
        }
        assert(branch.body@[k as int].deep_view() == resolve_local_function(e, location_in(*function_location, b as int, k as int), cluster@));
        assert(forall|j: int| 0 <= j < n && j != k ==> branch.body@[j] == prev[j]);
        k = k + 1;
    }
    assert(branch.deep_view().body =~= Seq::new(
        old(branch).deep_view().body.len(),
        |k: int|
            resolve_local_function(
                old(branch).deep_view().body[k],
                location_in(*function_location, b as int, k),
                cluster@,
            ),
    ));
}

fn resolve_local_functions_in(
    function: &mut Function,
    function_location: &FunctionLocation,
    cluster: &Vec<FunctionLocation>,
)
    requires
        cluster@.len() <= u32::MAX,
    ensures
        final(function).deep_view() == resolve_local_functions_in_function(
            old(function).deep_view(),
            *function_location,
            cluster@,
        ),
{
    let n = function.branches.len();
    let mut b: usize = 0;
    while b < n
        invariant
            n == function.branches.len(),
            n == old(function).branches.len(),
            b <= n,
            cluster@.len() <= u32::MAX,
            forall|j: int| 0 <= j < b ==> #[trigger] function.branches@[j].deep_view()
                == resolve_local_functions_in_function(old(function).deep_view(), *function_location, cluster@).branches[j],
            forall|j: int| b <= j < n ==> #[trigger] function.branches@[j].deep_view()
                == old(function).branches@[j].deep_view(),
        decreases n - b,
    {
        let ghost prev = function.branches@;
        resolve_local_functions_in_branch(&mut function.branches[b], function_location, b, cluster);
        assert(function.branches@ == prev.update(b as int, function.branches@[b as int]));
        assert(prev[b as int].deep_view() == old(function).branches@[b as int].deep_view());
        assert(function.branches@[b as int].deep_view().body =~= resolve_local_functions_in_function(old(function).deep_view(), *function_location, cluster@).branches[b as int].body);
        b = b + 1;
    }
    assert(function.deep_view().branches =~= resolve_local_functions_in_function(
        old(function).deep_view(),
        *function_location,
        cluster@,
    ).branches);
}


proof fn lemma_resolve_at_same_shape(
    functions: FunctionsView,
    locations: Seq<FunctionLocation>,
    cluster: Seq<FunctionLocation>,
)
    ensures
        resolve_local_functions_at(functions, locations, cluster).same_shape(functions),
    decreases locations.len(),
{
    if locations.len() > 0 {
        lemma_resolve_at_same_shape(functions, locations.drop_last(), cluster);
        let before = resolve_local_functions_at(functions, locations.drop_last(), cluster);
        if let Some(f) = before.function_at(locations.last()) {
            crate::code::update_function_same_shape(
                before,
                locations.last(),
                resolve_local_functions_in_function(f, locations.last(), cluster),
            );
        }
    }
}

proof fn lemma_resolve_up_to_same_shape(functions: FunctionsView, clusters: Seq<ClusterView>, n: int)
    ensures
        resolve_local_functions_up_to(functions, clusters, n).same_shape(functions),
    decreases n,
{
    if n > 0 {
        lemma_resolve_up_to_same_shape(functions, clusters, n - 1);
        lemma_resolve_at_same_shape(
            resolve_local_functions_up_to(functions, clusters, n - 1),
            clusters[n - 1].functions,
            clusters[n - 1].functions,
        );
    }
}

/// # Resolve function literals whose functions are in the same cluster
///
/// Within each cluster, every function literal whose anonymous function is a
/// member of that cluster becomes a recursive reference, which refers to the
/// function by its index in the cluster.
pub fn resolve_recursive_local_functions(functions: &mut Functions, ordered_functions: &OrderedFunctions)
    requires
        clusters_refer_to(ordered_functions.clusters.deep_view(), old(functions).deep_view()),
        clusters_are_small(ordered_functions.clusters.deep_view()),
    ensures
        final(functions).deep_view() == resolve_local_functions_up_to(
            old(functions).deep_view(),
            ordered_functions.clusters.deep_view(),
            ordered_functions.clusters.deep_view().len() as int,
        ),
{
    let ghost initial = functions.deep_view();
    let ghost clusters = ordered_functions.clusters.deep_view();
    let count = ordered_functions.clusters.len();
    let mut c: usize = 0;
    while c < count
        invariant
            count == clusters.len(),
            clusters == ordered_functions.clusters.deep_view(),
            c <= count,
            clusters_refer_to(clusters, initial),
            clusters_are_small(clusters),
            functions.deep_view() == resolve_local_functions_up_to(initial, clusters, c as int),
        decreases count - c,
    {
        let cluster = &ordered_functions.clusters[c];
        let ghost start = functions.deep_view();
        proof {
            lemma_resolve_up_to_same_shape(initial, clusters, c as int);
        }
        let m = cluster.functions.len();
        let mut l: usize = 0;
        assert(clusters[c as int].functions.len() <= u32::MAX);
        assert(cluster.functions@.take(0) =~= Seq::<FunctionLocation>::empty());
        while l < m
            invariant
                count == clusters.len(),
                clusters == ordered_functions.clusters.deep_view(),
                c < count,
                cluster.deep_view() == clusters[c as int],
                m == cluster.functions@.len(),
                m <= u32::MAX,
                l <= m,
                clusters_refer_to(clusters, initial),
                start == resolve_local_functions_up_to(initial, clusters, c as int),
                start.same_shape(initial),
                functions.deep_view() == resolve_local_functions_at(
                    start,
                    cluster.functions@.take(l as int),
                    cluster.functions@,
                ),
            decreases m - l,
        {
            let ghost before = functions.deep_view();
            let ghost location = cluster.functions@[l as int];
            proof {
                lemma_resolve_at_same_shape(start, cluster.functions@.take(l as int), cluster.functions@);
                assert(initial.function_at(clusters[c as int].functions[l as int]) is Some);
                crate::code::function_at_same_shape(before, initial, location);
                assert(cluster.functions@.take(l + 1).drop_last() =~= cluster.functions@.take(l as int));
                assert(cluster.functions@.take(l + 1).last() == location);
            }
            let function_location = &cluster.functions[l];
            match functions.find(function_location) {
                Some(StoredAt::Named(i)) => {
                    resolve_local_functions_in(&mut functions.named[i].inner, function_location, &cluster.functions);
                    assert(functions.deep_view().named =~= before.update_function(location, resolve_local_functions_in_function(before.function_at(location).unwrap(), location, cluster.functions@)).named);
                },
                Some(StoredAt::Anonymous(i)) => {
                    proof {
                        crate::code::anonymous_position_found(before.anonymous, location->location);
                    }
                    resolve_local_functions_in(&mut functions.anonymous[i].function, function_location, &cluster.functions);
                    assert(functions.deep_view().anonymous =~= before.update_function(location, resolve_local_functions_in_function(before.function_at(location).unwrap(), location, cluster.functions@)).anonymous);
                },
                None => {
                    assert(false);
                },
            }
            l = l + 1;
        }
        assert(cluster.functions@.take(m as int) =~= cluster.functions@);
        c = c + 1;
    }
}

} // verus!
