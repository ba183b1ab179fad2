//! # Resolving calls between the functions of a cluster

use vstd::prelude::*;

use crate::call_graph::{ClusterView, OrderedFunctions};
use crate::code::{
    anonymous_position, Branch, BranchView, Expression, ExpressionView, Function, FunctionView,
    Functions, FunctionsView, NamedFunctionView, StoredAt,
};
use crate::location::{FunctionIndexInCluster, FunctionLocation};

verus! {

/// The index in `cluster` of the last named function with the given name
pub open spec fn recursive_index(
    named: Seq<NamedFunctionView>,
    cluster: Seq<FunctionLocation>,
    name: Seq<char>,
) -> Option<int>
    decreases cluster.len(),
{
    if cluster.len() == 0 {
        None
    } else {
        let i = cluster.len() - 1;
        match cluster[i] {
            FunctionLocation::NamedFunction { index } => if index.0 < named.len() && named[index.0 as int].name
                == name {
                Some(i)
            } else {
                recursive_index(named, cluster.drop_last(), name)
            },
            _ => recursive_index(named, cluster.drop_last(), name),
        }
    }
}

/// `expression`, with a call to a user-defined function in `cluster` resolved
/// to a recursive call, by its index in the cluster
pub open spec fn resolve_recursive_call(
    expression: ExpressionView,
    named: Seq<NamedFunctionView>,
    cluster: Seq<FunctionLocation>,
) -> ExpressionView {
    match expression {
        ExpressionView::UnresolvedIdentifier {
            name,
            is_known_to_be_in_tail_position,
            is_known_to_be_call_to_user_defined_function,
        } => if is_known_to_be_call_to_user_defined_function {
            match recursive_index(named, cluster, name) {
                Some(i) => ExpressionView::CallToUserDefinedFunctionRecursive {
                    index: FunctionIndexInCluster(i as u32),
                    is_tail_call: is_known_to_be_in_tail_position,
                },
                None => expression,
            }
        } else {
            expression
        },
        _ => expression,
    }
}

/// `function`, with the calls to functions in `cluster` resolved
pub open spec fn resolve_recursive_calls_in_function(
    function: FunctionView,
    named: Seq<NamedFunctionView>,
    cluster: Seq<FunctionLocation>,
) -> FunctionView {
    FunctionView {
        branches: function.branches.map_values(
            |b: BranchView|
                BranchView {
                    parameters: b.parameters,
                    body: b.body.map_values(
                        |e: ExpressionView| resolve_recursive_call(e, named, cluster),
                    ),
                },
        ),
    }
}

/// `functions`, with the calls in the functions at `locations` to functions in
/// `cluster` resolved
pub open spec fn resolve_recursive_calls_at(
    functions: FunctionsView,
    locations: Seq<FunctionLocation>,
    named: Seq<NamedFunctionView>,
    cluster: Seq<FunctionLocation>,
) -> FunctionsView
    decreases locations.len(),
{
    if locations.len() == 0 {
        functions
    } else {
        let before = resolve_recursive_calls_at(functions, locations.drop_last(), named, cluster);
        match before.function_at(locations.last()) {
            Some(f) => before.update_function(
                locations.last(),
                resolve_recursive_calls_in_function(f, named, cluster),
            ),
            None => before,
        }
    }
}

/// `functions`, with the recursive calls within each of the first `n`
/// clusters resolved
pub open spec fn resolve_recursive_calls_up_to(
    functions: FunctionsView,
    clusters: Seq<ClusterView>,
    n: int,
) -> FunctionsView
    decreases n,
{
    if n <= 0 {
        functions
    } else {
        resolve_recursive_calls_at(
            resolve_recursive_calls_up_to(functions, clusters, n - 1),
            clusters[n - 1].functions,
            functions.named,
            clusters[n - 1].functions,
        )
    }
}

proof fn lemma_recursive_index(named: Seq<NamedFunctionView>, cluster: Seq<FunctionLocation>, name: Seq<char>)
    ensures
        recursive_index(named, cluster, name) matches Some(i) ==> 0 <= i < cluster.len() && (
        cluster[i] matches FunctionLocation::NamedFunction { index } && index.0 < named.len()
            && named[index.0 as int].name == name),
    decreases cluster.len(),
{
    if cluster.len() > 0 {
        lemma_recursive_index(named, cluster.drop_last(), name);
    }
}

/// Resolution changes only identifiers known to call a user-defined function,
/// each into a recursive call that refers, by its index in the cluster, to a
/// named function of the cluster that has the name it calls, and that keeps
/// whether it is a tail call.
pub proof fn recursive_calls_refer_to_their_callees(
    expression: ExpressionView,
    named: Seq<NamedFunctionView>,
    cluster: Seq<FunctionLocation>,
)
    requires
        cluster.len() <= u32::MAX,
    ensures
        resolve_recursive_call(expression, named, cluster) != expression ==> {
            &&& expression matches ExpressionView::UnresolvedIdentifier {
                name,
                is_known_to_be_in_tail_position,
                is_known_to_be_call_to_user_defined_function,
            }
            &&& is_known_to_be_call_to_user_defined_function
            &&& resolve_recursive_call(expression, named, cluster) matches ExpressionView::CallToUserDefinedFunctionRecursive {
                index,
                is_tail_call,
            }
            &&& is_tail_call == is_known_to_be_in_tail_position
            &&& index.0 < cluster.len()
            &&& cluster[index.0 as int] matches FunctionLocation::NamedFunction { index: callee }
            &&& callee.0 < named.len()
            &&& named[callee.0 as int].name == name
        },
{
    if let ExpressionView::UnresolvedIdentifier { name, .. } = expression {
        lemma_recursive_index(named, cluster, name);
    }
}

/// Whether every location in `clusters` is the location of one of `functions`
pub open spec fn clusters_refer_to(clusters: Seq<ClusterView>, functions: FunctionsView) -> bool {
    forall|c: int, i: int|
        0 <= c < clusters.len() && 0 <= i < clusters[c].functions.len() ==> (
        #[trigger] functions.function_at(clusters[c].functions[i])) is Some
}

/// Whether each cluster has fewer functions than a `u32` can count
pub open spec fn clusters_are_small(clusters: Seq<ClusterView>) -> bool {
    forall|c: int| 0 <= c < clusters.len() ==> (#[trigger] clusters[c]).functions.len() <= u32::MAX
}

proof fn lemma_resolve_at_same_shape(
    functions: FunctionsView,
    locations: Seq<FunctionLocation>,
    named: Seq<NamedFunctionView>,
    cluster: Seq<FunctionLocation>,
)
    ensures
        resolve_recursive_calls_at(functions, locations, named, cluster).same_shape(functions),
    decreases locations.len(),
{
    if locations.len() > 0 {
        lemma_resolve_at_same_shape(functions, locations.drop_last(), named, cluster);
        let before = resolve_recursive_calls_at(functions, locations.drop_last(), named, cluster);
        if let Some(f) = before.function_at(locations.last()) {
            crate::code::update_function_same_shape(
                before,
                locations.last(),
                resolve_recursive_calls_in_function(f, named, cluster),
            );
        }
    }
}

proof fn lemma_resolve_up_to_same_shape(functions: FunctionsView, clusters: Seq<ClusterView>, n: int)
    ensures
        resolve_recursive_calls_up_to(functions, clusters, n).same_shape(functions),
    decreases n,
{
    if n > 0 {
        lemma_resolve_up_to_same_shape(functions, clusters, n - 1);
        lemma_resolve_at_same_shape(
            resolve_recursive_calls_up_to(functions, clusters, n - 1),
            clusters[n - 1].functions,
            functions.named,
            clusters[n - 1].functions,
        );
    }
}

proof fn lemma_recursive_index_in_range(
    named: Seq<NamedFunctionView>,
    cluster: Seq<FunctionLocation>,
    name: Seq<char>,
)
    ensures
        recursive_index(named, cluster, name) matches Some(i) ==> 0 <= i < cluster.len(),
    decreases cluster.len(),
{
    if cluster.len() > 0 {
        lemma_recursive_index_in_range(named, cluster.drop_last(), name);
    }
}

/// # The index in `cluster` of the last named function with the given name
fn find_recursive_index(names: &Vec<String>, cluster: &Vec<FunctionLocation>, name: &str, named: Ghost<
    Seq<NamedFunctionView>,
>) -> (r: Option<usize>)
    requires
        names@.len() == named@.len(),
        forall|i: int| 0 <= i < names@.len() ==> #[trigger] names@[i]@ == named@[i].name,
    ensures
        r matches Some(i) ==> recursive_index(named@, cluster@, name@) == Some(i as int),
        r is None ==> recursive_index(named@, cluster@, name@) is None,
{
    let mut j = cluster.len();
    assert(cluster@.take(j as int) =~= cluster@);
    while j > 0
        invariant
            j <= cluster@.len(),
            names@.len() == named@.len(),
            forall|i: int| 0 <= i < names@.len() ==> #[trigger] names@[i]@ == named@[i].name,
            recursive_index(named@, cluster@, name@) == recursive_index(
                named@,
                cluster@.take(j as int),
                name@,
            ),
        decreases j,
    {
        let ghost prefix = cluster@.take(j as int);
        assert(prefix.drop_last() =~= cluster@.take(j - 1));
        assert(prefix[j - 1] == cluster@[j - 1]);
        if let FunctionLocation::NamedFunction { index } = &cluster[j - 1] {
            let i = index.0 as usize;
            if i < names.len() && crate::intrinsics::str_eq(names[i].as_str(), name) {
                return Some(j - 1);
            }
        }
        j = j - 1;
    }
    None
}

fn resolve_recursive_calls_in_branch(
    branch: &mut Branch,
    names: &Vec<String>,
    cluster: &Vec<FunctionLocation>,
    named: Ghost<Seq<NamedFunctionView>>,
)
    requires
        cluster@.len() <= u32::MAX,
        names@.len() == named@.len(),
        forall|i: int| 0 <= i < names@.len() ==> #[trigger] names@[i]@ == named@[i].name,
    ensures
        final(branch).deep_view() == (BranchView {
            parameters: old(branch).deep_view().parameters,
            body: old(branch).deep_view().body.map_values(
                |e: ExpressionView| resolve_recursive_call(e, named@, cluster@),
            ),
        }),
{
    let n = branch.body.len();
    let mut k: usize = 0;
    while k < n
        invariant
            n == branch.body.len(),
            n == old(branch).body.len(),
            k <= n,
            cluster@.len() <= u32::MAX,
            names@.len() == named@.len(),
            forall|i: int| 0 <= i < names@.len() ==> #[trigger] names@[i]@ == named@[i].name,
            branch.parameters.deep_view() == old(branch).parameters.deep_view(),
            forall|j: int| 0 <= j < k ==> #[trigger] branch.body@[j].deep_view()
                == resolve_recursive_call(old(branch).body@[j].deep_view(), named@, cluster@),
            forall|j: int| k <= j < n ==> #[trigger] branch.body@[j].deep_view()
                == old(branch).body@[j].deep_view(),
        decreases n - k,
    {
        let ghost e = branch.body@[k as int].deep_view();
        let mut replacement: Option<Expression> = None;
        if let Expression::UnresolvedIdentifier {
            name,
            is_known_to_be_in_tail_position,
            is_known_to_be_call_to_user_defined_function,
        } = &branch.body[k] {
            if *is_known_to_be_call_to_user_defined_function {
                if let Some(index) = find_recursive_index(names, cluster, name.as_str(), named) {
                    proof {
                        lemma_recursive_index_in_range(named@, cluster@, name@);
                    }
                    replacement = Some(Expression::CallToUserDefinedFunctionRecursive {
                        index: FunctionIndexInCluster(index as u32),
                        is_tail_call: *is_known_to_be_in_tail_position,
                    });
                }
            }
        }
        let ghost prev = branch.body@;
        if let Some(r) = replacement {
            branch.body.set(k, r);
        }
        assert(branch.body@[k as int].deep_view() == resolve_recursive_call(e, named@, cluster@));
        assert(forall|j: int| 0 <= j < n && j != k ==> branch.body@[j] == prev[j]);
        k = k + 1;
    }
    assert(branch.deep_view().body =~= old(branch).deep_view().body.map_values(
        |e: ExpressionView| resolve_recursive_call(e, named@, cluster@),
    ));
}

fn resolve_recursive_calls_in(
    function: &mut Function,
    names: &Vec<String>,
    cluster: &Vec<FunctionLocation>,
    named: Ghost<Seq<NamedFunctionView>>,
)
    requires
        cluster@.len() <= u32::MAX,
        names@.len() == named@.len(),
        forall|i: int| 0 <= i < names@.len() ==> #[trigger] names@[i]@ == named@[i].name,
    ensures
        final(function).deep_view() == resolve_recursive_calls_in_function(
            old(function).deep_view(),
            named@,
            cluster@,
        ),
{
    let n = function.branches.len();
    let mut b: usize = 0;
    while b < n
        invariant
            n == function.branches.len(),
            n == old(function).branches.len(),
            b <= n,
            cluster@.len() <= u32::MAX,
            names@.len() == named@.len(),
            forall|i: int| 0 <= i < names@.len() ==> #[trigger] names@[i]@ == named@[i].name,
            forall|j: int| 0 <= j < b ==> #[trigger] function.branches@[j].deep_view()
                == resolve_recursive_calls_in_function(old(function).deep_view(), named@, cluster@).branches[j],
            forall|j: int| b <= j < n ==> #[trigger] function.branches@[j].deep_view()
                == old(function).branches@[j].deep_view(),
        decreases n - b,
    {
        let ghost prev = function.branches@;
        resolve_recursive_calls_in_branch(&mut function.branches[b], names, cluster, named);
        assert(function.branches@ == prev.update(b as int, function.branches@[b as int]));
        assert(prev[b as int].deep_view() == old(function).branches@[b as int].deep_view());
        b = b + 1;
    }
    assert(function.deep_view().branches =~= resolve_recursive_calls_in_function(
        old(function).deep_view(),
        named@,
        cluster@,
    ).branches);
}


/// # Resolve the calls between functions of the same cluster
///
/// Within each cluster, every identifier that is known to call a user-defined
/// function of that cluster becomes a recursive call, which refers to the
/// called function by its index in the cluster. Whether the call is a tail call
/// is taken from the identifier.
pub fn resolve_recursive_calls(functions: &mut Functions, ordered_functions: &OrderedFunctions)
    requires
        clusters_refer_to(ordered_functions.clusters.deep_view(), old(functions).deep_view()),
        clusters_are_small(ordered_functions.clusters.deep_view()),
    ensures
        final(functions).deep_view() == resolve_recursive_calls_up_to(
            old(functions).deep_view(),
            ordered_functions.clusters.deep_view(),
            ordered_functions.clusters.deep_view().len() as int,
        ),
{
    let ghost initial = functions.deep_view();
    let ghost clusters = ordered_functions.clusters.deep_view();
    let mut names: Vec<String> = Vec::new();
    let n = functions.named.len();
    let mut i: usize = 0;
    while i < n
        invariant
            n == functions.named.len(),
            functions.deep_view() == initial,
            i <= n,
            names@.len() == i,
            forall|j: int| 0 <= j < i ==> #[trigger] names@[j]@ == initial.named[j].name,
        decreases n - i,
    {
        names.push(functions.named[i].name.clone());
        i = i + 1;
    }
    let count = ordered_functions.clusters.len();
    let mut c: usize = 0;
    while c < count
        invariant
            count == clusters.len(),
            clusters == ordered_functions.clusters.deep_view(),
            c <= count,
            clusters_refer_to(clusters, initial),
            clusters_are_small(clusters),
            names@.len() == initial.named.len(),
            forall|j: int| 0 <= j < names@.len() ==> #[trigger] names@[j]@ == initial.named[j].name,
            functions.deep_view() == resolve_recursive_calls_up_to(initial, clusters, c as int),
        decreases count - c,
    {
        let cluster = &ordered_functions.clusters[c];
        let ghost start = functions.deep_view();
        proof {
            lemma_resolve_up_to_same_shape(initial, clusters, c as int);
        }
        let m = cluster.functions.len();
        let mut l: usize = 0;
        assert(clusters[c as int].functions.len() <= u32::MAX);
        assert(cluster.functions@.take(0) =~= Seq::<FunctionLocation>::empty());
        while l < m
            invariant
                count == clusters.len(),
                clusters == ordered_functions.clusters.deep_view(),
                c < count,
                cluster.deep_view() == clusters[c as int],
                m == cluster.functions@.len(),
                m <= u32::MAX,
                l <= m,
                clusters_refer_to(clusters, initial),
                names@.len() == initial.named.len(),
                forall|j: int| 0 <= j < names@.len() ==> #[trigger] names@[j]@ == initial.named[j].name,
                start == resolve_recursive_calls_up_to(initial, clusters, c as int),
                start.same_shape(initial),
                functions.deep_view() == resolve_recursive_calls_at(
                    start,
                    cluster.functions@.take(l as int),
                    initial.named,
                    cluster.functions@,
                ),
            decreases m - l,
        {
            let ghost before = functions.deep_view();
            let ghost location = cluster.functions@[l as int];
            proof {
                lemma_resolve_at_same_shape(start, cluster.functions@.take(l as int), initial.named, cluster.functions@);
                assert(initial.function_at(clusters[c as int].functions[l as int]) is Some);
                crate::code::function_at_same_shape(before, initial, location);
                assert(cluster.functions@.take(l + 1).drop_last() =~= cluster.functions@.take(l as int));
                assert(cluster.functions@.take(l + 1).last() == location);
            }
            match functions.find(&cluster.functions[l]) {
                Some(StoredAt::Named(i)) => {
                    resolve_recursive_calls_in(&mut functions.named[i].inner, &names, &cluster.functions, Ghost(initial.named));
                    assert(functions.deep_view().named =~= before.update_function(location, resolve_recursive_calls_in_function(before.function_at(location).unwrap(), initial.named, cluster.functions@)).named);
                },
                Some(StoredAt::Anonymous(i)) => {
                    proof {
                        crate::code::anonymous_position_found(before.anonymous, location->location);
                    }
                    resolve_recursive_calls_in(&mut functions.anonymous[i].function, &names, &cluster.functions, Ghost(initial.named));
                    assert(functions.deep_view().anonymous =~= before.update_function(location, resolve_recursive_calls_in_function(before.function_at(location).unwrap(), initial.named, cluster.functions@)).anonymous);
                },
                None => {
                    assert(false);
                },
            }
            l = l + 1;
        }
        assert(cluster.functions@.take(m as int) =~= cluster.functions@);
        c = c + 1;
    }
}

} // verus!
