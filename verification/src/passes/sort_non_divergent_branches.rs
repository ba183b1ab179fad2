//! # Sorting the non-divergent branches of each cluster
//!
//! Within a cluster, the branches of the functions that do not diverge are put
//! into an order in which each branch comes after the branches that it needs:
//! a branch that calls a function of its own cluster comes after some branch
//! of that function.

use vstd::prelude::*;

use crate::call_graph::{Cluster, ClusterView, OrderedFunctions};
use crate::code::{Branch, BranchView, Expression, ExpressionView, Function, FunctionView, Functions, FunctionsView};
use crate::location::{BranchIndex, BranchLocation, FunctionIndexInCluster, FunctionLocation};

verus! {

/// The location of branch `b` of the function at `function`
pub open spec fn branch_location(function: FunctionLocation, b: int) -> BranchLocation {
    BranchLocation { parent: Box::new(function), index: BranchIndex(b as u32) }
}

/// The location of the function that `index` refers to within `cluster`, if
/// the index is in range and a function is there
pub open spec fn cluster_target(
    functions: FunctionsView,
    cluster: Seq<FunctionLocation>,
    index: FunctionIndexInCluster,
) -> Option<FunctionLocation> {
    if index.0 < cluster.len() && functions.function_at(cluster[index.0 as int]) is Some {
        Some(cluster[index.0 as int])
    } else {
        None
    }
}

/// Whether one of the first `n` branches of the function at `function` is in
/// `list`
pub open spec fn has_branch_in(function: FunctionLocation, n: nat, list: Seq<BranchLocation>) -> bool {
    exists|b: int| 0 <= b < n && list.contains(#[trigger] branch_location(function, b))
}

/// Whether `body` refers to a function of the cluster that has no branch in
/// `list` yet
///
/// A recursive call refers to its target unless one of the target's branches
/// is in the list. A recursive function literal refers to what all of its
/// branches refer to. `None`: a target is missing, or the function literals
/// nest deeper than `fuel`.
pub open spec fn refers_in_body(
    functions: FunctionsView,
    cluster: Seq<FunctionLocation>,
    list: Seq<BranchLocation>,
    body: Seq<ExpressionView>,
    fuel: nat,
) -> Option<bool>
    decreases fuel, 0nat, body.len(),
{
    if body.len() == 0 {
        Some(false)
    } else {
        let rest = refers_in_body(functions, cluster, list, body.drop_first(), fuel);
        match body[0] {
            ExpressionView::CallToUserDefinedFunctionRecursive { index, .. } => match cluster_target(
                functions,
                cluster,
                index,
            ) {
                Some(location) => if !has_branch_in(
                    location,
                    functions.function_at(location).unwrap().branches.len(),
                    list,
                ) {
                    Some(true)
                } else {
                    rest
                },
                None => None,
            },
            ExpressionView::LocalFunctionRecursive { index } => match cluster_target(
                functions,
                cluster,
                index,
            ) {
                Some(location) => if fuel == 0 {
                    None
                } else {
                    match all_branches_refer(
                        functions,
                        cluster,
                        list,
                        functions.function_at(location).unwrap().branches,
                        (fuel - 1) as nat,
                    ) {
                        Some(true) => Some(true),
                        Some(false) => rest,
                        None => None,
                    }
                },
                None => None,
            },
            _ => rest,
        }
    }
}

/// Whether each of `branches` refers to a function of the cluster that has no
/// branch in `list` yet; the branches are looked at in order, up to the first
/// one that does not
pub open spec fn all_branches_refer(
    functions: FunctionsView,
    cluster: Seq<FunctionLocation>,
    list: Seq<BranchLocation>,
    branches: Seq<BranchView>,
    fuel: nat,
) -> Option<bool>
    decreases fuel, 1nat, branches.len(),
{
    if branches.len() == 0 {
        Some(true)
    } else {
        match refers_in_body(functions, cluster, list, branches[0].body, fuel) {
            Some(true) => all_branches_refer(functions, cluster, list, branches.drop_first(), fuel),
            Some(false) => Some(false),
            None => None,
        }
    }
}

/// The branches of the function `function` at `location`, each with its
/// location
pub open spec fn located_branches(location: FunctionLocation, function: FunctionView) -> Seq<(BranchLocation, BranchView)> {
    Seq::new(function.branches.len(), |b: int| (branch_location(location, b), function.branches[b]))
}

/// The branches of the functions at `locations`, function by function, leaving
/// out the functions in `divergent`; `None` if a function is missing
pub open spec fn cluster_branches(
    functions: FunctionsView,
    locations: Seq<FunctionLocation>,
    divergent: Seq<FunctionLocation>,
) -> Option<Seq<(BranchLocation, BranchView)>>
    decreases locations.len(),
{
    if locations.len() == 0 {
        Some(Seq::empty())
    } else {
        match cluster_branches(functions, locations.drop_last(), divergent) {
            Some(before) => match functions.function_at(locations.last()) {
                Some(function) => if divergent.contains(locations.last()) {
                    Some(before)
                } else {
                    Some(before + located_branches(locations.last(), function))
                },
                None => None,
            },
            None => None,
        }
    }
}

/// The queue of branches, after the first `k` of `queue` were each moved to
/// its back
pub open spec fn rotated<T>(queue: Seq<T>, k: int) -> Seq<T> {
    queue.subrange(k, queue.len() as int) + queue.subrange(0, k)
}

/// The order that the branches of `queue` are put into, after `list`
///
/// The branch at the front of the queue, after the first `k` were moved to its
/// back, goes to the list, unless it refers to a function that has no branch
/// in the list yet; then it is moved to the back too. `None`: all branches of
/// the queue were moved to the back without one going to the list (or a
/// branch came up twice, by its location), or deciding on a branch fails.
pub open spec fn sort_from(
    functions: FunctionsView,
    cluster: Seq<FunctionLocation>,
    queue: Seq<(BranchLocation, BranchView)>,
    k: int,
    list: Seq<BranchLocation>,
    fuel: nat,
) -> Option<Seq<BranchLocation>>
    decreases queue.len(), queue.len() - k,
{
    if queue.len() == 0 {
        Some(list)
    } else if k < 0 || k >= queue.len() {
        None
    } else {
        let (location, branch) = queue[k];
        match refers_in_body(functions, cluster, list, branch.body, fuel) {
            Some(true) => if exists|j: int| 0 <= j < k && #[trigger] queue[j].0 == location {
                None
            } else {
                sort_from(functions, cluster, queue, k + 1, list, fuel)
            },
            Some(false) => sort_from(
                functions,
                cluster,
                queue.subrange(k + 1, queue.len() as int) + queue.subrange(0, k),
                0,
                list.push(location),
                fuel,
            ),
            None => None,
        }
    }
}

/// The non-divergent branches of `cluster`, in the order in which they can be
/// processed; `None` where sorting them fails
///
/// A recursive function literal is looked into at most as many levels deep as
/// the cluster has functions: where a function comes up again while its own
/// branches are being looked at, the same look starts over and never ends.
pub open spec fn spec_sort_cluster(functions: FunctionsView, cluster: ClusterView) -> Option<Seq<BranchLocation>> {
    match cluster.divergent_functions {
        Some(divergent) => match cluster_branches(functions, cluster.functions, divergent) {
            Some(queue) => sort_from(functions, cluster.functions, queue, 0, Seq::empty(), cluster.functions.len()),
            None => None,
        },
        None => None,
    }
}

/// Whether the branches of each of `clusters` can be sorted
pub open spec fn sorting_succeeds(functions: FunctionsView, clusters: Seq<ClusterView>) -> bool {
    forall|i: int| 0 <= i < clusters.len() ==> #[trigger] spec_sort_cluster(functions, clusters[i]) is Some
}

/// The locations of the queued branches
pub open spec fn locations_of(queue: Seq<(BranchLocation, BranchView)>) -> Seq<BranchLocation> {
    queue.map_values(|item: (BranchLocation, BranchView)| item.0)
}

/// Whether each location in `sorted` from `start` on is that of a branch of
/// `queue` which, when it was put there, referred to no function of the
/// cluster that had no branch before it
pub open spec fn each_comes_after_its_needs(
    functions: FunctionsView,
    cluster: Seq<FunctionLocation>,
    queue: Seq<(BranchLocation, BranchView)>,
    sorted: Seq<BranchLocation>,
    start: int,
) -> bool {
    forall|t: int|
        start <= t < sorted.len() ==> exists|j: int|
            0 <= j < queue.len() && queue[j].0 == #[trigger] sorted[t] && refers_in_body(
                functions,
                cluster,
                sorted.take(t),
                queue[j].1.body,
                cluster.len(),
            ) == Some(false)
}

proof fn lemma_sort_from(
    functions: FunctionsView,
    cluster: Seq<FunctionLocation>,
    queue: Seq<(BranchLocation, BranchView)>,
    k: int,
    list: Seq<BranchLocation>,
)
    requires
        sort_from(functions, cluster, queue, k, list, cluster.len()) is Some,
    ensures
        ({
            let r = sort_from(functions, cluster, queue, k, list, cluster.len()).unwrap();
            &&& r.len() == list.len() + queue.len()
            &&& r.take(list.len() as int) == list
            &&& r.skip(list.len() as int).to_multiset() == locations_of(queue).to_multiset()
            &&& each_comes_after_its_needs(functions, cluster, queue, r, list.len() as int)
        }),
    decreases queue.len(), queue.len() - k,
{
    broadcast use vstd::seq_lib::group_to_multiset_ensures;
    broadcast use vstd::seq_lib::lemma_multiset_commutative;

    let fuel = cluster.len();
    if queue.len() == 0 {
        let r = list;
        assert(r.take(list.len() as int) =~= list);
        assert(r.skip(list.len() as int) =~= Seq::<BranchLocation>::empty());
        assert(locations_of(queue) =~= Seq::<BranchLocation>::empty());
    } else {
        let (location, branch) = queue[k];
        match refers_in_body(functions, cluster, list, branch.body, fuel) {
            Some(true) => {
                lemma_sort_from(functions, cluster, queue, k + 1, list);
            },
            Some(false) => {
                let next = queue.subrange(k + 1, queue.len() as int) + queue.subrange(0, k);
                let next_list = list.push(location);
                lemma_sort_from(functions, cluster, next, 0, next_list);
                let r = sort_from(functions, cluster, queue, k, list, fuel).unwrap();
                let n = list.len() as int;
                assert(r.take(n + 1) == next_list);
                assert(r.take(n) =~= r.take(n + 1).drop_last());
                assert(r[n] == location) by {
                    assert(r.take(n + 1)[n] == r[n]);
                }
                assert(r.skip(n) =~= seq![location] + r.skip(n + 1));
                let before = queue.subrange(0, k);
                let after = queue.subrange(k + 1, queue.len() as int);
                assert(queue =~= before + seq![queue[k]] + after);
                assert(locations_of(queue) =~= locations_of(before) + seq![location] + locations_of(after));
                assert(locations_of(next) =~= locations_of(after) + locations_of(before));
                assert(seq![location].to_multiset() =~= vstd::multiset::Multiset::empty().insert(location)) by {
                    assert(seq![location] =~= Seq::<BranchLocation>::empty().push(location));
                }
                assert(r.skip(n).to_multiset() =~= locations_of(queue).to_multiset());
                assert forall|t: int| n <= t < r.len() implies exists|j: int|
                    0 <= j < queue.len() && queue[j].0 == #[trigger] r[t] && refers_in_body(
                        functions,
                        cluster,
                        r.take(t),
                        queue[j].1.body,
                        cluster.len(),
                    ) == Some(false) by {
                    if t == n {
                        assert(r.take(t) == list);
                        assert(queue[k].0 == r[t] && refers_in_body(functions, cluster, r.take(t), queue[k].1.body, cluster.len()) == Some(false));
                    } else {
                        let j = choose|j: int|
                            0 <= j < next.len() && next[j].0 == #[trigger] r[t] && refers_in_body(
                                functions,
                                cluster,
                                r.take(t),
                                next[j].1.body,
                                cluster.len(),
                            ) == Some(false);
                        let i = if j < after.len() { k + 1 + j } else { j - after.len() };
                        assert(next[j] == queue[i]);
                        assert(0 <= i < queue.len() && queue[i].0 == r[t] && refers_in_body(functions, cluster, r.take(t), queue[i].1.body, cluster.len()) == Some(false));
                    }
                }
            },
            None => {},
        }
    }
}

/// Sorting puts each non-divergent branch of a cluster into its list exactly
/// as often as the branch is there, and each one where it refers to no
/// function of the cluster that has no branch before it in the list.
pub proof fn sorted_branches_are_ordered(functions: FunctionsView, cluster: ClusterView)
    requires
        spec_sort_cluster(functions, cluster) is Some,
    ensures
        ({
            let sorted = spec_sort_cluster(functions, cluster).unwrap();
            let queue = cluster_branches(functions, cluster.functions, cluster.divergent_functions.unwrap()).unwrap();
            &&& sorted.to_multiset() == locations_of(queue).to_multiset()
            &&& each_comes_after_its_needs(functions, cluster.functions, queue, sorted, 0)
        }),
{
    let queue = cluster_branches(functions, cluster.functions, cluster.divergent_functions.unwrap()).unwrap();
    lemma_sort_from(functions, cluster.functions, queue, 0, Seq::empty());
    let sorted = spec_sort_cluster(functions, cluster).unwrap();
    assert(sorted.skip(0) =~= sorted);
}

/// # Whether `list` holds `location`
fn list_contains(list: &Vec<BranchLocation>, location: &BranchLocation) -> (r: bool)
    ensures
        r == list@.contains(*location),
{
    let n = list.len();
    let mut i: usize = 0;
    while i < n
        invariant
            n == list@.len(),
            i <= n,
            forall|j: int| 0 <= j < i ==> list@[j] != *location,
        decreases n - i,
    {
        if list[i].same_as(location) {
            return true;
        }
        i = i + 1;
    }
    false
}

/// # Whether one of the first `n` branches of the function at `function` is
/// in `list`
fn has_branch_in_list(function: &FunctionLocation, n: usize, list: &Vec<BranchLocation>) -> (r: bool)
    ensures
        r == has_branch_in(*function, n as nat, list@),
{
    let mut b: usize = 0;
    while b < n
        invariant
            b <= n,
            forall|j: int| 0 <= j < b ==> !list@.contains(#[trigger] branch_location(*function, j)),
        decreases n - b,
    {
        let location = BranchLocation { parent: Box::new(function.copied()), index: BranchIndex(b as u32) };
        if list_contains(list, &location) {
            assert(list@.contains(branch_location(*function, b as int)));
            return true;
        }
        b = b + 1;
    }
    false
}

/// # The function that `index` refers to within `cluster`, with its location
fn cluster_function<'a>(
    functions: &'a Functions,
    cluster: &'a Vec<FunctionLocation>,
    index: FunctionIndexInCluster,
) -> (r: Option<(&'a FunctionLocation, &'a Function)>)
    ensures
        match cluster_target(functions.deep_view(), cluster@, index) {
            Some(location) => r matches Some((l, f)) && *l == location && f.deep_view()
                == functions.deep_view().function_at(location).unwrap(),
            None => r is None,
        },
{
    if (index.0 as usize) < cluster.len() {
        let location = &cluster[index.0 as usize];
        match functions.by_location(location) {
            Some(f) => Some((location, f)),
            None => None,
        }
    } else {
        None
    }
}

/// # Whether `branch` refers to a function of the cluster that has no branch
/// in `non_divergent_branches` yet
fn branch_refers_to_functions_not_yet_in_list(
    branch: &Branch,
    cluster: &Cluster,
    non_divergent_branches: &Vec<BranchLocation>,
    functions: &Functions,
    Ghost(fuel): Ghost<nat>,
) -> (r: bool)
    requires
        refers_in_body(
            functions.deep_view(),
            cluster.functions@,
            non_divergent_branches@,
            branch.deep_view().body,
            fuel,
        ) is Some,
    ensures
        r == refers_in_body(
            functions.deep_view(),
            cluster.functions@,
            non_divergent_branches@,
            branch.deep_view().body,
            fuel,
        ).unwrap(),
    decreases fuel,
{
    let ghost fs = functions.deep_view();
    let ghost c = cluster.functions@;
    let ghost list = non_divergent_branches@;
    let ghost body = branch.deep_view().body;
    let n = branch.body.len();
    let mut i: usize = 0;
    assert(body.skip(0) =~= body);
    while i < n
        invariant
            n == body.len(),
            i <= n,
            body == branch.deep_view().body,
            fs == functions.deep_view(),
            c == cluster.functions@,
            list == non_divergent_branches@,
            refers_in_body(fs, c, list, body, fuel) == refers_in_body(fs, c, list, body.skip(i as int), fuel),
            refers_in_body(fs, c, list, body, fuel) is Some,
        decreases n - i,
    {
        assert(body.skip(i as int)[0] == body[i as int]);
        assert(body.skip(i as int).drop_first() =~= body.skip(i + 1));
        match &branch.body[i] {
            Expression::CallToUserDefinedFunctionRecursive { index, .. } => {
                let Some((location, function)) = cluster_function(functions, &cluster.functions, *index) else {
                    return false;
                };
                if !has_branch_in_list(location, function.branches.len(), non_divergent_branches) {
                    return true;
                }
            },
            Expression::LocalFunctionRecursive { index } => {
                let Some((_location, function)) = cluster_function(functions, &cluster.functions, *index) else {
                    return false;
                };
                let ghost branches = function.deep_view().branches;
                let m = function.branches.len();
                let mut j: usize = 0;
                let mut all = true;
                assert(branches.skip(0) =~= branches);
                while all && j < m
                    invariant
                        m == branches.len(),
                        j <= m,
                        branches == function.deep_view().branches,
                        fuel > 0,
                        all ==> all_branches_refer(fs, c, list, branches, (fuel - 1) as nat)
                            == all_branches_refer(fs, c, list, branches.skip(j as int), (fuel - 1) as nat),
                        !all ==> all_branches_refer(fs, c, list, branches, (fuel - 1) as nat) == Some(false),
                        all_branches_refer(fs, c, list, branches, (fuel - 1) as nat) is Some,
                        fs == functions.deep_view(),
                        c == cluster.functions@,
                        list == non_divergent_branches@,
                    decreases m - j + (if all { 1int } else { 0int }),
                {
                    assert(branches.skip(j as int)[0] == branches[j as int]);
                    assert(branches.skip(j as int).drop_first() =~= branches.skip(j + 1));
                    if !branch_refers_to_functions_not_yet_in_list(
                        &function.branches[j],
                        cluster,
                        non_divergent_branches,
                        functions,
                        Ghost((fuel - 1) as nat),
                    ) {
                        all = false;
                    } else {
                        j = j + 1;
                    }
                }
                if all {
                    assert(branches.skip(m as int).len() == 0);
                    return true;
                }
            },
            _ => {},
        }
        i = i + 1;
    }
    assert(body.skip(n as int).len() == 0);
    false
}

/// # Whether `locations` holds `location`
fn locations_contain(locations: &Vec<FunctionLocation>, location: &FunctionLocation) -> (r: bool)
    ensures
        r == locations@.contains(*location),
{
    let n = locations.len();
    let mut i: usize = 0;
    while i < n
        invariant
            n == locations@.len(),
            i <= n,
            forall|j: int| 0 <= j < i ==> locations@[j] != *location,
        decreases n - i,
    {
        if locations[i].same_as(location) {
            return true;
        }
        i = i + 1;
    }
    false
}

/// The queued branches, each by its location and by its model
pub open spec fn queue_view(queue: Seq<(BranchLocation, &Branch)>) -> Seq<(BranchLocation, BranchView)> {
    queue.map_values(|item: (BranchLocation, &Branch)| (item.0, item.1.deep_view()))
}

proof fn lemma_cluster_branches_prefix(
    functions: FunctionsView,
    locations: Seq<FunctionLocation>,
    divergent: Seq<FunctionLocation>,
    p: int,
)
    requires
        0 <= p <= locations.len(),
        cluster_branches(functions, locations, divergent) is Some,
    ensures
        cluster_branches(functions, locations.take(p), divergent) is Some,
    decreases locations.len() - p,
{
    if p < locations.len() {
        lemma_cluster_branches_prefix(functions, locations, divergent, p + 1);
        assert(locations.take(p + 1).drop_last() =~= locations.take(p));
    } else {
        assert(locations.take(p) =~= locations);
    }
}

/// # The branches of the functions of `cluster` that are not in `divergent`,
/// each with its location, in a queue
fn queue_branches<'a>(
    functions: &'a Functions,
    cluster: &Cluster,
    divergent: &Vec<FunctionLocation>,
) -> (r: std::collections::VecDeque<(BranchLocation, &'a Branch)>)
    requires
        cluster_branches(functions.deep_view(), cluster.functions@, divergent@) is Some,
    ensures
        queue_view(r@) == cluster_branches(functions.deep_view(), cluster.functions@, divergent@).unwrap(),
{
    let ghost fs = functions.deep_view();
    let ghost c = cluster.functions@;
    let mut queue: std::collections::VecDeque<(BranchLocation, &'a Branch)> = std::collections::VecDeque::new();
    let n = cluster.functions.len();
    let mut p: usize = 0;
    assert(queue_view(queue@) =~= Seq::<(BranchLocation, BranchView)>::empty());
    assert(c.take(0) =~= Seq::<FunctionLocation>::empty());
    while p < n
        invariant
            n == c.len(),
            p <= n,
            c == cluster.functions@,
            fs == functions.deep_view(),
            cluster_branches(fs, c, divergent@) is Some,
            cluster_branches(fs, c.take(p as int), divergent@) == Some(queue_view(queue@)),
        decreases n - p,
    {
        proof {
            lemma_cluster_branches_prefix(fs, c, divergent@, p + 1);
            assert(c.take(p + 1).drop_last() =~= c.take(p as int));
            assert(c.take(p + 1).last() == c[p as int]);
        }
        let location = &cluster.functions[p];
        let Some(function) = functions.by_location(location) else {
            return queue;
        };
        if !locations_contain(divergent, location) {
            let ghost before = queue_view(queue@);
            let m = function.branches.len();
            let mut b: usize = 0;
            while b < m
                invariant
                    m == function.branches@.len(),
                    b <= m,
                    queue_view(queue@) == before + located_branches(*location, function.deep_view()).take(b as int),
                decreases m - b,
            {
                let branch_location = BranchLocation {
                    parent: Box::new(location.copied()),
                    index: BranchIndex(b as u32),
                };
                let ghost old_queue = queue@;
                queue.push_back((branch_location, &function.branches[b]));
                proof {
                    assert(queue@ == old_queue.push((branch_location, &function.branches@[b as int])));
                    assert(queue_view(queue@) =~= queue_view(old_queue).push(
                        (branch_location, function.branches@[b as int].deep_view()),
                    ));
                    assert(located_branches(*location, function.deep_view()).take(b + 1) =~= located_branches(
                        *location,
                        function.deep_view(),
                    ).take(b as int).push((branch_location, function.branches@[b as int].deep_view())));
                }
                b = b + 1;
            }
            assert(located_branches(*location, function.deep_view()).take(m as int) =~= located_branches(
                *location,
                function.deep_view(),
            ));
        }
        p = p + 1;
    }
    assert(c.take(n as int) =~= c);
    queue
}

/// # The non-divergent branches of `cluster`, sorted
fn sort_cluster(functions: &Functions, cluster: &Cluster) -> (r: Vec<BranchLocation>)
    requires
        spec_sort_cluster(functions.deep_view(), cluster.deep_view()) is Some,
    ensures
        r@ == spec_sort_cluster(functions.deep_view(), cluster.deep_view()).unwrap(),
{
    let ghost fs = functions.deep_view();
    let ghost c = cluster.functions@;
    let ghost fuel = c.len();
    let Some(divergent_functions) = &cluster.divergent_functions else {
        return Vec::new();
    };
    let mut queue = queue_branches(functions, cluster, divergent_functions);
    let mut non_divergent_branches: Vec<BranchLocation> = Vec::new();
    let mut already_pushed: Vec<BranchLocation> = Vec::new();
    let ghost mut q0 = queue_view(queue@);
    let ghost mut k: int = 0;
    assert(rotated(q0, 0) =~= q0);
    while queue.len() > 0
        invariant
            fs == functions.deep_view(),
            c == cluster.functions@,
            fuel == c.len(),
            0 <= k <= q0.len(),
            queue_view(queue@) == rotated(q0, k),
            already_pushed@.len() == k,
            forall|j: int| 0 <= j < k ==> #[trigger] already_pushed@[j] == q0[j].0,
            sort_from(fs, c, q0, k, non_divergent_branches@, fuel) is Some,
            sort_from(fs, c, q0, k, non_divergent_branches@, fuel) == spec_sort_cluster(fs, cluster.deep_view()),
        decreases q0.len(), q0.len() - k,
    {
        let ghost old_queue = queue@;
        let (location, branch) = queue.pop_front().unwrap();
        proof {
            assert(queue_view(old_queue)[0] == rotated(q0, k)[0]);
            assert(k < q0.len());
            assert(rotated(q0, k)[0] == q0[k]);
        }
        let refers = branch_refers_to_functions_not_yet_in_list(
            branch,
            cluster,
            &non_divergent_branches,
            functions,
            Ghost(fuel),
        );
        if refers {
            if list_contains(&already_pushed, &location) {
                proof {
                    let j = choose|j: int| 0 <= j < already_pushed@.len() && already_pushed@[j] == location;
                    assert(q0[j].0 == location);
                }
                return Vec::new();
            }
            proof {
                assert forall|j: int| 0 <= j < k implies #[trigger] q0[j].0 != location by {
                    assert(already_pushed@[j] == q0[j].0);
                }
            }
            already_pushed.push(location.copied());
            let ghost popped = queue@;
            queue.push_back((location, branch));
            proof {
                assert(queue_view(popped) =~= queue_view(old_queue).drop_first());
                assert(queue_view(queue@) =~= queue_view(popped).push(q0[k]));
                assert(rotated(q0, k + 1) =~= rotated(q0, k).drop_first().push(q0[k]));
                k = k + 1;
            }
        } else {
            non_divergent_branches.push(location);
            already_pushed = Vec::new();
            proof {
                assert(queue_view(queue@) =~= queue_view(old_queue).drop_first());
                let next = q0.subrange(k + 1, q0.len() as int) + q0.subrange(0, k);
                assert(rotated(q0, k).drop_first() =~= next);
                assert(rotated(next, 0) =~= next);
                q0 = next;
                k = 0;
            }
        }
    }
    proof {
        assert(queue_view(queue@).len() == 0);
    }
    non_divergent_branches
}

/// # Sort the non-divergent branches of each cluster
///
/// For each cluster, the branches of its functions that are not among its
/// divergent functions are put into an order in which each branch comes after
/// the branches it needs, and recorded in the cluster. A branch needs a
/// function of its own cluster that it calls; a function literal of its own
/// cluster needs what all of that function's branches need.
///
/// Requires that the divergent functions of each cluster are known, that each
/// function that the cluster refers to exists, and that the branches can be
/// sorted: sorting fails where no branch of those left can go next.
pub fn sort_non_divergent_branches(functions: &Functions, ordered_functions: &mut OrderedFunctions)
    requires
        sorting_succeeds(functions.deep_view(), old(ordered_functions).clusters.deep_view()),
    ensures
        final(ordered_functions).clusters.deep_view().len() == old(ordered_functions).clusters.deep_view().len(),
        forall|i: int|
            0 <= i < old(ordered_functions).clusters.deep_view().len()
                ==> #[trigger] final(ordered_functions).clusters.deep_view()[i] == (ClusterView {
                non_divergent_branches: spec_sort_cluster(
                    functions.deep_view(),
                    old(ordered_functions).clusters.deep_view()[i],
                ),
                ..old(ordered_functions).clusters.deep_view()[i]
            }),
{
    let ghost fs = functions.deep_view();
    let ghost before = ordered_functions.clusters.deep_view();
    let n = ordered_functions.clusters.len();
    let mut i: usize = 0;
    while i < n
        invariant
            fs == functions.deep_view(),
            n == before.len(),
            i <= n,
            ordered_functions.clusters.deep_view().len() == n,
            sorting_succeeds(fs, before),
            forall|j: int| i <= j < n ==> #[trigger] ordered_functions.clusters.deep_view()[j] == before[j],
            forall|j: int|
                0 <= j < i ==> #[trigger] ordered_functions.clusters.deep_view()[j] == (ClusterView {
                    non_divergent_branches: spec_sort_cluster(fs, before[j]),
                    ..before[j]
                }),
        decreases n - i,
    {
        assert(ordered_functions.clusters.deep_view()[i as int] == before[i as int]);
        assert(spec_sort_cluster(fs, before[i as int]) is Some);
        let sorted = sort_cluster(functions, &ordered_functions.clusters[i]);
        let ghost old_clusters = ordered_functions.clusters@;
        let ghost old_deep = ordered_functions.clusters.deep_view();
        ordered_functions.clusters[i].non_divergent_branches = Some(sorted);
        proof {
            assert(ordered_functions.clusters@.len() == old_clusters.len());
            assert forall|j: int| 0 <= j < n && j != i implies #[trigger] ordered_functions.clusters.deep_view()[j]
                == old_deep[j] by {
                assert(ordered_functions.clusters@[j] == old_clusters[j]);
                assert(ordered_functions.clusters.deep_view()[j] == ordered_functions.clusters@[j].deep_view());
                assert(old_deep[j] == old_clusters[j].deep_view());
            }
            assert(ordered_functions.clusters@[i as int].functions == old_clusters[i as int].functions);
            assert(ordered_functions.clusters@[i as int].divergent_functions == old_clusters[i as int].divergent_functions);
            assert(ordered_functions.clusters.deep_view()[i as int] == (ClusterView {
                non_divergent_branches: spec_sort_cluster(fs, before[i as int]),
                ..before[i as int]
            }));
        }
        i = i + 1;
    }
}

} // verus!
