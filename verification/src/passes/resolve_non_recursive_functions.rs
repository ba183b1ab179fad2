//! # Resolving calls to functions in other clusters, by hash

use vstd::prelude::*;

use crate::call_graph::{ClusterView, OrderedFunctions};
use crate::code::{
    Branch, BranchView, Expression, ExpressionView, Function, FunctionView, Functions,
    FunctionsView, StoredAt,
};
use crate::hash::spec_hash;
use crate::location::{
    BranchIndex, BranchLocation, FragmentIndexInBranchBody, FragmentLocation, FunctionIndexInRootContext,
    FunctionLocation,
};
use crate::passes::resolve_recursive_local_functions::location_in;

verus! {

/// # The state of resolving calls: the functions, and the hashes of the
/// functions resolved so far, by name and by location, latest last
pub ghost struct Resolving {
    pub functions: FunctionsView,
    pub by_name: Seq<(Seq<char>, crate::code::Hash)>,
    pub by_location: Seq<(FragmentLocation, crate::code::Hash)>,
}

/// The latest hash recorded for `name`
pub open spec fn latest_by_name(entries: Seq<(Seq<char>, crate::code::Hash)>, name: Seq<char>) -> Option<
    crate::code::Hash,
>
    decreases entries.len(),
{
    if entries.len() == 0 {
        None
    } else if entries.last().0 == name {
        Some(entries.last().1)
    } else {
        latest_by_name(entries.drop_last(), name)
    }
}

/// The latest hash recorded for `location`
pub open spec fn latest_by_location(
    entries: Seq<(FragmentLocation, crate::code::Hash)>,
    location: FragmentLocation,
) -> Option<crate::code::Hash>
    decreases entries.len(),
{
    if entries.len() == 0 {
        None
    } else if entries.last().0 == location {
        Some(entries.last().1)
    } else {
        latest_by_location(entries.drop_last(), location)
    }
}

/// `expression`, at `location`, with a call to a user-defined function
/// resolved to the hash of the called function, and a function literal
/// resolved to the hash of its function; `None` where that hash is not known
pub open spec fn resolve_call(expression: ExpressionView, state: Resolving, location: FragmentLocation) -> Option<
    ExpressionView,
> {
    match expression {
        ExpressionView::UnresolvedIdentifier {
            name,
            is_known_to_be_in_tail_position,
            is_known_to_be_call_to_user_defined_function,
        } => if is_known_to_be_call_to_user_defined_function {
            match latest_by_name(state.by_name, name) {
                Some(hash) => Some(
                    ExpressionView::CallToUserDefinedFunction {
                        hash,
                        is_tail_call: is_known_to_be_in_tail_position,
                    },
                ),
                None => None,
            }
        } else {
            Some(expression)
        },
        ExpressionView::UnresolvedLocalFunction => match latest_by_location(state.by_location, location) {
            Some(hash) => Some(ExpressionView::LocalFunction { hash }),
            None => None,
        },
        _ => Some(expression),
    }
}

/// Whether every call in `function`, at `location`, can be resolved
pub open spec fn calls_resolvable(function: FunctionView, state: Resolving, location: FunctionLocation) -> bool {
    forall|b: int, k: int|
        0 <= b < function.branches.len() && 0 <= k < function.branches[b].body.len() ==> (
        #[trigger] resolve_call(function.branches[b].body[k], state, location_in(location, b, k))) is Some
}

/// `function`, at `location`, with all of its calls resolved
pub open spec fn resolve_calls_in_function(function: FunctionView, state: Resolving, location: FunctionLocation) -> FunctionView {
    FunctionView {
        branches: Seq::new(
            function.branches.len(),
            |b: int|
                BranchView {
                    parameters: function.branches[b].parameters,
                    body: Seq::new(
                        function.branches[b].body.len(),
                        |k: int|
                            resolve_call(function.branches[b].body[k], state, location_in(location, b, k))->0,
                    ),
                },
        ),
    }
}

/// The state after replacing the function at `location` by `resolved`, and
/// recording the hash of `resolved`, by name or by location
pub open spec fn record_resolved(state: Resolving, location: FunctionLocation, resolved: FunctionView) -> Resolving {
    let functions = state.functions.update_function(location, resolved);
    let hash = crate::code::Hash { hash: spec_hash(resolved) };
    match location {
        FunctionLocation::NamedFunction { index } => Resolving {
            functions,
            by_name: state.by_name.push((state.functions.named[index.0 as int].name, hash)),
            by_location: state.by_location,
        },
        FunctionLocation::AnonymousFunction { location } => Resolving {
            functions,
            by_name: state.by_name,
            by_location: state.by_location.push((location, hash)),
        },
    }
}

/// The state after resolving the calls in the function at `location`, and
/// recording its hash; `None` where that function does not exist, or one of
/// its calls can not be resolved
pub open spec fn resolve_at(state: Resolving, location: FunctionLocation) -> Option<Resolving> {
    match state.functions.function_at(location) {
        None => None,
        Some(function) => if !calls_resolvable(function, state, location) {
            None
        } else {
            Some(record_resolved(state, location, resolve_calls_in_function(function, state, location)))
        },
    }
}

/// The state after resolving the functions at `locations`, in order
pub open spec fn resolve_locations(state: Resolving, locations: Seq<FunctionLocation>) -> Option<Resolving>
    decreases locations.len(),
{
    if locations.len() == 0 {
        Some(state)
    } else {
        match resolve_locations(state, locations.drop_last()) {
            None => None,
            Some(before) => resolve_at(before, locations.last()),
        }
    }
}

/// The state after resolving the functions of `clusters`, in order
pub open spec fn resolve_clusters(state: Resolving, clusters: Seq<ClusterView>) -> Option<Resolving>
    decreases clusters.len(),
{
    if clusters.len() == 0 {
        Some(state)
    } else {
        match resolve_clusters(state, clusters.drop_last()) {
            None => None,
            Some(before) => resolve_locations(before, clusters.last().functions),
        }
    }
}

/// `functions`, with the calls in all functions of `clusters` resolved, in
/// order; `None` where a function does not exist, or a call refers to a
/// function that has not been resolved before it
pub open spec fn spec_resolve_non_recursive_functions(functions: FunctionsView, clusters: Seq<ClusterView>) -> Option<
    FunctionsView,
> {
    match resolve_clusters(Resolving { functions, by_name: seq![], by_location: seq![] }, clusters) {
        Some(state) => Some(state.functions),
        None => None,
    }
}


/// Whether `entry` names the named function at position `i` of `functions`
/// and holds its hash
pub open spec fn hash_of_named(functions: FunctionsView, i: int, entry: (Seq<char>, crate::code::Hash)) -> bool {
    &&& 0 <= i < functions.named.len()
    &&& functions.named[i].name == entry.0
    &&& spec_hash(functions.named[i].inner) == entry.1.hash
}

/// Whether `entry` names a named function of `functions` and holds its hash
pub open spec fn names_function_with_hash(functions: FunctionsView, entry: (Seq<char>, crate::code::Hash)) -> bool {
    exists|i: int| #[trigger] hash_of_named(functions, i, entry)
}

/// Whether `entry` names a named function of `state` at one of the
/// `processed` locations, and holds its hash
pub open spec fn name_entry_valid(
    state: Resolving,
    processed: Seq<FunctionLocation>,
    entry: (Seq<char>, crate::code::Hash),
) -> bool {
    exists|index: FunctionIndexInRootContext|
        #![trigger processed.contains(FunctionLocation::NamedFunction { index })]
        hash_of_named(state.functions, index.0 as int, entry) && processed.contains(
            FunctionLocation::NamedFunction { index },
        )
}

/// Whether each hash recorded in `state` is the hash of a function, as it is in
/// `state`, at one of the `processed` locations: a hash by name, of a named
/// function of that name; a hash by location, of the function at that location
pub open spec fn recorded_hashes_valid(state: Resolving, processed: Seq<FunctionLocation>) -> bool {
    &&& forall|j: int|
        0 <= j < state.by_name.len() ==> #[trigger] name_entry_valid(state, processed, state.by_name[j])
    &&& forall|j: int|
        #![trigger state.by_location[j]]
        0 <= j < state.by_location.len() ==> (state.functions.function_at(
            FunctionLocation::AnonymousFunction { location: state.by_location[j].0 },
        ) matches Some(f) && spec_hash(f) == state.by_location[j].1.hash) && processed.contains(
            FunctionLocation::AnonymousFunction { location: state.by_location[j].0 },
        )
}

/// Replacing the function at `location` leaves the functions at other
/// locations, and the names, as they are.
proof fn lemma_update_function_at(
    functions: FunctionsView,
    location: FunctionLocation,
    function: FunctionView,
    other: FunctionLocation,
)
    requires
        functions.function_at(location) is Some,
    ensures
        other != location ==> functions.update_function(location, function).function_at(other)
            == functions.function_at(other),
        functions.update_function(location, function).function_at(location) == Some(function),
        functions.update_function(location, function).named.len() == functions.named.len(),
        forall|i: int|
            0 <= i < functions.named.len() ==> #[trigger] functions.update_function(location, function).named[i].name
                == functions.named[i].name,
{
    let updated = functions.update_function(location, function);
    crate::code::update_function_same_shape(functions, location, function);
    match location {
        FunctionLocation::NamedFunction { index } => {},
        FunctionLocation::AnonymousFunction { location: literal } => {
            crate::code::anonymous_position_found(functions.anonymous, literal);
            crate::code::anonymous_position_same_shape(updated, functions, literal);
            if let FunctionLocation::AnonymousFunction { location: other_literal } = other {
                crate::code::anonymous_position_found(functions.anonymous, other_literal);
                crate::code::anonymous_position_same_shape(updated, functions, other_literal);
            }
        },
    }
}

proof fn lemma_record_keeps_hashes(
    state: Resolving,
    processed: Seq<FunctionLocation>,
    location: FunctionLocation,
    resolved: FunctionView,
)
    requires
        recorded_hashes_valid(state, processed),
        !processed.contains(location),
        state.functions.function_at(location) is Some,
    ensures
        recorded_hashes_valid(record_resolved(state, location, resolved), processed.push(location)),
{
    let after = record_resolved(state, location, resolved);
    let done = processed.push(location);
    lemma_update_function_at(state.functions, location, resolved, location);
    assert forall|j: int| 0 <= j < after.by_name.len() implies #[trigger] name_entry_valid(
        after,
        done,
        after.by_name[j],
    ) by {
        if j < state.by_name.len() {
            assert(name_entry_valid(state, processed, state.by_name[j]));
            let index = choose|index: FunctionIndexInRootContext|
                #![trigger processed.contains(FunctionLocation::NamedFunction { index })]
                hash_of_named(state.functions, index.0 as int, state.by_name[j]) && processed.contains(
                    FunctionLocation::NamedFunction { index },
                );
            let named = FunctionLocation::NamedFunction { index };
            lemma_update_function_at(state.functions, location, resolved, named);
            assert(after.by_name[j] == state.by_name[j]);
            assert(done.contains(named)) by {
                let k = choose|k: int| 0 <= k < processed.len() && processed[k] == named;
                assert(done[k] == named);
            }
            assert(hash_of_named(after.functions, index.0 as int, after.by_name[j]) && done.contains(named));
        } else {
            assert(done[processed.len() as int] == location);
            match location {
                FunctionLocation::NamedFunction { index } => {
                    assert(after.functions.function_at(location) == Some(resolved));
                    assert(hash_of_named(after.functions, index.0 as int, after.by_name[j]) && done.contains(
                        FunctionLocation::NamedFunction { index },
                    ));
                },
                FunctionLocation::AnonymousFunction { .. } => {},
            }
        }
    }
    assert forall|j: int| #![trigger after.by_location[j]] 0 <= j < after.by_location.len() implies (after.functions.function_at(
        FunctionLocation::AnonymousFunction { location: after.by_location[j].0 },
    ) matches Some(f) && spec_hash(f) == after.by_location[j].1.hash) && done.contains(
        FunctionLocation::AnonymousFunction { location: after.by_location[j].0 },
    ) by {
        let literal = FunctionLocation::AnonymousFunction { location: after.by_location[j].0 };
        if j < state.by_location.len() {
            lemma_update_function_at(state.functions, location, resolved, literal);
            assert(after.by_location[j] == state.by_location[j]);
            let k = choose|k: int| 0 <= k < processed.len() && processed[k] == literal;
            assert(done[k] == literal);
        } else {
            assert(literal == location);
            assert(done[processed.len() as int] == location);
        }
    }
}


proof fn lemma_resolve_locations_keeps_hashes(
    state: Resolving,
    processed: Seq<FunctionLocation>,
    locations: Seq<FunctionLocation>,
)
    requires
        recorded_hashes_valid(state, processed),
        forall|i: int| 0 <= i < locations.len() ==> !processed.contains(#[trigger] locations[i]),
        forall|i: int, k: int| 0 <= i < k < locations.len() ==> #[trigger] locations[i] != #[trigger] locations[k],
        resolve_locations(state, locations) is Some,
    ensures
        recorded_hashes_valid(resolve_locations(state, locations).unwrap(), processed + locations),
    decreases locations.len(),
{
    if locations.len() == 0 {
        assert(processed + locations =~= processed);
    } else {
        let init = locations.drop_last();
        lemma_resolve_locations_keeps_hashes(state, processed, init);
        let before = resolve_locations(state, init).unwrap();
        assert(!(processed + init).contains(locations.last())) by {
            if (processed + init).contains(locations.last()) {
                let k = choose|k: int| 0 <= k < (processed + init).len() && (processed + init)[k] == locations.last();
                if k < processed.len() {
                    assert(processed[k] == locations.last());
                    assert(!processed.contains(locations[locations.len() - 1]));
                } else {
                    assert(locations[k - processed.len()] == locations[locations.len() - 1]);
                }
            }
        }
        let function = before.functions.function_at(locations.last()).unwrap();
        lemma_record_keeps_hashes(
            before,
            processed + init,
            locations.last(),
            resolve_calls_in_function(function, before, locations.last()),
        );
        assert((processed + init).push(locations.last()) =~= processed + locations);
    }
}

/// All locations of the functions of `clusters`, cluster by cluster
pub open spec fn clustered_locations(clusters: Seq<ClusterView>) -> Seq<FunctionLocation>
    decreases clusters.len(),
{
    if clusters.len() == 0 {
        Seq::empty()
    } else {
        clustered_locations(clusters.drop_last()) + clusters.last().functions
    }
}

proof fn lemma_clustered_locations(clusters: Seq<ClusterView>, x: FunctionLocation)
    ensures
        clustered_locations(clusters).contains(x) ==> exists|c: int, i: int|
            0 <= c < clusters.len() && 0 <= i < clusters[c].functions.len() && #[trigger] clusters[c].functions[i] == x,
    decreases clusters.len(),
{
    if clusters.len() > 0 && clustered_locations(clusters).contains(x) {
        let init = clusters.drop_last();
        let all = clustered_locations(clusters);
        let k = choose|k: int| 0 <= k < all.len() && all[k] == x;
        if k < clustered_locations(init).len() {
            assert(clustered_locations(init)[k] == x);
            lemma_clustered_locations(init, x);
            let (c, i) = choose|c: int, i: int|
                0 <= c < init.len() && 0 <= i < init[c].functions.len() && #[trigger] init[c].functions[i] == x;
            assert(clusters[c] == init[c]);
        } else {
            let i = k - clustered_locations(init).len();
            assert(clusters[clusters.len() - 1].functions[i] == x);
        }
    }
}

proof fn lemma_resolve_clusters_keeps_hashes(state: Resolving, clusters: Seq<ClusterView>)
    requires
        recorded_hashes_valid(state, Seq::empty()),
        crate::passes::build_call_graph::no_function_clustered_twice(clusters),
        resolve_clusters(state, clusters) is Some,
    ensures
        recorded_hashes_valid(resolve_clusters(state, clusters).unwrap(), clustered_locations(clusters)),
    decreases clusters.len(),
{
    if clusters.len() == 0 {
    } else {
        let init = clusters.drop_last();
        let last = clusters.len() - 1;
        assert(crate::passes::build_call_graph::no_function_clustered_twice(init)) by {
            assert forall|c: int, d: int, i: int, j: int|
                0 <= c < init.len() && 0 <= d < init.len() && 0 <= i < init[c].functions.len()
                    && 0 <= j < init[d].functions.len() && #[trigger] init[c].functions[i]
                    == #[trigger] init[d].functions[j] implies c == d && i == j by {
                assert(clusters[c] == init[c] && clusters[d] == init[d]);
            }
        }
        lemma_resolve_clusters_keeps_hashes(state, init);
        let before = resolve_clusters(state, init).unwrap();
        let locations = clusters[last].functions;
        assert forall|i: int| 0 <= i < locations.len() implies !clustered_locations(init).contains(
            #[trigger] locations[i],
        ) by {
            lemma_clustered_locations(init, locations[i]);
            if clustered_locations(init).contains(locations[i]) {
                let (c, k) = choose|c: int, k: int|
                    0 <= c < init.len() && 0 <= k < init[c].functions.len() && #[trigger] init[c].functions[k]
                        == locations[i];
                assert(clusters[c].functions[k] == clusters[last].functions[i]);
            }
        }
        assert forall|i: int, k: int| 0 <= i < k < locations.len() implies #[trigger] locations[i]
            != #[trigger] locations[k] by {
            if locations[i] == locations[k] {
                assert(clusters[last].functions[i] == clusters[last].functions[k]);
            }
        }
        lemma_resolve_locations_keeps_hashes(before, clustered_locations(init), locations);
    }
}

/// Once resolution is done, each hash that it recorded is the hash of a
/// function as it ends up: a hash by name, of a named function of that name;
/// a hash by location, of the function at that location. Resolving later
/// functions does not change those resolved before, as no function is in two
/// clusters.
pub proof fn resolved_hashes_stay_valid(functions: FunctionsView, clusters: Seq<ClusterView>)
    requires
        crate::passes::build_call_graph::no_function_clustered_twice(clusters),
        spec_resolve_non_recursive_functions(functions, clusters) is Some,
    ensures
        ({
            let end = resolve_clusters(Resolving { functions, by_name: seq![], by_location: seq![] }, clusters).unwrap();
            &&& forall|j: int|
                #![trigger end.by_name[j]]
                0 <= j < end.by_name.len() ==> names_function_with_hash(end.functions, end.by_name[j])
            &&& forall|j: int|
                #![trigger end.by_location[j]]
                0 <= j < end.by_location.len() ==> (end.functions.function_at(
                    FunctionLocation::AnonymousFunction { location: end.by_location[j].0 },
                ) matches Some(f) && spec_hash(f) == end.by_location[j].1.hash)
        }),
{
    let start = Resolving { functions, by_name: seq![], by_location: seq![] };
    lemma_resolve_clusters_keeps_hashes(start, clusters);
    let end = resolve_clusters(start, clusters).unwrap();
    assert forall|j: int| #![trigger end.by_name[j]] 0 <= j < end.by_name.len() implies names_function_with_hash(
        end.functions,
        end.by_name[j],
    ) by {
        assert(name_entry_valid(end, clustered_locations(clusters), end.by_name[j]));
        let index = choose|index: FunctionIndexInRootContext|
            #![trigger clustered_locations(clusters).contains(FunctionLocation::NamedFunction { index })]
            hash_of_named(end.functions, index.0 as int, end.by_name[j]) && clustered_locations(clusters).contains(
                FunctionLocation::NamedFunction { index },
            );
        assert(hash_of_named(end.functions, index.0 as int, end.by_name[j]));
    }
    assert forall|j: int| #![trigger end.by_location[j]] 0 <= j < end.by_location.len() implies (end.functions.function_at(
        FunctionLocation::AnonymousFunction { location: end.by_location[j].0 },
    ) matches Some(f) && spec_hash(f) == end.by_location[j].1.hash) by {}
}

/// The recorded hashes by name, with the names as sequences of characters
pub open spec fn names_view(entries: Seq<(String, crate::code::Hash)>) -> Seq<(Seq<char>, crate::code::Hash)> {
    Seq::new(entries.len(), |i: int| (entries[i].0@, entries[i].1))
}

fn hash_by_name(entries: &Vec<(String, crate::code::Hash)>, name: &str) -> (r: Option<crate::code::Hash>)
    ensures
        r == latest_by_name(names_view(entries@), name@),
{
    let ghost all = names_view(entries@);
    let mut j = entries.len();
    assert(all.take(j as int) =~= all);
    while j > 0
        invariant
            j <= entries@.len(),
            all == names_view(entries@),
            latest_by_name(all, name@) == latest_by_name(all.take(j as int), name@),
        decreases j,
    {
        let ghost prefix = all.take(j as int);
        assert(prefix.drop_last() =~= all.take(j - 1));
        if crate::intrinsics::str_eq(entries[j - 1].0.as_str(), name) {
            return Some(entries[j - 1].1);
        }
        j = j - 1;
    }
    None
}

fn hash_by_location(entries: &Vec<(FragmentLocation, crate::code::Hash)>, location: &FragmentLocation) -> (r:
    Option<crate::code::Hash>)
    ensures
        r == latest_by_location(entries@, *location),
{
    let mut j = entries.len();
    assert(entries@.take(j as int) =~= entries@);
    while j > 0
        invariant
            j <= entries@.len(),
            latest_by_location(entries@, *location) == latest_by_location(entries@.take(j as int), *location),
        decreases j,
    {
        let ghost prefix = entries@.take(j as int);
        assert(prefix.drop_last() =~= entries@.take(j - 1));
        if entries[j - 1].0.same_as(location) {
            return Some(entries[j - 1].1);
        }
        j = j - 1;
    }
    None
}

fn resolve_calls_in_branch(
    branch: &mut Branch,
    by_name: &Vec<(String, crate::code::Hash)>,
    by_location: &Vec<(FragmentLocation, crate::code::Hash)>,
    function_location: &FunctionLocation,
    b: usize,
    state: Ghost<Resolving>,
)
    requires
        state@.by_name == names_view(by_name@),
        state@.by_location == by_location@,
        forall|k: int|
            0 <= k < old(branch).body@.len() ==> (#[trigger] resolve_call(
                old(branch).body@[k].deep_view(),
                state@,
                location_in(*function_location, b as int, k),
            )) is Some,
    ensures
        final(branch).deep_view() == (BranchView {
            parameters: old(branch).deep_view().parameters,
            body: Seq::new(
                old(branch).deep_view().body.len(),
                |k: int|
                    resolve_call(
                        old(branch).deep_view().body[k],
                        state@,
                        location_in(*function_location, b as int, k),
                    )->0,
            ),
        }),
{
    let n = branch.body.len();
    let mut k: usize = 0;
    while k < n
        invariant
            n == branch.body.len(),
            n == old(branch).body.len(),
            k <= n,
            state@.by_name == names_view(by_name@),
            state@.by_location == by_location@,
            branch.parameters.deep_view() == old(branch).parameters.deep_view(),
            forall|j: int|
                0 <= j < n ==> (#[trigger] resolve_call(
                    old(branch).body@[j].deep_view(),
                    state@,
                    location_in(*function_location, b as int, j),
                )) is Some,
            forall|j: int| 0 <= j < k ==> #[trigger] branch.body@[j].deep_view()
                == resolve_call(old(branch).body@[j].deep_view(), state@, location_in(*function_location, b as int, j))->0,
            forall|j: int| k <= j < n ==> #[trigger] branch.body@[j].deep_view()
                == old(branch).body@[j].deep_view(),
        decreases n - k,
    {
        let ghost e = branch.body@[k as int].deep_view();
        let ghost location = location_in(*function_location, b as int, k as int);
        assert(resolve_call(old(branch).body@[k as int].deep_view(), state@, location) is Some);
        let mut replacement: Option<Expression> = None;
        match &branch.body[k] {
            Expression::UnresolvedIdentifier {
                name,
                is_known_to_be_in_tail_position,
                is_known_to_be_call_to_user_defined_function,
            } => {
                if *is_known_to_be_call_to_user_defined_function {
                    match hash_by_name(by_name, name.as_str()) {
                        Some(hash) => {
                            replacement = Some(Expression::CallToUserDefinedFunction {
                                hash,
                                is_tail_call: *is_known_to_be_in_tail_position,
                            });
                        },
                        None => {
                            assert(false);
                        },
                    }
                }
            },
            Expression::UnresolvedLocalFunction => {
                let literal = FragmentLocation {
                    parent: Box::new(BranchLocation {
                        parent: Box::new(function_location.copied()),
                        index: BranchIndex(b as u32),
                    }),
                    index: FragmentIndexInBranchBody(k as u32),
                };
                assert(literal == location);
                match hash_by_location(by_location, &literal) {
                    Some(hash) => {
                        replacement = Some(Expression::LocalFunction { hash });
                    },
                    None => {
                        assert(false);
                    },
                }
            },
            _ => {},
        }
        let ghost prev = branch.body@;
        if let Some(r) = replacement {
            branch.body.set(k, r);
        }
        assert(branch.body@[k as int].deep_view() == resolve_call(e, state@, location)->0);
        assert(forall|j: int| 0 <= j < n && j != k ==> branch.body@[j] == prev[j]);
        k = k + 1;
    }
    assert(branch.deep_view().body =~= Seq::new(
        old(branch).deep_view().body.len(),
        |k: int|
            resolve_call(
                old(branch).deep_view().body[k],
                state@,
                location_in(*function_location, b as int, k),
            )->0,
    ));
}

fn resolve_calls_in(
    function: &mut Function,
    by_name: &Vec<(String, crate::code::Hash)>,
    by_location: &Vec<(FragmentLocation, crate::code::Hash)>,
    function_location: &FunctionLocation,
    state: Ghost<Resolving>,
)
    requires
        state@.by_name == names_view(by_name@),
        state@.by_location == by_location@,
        calls_resolvable(old(function).deep_view(), state@, *function_location),
    ensures
        final(function).deep_view() == resolve_calls_in_function(
            old(function).deep_view(),
            state@,
            *function_location,
        ),
{
    let n = function.branches.len();
    let mut b: usize = 0;
    while b < n
        invariant
            n == function.branches.len(),
            n == old(function).branches.len(),
            b <= n,
            state@.by_name == names_view(by_name@),
            state@.by_location == by_location@,
            calls_resolvable(old(function).deep_view(), state@, *function_location),
            forall|j: int| 0 <= j < b ==> #[trigger] function.branches@[j].deep_view()
                == resolve_calls_in_function(old(function).deep_view(), state@, *function_location).branches[j],
            forall|j: int| b <= j < n ==> #[trigger] function.branches@[j].deep_view()
                == old(function).branches@[j].deep_view(),
        decreases n - b,
    {
        let ghost prev = function.branches@;
        proof {
            let f = old(function).deep_view();
            let bv = function.branches@[b as int].deep_view();
            assert(bv == old(function).branches@[b as int].deep_view());
            assert(f.branches[b as int] == old(function).branches@[b as int].deep_view());
            assert(bv.body.len() == function.branches@[b as int].body@.len());
            assert forall|k: int|
                0 <= k < function.branches@[b as int].body@.len() implies (#[trigger] resolve_call(
                    function.branches@[b as int].body@[k].deep_view(),
                    state@,
                    location_in(*function_location, b as int, k),
                )) is Some by {
                assert(function.branches@[b as int].body@[k].deep_view() == bv.body[k]);
                assert(resolve_call(f.branches[b as int].body[k], state@, location_in(*function_location, b as int, k)) is Some);
            }
        }
        resolve_calls_in_branch(&mut function.branches[b], by_name, by_location, function_location, b, state);
        assert(function.branches@ == prev.update(b as int, function.branches@[b as int]));
        assert(prev[b as int].deep_view() == old(function).branches@[b as int].deep_view());
        assert(function.branches@[b as int].deep_view().body =~= resolve_calls_in_function(old(function).deep_view(), state@, *function_location).branches[b as int].body);
        b = b + 1;
    }
    assert(function.deep_view().branches =~= resolve_calls_in_function(
        old(function).deep_view(),
        state@,
        *function_location,
    ).branches);
}


proof fn lemma_locations_prefix(state: Resolving, locations: Seq<FunctionLocation>, l: int)
    requires
        0 <= l <= locations.len(),
        resolve_locations(state, locations) is Some,
    ensures
        resolve_locations(state, locations.take(l)) is Some,
    decreases locations.len(),
{
    if l < locations.len() {
        assert(locations.drop_last().take(l) =~= locations.take(l));
        lemma_locations_prefix(state, locations.drop_last(), l);
    } else {
        assert(locations.take(l) =~= locations);
    }
}

proof fn lemma_clusters_prefix(state: Resolving, clusters: Seq<ClusterView>, c: int)
    requires
        0 <= c <= clusters.len(),
        resolve_clusters(state, clusters) is Some,
    ensures
        resolve_clusters(state, clusters.take(c)) is Some,
    decreases clusters.len(),
{
    if c < clusters.len() {
        assert(clusters.drop_last().take(c) =~= clusters.take(c));
        lemma_clusters_prefix(state, clusters.drop_last(), c);
    } else {
        assert(clusters.take(c) =~= clusters);
    }
}

/// # Functions whose calls have been resolved to hashes
///
/// The hashes refer to the functions as they are now; from here on, the
/// functions must not change, or the hashes would become invalid.
pub struct StableFunctions {
    functions: Functions,
}

impl StableFunctions {
    /// The functions
    pub closed spec fn spec_functions(&self) -> FunctionsView {
        self.functions.deep_view()
    }

    /// # Access the functions
    pub fn functions(&self) -> (r: &Functions)
        ensures
            r.deep_view() == self.spec_functions(),
    {
        &self.functions
    }
}

/// # Resolve calls to functions in other clusters
///
/// Processes the functions in the order of the clusters, starting at the
/// leaves of the call graph. In each function, a call to a user-defined
/// function becomes a call by the hash of that function, and a function
/// literal refers to its function by hash. Then the function's own hash is
/// recorded, by its name or its location. Recursive calls must have been
/// resolved before; every other call must refer to a function that has already
/// been processed.
pub fn resolve_non_recursive_functions(functions: Functions, ordered_functions: &OrderedFunctions) -> (r: StableFunctions)
    requires
        spec_resolve_non_recursive_functions(functions.deep_view(), ordered_functions.clusters.deep_view()) is Some,
    ensures
        spec_resolve_non_recursive_functions(functions.deep_view(), ordered_functions.clusters.deep_view())
            == Some(r.spec_functions()),
{
    let ghost clusters = ordered_functions.clusters.deep_view();
    let ghost initial = Resolving { functions: functions.deep_view(), by_name: seq![], by_location: seq![] };
    let mut functions = functions;
    let mut by_name: Vec<(String, crate::code::Hash)> = Vec::new();
    let mut by_location: Vec<(FragmentLocation, crate::code::Hash)> = Vec::new();
    let count = ordered_functions.clusters.len();
    let mut c: usize = 0;
    assert(clusters.take(0) =~= Seq::<ClusterView>::empty());
    assert(names_view(by_name@) =~= Seq::<(Seq<char>, crate::code::Hash)>::empty());
    while c < count
        invariant
            count == clusters.len(),
            clusters == ordered_functions.clusters.deep_view(),
            c <= count,
            resolve_clusters(initial, clusters) is Some,
            resolve_clusters(initial, clusters.take(c as int)) == Some(
                Resolving {
                    functions: functions.deep_view(),
                    by_name: names_view(by_name@),
                    by_location: by_location@,
                },
            ),
        decreases count - c,
    {
        let cluster = &ordered_functions.clusters[c];
        let ghost start = Resolving {
            functions: functions.deep_view(),
            by_name: names_view(by_name@),
            by_location: by_location@,
        };
        proof {
            lemma_clusters_prefix(initial, clusters, c + 1);
            assert(clusters.take(c + 1).drop_last() =~= clusters.take(c as int));
            assert(clusters.take(c + 1).last() == clusters[c as int]);
        }
        let m = cluster.functions.len();
        let mut l: usize = 0;
        assert(cluster.functions@.take(0) =~= Seq::<FunctionLocation>::empty());
        while l < m
            invariant
                count == clusters.len(),
                clusters == ordered_functions.clusters.deep_view(),
                c < count,
                cluster.deep_view() == clusters[c as int],
                m == cluster.functions@.len(),
                l <= m,
                resolve_clusters(initial, clusters) is Some,
                resolve_clusters(initial, clusters.take(c + 1)) == resolve_locations(start, cluster.functions@),
                resolve_locations(start, cluster.functions@) is Some,
                resolve_locations(start, cluster.functions@.take(l as int)) == Some(
                    Resolving {
                        functions: functions.deep_view(),
                        by_name: names_view(by_name@),
                        by_location: by_location@,
                    },
                ),
            decreases m - l,
        {
            let ghost now = Resolving {
                functions: functions.deep_view(),
                by_name: names_view(by_name@),
                by_location: by_location@,
            };
            let ghost location = cluster.functions@[l as int];
            proof {
                lemma_locations_prefix(start, cluster.functions@, l + 1);
                assert(cluster.functions@.take(l + 1).drop_last() =~= cluster.functions@.take(l as int));
                assert(cluster.functions@.take(l + 1).last() == location);
                assert(resolve_at(now, location) is Some);
            }
            let function_location = &cluster.functions[l];
            match functions.find(function_location) {
                Some(StoredAt::Named(i)) => {
                    resolve_calls_in(&mut functions.named[i].inner, &by_name, &by_location, function_location, Ghost(now));
                    let hash = crate::code::Hash::new(&functions.named[i].inner);
                    let name = functions.named[i].name.clone();
                    let ghost before_names = names_view(by_name@);
                    by_name.push((name, hash));
                    assert(names_view(by_name@) =~= before_names.push((now.functions.named[i as int].name, hash)));
                    assert(functions.deep_view().named =~= now.functions.update_function(
                        location,
                        resolve_calls_in_function(now.functions.function_at(location).unwrap(), now, location),
                    ).named);
                },
                Some(StoredAt::Anonymous(i)) => {
                    proof {
                        crate::code::anonymous_position_found(now.functions.anonymous, location->location);
                    }
                    resolve_calls_in(&mut functions.anonymous[i].function, &by_name, &by_location, function_location, Ghost(now));
                    let hash = crate::code::Hash::new(&functions.anonymous[i].function);
                    let literal = functions.anonymous[i].location.copied();
                    let ghost before_names = names_view(by_name@);
                    by_location.push((literal, hash));
                    assert(names_view(by_name@) =~= before_names);
                    assert(functions.deep_view().anonymous =~= now.functions.update_function(
                        location,
                        resolve_calls_in_function(now.functions.function_at(location).unwrap(), now, location),
                    ).anonymous);
                },
                None => {
                    assert(false);
                },
            }
            l = l + 1;
        }
        assert(cluster.functions@.take(m as int) =~= cluster.functions@);
        c = c + 1;
    }
    assert(clusters.take(count as int) =~= clusters);
    StableFunctions { functions }
}

/// # Resolve calls to user-defined functions
///
/// Another name for [`resolve_non_recursive_functions`], with the same
/// contract.
pub fn resolve_calls_to_user_defined_functions(
    functions: Functions,
    ordered_functions: &OrderedFunctions,
) -> (r: StableFunctions)
    requires
        spec_resolve_non_recursive_functions(functions.deep_view(), ordered_functions.clusters.deep_view()) is Some,
    ensures
        spec_resolve_non_recursive_functions(functions.deep_view(), ordered_functions.clusters.deep_view())
            == Some(r.spec_functions()),
{
    resolve_non_recursive_functions(functions, ordered_functions)
}

} // verus!
