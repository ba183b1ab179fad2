//! # Type inference
//!
//! The types of the expressions, branches and named functions of a program
//! are inferred cluster by cluster, from the leaves of the call graph up.
//!
//! Where an expression has a concrete signature (a host function or an
//! intrinsic), the types of its inputs are known. They replace the types of
//! the values on top of the stack, and the expression gets a signature of its
//! own, whose types are added to the table.

use vstd::prelude::*;

use crate::call_graph::{Cluster, ClusterView, OrderedFunctions};
use crate::code::{
    Branch, BranchView, Expression, ExpressionView, Function, Functions, FunctionView, FunctionsView,
    NamedFunctionView, Pattern, PatternView,
};
use crate::hash::spec_hash;
use crate::host::{host_function_by_number, host_function_with_number, Host, HostFunction, HostFunctionView};
use crate::intrinsics::{intrinsic_arity, IntrinsicFunction};
use crate::passes::sort_non_divergent_branches::branch_location;
use crate::location::{
    BranchIndex, BranchLocation, FragmentIndexInBranchBody, FragmentLocation, FunctionIndexInRootContext,
    FunctionLocation,
};
use crate::types::{copy_indices, ConcreteSignature, Signature, SignatureView, Type, TypeIndex, TypeView, Types, TypesView};

verus! {

/// `table`, with the types of `inputs` written over the types that the top of
/// `stack` refers to: the last input to the type at the top, and so on, for as
/// many inputs as the stack has values
pub open spec fn assign_inputs(table: Seq<TypeView>, stack: Seq<TypeIndex>, inputs: Seq<TypeView>) -> Seq<TypeView>
    decreases inputs.len(),
{
    if inputs.len() == 0 || stack.len() == 0 {
        table
    } else {
        let updated = if stack.last().0 < table.len() {
            table.update(stack.last().0 as int, inputs.last())
        } else {
            table
        };
        assign_inputs(updated, stack.drop_last(), inputs.drop_last())
    }
}

/// The number of values that a signature with `inputs` inputs takes from a
/// stack of `stack` values
pub open spec fn taken(stack: nat, inputs: nat) -> nat {
    if inputs < stack { inputs } else { stack }
}

/// Whether each of the top `n` values of `stack` refers to a type in a table
/// of `len` types
pub open spec fn top_in_table(stack: Seq<TypeIndex>, n: nat, len: nat) -> bool {
    forall|j: int| stack.len() - n <= j < stack.len() ==> (#[trigger] stack[j]).0 < len
}

/// The indices `start`, `start + 1`, ..., of `n` types
pub open spec fn indices_from(start: int, n: nat) -> Seq<TypeIndex> {
    Seq::new(n, |i: int| TypeIndex((start + i) as usize))
}

proof fn lemma_assign_inputs_len(table: Seq<TypeView>, stack: Seq<TypeIndex>, inputs: Seq<TypeView>)
    ensures
        assign_inputs(table, stack, inputs).len() == table.len(),
    decreases inputs.len(),
{
    if inputs.len() > 0 && stack.len() > 0 {
        let updated = if stack.last().0 < table.len() {
            table.update(stack.last().0 as int, inputs.last())
        } else {
            table
        };
        lemma_assign_inputs_len(updated, stack.drop_last(), inputs.drop_last());
    }
}

/// # A branch whose types are being inferred, as the queue holds it
pub ghost struct ItemView {
    /// The body of the branch
    pub body: Seq<ExpressionView>,
    /// The position of the next expression to look at
    pub position: int,
    pub branch_location: BranchLocation,
    pub function_location: FunctionLocation,
    /// The types of the branch's parameters
    pub parameters: Seq<TypeIndex>,
    /// The types of the values on the stack, after the expressions so far
    pub stack: Seq<TypeIndex>,
    /// Whether inference of this branch was deferred before
    pub deferred: bool,
    /// The types of the bindings in scope, by name
    pub bindings: Map<Seq<char>, TypeIndex>,
}

/// # What looking at an expression found out
pub ghost enum InferenceView {
    /// The expression's signature
    Inferred { signature: SignatureView },
    /// The expression is a function literal whose branches are to be looked
    /// at first
    NeedToInferMoreBranchesFirst { items: Seq<ItemView> },
    /// The expression is a recursive call whose signature is not known yet
    Defer,
}

/// The type of a value that `pattern` matches
pub open spec fn pattern_type(pattern: PatternView) -> TypeView {
    match pattern {
        PatternView::Identifier { .. } => TypeView::Unknown,
        PatternView::Literal { .. } => TypeView::Number,
    }
}

/// `types`, with the types of the values that `patterns` match added to the
/// table
pub open spec fn add_parameters(types: TypesView, patterns: Seq<PatternView>) -> TypesView {
    TypesView {
        inner: types.inner + Seq::new(patterns.len(), |i: int| pattern_type(patterns[i])),
        ..types
    }
}

/// `types`, with `t` added to the table
pub open spec fn add_type(types: TypesView, t: TypeView) -> TypesView {
    TypesView { inner: types.inner.push(t), ..types }
}

/// `environment`, with the parameters among `patterns` that are identifiers
/// bound to their types, which are numbered from `start`
pub open spec fn add_bindings(
    environment: Map<Seq<char>, TypeIndex>,
    patterns: Seq<PatternView>,
    start: int,
) -> Map<Seq<char>, TypeIndex>
    decreases patterns.len(),
{
    if patterns.len() == 0 {
        environment
    } else {
        let before = add_bindings(environment, patterns.drop_last(), start);
        match patterns.last() {
            PatternView::Identifier { name } => before.insert(
                name,
                TypeIndex((start + patterns.len() - 1) as usize),
            ),
            PatternView::Literal { .. } => before,
        }
    }
}

/// The branch at `branch_location`, of the function at `function_location`,
/// ready to be looked at, with the bindings of `environment` and of its
/// parameters in scope; the types of its parameters are added to `types`
pub open spec fn new_item(
    branch: BranchView,
    branch_location: BranchLocation,
    function_location: FunctionLocation,
    environment: Map<Seq<char>, TypeIndex>,
    types: TypesView,
) -> (ItemView, TypesView) {
    (
        ItemView {
            body: branch.body,
            position: 0,
            branch_location,
            function_location,
            parameters: indices_from(types.inner.len() as int, branch.parameters.len()),
            stack: Seq::empty(),
            deferred: false,
            bindings: add_bindings(environment, branch.parameters, types.inner.len() as int),
        },
        add_parameters(types, branch.parameters),
    )
}

/// The first `n` branches of `function`, at `location`, ready to be looked at
pub open spec fn new_items(
    function: FunctionView,
    location: FunctionLocation,
    environment: Map<Seq<char>, TypeIndex>,
    types: TypesView,
    n: int,
) -> (Seq<ItemView>, TypesView)
    decreases n,
{
    if n <= 0 {
        (Seq::empty(), types)
    } else {
        let (items, before) = new_items(function, location, environment, types, n - 1);
        let (item, after) = new_item(
            function.branches[n - 1],
            BranchLocation { parent: Box::new(location), index: BranchIndex((n - 1) as u32) },
            location,
            environment,
            before,
        );
        (items.push(item), after)
    }
}

/// The named function that the expression at `location` is part of,
/// directly or within function literals
pub open spec fn enclosing_named_function(location: FragmentLocation) -> FunctionIndexInRootContext
    decreases location,
{
    match *location.parent.parent {
        FunctionLocation::NamedFunction { index } => index,
        FunctionLocation::AnonymousFunction { location: literal } => enclosing_named_function(literal),
    }
}

/// The position of the first of `named` whose hash is `hash`
pub open spec fn position_by_hash(named: Seq<NamedFunctionView>, hash: crate::code::Hash) -> Option<int>
    decreases named.len(),
{
    if named.len() == 0 {
        None
    } else if spec_hash(named[0].inner) == hash.hash {
        Some(0)
    } else {
        match position_by_hash(named.drop_first(), hash) {
            Some(i) => Some(i + 1),
            None => None,
        }
    }
}

/// The result of applying the concrete signature with `inputs` and `outputs`
/// to `stack`; `None` where a value taken from the stack has no type
pub open spec fn apply_concrete(
    inputs: Seq<TypeView>,
    outputs: Seq<TypeView>,
    stack: Seq<TypeIndex>,
    types: TypesView,
) -> Option<(Option<InferenceView>, Seq<TypeIndex>, TypesView)> {
    let n = taken(stack.len(), inputs.len());
    let start = types.inner.len() as int;
    if top_in_table(stack, n, types.inner.len()) {
        Some(
            (
                Some(
                    InferenceView::Inferred {
                        signature: SignatureView {
                            inputs: indices_from(start, inputs.len()),
                            outputs: indices_from(start + inputs.len(), outputs.len()),
                        },
                    },
                ),
                stack.take(stack.len() - n),
                TypesView { inner: assign_inputs(types.inner, stack, inputs) + inputs + outputs, ..types },
            ),
        )
    } else {
        None
    }
}

/// `n` numbers
pub open spec fn number_types(n: nat) -> Seq<TypeView> {
    Seq::new(n, |i: int| TypeView::Number)
}

/// What looking at `expression`, at `location`, finds out, with the stack and
/// the types after it; `None` where inference fails
///
/// An identifier that is not resolved otherwise refers to a binding, where one
/// of its name is in scope. Inference fails where the expression's type is
/// known already, where what it refers to is missing, where `eval` finds no
/// function on the stack, and for an intrinsic without a signature other than
/// `eval`.
#[verifier::opaque]
pub open spec fn infer_expression(
    expression: ExpressionView,
    location: FragmentLocation,
    cluster: Seq<FunctionLocation>,
    functions: FunctionsView,
    host_functions: Seq<HostFunctionView>,
    bindings: Map<Seq<char>, TypeIndex>,
    stack: Seq<TypeIndex>,
    types: TypesView,
) -> Option<(Option<InferenceView>, Seq<TypeIndex>, TypesView)> {
    if types.of_expressions.contains_key(location) {
        None
    } else {
        match expression {
            ExpressionView::CallToHostFunction { number } => match host_function_by_number(host_functions, number) {
                Some(f) => apply_concrete(f.inputs, f.outputs, stack, types),
                None => None,
            },
            ExpressionView::CallToIntrinsicFunction { intrinsic } => match intrinsic_arity(intrinsic) {
                Some((i, o)) => apply_concrete(number_types(i), number_types(o), stack, types),
                None => if intrinsic == IntrinsicFunction::Eval && stack.len() > 0 && stack.last().0
                    < types.inner.len() {
                    match types.inner[stack.last().0 as int] {
                        TypeView::Function { inputs, outputs } => Some(
                            (
                                Some(
                                    InferenceView::Inferred {
                                        signature: SignatureView {
                                            inputs: inputs.push(TypeIndex(types.inner.len() as usize)),
                                            outputs,
                                        },
                                    },
                                ),
                                stack,
                                add_type(types, TypeView::Function { inputs, outputs }),
                            ),
                        ),
                        _ => None,
                    }
                } else {
                    None
                },
            },
            ExpressionView::CallToUserDefinedFunction { hash, .. } => match position_by_hash(functions.named, hash) {
                Some(i) => {
                    let location = FunctionLocation::NamedFunction { index: FunctionIndexInRootContext(i as u32) };
                    if types.of_functions.contains_key(location) {
                        Some(
                            (
                                Some(InferenceView::Inferred { signature: types.of_functions[location] }),
                                stack,
                                types,
                            ),
                        )
                    } else {
                        None
                    }
                },
                None => None,
            },
            ExpressionView::CallToUserDefinedFunctionRecursive { index, .. } => {
                let current = FunctionLocation::NamedFunction { index: enclosing_named_function(location) };
                if index.0 >= cluster.len() {
                    None
                } else if cluster[index.0 as int] != current {
                    Some((None, stack, types))
                } else if types.of_functions.contains_key(current) {
                    Some((Some(InferenceView::Inferred { signature: types.of_functions[current] }), stack, types))
                } else {
                    Some((Some(InferenceView::Defer), stack, types))
                }
            },
            ExpressionView::UnresolvedLocalFunction | ExpressionView::LocalFunction { .. }
            | ExpressionView::LocalFunctionRecursive { .. } => {
                let literal = FunctionLocation::AnonymousFunction { location };
                if types.of_functions.contains_key(literal) {
                    let signature = types.of_functions[literal];
                    Some(
                        (
                            Some(
                                InferenceView::Inferred {
                                    signature: SignatureView {
                                        inputs: Seq::empty(),
                                        outputs: seq![TypeIndex(types.inner.len() as usize)],
                                    },
                                },
                            ),
                            stack,
                            add_type(
                                types,
                                TypeView::Function { inputs: signature.inputs, outputs: signature.outputs },
                            ),
                        ),
                    )
                } else {
                    match functions.function_at(literal) {
                        Some(function) => {
                            let (items, after) = new_items(
                                function,
                                literal,
                                bindings,
                                types,
                                function.branches.len() as int,
                            );
                            Some((Some(InferenceView::NeedToInferMoreBranchesFirst { items }), stack, after))
                        },
                        None => None,
                    }
                }
            },
            ExpressionView::Value(_) => Some(
                (
                    Some(
                        InferenceView::Inferred {
                            signature: SignatureView {
                                inputs: Seq::empty(),
                                outputs: seq![TypeIndex(types.inner.len() as usize)],
                            },
                        },
                    ),
                    stack,
                    add_type(types, TypeView::Number),
                ),
            ),
            ExpressionView::UnresolvedIdentifier { name, .. } => if bindings.contains_key(name) {
                Some(
                    (
                        Some(
                            InferenceView::Inferred {
                                signature: SignatureView { inputs: Seq::empty(), outputs: seq![bindings[name]] },
                            },
                        ),
                        stack,
                        types,
                    ),
                )
            } else {
                Some((None, stack, types))
            },
            ExpressionView::Comment { .. } => Some((None, stack, types)),
        }
    }
}

/// The location of the next expression of `item`
pub open spec fn next_location(item: ItemView) -> FragmentLocation {
    FragmentLocation {
        parent: Box::new(item.branch_location),
        index: FragmentIndexInBranchBody(item.position as u32),
    }
}

/// Whether `index` refers to a type in `table` that is unknown
pub open spec fn is_unknown_at(table: Seq<TypeView>, index: TypeIndex) -> bool {
    index.0 < table.len() && table[index.0 as int] is Unknown
}

/// `recorded`, with each type that is unknown replaced by the type at the same
/// position in `branch`, where that one is known
pub open spec fn merged_indices(recorded: Seq<TypeIndex>, branch: Seq<TypeIndex>, table: Seq<TypeView>) -> Seq<
    TypeIndex,
> {
    Seq::new(
        recorded.len(),
        |i: int|
            if i < branch.len() && is_unknown_at(table, recorded[i]) && !is_unknown_at(table, branch[i]) {
                branch[i]
            } else {
                recorded[i]
            },
    )
}

/// The signature recorded for a function, combined with that of one more of
/// its branches: where the recorded one has an unknown type, the branch's type
/// at the same position takes its place, if that one is known
pub open spec fn merged_signature(recorded: SignatureView, branch: SignatureView, table: Seq<TypeView>) -> SignatureView {
    SignatureView {
        inputs: merged_indices(recorded.inputs, branch.inputs, table),
        outputs: merged_indices(recorded.outputs, branch.outputs, table),
    }
}

/// `types`, with the signature of the branch of `item` recorded, and its
/// function's signature combined with it (or set to it, where the function has
/// none yet)
pub open spec fn finish_branch(item: ItemView, types: TypesView) -> TypesView {
    let signature = SignatureView { inputs: item.parameters, outputs: item.stack };
    TypesView {
        of_branches: types.of_branches.insert(item.branch_location, signature),
        of_functions: if types.of_functions.contains_key(item.function_location) {
            types.of_functions.insert(
                item.function_location,
                merged_signature(types.of_functions[item.function_location], signature, types.inner),
            )
        } else {
            types.of_functions.insert(item.function_location, signature)
        },
        ..types
    }
}

/// The queue and the types, after the branch of `item` is looked at, from its
/// next expression on, until it is done or paused; `None` where inference
/// fails
///
/// A function literal whose function has no signature yet puts that function's
/// branches in front of the queue, followed by `item`. A recursive call whose
/// signature is not known yet puts `item` at the back of the queue; the second
/// time, the call is taken to diverge: it takes the whole stack and leaves a
/// value of the empty type.
pub open spec fn run_branch(
    item: ItemView,
    queue: Seq<ItemView>,
    cluster: Seq<FunctionLocation>,
    functions: FunctionsView,
    host_functions: Seq<HostFunctionView>,
    types: TypesView,
) -> Option<(Seq<ItemView>, TypesView)>
    decreases item.body.len() - item.position,
{
    if item.position < 0 || item.position >= item.body.len() {
        Some((queue, finish_branch(item, types)))
    } else {
        let location = next_location(item);
        match infer_expression(
            item.body[item.position],
            location,
            cluster,
            functions,
            host_functions,
            item.bindings,
            item.stack,
            types,
        ) {
            Some((inference, stack, after)) => {
                let current = ItemView { stack, ..item };
                let next = ItemView { position: item.position + 1, ..current };
                match inference {
                    None => run_branch(next, queue, cluster, functions, host_functions, after),
                    Some(InferenceView::Inferred { signature }) => run_branch(
                        ItemView { stack: stack + signature.outputs, ..next },
                        queue,
                        cluster,
                        functions,
                        host_functions,
                        TypesView { of_expressions: after.of_expressions.insert(location, signature), ..after },
                    ),
                    Some(InferenceView::NeedToInferMoreBranchesFirst { items }) => Some(
                        (items.reverse() + seq![current] + queue, after),
                    ),
                    Some(InferenceView::Defer) => if item.deferred {
                        let signature = SignatureView {
                            inputs: stack,
                            outputs: seq![TypeIndex(after.inner.len() as usize)],
                        };
                        let with_empty = add_type(after, TypeView::Empty);
                        run_branch(
                            ItemView { stack: signature.outputs, ..next },
                            queue,
                            cluster,
                            functions,
                            host_functions,
                            TypesView {
                                of_expressions: with_empty.of_expressions.insert(location, signature),
                                ..with_empty
                            },
                        )
                    } else {
                        Some((queue.push(ItemView { deferred: true, ..current }), after))
                    },
                }
            },
            None => None,
        }
    }
}

/// The types after the branches of `queue` are looked at, front to back, with
/// what is left of `fuel`; `None` where inference fails, or needs more than
/// `fuel` turns
pub open spec fn run_queue(
    queue: Seq<ItemView>,
    cluster: Seq<FunctionLocation>,
    functions: FunctionsView,
    host_functions: Seq<HostFunctionView>,
    types: TypesView,
    fuel: nat,
) -> Option<(TypesView, nat)>
    decreases fuel,
{
    if queue.len() == 0 {
        Some((types, fuel))
    } else if fuel == 0 {
        None
    } else {
        match run_branch(queue[0], queue.drop_first(), cluster, functions, host_functions, types) {
            Some((rest, after)) => run_queue(rest, cluster, functions, host_functions, after, (fuel - 1) as nat),
            None => None,
        }
    }
}

/// The branches of the named functions at `locations`, ready to be looked
/// at; `None` where a named function is missing
pub open spec fn cluster_items(functions: FunctionsView, locations: Seq<FunctionLocation>, types: TypesView) -> Option<
    (Seq<ItemView>, TypesView),
>
    decreases locations.len(),
{
    if locations.len() == 0 {
        Some((Seq::empty(), types))
    } else {
        match cluster_items(functions, locations.drop_last(), types) {
            Some((items, before)) => match locations.last() {
                FunctionLocation::NamedFunction { index } => if index.0 < functions.named.len() {
                    let function = functions.named[index.0 as int].inner;
                    let (more, after) = new_items(
                        function,
                        locations.last(),
                        Map::empty(),
                        before,
                        function.branches.len() as int,
                    );
                    Some((items + more, after))
                } else {
                    None
                },
                FunctionLocation::AnonymousFunction { .. } => Some((items, before)),
            },
            None => None,
        }
    }
}

/// No types at all
pub open spec fn no_types() -> TypesView {
    TypesView {
        inner: Seq::empty(),
        of_expressions: Map::empty(),
        of_branches: Map::empty(),
        of_functions: Map::empty(),
    }
}

/// The types after the clusters are looked at, one after the other, with what
/// is left of `fuel`
pub open spec fn run_clusters(
    functions: FunctionsView,
    clusters: Seq<ClusterView>,
    host_functions: Seq<HostFunctionView>,
    fuel: nat,
) -> Option<(TypesView, nat)>
    decreases clusters.len(),
{
    if clusters.len() == 0 {
        Some((no_types(), fuel))
    } else {
        match run_clusters(functions, clusters.drop_last(), host_functions, fuel) {
            Some((before, left)) => match cluster_items(functions, clusters.last().functions, before) {
                Some((queue, after)) => run_queue(
                    queue,
                    clusters.last().functions,
                    functions,
                    host_functions,
                    after,
                    left,
                ),
                None => None,
            },
            None => None,
        }
    }
}

/// Whether type inference finishes without failing
pub open spec fn inference_succeeds(
    functions: FunctionsView,
    clusters: Seq<ClusterView>,
    host_functions: Seq<HostFunctionView>,
) -> bool {
    exists|fuel: nat| #[trigger] run_clusters(functions, clusters, host_functions, fuel) is Some
}

/// The inferred types, where inference finishes
pub open spec fn spec_infer_types(
    functions: FunctionsView,
    clusters: Seq<ClusterView>,
    host_functions: Seq<HostFunctionView>,
) -> TypesView {
    let fuel = choose|fuel: nat| #[trigger] run_clusters(functions, clusters, host_functions, fuel) is Some;
    run_clusters(functions, clusters, host_functions, fuel).unwrap().0
}

/// # A branch whose types are being inferred
struct QueueItem<'a> {
    body: &'a Vec<Expression>,
    position: usize,
    branch_location: BranchLocation,
    function_location: FunctionLocation,
    parameters: Vec<TypeIndex>,
    stack: Vec<TypeIndex>,
    deferred: bool,
    bindings: Vec<(String, TypeIndex)>,
}

/// The model of bindings, each name to the type of its last entry
spec fn bindings_view(bindings: Seq<(String, TypeIndex)>) -> Map<Seq<char>, TypeIndex> {
    crate::types::entries_map(bindings.map_values(|entry: (String, TypeIndex)| (entry.0@, entry.1)))
}

/// # A copy of `bindings`
fn copy_bindings(bindings: &Vec<(String, TypeIndex)>) -> (r: Vec<(String, TypeIndex)>)
    ensures
        r@ == bindings@,
{
    let mut r: Vec<(String, TypeIndex)> = Vec::new();
    let n = bindings.len();
    let mut i: usize = 0;
    while i < n
        invariant
            n == bindings@.len(),
            i <= n,
            r@ == bindings@.take(i as int),
        decreases n - i,
    {
        r.push((bindings[i].0.clone(), bindings[i].1));
        assert(bindings@.take(i + 1) =~= bindings@.take(i as int).push(bindings@[i as int]));
        i = i + 1;
    }
    assert(bindings@.take(n as int) =~= bindings@);
    r
}

/// # The type of the binding named `name`, if one is in scope
fn binding_type(bindings: &Vec<(String, TypeIndex)>, name: &String) -> (r: Option<TypeIndex>)
    ensures
        match r {
            Some(t) => bindings_view(bindings@).contains_key(name@) && bindings_view(bindings@)[name@] == t,
            None => !bindings_view(bindings@).contains_key(name@),
        },
{
    let ghost entries = bindings@.map_values(|entry: (String, TypeIndex)| (entry.0@, entry.1));
    let mut i = bindings.len();
    while i > 0
        invariant
            i <= bindings@.len(),
            entries == bindings@.map_values(|entry: (String, TypeIndex)| (entry.0@, entry.1)),
            forall|l: int| i <= l < entries.len() ==> #[trigger] entries[l].0 != name@,
        decreases i,
    {
        if crate::intrinsics::str_eq(bindings[i - 1].0.as_str(), name.as_str()) {
            proof {
                crate::types::entries_map_last(entries, name@, i - 1);
            }
            return Some(bindings[i - 1].1);
        }
        i = i - 1;
    }
    proof {
        crate::types::entries_map_absent(entries, name@);
    }
    None
}

/// The model of a queued branch
spec fn item_view(item: QueueItem) -> ItemView {
    ItemView {
        body: item.body.deep_view(),
        position: item.position as int,
        branch_location: item.branch_location,
        function_location: item.function_location,
        parameters: item.parameters@,
        stack: item.stack@,
        deferred: item.deferred,
        bindings: bindings_view(item.bindings@),
    }
}

/// The models of queued branches
spec fn items_view(items: Seq<QueueItem>) -> Seq<ItemView> {
    items.map_values(|item: QueueItem| item_view(item))
}

/// # The branch at `branch_location`, ready to be looked at
fn new_queue_item<'a>(
    branch: &'a Branch,
    branch_location: BranchLocation,
    function_location: FunctionLocation,
    environment: &Vec<(String, TypeIndex)>,
    types: &mut Types,
) -> (r: QueueItem<'a>)
    ensures
        (item_view(r), final(types).deep_view()) == new_item(
            branch.deep_view(),
            branch_location,
            function_location,
            bindings_view(environment@),
            old(types).deep_view(),
        ),
{
    let ghost before = types.deep_view();
    let ghost patterns = branch.deep_view().parameters;
    let start = types.inner.len();
    let mut parameters: Vec<TypeIndex> = Vec::new();
    let mut bindings = copy_bindings(environment);
    let n = branch.parameters.len();
    let mut i: usize = 0;
    assert(patterns.take(0) =~= Seq::<PatternView>::empty());
    while i < n
        invariant
            bindings_view(bindings@) == add_bindings(
                bindings_view(environment@),
                patterns.take(i as int),
                start as int,
            ),
            n == patterns.len(),
            patterns == branch.deep_view().parameters,
            i <= n,
            start == before.inner.len(),
            types.inner@.len() == start + i,
            types.inner.deep_view() == before.inner + Seq::new(i as nat, |j: int| pattern_type(patterns[j])),
            (types.of_expressions@, types.of_branches@, types.of_functions@) == (
                old(types).of_expressions@,
                old(types).of_branches@,
                old(types).of_functions@,
            ),
            parameters@ == indices_from(start as int, i as nat),
        decreases n - i,
    {
        let ghost before_bindings = bindings@;
        let type_ = match &branch.parameters[i] {
            Pattern::Identifier { name } => {
                bindings.push((name.clone(), TypeIndex(types.inner.len())));
                Type::Unknown
            },
            Pattern::Literal { .. } => Type::Number,
        };
        proof {
            assert(patterns.take(i + 1).drop_last() =~= patterns.take(i as int));
            assert(patterns.take(i + 1).last() == patterns[i as int]);
            let mapped = bindings@.map_values(|entry: (String, TypeIndex)| (entry.0@, entry.1));
            let before_mapped = before_bindings.map_values(|entry: (String, TypeIndex)| (entry.0@, entry.1));
            if bindings@.len() > before_bindings.len() {
                assert(mapped.drop_last() =~= before_mapped);
            } else {
                assert(mapped =~= before_mapped);
            }
        }
        assert(type_.deep_view() == pattern_type(patterns[i as int]));
        let ghost table = types.inner.deep_view();
        parameters.push(TypeIndex(types.inner.len()));
        types.inner.push(type_);
        proof {
            assert(types.inner.deep_view() =~= table.push(pattern_type(patterns[i as int])));
            assert(types.inner.deep_view() =~= before.inner + Seq::new(
                (i + 1) as nat,
                |j: int| pattern_type(patterns[j]),
            ));
            assert(parameters@ =~= indices_from(start as int, (i + 1) as nat));
        }
        i = i + 1;
    }
    assert(patterns.take(n as int) =~= patterns);
    let r = QueueItem {
        body: &branch.body,
        position: 0,
        branch_location,
        function_location,
        parameters,
        stack: Vec::new(),
        deferred: false,
        bindings,
    };
    assert(item_view(r).stack =~= Seq::<TypeIndex>::empty());
    assert(types.deep_view() =~= add_parameters(before, patterns));
    r
}

/// # The branches of `function`, at `location`, ready to be looked at
fn new_queue_items<'a>(
    function: &'a Function,
    location: &FunctionLocation,
    environment: &Vec<(String, TypeIndex)>,
    types: &mut Types,
) -> (r: Vec<QueueItem<'a>>)
    ensures
        (items_view(r@), final(types).deep_view()) == new_items(
            function.deep_view(),
            *location,
            bindings_view(environment@),
            old(types).deep_view(),
            function.branches@.len() as int,
        ),
{
    let mut items: Vec<QueueItem<'a>> = Vec::new();
    let n = function.branches.len();
    let mut b: usize = 0;
    assert(items_view(items@) =~= Seq::<ItemView>::empty());
    while b < n
        invariant
            n == function.branches@.len(),
            b <= n,
            (items_view(items@), types.deep_view()) == new_items(
                function.deep_view(),
                *location,
                bindings_view(environment@),
                old(types).deep_view(),
                b as int,
            ),
        decreases n - b,
    {
        let branch_location = BranchLocation { parent: Box::new(location.copied()), index: BranchIndex(b as u32) };
        let item = new_queue_item(&function.branches[b], branch_location, location.copied(), environment, types);
        let ghost before = items@;
        items.push(item);
        assert(items_view(items@) =~= items_view(before).push(item_view(item)));
        b = b + 1;
    }
    items
}

/// # The named function that the expression at `location` is part of
fn find_enclosing_named_function(location: &FragmentLocation) -> (r: FunctionIndexInRootContext)
    ensures
        r == enclosing_named_function(*location),
    decreases *location,
{
    match &*location.parent.parent {
        FunctionLocation::NamedFunction { index } => *index,
        FunctionLocation::AnonymousFunction { location: literal } => find_enclosing_named_function(literal),
    }
}

/// # Whether two hashes are the same
pub(crate) fn same_hash(a: &crate::code::Hash, b: &crate::code::Hash) -> (r: bool)
    ensures
        r == (a.hash == b.hash),
{
    broadcast use vstd::array::group_array_axioms;

    let mut i: usize = 0;
    while i < 32
        invariant
            i <= 32,
            forall|j: int| 0 <= j < i ==> a.hash[j] == b.hash[j],
        decreases 32 - i,
    {
        if a.hash[i] != b.hash[i] {
            return false;
        }
        i = i + 1;
    }
    assert(a.hash =~= b.hash);
    true
}

proof fn lemma_position_by_hash(named: Seq<NamedFunctionView>, hash: crate::code::Hash, k: int)
    requires
        0 <= k <= named.len(),
        forall|j: int| 0 <= j < k ==> #[trigger] spec_hash(named[j].inner) != hash.hash,
    ensures
        k < named.len() && spec_hash(named[k].inner) == hash.hash ==> position_by_hash(named, hash) == Some(k),
        k == named.len() ==> position_by_hash(named, hash) is None,
    decreases k,
{
    if k > 0 {
        let rest = named.drop_first();
        assert forall|j: int| 0 <= j < k - 1 implies #[trigger] spec_hash(rest[j].inner) != hash.hash by {
            assert(rest[j] == named[j + 1]);
        }
        lemma_position_by_hash(rest, hash, k - 1);
    }
}

/// # The position of the first named function whose hash is `hash`
pub(crate) fn find_by_hash(functions: &Functions, hash: &crate::code::Hash) -> (r: Option<usize>)
    ensures
        r matches Some(i) ==> position_by_hash(functions.deep_view().named, *hash) == Some(i as int),
        r is None ==> position_by_hash(functions.deep_view().named, *hash) is None,
{
    let ghost named = functions.deep_view().named;
    let n = functions.named.len();
    let mut i: usize = 0;
    while i < n
        invariant
            n == named.len(),
            named == functions.deep_view().named,
            i <= n,
            forall|j: int| 0 <= j < i ==> #[trigger] spec_hash(named[j].inner) != hash.hash,
        decreases n - i,
    {
        let candidate = crate::code::Hash::new(&functions.named[i].inner);
        if same_hash(&candidate, hash) {
            proof {
                lemma_position_by_hash(named, *hash, i as int);
            }
            return Some(i);
        }
        i = i + 1;
    }
    proof {
        lemma_position_by_hash(named, *hash, n as int);
    }
    None
}

/// Whether the branch at `branch` of the function at `function` has a
/// signature in `types`, as has its function
pub open spec fn branch_done(types: TypesView, branch: BranchLocation, function: FunctionLocation) -> bool {
    types.of_branches.contains_key(branch) && types.of_functions.contains_key(function)
}

/// Whether the branch at `branch` of the function at `function` is waiting in
/// `queue`
pub open spec fn branch_queued(queue: Seq<ItemView>, branch: BranchLocation, function: FunctionLocation) -> bool {
    exists|j: int| 0 <= j < queue.len() && #[trigger] queue[j].branch_location == branch && queue[j].function_location
        == function
}

/// Whether every branch and function that has a signature in `before` has
/// one in `after`
pub open spec fn keeps_signatures(before: TypesView, after: TypesView) -> bool {
    &&& forall|b: BranchLocation| #[trigger] before.of_branches.contains_key(b) ==> after.of_branches.contains_key(b)
    &&& forall|f: FunctionLocation| #[trigger] before.of_functions.contains_key(f) ==> after.of_functions.contains_key(
        f,
    )
}

proof fn lemma_new_items(
    function: FunctionView,
    location: FunctionLocation,
    environment: Map<Seq<char>, TypeIndex>,
    types: TypesView,
    n: int,
)
    requires
        0 <= n,
    ensures
        ({
            let (items, after) = new_items(function, location, environment, types, n);
            &&& items.len() == n
            &&& forall|b: int| 0 <= b < n ==> (#[trigger] items[b]).branch_location == (BranchLocation {
                parent: Box::new(location),
                index: BranchIndex(b as u32),
            }) && items[b].function_location == location
            &&& after.of_branches == types.of_branches
            &&& after.of_functions == types.of_functions
        }),
    decreases n,
{
    if n > 0 {
        lemma_new_items(function, location, environment, types, n - 1);
    }
}

proof fn lemma_infer_expression_keeps(
    expression: ExpressionView,
    location: FragmentLocation,
    cluster: Seq<FunctionLocation>,
    functions: FunctionsView,
    host_functions: Seq<HostFunctionView>,
    bindings: Map<Seq<char>, TypeIndex>,
    stack: Seq<TypeIndex>,
    types: TypesView,
)
    requires
        infer_expression(expression, location, cluster, functions, host_functions, bindings, stack, types) is Some,
    ensures
        ({
            let after = infer_expression(
                expression,
                location,
                cluster,
                functions,
                host_functions,
                bindings,
                stack,
                types,
            ).unwrap().2;
            after.of_branches == types.of_branches && after.of_functions == types.of_functions
        }),
{
    reveal(infer_expression);
    let literal = FunctionLocation::AnonymousFunction { location };
    if let Some(function) = functions.function_at(literal) {
        lemma_new_items(function, literal, bindings, types, function.branches.len() as int);
    }
}

proof fn lemma_run_branch(
    item: ItemView,
    queue: Seq<ItemView>,
    cluster: Seq<FunctionLocation>,
    functions: FunctionsView,
    host_functions: Seq<HostFunctionView>,
    types: TypesView,
)
    requires
        run_branch(item, queue, cluster, functions, host_functions, types) is Some,
    ensures
        ({
            let (rest, after) = run_branch(item, queue, cluster, functions, host_functions, types).unwrap();
            &&& keeps_signatures(types, after)
            &&& branch_done(after, item.branch_location, item.function_location) || branch_queued(
                rest,
                item.branch_location,
                item.function_location,
            )
            &&& forall|j: int| 0 <= j < queue.len() ==> rest.contains(#[trigger] queue[j])
        }),
    decreases item.body.len() - item.position,
{
    if item.position < 0 || item.position >= item.body.len() {
        assert forall|j: int| 0 <= j < queue.len() implies queue.contains(#[trigger] queue[j]) by {
            assert(queue[j] == queue[j]);
        }
        assert(keeps_signatures(types, finish_branch(item, types)));
        assert(branch_done(finish_branch(item, types), item.branch_location, item.function_location));
    } else {
        let location = next_location(item);
        let (inference, stack, after) = infer_expression(
            item.body[item.position],
            location,
            cluster,
            functions,
            host_functions,
            item.bindings,
            item.stack,
            types,
        ).unwrap();
        lemma_infer_expression_keeps(
            item.body[item.position],
            location,
            cluster,
            functions,
            host_functions,
            item.bindings,
            item.stack,
            types,
        );
        let current = ItemView { stack, ..item };
        let next = ItemView { position: item.position + 1, ..current };
        match inference {
            None => {
                lemma_run_branch(next, queue, cluster, functions, host_functions, after);
            },
            Some(InferenceView::Inferred { signature }) => {
                lemma_run_branch(
                    ItemView { stack: stack + signature.outputs, ..next },
                    queue,
                    cluster,
                    functions,
                    host_functions,
                    TypesView { of_expressions: after.of_expressions.insert(location, signature), ..after },
                );
            },
            Some(InferenceView::NeedToInferMoreBranchesFirst { items }) => {
                let rest = items.reverse() + seq![current] + queue;
                let k = items.len() as int;
                assert(rest[k] == current);
                assert(rest[k].branch_location == item.branch_location && rest[k].function_location
                    == item.function_location);
                assert(keeps_signatures(types, after));
                assert forall|j: int| 0 <= j < queue.len() implies rest.contains(#[trigger] queue[j]) by {
                    assert(rest[k + 1 + j] == queue[j]);
                }
            },
            Some(InferenceView::Defer) => {
                if item.deferred {
                    let signature = SignatureView {
                        inputs: stack,
                        outputs: seq![TypeIndex(after.inner.len() as usize)],
                    };
                    let with_empty = add_type(after, TypeView::Empty);
                    lemma_run_branch(
                        ItemView { stack: signature.outputs, ..next },
                        queue,
                        cluster,
                        functions,
                        host_functions,
                        TypesView {
                            of_expressions: with_empty.of_expressions.insert(location, signature),
                            ..with_empty
                        },
                    );
                } else {
                    let rest = queue.push(ItemView { deferred: true, ..current });
                    assert(rest[queue.len() as int] == ItemView { deferred: true, ..current });
                    assert(rest[queue.len() as int].branch_location == item.branch_location
                        && rest[queue.len() as int].function_location == item.function_location);
                    assert(keeps_signatures(types, after));
                    assert forall|j: int| 0 <= j < queue.len() implies rest.contains(#[trigger] queue[j]) by {
                        assert(rest[j] == queue[j]);
                    }
                }
            },
        }
    }
}

proof fn lemma_run_queue(
    queue: Seq<ItemView>,
    cluster: Seq<FunctionLocation>,
    functions: FunctionsView,
    host_functions: Seq<HostFunctionView>,
    types: TypesView,
    fuel: nat,
)
    requires
        run_queue(queue, cluster, functions, host_functions, types, fuel) is Some,
    ensures
        ({
            let after = run_queue(queue, cluster, functions, host_functions, types, fuel).unwrap().0;
            &&& keeps_signatures(types, after)
            &&& forall|j: int|
                0 <= j < queue.len() ==> branch_done(after, #[trigger] queue[j].branch_location, queue[j].function_location)
        }),
    decreases fuel,
{
    if queue.len() > 0 {
        let (rest, next) = run_branch(queue[0], queue.drop_first(), cluster, functions, host_functions, types).unwrap();
        lemma_run_branch(queue[0], queue.drop_first(), cluster, functions, host_functions, types);
        lemma_run_queue(rest, cluster, functions, host_functions, next, (fuel - 1) as nat);
        let after = run_queue(queue, cluster, functions, host_functions, types, fuel).unwrap().0;
        assert forall|j: int| 0 <= j < queue.len() implies branch_done(
            after,
            #[trigger] queue[j].branch_location,
            queue[j].function_location,
        ) by {
            if j == 0 {
                if !branch_done(next, queue[0].branch_location, queue[0].function_location) {
                    let k = choose|k: int|
                        0 <= k < rest.len() && #[trigger] rest[k].branch_location == queue[0].branch_location
                            && rest[k].function_location == queue[0].function_location;
                    assert(branch_done(after, rest[k].branch_location, rest[k].function_location));
                }
            } else {
                assert(queue.drop_first()[j - 1] == queue[j]);
                let k = choose|k: int| 0 <= k < rest.len() && rest[k] == queue.drop_first()[j - 1];
                assert(branch_done(after, rest[k].branch_location, rest[k].function_location));
            }
        }
    }
}

proof fn lemma_cluster_items(functions: FunctionsView, locations: Seq<FunctionLocation>, types: TypesView)
    requires
        cluster_items(functions, locations, types) is Some,
    ensures
        ({
            let (items, after) = cluster_items(functions, locations, types).unwrap();
            &&& after.of_branches == types.of_branches
            &&& after.of_functions == types.of_functions
            &&& forall|l: int, b: int|
                #![trigger branch_location(locations[l], b)]
                0 <= l < locations.len() && locations[l] is NamedFunction && 0 <= b
                    < functions.named[locations[l]->index.0 as int].inner.branches.len() ==> branch_queued(
                    items,
                    branch_location(locations[l], b),
                    locations[l],
                )
        }),
    decreases locations.len(),
{
    if locations.len() > 0 {
        let (items, before) = cluster_items(functions, locations.drop_last(), types).unwrap();
        lemma_cluster_items(functions, locations.drop_last(), types);
        let (all, after) = cluster_items(functions, locations, types).unwrap();
        let last = locations.last();
        let mut more_len: int = 0;
        if let FunctionLocation::NamedFunction { index } = last {
            let function = functions.named[index.0 as int].inner;
            lemma_new_items(function, last, Map::empty(), before, function.branches.len() as int);
        }
        assert forall|l: int, b: int|
            #![trigger branch_location(locations[l], b)]
            0 <= l < locations.len() && locations[l] is NamedFunction && 0 <= b
                < functions.named[locations[l]->index.0 as int].inner.branches.len() implies branch_queued(
            all,
            branch_location(locations[l], b),
            locations[l],
        ) by {
            let branch = branch_location(locations[l], b);
            if l < locations.len() - 1 {
                assert(locations.drop_last()[l] == locations[l]);
                let j = choose|j: int|
                    0 <= j < items.len() && #[trigger] items[j].branch_location == branch && items[j].function_location
                        == locations[l];
                assert(all[j] == items[j]);
            } else {
                let function = functions.named[last->index.0 as int].inner;
                let more = new_items(function, last, Map::empty(), before, function.branches.len() as int).0;
                assert(all == items + more);
                assert(all[items.len() + b] == more[b]);
            }
        }
    }
}

proof fn lemma_run_clusters(
    functions: FunctionsView,
    clusters: Seq<ClusterView>,
    host_functions: Seq<HostFunctionView>,
    fuel: nat,
)
    requires
        run_clusters(functions, clusters, host_functions, fuel) is Some,
    ensures
        forall|c: int, l: int, b: int|
            #![trigger branch_location(clusters[c].functions[l], b)]
            0 <= c < clusters.len() && 0 <= l < clusters[c].functions.len()
                && clusters[c].functions[l] is NamedFunction && 0 <= b < functions.named[clusters[c].functions[l]->index.0 as int].inner.branches.len()
                ==> branch_done(
                run_clusters(functions, clusters, host_functions, fuel).unwrap().0,
                branch_location(clusters[c].functions[l], b),
                clusters[c].functions[l],
            ),
    decreases clusters.len(),
{
    if clusters.len() > 0 {
        let init = clusters.drop_last();
        let (before, left) = run_clusters(functions, init, host_functions, fuel).unwrap();
        lemma_run_clusters(functions, init, host_functions, fuel);
        let last = clusters.last();
        let (queue, queued) = cluster_items(functions, last.functions, before).unwrap();
        lemma_cluster_items(functions, last.functions, before);
        lemma_run_queue(queue, last.functions, functions, host_functions, queued, left);
        let after = run_clusters(functions, clusters, host_functions, fuel).unwrap().0;
        assert forall|c: int, l: int, b: int|
            #![trigger branch_location(clusters[c].functions[l], b)]
            0 <= c < clusters.len() && 0 <= l < clusters[c].functions.len()
                && clusters[c].functions[l] is NamedFunction && 0 <= b < functions.named[clusters[c].functions[l]->index.0 as int].inner.branches.len()
            implies branch_done(
            after,
            branch_location(clusters[c].functions[l], b),
            clusters[c].functions[l],
        ) by {
            let location = clusters[c].functions[l];
            let branch = branch_location(location, b);
            if c < clusters.len() - 1 {
                assert(init[c].functions[l] == location);
                assert(branch_done(before, branch, location));
            } else {
                assert(last.functions[l] == location);
                assert(branch_queued(queue, branch, location));
                let j = choose|j: int|
                    0 <= j < queue.len() && #[trigger] queue[j].branch_location == branch && queue[j].function_location
                        == location;
                assert(branch_done(after, queue[j].branch_location, queue[j].function_location));
            }
        }
    }
}

/// Where inference finishes, each branch of each named function of the
/// clusters has a signature, and so has each such function that has a branch.
pub proof fn inferred_types_cover_named_functions(
    functions: FunctionsView,
    clusters: Seq<ClusterView>,
    host_functions: Seq<HostFunctionView>,
)
    requires
        inference_succeeds(functions, clusters, host_functions),
    ensures
        forall|c: int, l: int, b: int|
            #![trigger branch_location(clusters[c].functions[l], b)]
            0 <= c < clusters.len() && 0 <= l < clusters[c].functions.len()
                && clusters[c].functions[l] is NamedFunction && 0 <= b < functions.named[clusters[c].functions[l]->index.0 as int].inner.branches.len()
                ==> branch_done(
                spec_infer_types(functions, clusters, host_functions),
                branch_location(clusters[c].functions[l], b),
                clusters[c].functions[l],
            ),
{
    let fuel = choose|fuel: nat| #[trigger] run_clusters(functions, clusters, host_functions, fuel) is Some;
    lemma_run_clusters(functions, clusters, host_functions, fuel);
}

/// # Apply a concrete signature to the values on the stack
///
/// The types of the signature's inputs replace the types that the top of the
/// stack refers to, which it takes off the stack; where the stack has fewer
/// values than the signature has inputs, it takes them all. Then the types of
/// the inputs and outputs are added to the table, and the signature that refers
/// to them is returned.
///
/// Requires that the values taken from the stack refer to types in the table.
pub fn handle_concrete_signature(
    signature: ConcreteSignature,
    stack: &mut Vec<TypeIndex>,
    types: &mut Types,
) -> (r: Signature)
    requires
        top_in_table(
            old(stack)@,
            taken(old(stack)@.len(), signature.inputs@.len()),
            old(types).inner@.len(),
        ),
    ensures
        final(stack)@ == old(stack)@.take(
            old(stack)@.len() - taken(old(stack)@.len(), signature.inputs@.len()),
        ),
        final(types).inner.deep_view() == assign_inputs(
            old(types).inner.deep_view(),
            old(stack)@,
            signature.inputs.deep_view(),
        ) + signature.inputs.deep_view() + signature.outputs.deep_view(),
        final(types).of_expressions@ == old(types).of_expressions@,
        final(types).of_branches@ == old(types).of_branches@,
        final(types).of_functions@ == old(types).of_functions@,
        r.inputs@ == indices_from(old(types).inner@.len() as int, signature.inputs@.len()),
        r.outputs@ == indices_from(
            (old(types).inner@.len() + signature.inputs@.len()) as int,
            signature.outputs@.len(),
        ),
{
    let ghost stack0 = stack@;
    let ghost table0 = types.inner.deep_view();
    let ghost inputs = signature.inputs.deep_view();
    let ghost unchanged = (types.of_expressions@, types.of_branches@, types.of_functions@);
    let ConcreteSignature { inputs: input_types, outputs: output_types } = signature;
    let mut result = Signature { inputs: Vec::new(), outputs: Vec::new() };

    let n = input_types.len();
    let mut i: usize = n;
    assert(stack0.take(stack0.len() as int) =~= stack0);
    assert(inputs.take(n as int) =~= inputs);
    while i > 0
        invariant
            i <= n,
            n == inputs.len(),
            inputs == input_types.deep_view(),
            stack@.len() <= stack0.len(),
            stack0.len() - stack@.len() <= n - i,
            stack@.len() > 0 ==> stack0.len() - stack@.len() == n - i,
            stack@ == stack0.take(stack@.len() as int),
            top_in_table(stack0, taken(stack0.len(), n as nat), table0.len()),
            types.inner@.len() == table0.len(),
            (types.of_expressions@, types.of_branches@, types.of_functions@) == unchanged,
            assign_inputs(types.inner.deep_view(), stack@, inputs.take(i as int)) == assign_inputs(
                table0,
                stack0,
                inputs,
            ),
        decreases i,
    {
        let ghost before = types.inner.deep_view();
        let ghost before_stack = stack@;
        if let Some(index) = stack.pop() {
            proof {
                let j = before_stack.len() - 1;
                assert(before_stack.last() == index);
                assert(stack@ =~= before_stack.drop_last());
                assert(before_stack[j] == stack0[j]);
                assert(stack0[j].0 < table0.len());
                assert(index.0 < table0.len());
            }
            let t = input_types[i - 1].copied();
            types.inner.set(index.0 as usize, t);
            proof {
                assert(types.inner.deep_view() =~= before.update(index.0 as int, inputs[i - 1]));
                assert(inputs.take(i as int).last() == inputs[i - 1]);
                assert(inputs.take(i as int).drop_last() =~= inputs.take(i - 1));
                assert(stack@ =~= stack0.take(stack@.len() as int));
            }
        } else {
            proof {
                assert(assign_inputs(before, before_stack, inputs.take(i as int)) == before);
                assert(assign_inputs(before, before_stack, inputs.take(i - 1)) == before);
            }
        }
        i = i - 1;
    }
    proof {
        assert(inputs.take(0) =~= Seq::<TypeView>::empty());
        lemma_assign_inputs_len(table0, stack0, inputs);
        assert(stack@.len() == stack0.len() - taken(stack0.len(), n as nat));
    }

    let ghost assigned = types.inner.deep_view();
    let start = types.inner.len();
    let mut j: usize = 0;
    while j < n
        invariant
            n == input_types@.len(),
            j <= n,
            start == assigned.len(),
            types.inner.deep_view() == assigned + input_types.deep_view().take(j as int),
            types.inner@.len() == start + j,
            (types.of_expressions@, types.of_branches@, types.of_functions@) == unchanged,
            result.inputs@ == indices_from(start as int, j as nat),
            result.outputs@ == Seq::<TypeIndex>::empty(),
        decreases n - j,
    {
        let index = TypeIndex(types.inner.len());
        let ghost before = types.inner.deep_view();
        types.inner.push(input_types[j].copied());
        result.inputs.push(index);
        proof {
            assert(types.inner.deep_view() =~= before.push(input_types@[j as int].deep_view()));
            assert(input_types.deep_view().take(j + 1) =~= input_types.deep_view().take(j as int).push(
                input_types@[j as int].deep_view(),
            ));
            assert(result.inputs@ =~= indices_from(start as int, (j + 1) as nat));
        }
        j = j + 1;
    }
    assert(input_types.deep_view().take(n as int) =~= input_types.deep_view());

    let m = output_types.len();
    let mut k: usize = 0;
    while k < m
        invariant
            m == output_types@.len(),
            k <= m,
            start == assigned.len(),
            types.inner.deep_view() == assigned + input_types.deep_view() + output_types.deep_view().take(
                k as int,
            ),
            input_types.deep_view().len() == n,
            types.inner@.len() == start + n + k,
            (types.of_expressions@, types.of_branches@, types.of_functions@) == unchanged,
            result.inputs@ == indices_from(start as int, n as nat),
            result.outputs@ == indices_from((start + n) as int, k as nat),
        decreases m - k,
    {
        let index = TypeIndex(types.inner.len());
        let ghost before = types.inner.deep_view();
        types.inner.push(output_types[k].copied());
        result.outputs.push(index);
        proof {
            assert(types.inner.deep_view() =~= before.push(output_types@[k as int].deep_view()));
            assert(output_types.deep_view().take(k + 1) =~= output_types.deep_view().take(k as int).push(
                output_types@[k as int].deep_view(),
            ));
            assert(result.outputs@ =~= indices_from((start + n) as int, (k + 1) as nat));
        }
        k = k + 1;
    }
    assert(output_types.deep_view().take(m as int) =~= output_types.deep_view());
    result
}

/// # What looking at an expression found out
enum Inference<'a> {
    Inferred { signature: Signature },
    NeedToInferMoreBranchesFirst { queue_items: Vec<QueueItem<'a>> },
    Defer,
}

/// The model of what looking at an expression found out
spec fn inference_view(inference: Option<Inference>) -> Option<InferenceView> {
    match inference {
        Some(Inference::Inferred { signature }) => Some(InferenceView::Inferred { signature: signature.deep_view() }),
        Some(Inference::NeedToInferMoreBranchesFirst { queue_items }) => Some(
            InferenceView::NeedToInferMoreBranchesFirst { items: items_view(queue_items@) },
        ),
        Some(Inference::Defer) => Some(InferenceView::Defer),
        None => None,
    }
}

/// # Add `type_` to the table, returning its index
fn push_type(types: &mut Types, type_: Type) -> (r: TypeIndex)
    ensures
        final(types).deep_view() == add_type(old(types).deep_view(), type_.deep_view()),
        r == TypeIndex(old(types).inner@.len() as usize),
        final(types).inner@.len() == old(types).inner@.len() + 1,
{
    let ghost before = types.deep_view();
    let index = TypeIndex(types.inner.len());
    types.inner.push(type_);
    assert(types.inner.deep_view() =~= before.inner.push(type_.deep_view()));
    index
}

/// # Look at `expression`, at `location`
fn infer_type_of_expression<'a>(
    expression: &Expression,
    location: &FragmentLocation,
    cluster: &Cluster,
    functions: &'a Functions,
    host_functions: &Vec<HostFunction>,
    bindings: &Vec<(String, TypeIndex)>,
    stack: &mut Vec<TypeIndex>,
    types: &mut Types,
) -> (r: Option<Inference<'a>>)
    requires
        infer_expression(
            expression.deep_view(),
            *location,
            cluster.functions@,
            functions.deep_view(),
            host_functions.deep_view(),
            bindings_view(bindings@),
            old(stack)@,
            old(types).deep_view(),
        ) is Some,
    ensures
        infer_expression(
            expression.deep_view(),
            *location,
            cluster.functions@,
            functions.deep_view(),
            host_functions.deep_view(),
            bindings_view(bindings@),
            old(stack)@,
            old(types).deep_view(),
        ) == Some((inference_view(r), final(stack)@, final(types).deep_view())),
{
    reveal(infer_expression);
    if types.signature_of_expression(location).is_some() {
        return None;
    }
    match expression {
        Expression::CallToHostFunction { number } => {
            let Some(function) = host_function_with_number(host_functions, *number) else {
                return None;
            };
            let ghost before = types.deep_view();
            let signature = handle_concrete_signature(function.signature.copied(), stack, types);
            assert(types.deep_view() =~= TypesView { inner: types.deep_view().inner, ..before });
            Some(Inference::Inferred { signature })
        },
        Expression::CallToIntrinsicFunction { intrinsic } => {
            match intrinsic.signature() {
                Some(signature) => {
                    let ghost before = types.deep_view();
                    proof {
                        let (i, o) = intrinsic_arity(*intrinsic)->0;
                        assert(signature.inputs.deep_view() =~= number_types(i));
                        assert(signature.outputs.deep_view() =~= number_types(o));
                    }
                    let signature = handle_concrete_signature(signature, stack, types);
                    assert(types.deep_view() =~= TypesView { inner: types.deep_view().inner, ..before });
                    Some(Inference::Inferred { signature })
                },
                None => {
                    if !matches!(intrinsic, IntrinsicFunction::Eval) {
                        return None;
                    }
                    let n = stack.len();
                    if n == 0 {
                        return None;
                    }
                    let function = stack[n - 1];
                    if function.0 >= types.inner.len() {
                        return None;
                    }
                    let function_signature = match &types.inner[function.0] {
                        Type::Function { signature } => signature.copied(),
                        _ => {
                            return None;
                        },
                    };
                    let mut signature = function_signature.copied();
                    let ghost function_inputs = function_signature.inputs@;
                    let index = push_type(types, Type::Function { signature: function_signature });
                    signature.inputs.push(index);
                    assert(signature.inputs@ =~= function_inputs.push(index));
                    Some(Inference::Inferred { signature })
                },
            }
        },
        Expression::CallToUserDefinedFunction { hash, .. } => {
            let Some(i) = find_by_hash(functions, hash) else {
                return None;
            };
            let function_location = FunctionLocation::NamedFunction { index: FunctionIndexInRootContext(i as u32) };
            match types.signature_of_function(&function_location) {
                Some(signature) => {
                    let signature = signature.copied();
                    Some(Inference::Inferred { signature })
                },
                None => None,
            }
        },
        Expression::CallToUserDefinedFunctionRecursive { index, .. } => {
            let current = FunctionLocation::NamedFunction { index: find_enclosing_named_function(location) };
            if index.0 as usize >= cluster.functions.len() {
                return None;
            }
            if !cluster.functions[index.0 as usize].same_as(&current) {
                return None;
            }
            match types.signature_of_function(&current) {
                Some(signature) => {
                    let signature = signature.copied();
                    Some(Inference::Inferred { signature })
                },
                None => Some(Inference::Defer),
            }
        },
        Expression::UnresolvedLocalFunction | Expression::LocalFunction { .. }
        | Expression::LocalFunctionRecursive { .. } => {
            let literal = FunctionLocation::AnonymousFunction { location: location.copied() };
            match types.signature_of_function(&literal) {
                Some(signature) => {
                    let signature = signature.copied();
                    let index = push_type(types, Type::Function { signature });
                    let mut outputs = Vec::new();
                    outputs.push(index);
                    assert(outputs@ =~= seq![index]);
                    Some(Inference::Inferred { signature: Signature { inputs: Vec::new(), outputs } })
                },
                None => {
                    let Some(function) = functions.by_location(&literal) else {
                        return None;
                    };
                    let queue_items = new_queue_items(function, &literal, bindings, types);
                    Some(Inference::NeedToInferMoreBranchesFirst { queue_items })
                },
            }
        },
        Expression::Value(_) => {
            let index = push_type(types, Type::Number);
            let mut outputs = Vec::new();
            outputs.push(index);
            assert(outputs@ =~= seq![index]);
            Some(Inference::Inferred { signature: Signature { inputs: Vec::new(), outputs } })
        },
        Expression::UnresolvedIdentifier { name, .. } => match binding_type(bindings, name) {
            Some(index) => {
                let mut outputs = Vec::new();
                outputs.push(index);
                assert(outputs@ =~= seq![index]);
                Some(Inference::Inferred { signature: Signature { inputs: Vec::new(), outputs } })
            },
            None => None,
        },
        Expression::Comment { .. } => None,
    }
}

/// # Push `outputs` onto `stack`
fn push_outputs(stack: &mut Vec<TypeIndex>, outputs: &Vec<TypeIndex>)
    ensures
        final(stack)@ == old(stack)@ + outputs@,
{
    let m = outputs.len();
    let mut k: usize = 0;
    while k < m
        invariant
            m == outputs@.len(),
            k <= m,
            stack@ == old(stack)@ + outputs@.take(k as int),
        decreases m - k,
    {
        stack.push(outputs[k]);
        assert(outputs@.take(k + 1) =~= outputs@.take(k as int).push(outputs@[k as int]));
        k = k + 1;
    }
    assert(outputs@.take(m as int) =~= outputs@);
}

/// # Record the signature of the expression at `location`
fn record_expression(types: &mut Types, location: FragmentLocation, signature: Signature)
    ensures
        final(types).deep_view() == (TypesView {
            of_expressions: old(types).deep_view().of_expressions.insert(location, signature.deep_view()),
            ..old(types).deep_view()
        }),
{
    let ghost entries = types.of_expressions@;
    types.of_expressions.push((location, signature));
    proof {
        let view = crate::types::entries_view(types.of_expressions@);
        assert(view.drop_last() =~= crate::types::entries_view(entries));
    }
}

/// # Put `items`, and in front of them `first`, in front of `queue`, the
/// last of `items` first
#[verifier::spinoff_prover]
#[verifier::rlimit(40)]
fn push_items_front<'a>(
    queue: &mut std::collections::VecDeque<QueueItem<'a>>,
    first: QueueItem<'a>,
    items: Vec<QueueItem<'a>>,
)
    ensures
        items_view(final(queue)@) == items_view(items@).reverse() + seq![item_view(first)] + items_view(
            old(queue)@,
        ),
{
    let ghost pending = items_view(items@);
    let ghost rest = items_view(queue@);
    let ghost current = item_view(first);
    let ghost before = queue@;
    queue.push_front(first);
    let mut items = items;
    let n = items.len();
    let mut k: usize = 0;
    assert(items_view(queue@) =~= seq![current] + items_view(before));
    assert(pending.take(0).reverse() =~= Seq::<ItemView>::empty());
    assert(pending.skip(0) =~= pending);
    while k < n
        invariant
            k <= n,
            n == pending.len(),
            items_view(items@) == pending.skip(k as int),
            items@.len() == n - k,
            items_view(queue@) == pending.take(k as int).reverse() + seq![current] + rest,
        decreases n - k,
    {
        let ghost before_items = items@;
        let item = items.remove(0);
        proof {
            assert(item == before_items[0]);
            assert(items_view(before_items)[0] == item_view(item));
            assert(pending.skip(k as int)[0] == pending[k as int]);
            assert forall|j: int| 0 <= j < items@.len() implies #[trigger] items_view(items@)[j] == pending.skip(
                k + 1,
            )[j] by {
                assert(items@[j] == before_items[j + 1]);
                assert(items_view(before_items)[j + 1] == pending.skip(k as int)[j + 1]);
            }
            assert(items_view(items@) =~= pending.skip(k + 1));
        }
        let ghost before_queue = queue@;
        queue.push_front(item);
        proof {
            assert(pending.take(k + 1).reverse() =~= seq![pending[k as int]] + pending.take(k as int).reverse());
            assert(items_view(queue@) =~= seq![item_view(item)] + items_view(before_queue));
        }
        k = k + 1;
    }
    assert(pending.take(n as int) =~= pending);
}

/// The outcome of looking at the branch of `item`, from its next expression
/// on, with `queue` and `types` as they are
spec fn branch_outcome(
    item: QueueItem,
    queue: Seq<QueueItem>,
    cluster: &Cluster,
    functions: &Functions,
    host_functions: &Vec<HostFunction>,
    types: TypesView,
) -> Option<(Seq<ItemView>, TypesView)> {
    run_branch(
        item_view(item),
        items_view(queue),
        cluster.functions@,
        functions.deep_view(),
        host_functions.deep_view(),
        types,
    )
}

/// # Look at the branch of `queue_item`, until it is done or paused
fn infer_types_in_branch<'a>(
    item: QueueItem<'a>,
    cluster: &Cluster,
    functions: &'a Functions,
    host_functions: &Vec<HostFunction>,
    queue: &mut std::collections::VecDeque<QueueItem<'a>>,
    types: &mut Types,
)
    requires
        branch_outcome(item, old(queue)@, cluster, functions, host_functions, old(types).deep_view()) is Some,
    ensures
        branch_outcome(item, old(queue)@, cluster, functions, host_functions, old(types).deep_view()) == Some(
            (items_view(final(queue)@), final(types).deep_view()),
        ),
{
    let ghost outcome = branch_outcome(item, queue@, cluster, functions, host_functions, types.deep_view());
    let mut queue_item = item;
    while queue_item.position < queue_item.body.len()
        invariant
            outcome is Some,
            outcome == branch_outcome(item, old(queue)@, cluster, functions, host_functions, old(types).deep_view()),
            branch_outcome(queue_item, queue@, cluster, functions, host_functions, types.deep_view()) == outcome,
        decreases queue_item.body@.len() - queue_item.position,
    {
        let location = FragmentLocation {
            parent: Box::new(queue_item.branch_location.copied()),
            index: FragmentIndexInBranchBody(queue_item.position as u32),
        };
        assert(location == next_location(item_view(queue_item)));
        let ghost before_types = types.deep_view();
        let ghost before_item = queue_item;
        let inference = infer_type_of_expression(
            &queue_item.body[queue_item.position],
            &location,
            cluster,
            functions,
            host_functions,
            &queue_item.bindings,
            &mut queue_item.stack,
            types,
        );
        match inference {
            None => {},
            Some(Inference::Inferred { signature }) => {
                push_outputs(&mut queue_item.stack, &signature.outputs);
                record_expression(types, location, signature);
            },
            Some(Inference::NeedToInferMoreBranchesFirst { queue_items }) => {
                push_items_front(queue, queue_item, queue_items);
                return;
            },
            Some(Inference::Defer) => {
                if queue_item.deferred {
                    let inputs = copy_indices(&queue_item.stack);
                    queue_item.stack = Vec::new();
                    let index = push_type(types, Type::Empty);
                    let mut outputs = Vec::new();
                    outputs.push(index);
                    queue_item.stack.push(index);
                    let signature = Signature { inputs, outputs };
                    assert(signature.outputs@ =~= seq![index]);
                    assert(queue_item.stack@ =~= seq![index]);
                    record_expression(types, location, signature);
                } else {
                    queue_item.deferred = true;
                    let ghost rest = queue@;
                    queue.push_back(queue_item);
                    assert(items_view(queue@) =~= items_view(rest).push(item_view(queue_item)));
                    return;
                }
            },
        }
        queue_item.position = queue_item.position + 1;
    }
    let signature = Signature { inputs: copy_indices(&queue_item.parameters), outputs: queue_item.stack };
    let ghost branch_entries = types.of_branches@;
    types.of_branches.push((queue_item.branch_location.copied(), signature.copied()));
    proof {
        let view = crate::types::entries_view(types.of_branches@);
        assert(view.drop_last() =~= crate::types::entries_view(branch_entries));
    }
    let function_signature = match types.signature_of_function(&queue_item.function_location) {
        Some(recorded) => merge_signatures(recorded, &signature, &types.inner),
        None => signature,
    };
    let ghost function_entries = types.of_functions@;
    types.of_functions.push((queue_item.function_location, function_signature));
    proof {
        let view = crate::types::entries_view(types.of_functions@);
        assert(view.drop_last() =~= crate::types::entries_view(function_entries));
    }
}

/// # Whether `index` refers to a type in `table` that is unknown
fn unknown_at(table: &Vec<Type>, index: TypeIndex) -> (r: bool)
    ensures
        r == is_unknown_at(table.deep_view(), index),
{
    index.0 < table.len() && matches!(table[index.0], Type::Unknown)
}

/// # `recorded`, with its unknown types replaced by the known ones of `branch`
fn merge_indices(recorded: &Vec<TypeIndex>, branch: &Vec<TypeIndex>, table: &Vec<Type>) -> (r: Vec<TypeIndex>)
    ensures
        r@ == merged_indices(recorded@, branch@, table.deep_view()),
{
    let mut r: Vec<TypeIndex> = Vec::new();
    let n = recorded.len();
    let mut i: usize = 0;
    while i < n
        invariant
            n == recorded@.len(),
            i <= n,
            r@ == merged_indices(recorded@, branch@, table.deep_view()).take(i as int),
        decreases n - i,
    {
        let index = if i < branch.len() && unknown_at(table, recorded[i]) && !unknown_at(table, branch[i]) {
            branch[i]
        } else {
            recorded[i]
        };
        r.push(index);
        assert(merged_indices(recorded@, branch@, table.deep_view()).take(i + 1) =~= merged_indices(
            recorded@,
            branch@,
            table.deep_view(),
        ).take(i as int).push(index));
        i = i + 1;
    }
    assert(merged_indices(recorded@, branch@, table.deep_view()).take(n as int) =~= merged_indices(
        recorded@,
        branch@,
        table.deep_view(),
    ));
    r
}

/// # The signature recorded for a function, combined with that of one more of
/// its branches
fn merge_signatures(recorded: &Signature, branch: &Signature, table: &Vec<Type>) -> (r: Signature)
    ensures
        r.deep_view() == merged_signature(recorded.deep_view(), branch.deep_view(), table.deep_view()),
{
    Signature {
        inputs: merge_indices(&recorded.inputs, &branch.inputs, table),
        outputs: merge_indices(&recorded.outputs, &branch.outputs, table),
    }
}

proof fn lemma_run_clusters_prefix(
    functions: FunctionsView,
    clusters: Seq<ClusterView>,
    host_functions: Seq<HostFunctionView>,
    fuel: nat,
    c: int,
)
    requires
        0 <= c <= clusters.len(),
        run_clusters(functions, clusters, host_functions, fuel) is Some,
    ensures
        run_clusters(functions, clusters.take(c), host_functions, fuel) is Some,
    decreases clusters.len(),
{
    if c < clusters.len() {
        assert(clusters.drop_last().take(c) =~= clusters.take(c));
        lemma_run_clusters_prefix(functions, clusters.drop_last(), host_functions, fuel, c);
    } else {
        assert(clusters.take(c) =~= clusters);
    }
}

proof fn lemma_cluster_items_prefix(
    functions: FunctionsView,
    locations: Seq<FunctionLocation>,
    types: TypesView,
    l: int,
)
    requires
        0 <= l <= locations.len(),
        cluster_items(functions, locations, types) is Some,
    ensures
        cluster_items(functions, locations.take(l), types) is Some,
    decreases locations.len(),
{
    if l < locations.len() {
        assert(locations.drop_last().take(l) =~= locations.take(l));
        lemma_cluster_items_prefix(functions, locations.drop_last(), types, l);
    } else {
        assert(locations.take(l) =~= locations);
    }
}

/// # The branches of the named functions of `cluster`, queued to be looked at
fn queue_cluster<'a>(
    functions: &'a Functions,
    cluster: &Cluster,
    types: &mut Types,
) -> (r: std::collections::VecDeque<QueueItem<'a>>)
    requires
        cluster_items(functions.deep_view(), cluster.functions@, old(types).deep_view()) is Some,
    ensures
        cluster_items(functions.deep_view(), cluster.functions@, old(types).deep_view()) == Some(
            (items_view(r@), final(types).deep_view()),
        ),
{
    let ghost fs = functions.deep_view();
    let ghost locations = cluster.functions@;
    let ghost start = types.deep_view();
    let mut queue: std::collections::VecDeque<QueueItem<'a>> = std::collections::VecDeque::new();
    let n = cluster.functions.len();
    let mut l: usize = 0;
    assert(locations.take(0) =~= Seq::<FunctionLocation>::empty());
    assert(items_view(queue@) =~= Seq::<ItemView>::empty());
    while l < n
        invariant
            n == locations.len(),
            l <= n,
            fs == functions.deep_view(),
            locations == cluster.functions@,
            cluster_items(fs, locations, start) is Some,
            cluster_items(fs, locations.take(l as int), start) == Some((items_view(queue@), types.deep_view())),
        decreases n - l,
    {
        proof {
            lemma_cluster_items_prefix(fs, locations, start, l + 1);
            assert(locations.take(l + 1).drop_last() =~= locations.take(l as int));
            assert(locations.take(l + 1).last() == locations[l as int]);
        }
        let location = &cluster.functions[l];
        if let FunctionLocation::NamedFunction { index } = location {
            let function = &functions.named[index.0 as usize].inner;
            let items = new_queue_items(function, location, &Vec::new(), types);
            let mut items = items;
            let ghost pending = items_view(items@);
            let ghost before = items_view(queue@);
            let m = items.len();
            let mut k: usize = 0;
            assert(pending.take(0) =~= Seq::<ItemView>::empty());
            assert(items_view(items@).skip(0) =~= pending);
            while k < m
                invariant
                    k <= m,
                    m == pending.len(),
                    items@.len() == m - k,
                    items_view(items@) == pending.skip(k as int),
                    items_view(queue@) == before + pending.take(k as int),
                decreases m - k,
            {
                let ghost before_items = items@;
                let item = items.remove(0);
                proof {
                    assert(item == before_items[0]);
                    assert(items_view(before_items)[0] == item_view(item));
                    assert(pending.skip(k as int)[0] == pending[k as int]);
                    assert forall|j: int| 0 <= j < items@.len() implies #[trigger] items_view(items@)[j]
                        == pending.skip(k + 1)[j] by {
                        assert(items@[j] == before_items[j + 1]);
                        assert(items_view(before_items)[j + 1] == pending.skip(k as int)[j + 1]);
                    }
                    assert(items_view(items@) =~= pending.skip(k + 1));
                }
                let ghost before_queue = queue@;
                queue.push_back(item);
                proof {
                    assert(items_view(queue@) =~= items_view(before_queue).push(item_view(item)));
                    assert(pending.take(k + 1) =~= pending.take(k as int).push(pending[k as int]));
                }
                k = k + 1;
            }
            assert(pending.take(m as int) =~= pending);
        }
        l = l + 1;
    }
    assert(locations.take(n as int) =~= locations);
    queue
}

/// # Infer the types of the expressions, branches and named functions
///
/// The clusters are looked at one after the other, starting at the leaves of
/// the call graph. Within a cluster, the branches of its named functions are
/// queued, and looked at from the front of the queue: a function literal has
/// its branches looked at first, and a recursive call whose signature is not
/// known yet makes its branch wait at the back of the queue; the second time,
/// the call is taken to diverge. A branch that is done gets its signature, and
/// its function's signature combines those of its branches that are done: an
/// unknown type in it is replaced by a known one that a later branch has at the
/// same position.
///
/// Requires that inference finishes: that everything an expression refers to
/// exists, that no expression is looked at twice, that `eval` finds a function
/// on the stack, and that the queue runs empty.
pub fn infer_types_with_host_functions(
    functions: &Functions,
    ordered_functions: &OrderedFunctions,
    host_functions: &Vec<HostFunction>,
) -> (r: Types)
    requires
        inference_succeeds(
            functions.deep_view(),
            ordered_functions.clusters.deep_view(),
            host_functions.deep_view(),
        ),
    ensures
        r.deep_view() == spec_infer_types(
            functions.deep_view(),
            ordered_functions.clusters.deep_view(),
            host_functions.deep_view(),
        ),
{
    let ghost fs = functions.deep_view();
    let ghost hf = host_functions.deep_view();
    let ghost clusters = ordered_functions.clusters.deep_view();
    let ghost fuel = choose|fuel: nat| #[trigger] run_clusters(fs, clusters, hf, fuel) is Some;
    let mut types = Types::new();
    let ghost mut left: nat = fuel;
    let n = ordered_functions.clusters.len();
    let mut c: usize = 0;
    assert(clusters.take(0) =~= Seq::<ClusterView>::empty());
    while c < n
        invariant
            n == clusters.len(),
            c <= n,
            fs == functions.deep_view(),
            hf == host_functions.deep_view(),
            clusters == ordered_functions.clusters.deep_view(),
            run_clusters(fs, clusters, hf, fuel) is Some,
            run_clusters(fs, clusters.take(c as int), hf, fuel) == Some((types.deep_view(), left)),
        decreases n - c,
    {
        proof {
            lemma_run_clusters_prefix(fs, clusters, hf, fuel, c + 1);
            assert(clusters.take(c + 1).drop_last() =~= clusters.take(c as int));
            assert(clusters.take(c + 1).last() == clusters[c as int]);
        }
        let cluster = &ordered_functions.clusters[c];
        let ghost goal = run_clusters(fs, clusters.take(c + 1), hf, fuel);
        let mut queue = queue_cluster(functions, cluster, &mut types);
        while queue.len() > 0
            invariant
                fs == functions.deep_view(),
                hf == host_functions.deep_view(),
                goal is Some,
                run_queue(items_view(queue@), cluster.functions@, fs, hf, types.deep_view(), left) == goal,
            decreases left,
        {
            let ghost before = queue@;
            let item = queue.pop_front().unwrap();
            proof {
                assert(items_view(before)[0] == item_view(item));
                assert(items_view(queue@) =~= items_view(before).drop_first());
            }
            infer_types_in_branch(item, cluster, functions, host_functions, &mut queue, &mut types);
            proof {
                left = (left - 1) as nat;
            }
        }
        proof {
            assert(items_view(queue@).len() == 0);
        }
        c = c + 1;
    }
    assert(clusters.take(n as int) =~= clusters);
    types
}

/// # Infer the types of the expressions, branches and named functions
///
/// The host is asked for its functions once; see
/// [`infer_types_with_host_functions`] for what follows from them.
pub fn infer_types(functions: &Functions, ordered_functions: &OrderedFunctions, host: &impl Host) -> (r: Types)
    requires
        inference_succeeds(functions.deep_view(), ordered_functions.clusters.deep_view(), host.spec_functions()),
    ensures
        r.deep_view() == spec_infer_types(
            functions.deep_view(),
            ordered_functions.clusters.deep_view(),
            host.spec_functions(),
        ),
{
    let host_functions = host.functions();
    infer_types_with_host_functions(functions, ordered_functions, &host_functions)
}

} // verus!
